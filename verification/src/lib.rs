//! A backup daemon's logic: the configuration's rules, archive naming and rotation, the walk
//! below the sources, the steps of a backup run and of handling the backup disk, and the
//! reminder that reports how long ago the last backup ran.
pub mod archives;
pub mod backup;
pub mod config;
pub mod device;
pub mod history;
pub mod monitor;
pub mod pathname;
pub mod reminder;
pub mod text;
pub mod walk;
