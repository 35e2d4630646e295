//! The daemon's decisions while it waits for the backup disk: who may run it, whether
//! another instance holds the lock, what a poll of the device-event socket means, and which
//! device events announce the backup disk.
use vstd::prelude::*;

use crate::text::{chars_eq, chars_of};

verus! {

/// Why the daemon stops.
#[derive(Debug, Clone, Copy, PartialEq, Eq, Structural)]
pub enum Stop {
    /// It does not run as root.
    NotRoot,
    /// Opening the lock file failed.
    LockFileUnopened,
    /// Taking the lock failed for another reason than another instance holding it.
    LockFailed,
    /// Polling the socket failed.
    PollFailed,
    /// The poll reported flags the daemon does not know.
    UnknownPollFlags,
    /// The poll reported an error, an invalid descriptor or a hang-up on the socket.
    SocketError,
}

/// The message the daemon stops with.
pub open spec fn stop_message(s: Stop) -> Seq<char> {
    match s {
        Stop::NotRoot => "draupnir must run as root"@,
        Stop::LockFileUnopened => "opening lock file /run/draupnir.lock"@,
        Stop::LockFailed => "acquiring flock on /run/draupnir.lock"@,
        Stop::PollFailed => "polling udev monitor socket"@,
        Stop::UnknownPollFlags => "poll returned unknown event flags on udev socket"@,
        Stop::SocketError => "udev monitor socket error"@,
    }
}

impl Stop {
    /// The message the daemon stops with (the socket error's flags are added to it by the
    /// caller).
    pub fn message(&self) -> (s: String)
        ensures
            s@ == stop_message(*self),
    {
        match self {
            Stop::NotRoot => "draupnir must run as root".to_string(),
            Stop::LockFileUnopened => "opening lock file /run/draupnir.lock".to_string(),
            Stop::LockFailed => "acquiring flock on /run/draupnir.lock".to_string(),
            Stop::PollFailed => "polling udev monitor socket".to_string(),
            Stop::UnknownPollFlags => "poll returned unknown event flags on udev socket".to_string(),
            Stop::SocketError => "udev monitor socket error".to_string(),
        }
    }
}

/// Whether the daemon may start, given whether it runs as root.
pub fn check_root(is_root: bool) -> (r: Result<(), Stop>)
    ensures
        r == (if is_root {
            Ok::<(), Stop>(())
        } else {
            Err(Stop::NotRoot)
        }),
{
    if is_root {
        Ok(())
    } else {
        Err(Stop::NotRoot)
    }
}

/// What trying to take the exclusive lock gave.
#[derive(Debug, Clone, Copy, PartialEq, Eq, Structural)]
pub enum LockAttempt {
    /// The lock file could not be opened.
    OpenFailed,
    /// The lock is taken.
    Acquired,
    /// Another process holds the lock (the call would block).
    WouldBlock,
    /// Locking failed otherwise.
    Failed,
}

/// What the daemon does after trying to take the lock.
#[derive(Debug, Clone, Copy, PartialEq, Eq, Structural)]
pub enum LockVerdict {
    /// Go on, holding the lock.
    Proceed,
    /// Another instance runs: exit quietly, successfully.
    ExitQuietly,
    /// Stop with an error.
    Stop(Stop),
}

/// What the daemon does after trying to take the lock.
pub open spec fn lock_verdict(a: LockAttempt) -> LockVerdict {
    match a {
        LockAttempt::OpenFailed => LockVerdict::Stop(Stop::LockFileUnopened),
        LockAttempt::Acquired => LockVerdict::Proceed,
        LockAttempt::WouldBlock => LockVerdict::ExitQuietly,
        LockAttempt::Failed => LockVerdict::Stop(Stop::LockFailed),
    }
}

/// What the daemon does after trying to take the lock.
pub fn decide_lock(a: LockAttempt) -> (v: LockVerdict)
    ensures
        v == lock_verdict(a),
{
    match a {
        LockAttempt::OpenFailed => LockVerdict::Stop(Stop::LockFileUnopened),
        LockAttempt::Acquired => LockVerdict::Proceed,
        LockAttempt::WouldBlock => LockVerdict::ExitQuietly,
        LockAttempt::Failed => LockVerdict::Stop(Stop::LockFailed),
    }
}

/// What a poll of the device-event socket returned.
#[derive(Debug, Clone, Copy, PartialEq, Eq, Structural)]
pub struct PollReport {
    /// The poll was interrupted by a signal.
    pub interrupted: bool,
    /// The poll failed otherwise.
    pub failed: bool,
    /// The returned event flags are all known ones.
    pub flags_known: bool,
    /// The flags include an error, an invalid descriptor or a hang-up.
    pub error: bool,
    /// The flags include readable data.
    pub readable: bool,
}

/// What the daemon does after a poll.
#[derive(Debug, Clone, Copy, PartialEq, Eq, Structural)]
pub enum PollVerdict {
    /// Poll again.
    PollAgain,
    /// Read every pending event from the socket.
    Drain,
    /// Stop with an error.
    Stop(Stop),
}

/// What the daemon does after a poll: a signal means polling again; failures, unknown flags
/// and error flags stop it; only readable data is drained.
pub open spec fn poll_verdict(p: PollReport) -> PollVerdict {
    if p.interrupted {
        PollVerdict::PollAgain
    } else if p.failed {
        PollVerdict::Stop(Stop::PollFailed)
    } else if !p.flags_known {
        PollVerdict::Stop(Stop::UnknownPollFlags)
    } else if p.error {
        PollVerdict::Stop(Stop::SocketError)
    } else if !p.readable {
        PollVerdict::PollAgain
    } else {
        PollVerdict::Drain
    }
}

/// What the daemon does after a poll.
pub fn decide_poll(p: PollReport) -> (v: PollVerdict)
    ensures
        v == poll_verdict(p),
{
    if p.interrupted {
        PollVerdict::PollAgain
    } else if p.failed {
        PollVerdict::Stop(Stop::PollFailed)
    } else if !p.flags_known {
        PollVerdict::Stop(Stop::UnknownPollFlags)
    } else if p.error {
        PollVerdict::Stop(Stop::SocketError)
    } else if !p.readable {
        PollVerdict::PollAgain
    } else {
        PollVerdict::Drain
    }
}

/// A device event, as far as the daemon reads it.
pub struct DeviceEvent {
    /// Whether a device was added.
    pub added: bool,
    /// The file-system UUID the event reports, if any.
    pub fs_uuid: Option<String>,
    /// The device node, if any.
    pub devnode: Option<String>,
}

/// What the daemon makes of a device event.
pub enum EventVerdict {
    /// It does not announce the backup disk.
    Ignore,
    /// It announces the backup disk but names no device node (worth a warning).
    NoDevnode,
    /// It announces the backup disk at this device node.
    Device(String),
}

/// Whether an event announces the disk with the file-system UUID `uuid`.
pub open spec fn announces(added: bool, fs_uuid: Option<Seq<char>>, uuid: Seq<char>) -> bool {
    added && fs_uuid == Some(uuid)
}

fn same_text(a: &String, b: &String) -> (r: bool)
    ensures
        r == (a@ == b@),
{
    let x = chars_of(a.as_str());
    let y = chars_of(b.as_str());
    chars_eq(&x, &y)
}

/// What the daemon makes of a device event, given the backup disk's file-system UUID.
pub fn judge_event(e: &DeviceEvent, uuid: &String) -> (v: EventVerdict)
    ensures
        match v {
            EventVerdict::Ignore => !announces(
                e.added,
                match &e.fs_uuid {
                    Some(u) => Some(u@),
                    None => None,
                },
                uuid@,
            ),
            EventVerdict::NoDevnode => announces(
                e.added,
                match &e.fs_uuid {
                    Some(u) => Some(u@),
                    None => None,
                },
                uuid@,
            ) && e.devnode is None,
            EventVerdict::Device(d) => announces(
                e.added,
                match &e.fs_uuid {
                    Some(u) => Some(u@),
                    None => None,
                },
                uuid@,
            ) && (e.devnode matches Some(n) && n@ == d@),
        },
{
    if !e.added {
        return EventVerdict::Ignore;
    }
    match &e.fs_uuid {
        None => EventVerdict::Ignore,
        Some(u) => if !same_text(u, uuid) {
            EventVerdict::Ignore
        } else {
            match &e.devnode {
                Some(d) => EventVerdict::Device(d.clone()),
                None => EventVerdict::NoDevnode,
            }
        },
    }
}

} // verus!
