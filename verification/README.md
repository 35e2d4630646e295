# draupnir

A backup daemon for a removable disk. When the disk with the configured file-system UUID
appears, the daemon mounts it, writes one encrypted archive (tar, then zstd, then age) of the
configured sources into the destination directory, keeps only the newest archives, records
when the backup ran and unmounts the disk. A second program, `draupnir-reminder`, reports how
long ago the last backup ran.

## Layout

- `src/` is the verified library:
  - `config.rs`: the configuration and the rules it must meet, with their messages;
  - `pathname.rs`: Unix paths read as components, prefixes and joins;
  - `archives.rs`: archive names and the rotation that keeps the newest archives;
  - `walk.rs`: what the walk below a directory source does with each entry;
  - `backup.rs`: a backup run as a state machine from outcomes to the next operation;
  - `history.rs`: whole runs, as the states a run passes through for given outcomes;
  - `device.rs`: handling the disk (mount, back up, unmount) as a state machine;
  - `monitor.rs`: the daemon's decisions on startup, the lock and device events;
  - `reminder.rs`: the reminder's notice and the state files it reads;
  - `text.rs`: characters, decimal numbers and whitespace.
- `app/` is the program around it: it reads the configuration file, performs the operations
  the state machines ask for (files, age, zstd, tar, mounting, udev) and hands back what
  came of them.
- `tests/` runs the library on concrete values.
