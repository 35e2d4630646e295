use draupnir::backup::PartGuard;
use draupnir::device::{handle_device, DeviceOp, Mounted};
use draupnir::monitor::{
    check_root, decide_lock, decide_poll, judge_event, DeviceEvent, EventVerdict, LockAttempt,
    LockVerdict, PollReport, PollVerdict, Stop,
};
use draupnir::walk::{decide_entry, is_excluded, is_passed_over, EntryKind, EntryStep, FailureKind};

fn strs(v: &[&str]) -> Vec<String> {
    v.iter().map(|s| s.to_string()).collect()
}

#[test]
fn exclusion_by_any_component() {
    let ex = strs(&[".cache", "target/"]);
    assert!(is_excluded(&strs(&["home", ".cache", "x"]), &ex));
    assert!(is_excluded(&strs(&["proj", "target"]), &ex));
    assert!(!is_excluded(&strs(&["proj", "targets"]), &ex));
    assert!(!is_excluded(&strs(&[]), &ex));
    assert!(!is_excluded(&strs(&["a"]), &strs(&["a/b"])));
}

#[test]
fn entry_decisions() {
    let ex = strs(&["tmp"]);
    assert_eq!(decide_entry(&strs(&["a"]), &ex, EntryKind::Dir), EntryStep::AddDir);
    assert_eq!(decide_entry(&strs(&["a"]), &ex, EntryKind::File), EntryStep::AddFile);
    assert_eq!(decide_entry(&strs(&["a"]), &ex, EntryKind::Symlink), EntryStep::AddSymlink);
    assert_eq!(decide_entry(&strs(&["a"]), &ex, EntryKind::Other), EntryStep::Skip);
    assert_eq!(decide_entry(&strs(&["tmp", "a"]), &ex, EntryKind::File), EntryStep::Skip);
    assert!(is_passed_over(FailureKind::PermissionDenied));
    assert!(!is_passed_over(FailureKind::Other));
}

#[test]
fn part_guard_disarms() {
    let mut g = PartGuard::new("/x.part".to_string());
    assert_eq!(g.armed_path(), Some("/x.part".to_string()));
    g.disarm();
    assert_eq!(g.armed_path(), None);
}

#[test]
fn mounted_unmounts_once() {
    let mut m = Mounted::new("/mnt".to_string());
    assert_eq!(m.unmount(), Some("/mnt".to_string()));
    assert_eq!(m.unmount(), None);
}

#[test]
fn device_success_path() {
    let (run, op) = handle_device(&"/dev/sdb1".to_string(), &"/mnt/b".to_string());
    assert!(matches!(op, DeviceOp::CreateDirAll(ref p) if p == "/mnt/b"));
    let (run, op) = run.step(true);
    assert!(matches!(op, DeviceOp::Mount { ref device, ref mountpoint } if device == "/dev/sdb1" && mountpoint == "/mnt/b"));
    let (run, op) = run.step(true);
    assert!(matches!(op, DeviceOp::RunBackup));
    let (run, op) = run.step(true);
    assert!(matches!(op, DeviceOp::Unmount(ref p) if p == "/mnt/b"));
    let (_, op) = run.step(true);
    assert!(matches!(op, DeviceOp::Finish(Ok(()))));
}

#[test]
fn device_backup_failure_releases_disk() {
    let (run, _) = handle_device(&"/dev/sdb1".to_string(), &"/mnt/b".to_string());
    let (run, _) = run.step(true);
    let (run, _) = run.step(true);
    let (run, op) = run.step(false);
    assert!(matches!(op, DeviceOp::ReleaseUnmount(ref p) if p == "/mnt/b"));
    let (run, op) = run.step(false);
    assert!(matches!(op, DeviceOp::DetachUnmount(ref p) if p == "/mnt/b"));
    let (_, op) = run.step(false);
    assert!(matches!(op, DeviceOp::Finish(Err(ref c)) if c == &strs(&["running backup"])));
}

#[test]
fn device_mount_failures() {
    let (run, _) = handle_device(&"/dev/sdb1".to_string(), &"/mnt/b".to_string());
    let (_, op) = run.step(false);
    assert!(matches!(op, DeviceOp::Finish(Err(ref c)) if c == &strs(&["creating mountpoint /mnt/b", "mounting backup disk"])));
    let (run, _) = handle_device(&"/dev/sdb1".to_string(), &"/mnt/b".to_string());
    let (run, _) = run.step(true);
    let (_, op) = run.step(false);
    assert!(matches!(op, DeviceOp::Finish(Err(ref c)) if c == &strs(&["mounting /dev/sdb1 on /mnt/b", "mounting backup disk"])));
}

#[test]
fn device_unmount_failure_reported() {
    let (run, _) = handle_device(&"/dev/sdb1".to_string(), &"/mnt/b".to_string());
    let (run, _) = run.step(true);
    let (run, _) = run.step(true);
    let (run, _) = run.step(true);
    let (_, op) = run.step(false);
    assert!(matches!(op, DeviceOp::Finish(Err(ref c)) if c == &strs(&["unmounting /mnt/b", "unmounting backup disk"])));
}

#[test]
fn daemon_decisions() {
    assert_eq!(check_root(true), Ok(()));
    assert_eq!(check_root(false), Err(Stop::NotRoot));
    assert_eq!(Stop::NotRoot.message(), "draupnir must run as root");
    assert_eq!(decide_lock(LockAttempt::Acquired), LockVerdict::Proceed);
    assert_eq!(decide_lock(LockAttempt::WouldBlock), LockVerdict::ExitQuietly);
    assert_eq!(decide_lock(LockAttempt::Failed), LockVerdict::Stop(Stop::LockFailed));
    assert_eq!(decide_lock(LockAttempt::OpenFailed), LockVerdict::Stop(Stop::LockFileUnopened));
    let quiet = PollReport { interrupted: false, failed: false, flags_known: true, error: false, readable: true };
    assert_eq!(decide_poll(quiet), PollVerdict::Drain);
    assert_eq!(decide_poll(PollReport { readable: false, ..quiet }), PollVerdict::PollAgain);
    assert_eq!(decide_poll(PollReport { interrupted: true, failed: true, ..quiet }), PollVerdict::PollAgain);
    assert_eq!(decide_poll(PollReport { failed: true, ..quiet }), PollVerdict::Stop(Stop::PollFailed));
    assert_eq!(decide_poll(PollReport { flags_known: false, ..quiet }), PollVerdict::Stop(Stop::UnknownPollFlags));
    assert_eq!(decide_poll(PollReport { error: true, ..quiet }), PollVerdict::Stop(Stop::SocketError));
}

#[test]
fn event_judgement() {
    let uuid = "abcd".to_string();
    let e = DeviceEvent { added: true, fs_uuid: Some("abcd".to_string()), devnode: Some("/dev/sdc1".to_string()) };
    assert!(matches!(judge_event(&e, &uuid), EventVerdict::Device(ref d) if d == "/dev/sdc1"));
    let e = DeviceEvent { added: true, fs_uuid: Some("abcd".to_string()), devnode: None };
    assert!(matches!(judge_event(&e, &uuid), EventVerdict::NoDevnode));
    let e = DeviceEvent { added: false, fs_uuid: Some("abcd".to_string()), devnode: Some("/dev/sdc1".to_string()) };
    assert!(matches!(judge_event(&e, &uuid), EventVerdict::Ignore));
    let e = DeviceEvent { added: true, fs_uuid: Some("abce".to_string()), devnode: Some("/dev/sdc1".to_string()) };
    assert!(matches!(judge_event(&e, &uuid), EventVerdict::Ignore));
    let e = DeviceEvent { added: true, fs_uuid: None, devnode: Some("/dev/sdc1".to_string()) };
    assert!(matches!(judge_event(&e, &uuid), EventVerdict::Ignore));
}
