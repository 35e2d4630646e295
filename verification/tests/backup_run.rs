use draupnir::backup::{BackupRun, Op, Outcome};
use draupnir::config::Config;
use draupnir::walk::{EntryKind, FailureKind};

fn config() -> Config {
    Config {
        uuid: "u".to_string(),
        mountpoint: "/mnt/b".to_string(),
        destination: "/mnt/b/arch".to_string(),
        age_pubkey: age::x25519::Identity::generate().to_public().to_string(),
        keep: 1,
        sources: vec!["/src".to_string(), "/etc/hosts".to_string()],
        threshold_days: 7,
        exclude: vec![".cache".to_string()],
        compression_level: 3,
    }
}

const PART: &str = "/mnt/b/arch/backup-00000000000000001000.tar.zst.age.part";
const FINAL: &str = "/mnt/b/arch/backup-00000000000000001000.tar.zst.age";

fn started() -> BackupRun {
    let cfg = config();
    let (run, op) = BackupRun::new(&cfg);
    assert!(matches!(op, Op::ReadClock));
    let (run, op) = run.step(Outcome::Clock(Some(1000)));
    assert!(matches!(op, Op::CreateDirAll(ref p) if p == "/mnt/b/arch"));
    let (run, op) = run.step(Outcome::Done);
    assert!(matches!(op, Op::CreateFile(ref p) if p == PART));
    assert!(run.partial_archive().is_none());
    let (run, op) = run.step(Outcome::Done);
    match &op {
        Op::StartEncryption(key) => {
            assert_eq!(key.text(), &cfg.age_pubkey);
            assert_eq!(key.recipient().to_string(), cfg.age_pubkey);
        }
        _ => panic!("the run should start encryption"),
    }
    assert_eq!(run.partial_archive(), Some(PART.to_string()));
    let (run, op) = run.step(Outcome::Done);
    assert!(matches!(op, Op::WrapOutput));
    let (run, op) = run.step(Outcome::Done);
    assert!(matches!(op, Op::StartCompression(3)));
    let (run, op) = run.step(Outcome::Done);
    assert!(matches!(op, Op::SymlinkMetadata(ref p) if p == "/src"));
    run
}

fn finished_err(op: Op) -> Vec<String> {
    match op {
        Op::Finish(Err(c)) => c,
        _ => panic!("the run should have failed"),
    }
}

#[test]
fn full_run_in_order() {
    let run = started();
    let (run, op) = run.step(Outcome::Metadata(EntryKind::Dir));
    assert!(matches!(op, Op::ReadDir(ref p) if p == "/src"));
    let (run, op) = run.step(Outcome::Done);
    assert!(matches!(op, Op::NextEntry));
    let (run, op) = run.step(Outcome::Entry("a.txt".to_string()));
    assert!(matches!(op, Op::SymlinkMetadata(ref p) if p == "/src/a.txt"));
    let (run, op) = run.step(Outcome::Metadata(EntryKind::File));
    assert!(matches!(op, Op::OpenFile(ref p) if p == "/src/a.txt"));
    let (run, op) = run.step(Outcome::Done);
    assert!(matches!(op, Op::AppendFile(ref a) if a == "src/a.txt"));
    let (run, op) = run.step(Outcome::Done);
    assert!(matches!(op, Op::NextEntry));
    // an excluded directory is passed over
    let (run, op) = run.step(Outcome::Entry(".cache".to_string()));
    assert!(matches!(op, Op::SymlinkMetadata(ref p) if p == "/src/.cache"));
    let (run, op) = run.step(Outcome::Metadata(EntryKind::Dir));
    assert!(matches!(op, Op::NextEntry));
    let (run, op) = run.step(Outcome::Entry("sub".to_string()));
    let (run, op2) = run.step(Outcome::Metadata(EntryKind::Dir));
    assert!(matches!(op, Op::SymlinkMetadata(_)));
    assert!(matches!(op2, Op::AppendDir { ref archive_path, ref path } if archive_path == "src/sub" && path == "/src/sub"));
    let (run, op) = run.step(Outcome::Done);
    assert!(matches!(op, Op::ReadDir(ref p) if p == "/src/sub"));
    let (run, op) = run.step(Outcome::Done);
    assert!(matches!(op, Op::NextEntry));
    let (run, op) = run.step(Outcome::Entry("link".to_string()));
    assert!(matches!(op, Op::SymlinkMetadata(ref p) if p == "/src/sub/link"));
    let (run, op) = run.step(Outcome::Metadata(EntryKind::Symlink));
    assert!(matches!(op, Op::AppendLink { ref path, ref archive_path } if path == "/src/sub/link" && archive_path == "src/sub/link"));
    let (run, _) = run.step(Outcome::Done);
    // an entry that may not be read is passed over
    let (run, op) = run.step(Outcome::Entry("secret".to_string()));
    assert!(matches!(op, Op::SymlinkMetadata(_)));
    let (run, op) = run.step(Outcome::Failed(FailureKind::PermissionDenied));
    assert!(matches!(op, Op::NextEntry));
    let (run, op) = run.step(Outcome::NoMoreEntries);
    assert!(matches!(op, Op::NextEntry));
    let (run, op) = run.step(Outcome::NoMoreEntries);
    assert!(matches!(op, Op::SymlinkMetadata(ref p) if p == "/etc/hosts"));
    let (run, op) = run.step(Outcome::Metadata(EntryKind::File));
    assert!(matches!(op, Op::OpenFile(ref p) if p == "/etc/hosts"));
    let (run, op) = run.step(Outcome::Done);
    assert!(matches!(op, Op::AppendFile(ref a) if a == "etc/hosts"));
    let (run, op) = run.step(Outcome::Done);
    assert!(matches!(op, Op::FinishTar));
    let (run, op) = run.step(Outcome::Done);
    assert!(matches!(op, Op::FinishCompression));
    let (run, op) = run.step(Outcome::Done);
    assert!(matches!(op, Op::FinishEncryption));
    let (run, op) = run.step(Outcome::Done);
    assert!(matches!(op, Op::SyncFile));
    let (run, op) = run.step(Outcome::Done);
    assert!(matches!(op, Op::Rename { ref from, ref to } if from == PART && to == FINAL));
    assert!(run.partial_archive().is_some());
    let (run, op) = run.step(Outcome::Done);
    assert!(matches!(op, Op::SyncDir(ref p) if p == "/mnt/b/arch"));
    assert!(run.partial_archive().is_none());
    let (run, op) = run.step(Outcome::Done);
    assert!(matches!(op, Op::ListDir(ref p) if p == "/mnt/b/arch"));
    let listing = vec![
        "backup-00000000000000000500.tar.zst.age".to_string(),
        "backup-00000000000000001000.tar.zst.age".to_string(),
        "lost+found".to_string(),
    ];
    let (run, op) = run.step(Outcome::Listing(listing));
    assert!(matches!(op, Op::RemoveFile(ref p) if p == "/mnt/b/arch/backup-00000000000000000500.tar.zst.age"));
    let (run, op) = run.step(Outcome::Done);
    assert!(matches!(op, Op::CreateDirAll(ref p) if p == "/var/lib/draupnir"));
    let (run, op) = run.step(Outcome::Done);
    assert!(matches!(op, Op::OpenStateFile(ref p) if p == "/var/lib/draupnir/last-backup.part"));
    let (run, op) = run.step(Outcome::Done);
    assert!(matches!(op, Op::WriteStateFile(ref t) if t == "1000\n"));
    let (run, op) = run.step(Outcome::Done);
    assert!(matches!(op, Op::SyncStateFile));
    let (run, op) = run.step(Outcome::Done);
    assert!(matches!(op, Op::Rename { ref from, ref to } if from == "/var/lib/draupnir/last-backup.part" && to == "/var/lib/draupnir/last-backup"));
    let (run, op) = run.step(Outcome::Done);
    assert!(matches!(op, Op::OpenStateFile(ref p) if p == "/var/lib/draupnir/threshold-days.part"));
    let (run, op) = run.step(Outcome::Done);
    assert!(matches!(op, Op::WriteStateFile(ref t) if t == "7\n"));
    let (run, _) = run.step(Outcome::Done);
    let (run, op) = run.step(Outcome::Done);
    assert!(matches!(op, Op::Rename { ref to, .. } if to == "/var/lib/draupnir/threshold-days"));
    let (run, op) = run.step(Outcome::Done);
    assert!(matches!(op, Op::Finish(Ok(ref n)) if n == "backup-00000000000000001000.tar.zst.age"));
    // a finished run stays finished
    let (_, op) = run.step(Outcome::Done);
    assert!(matches!(op, Op::Finish(Ok(_))));
}

#[test]
fn clock_before_epoch_fails() {
    let (run, _) = BackupRun::new(&config());
    let (run, op) = run.step(Outcome::Clock(None));
    assert_eq!(
        finished_err(op),
        vec!["system clock is before the Unix epoch, refusing to name an archive".to_string()]
    );
    assert!(run.partial_archive().is_none());
}

#[test]
fn bad_key_fails_before_any_file() {
    let mut c = config();
    c.age_pubkey = "age1nope".to_string();
    let (run, _) = BackupRun::new(&c);
    let (_, op) = run.step(Outcome::Clock(Some(5)));
    assert_eq!(
        finished_err(op),
        vec!["invalid Bech32 encoding".to_string(), "parsing age recipient public key".to_string()]
    );
}

#[test]
fn failure_while_building_leaves_partial_archive() {
    let run = started();
    let (run, _) = run.step(Outcome::Metadata(EntryKind::Dir));
    let (run, _) = run.step(Outcome::Done);
    let (run, _) = run.step(Outcome::Entry("a.txt".to_string()));
    let (run, _) = run.step(Outcome::Metadata(EntryKind::File));
    let (run, _) = run.step(Outcome::Done);
    let (run, op) = run.step(Outcome::Failed(FailureKind::Other));
    assert_eq!(
        finished_err(op),
        vec!["adding src/a.txt to archive".to_string(), "archiving /src".to_string()]
    );
    assert_eq!(run.partial_archive(), Some(PART.to_string()));
}

#[test]
fn denied_source_stat_fails() {
    let run = started();
    let (_, op) = run.step(Outcome::Failed(FailureKind::PermissionDenied));
    assert_eq!(finished_err(op), vec!["stat /src".to_string()]);
}

#[test]
fn unreadable_source_directory_is_skipped() {
    let run = started();
    let (run, _) = run.step(Outcome::Metadata(EntryKind::Dir));
    let (_, op) = run.step(Outcome::Failed(FailureKind::PermissionDenied));
    assert!(matches!(op, Op::SymlinkMetadata(ref p) if p == "/etc/hosts"));
}

#[test]
fn unreadable_entry_list_fails_otherwise() {
    let run = started();
    let (run, _) = run.step(Outcome::Metadata(EntryKind::Dir));
    let (run, _) = run.step(Outcome::Done);
    let (_, op) = run.step(Outcome::Failed(FailureKind::Other));
    assert_eq!(
        finished_err(op),
        vec!["reading entry in /src".to_string(), "archiving /src".to_string()]
    );
}

#[test]
fn part_file_failure_leaves_nothing() {
    let (run, _) = BackupRun::new(&config());
    let (run, _) = run.step(Outcome::Clock(Some(1000)));
    let (run, _) = run.step(Outcome::Done);
    let (run, op) = run.step(Outcome::Failed(FailureKind::Other));
    assert_eq!(finished_err(op), vec!["creating .part file".to_string()]);
    assert!(run.partial_archive().is_none());
}

#[test]
fn other_source_kinds_are_skipped() {
    let run = started();
    let (_, op) = run.step(Outcome::Metadata(EntryKind::Other));
    assert!(matches!(op, Op::SymlinkMetadata(ref p) if p == "/etc/hosts"));
}

#[test]
fn failed_rotation_keeps_state_files() {
    let mut c = config();
    c.sources = vec!["/etc/hosts".to_string()];
    let (run, _) = BackupRun::new(&c);
    let mut run = run;
    for o in [
        Outcome::Clock(Some(1000)),
        Outcome::Done,
        Outcome::Done,
        Outcome::Done,
        Outcome::Done,
        Outcome::Done,
        Outcome::Metadata(EntryKind::File),
        Outcome::Done,
        Outcome::Done,
        Outcome::Done,
        Outcome::Done,
        Outcome::Done,
        Outcome::Done,
        Outcome::Done,
        Outcome::Done,
    ] {
        run = run.step(o).0;
    }
    let listing = vec![
        "backup-00000000000000000500.tar.zst.age".to_string(),
        "backup-00000000000000001000.tar.zst.age".to_string(),
    ];
    let (run, op) = run.step(Outcome::Listing(listing));
    assert!(matches!(op, Op::RemoveFile(_)));
    let (mut run, op) = run.step(Outcome::Failed(FailureKind::Other));
    assert_eq!(
        finished_err(op),
        vec![
            "deleting old archive /mnt/b/arch/backup-00000000000000000500.tar.zst.age".to_string(),
            "rotating old archives".to_string()
        ]
    );
    for _ in 0..5 {
        let (r, op) = run.step(Outcome::Done);
        assert!(matches!(op, Op::Finish(Err(_))));
        run = r;
    }
}
