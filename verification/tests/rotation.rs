use draupnir::archives::{archive_file_name, is_archive_file_name, part_file_name, select_for_deletion};
use draupnir::text::chars_of;

fn names(v: &[&str]) -> Vec<String> {
    v.iter().map(|s| s.to_string()).collect()
}

#[test]
fn archive_names_are_zero_padded() {
    assert_eq!(archive_file_name(0), "backup-00000000000000000000.tar.zst.age");
    assert_eq!(archive_file_name(1_700_000_000), "backup-00000000001700000000.tar.zst.age");
    assert_eq!(archive_file_name(u64::MAX), "backup-18446744073709551615.tar.zst.age");
    assert_eq!(part_file_name(42), "backup-00000000000000000042.tar.zst.age.part");
}

#[test]
fn archive_names_recognised() {
    assert!(is_archive_file_name(&chars_of(&archive_file_name(7))));
    assert!(!is_archive_file_name(&chars_of(&part_file_name(7))));
    assert!(!is_archive_file_name(&chars_of("notes.txt")));
    assert!(!is_archive_file_name(&chars_of("backup-.tar.zst")));
    assert!(is_archive_file_name(&chars_of("backup-.tar.zst.age")));
}

#[test]
fn archive_names_sort_by_time() {
    let mut ts = [5u64, 1_700_000_000, 99, 10, 9, u64::MAX, 0];
    let mut by_name: Vec<String> = ts.iter().map(|t| archive_file_name(*t)).collect();
    by_name.sort();
    ts.sort();
    let by_time: Vec<String> = ts.iter().map(|t| archive_file_name(*t)).collect();
    assert_eq!(by_name, by_time);
}

#[test]
fn rotation_deletes_oldest_archives_only() {
    let dir = names(&[
        "backup-00000000000000000300.tar.zst.age",
        "notes.txt",
        "backup-00000000000000000100.tar.zst.age",
        "backup-00000000000000000400.tar.zst.age.part",
        "backup-00000000000000000200.tar.zst.age",
        "backup-00000000000000000400.tar.zst.age",
    ]);
    assert_eq!(
        select_for_deletion(&dir, 2),
        names(&["backup-00000000000000000100.tar.zst.age", "backup-00000000000000000200.tar.zst.age"])
    );
    assert_eq!(
        select_for_deletion(&dir, 1),
        names(&[
            "backup-00000000000000000100.tar.zst.age",
            "backup-00000000000000000200.tar.zst.age",
            "backup-00000000000000000300.tar.zst.age",
        ])
    );
}

#[test]
fn rotation_keeps_all_when_few() {
    let dir = names(&["backup-1.tar.zst.age", "backup-2.tar.zst.age"]);
    assert!(select_for_deletion(&dir, 2).is_empty());
    assert!(select_for_deletion(&dir, 5).is_empty());
    assert!(select_for_deletion(&Vec::new(), 1).is_empty());
}

#[test]
fn rotation_with_keep_zero_deletes_every_archive() {
    let dir = names(&["backup-b.tar.zst.age", "x", "backup-a.tar.zst.age"]);
    assert_eq!(select_for_deletion(&dir, 0), names(&["backup-a.tar.zst.age", "backup-b.tar.zst.age"]));
}

#[test]
fn newest_archive_survives_rotation() {
    let newest = archive_file_name(1_000);
    let dir = vec![archive_file_name(10), newest.clone(), archive_file_name(999), archive_file_name(5)];
    let gone = select_for_deletion(&dir, 1);
    assert_eq!(gone.len(), 3);
    assert!(!gone.contains(&newest));
}

#[test]
fn second_rotation_deletes_nothing() {
    let dir = names(&[
        "backup-00000000000000000300.tar.zst.age",
        "notes.txt",
        "backup-00000000000000000100.tar.zst.age",
        "backup-00000000000000000200.tar.zst.age",
        "backup-00000000000000000400.tar.zst.age.part",
        "backup-00000000000000000050.tar.zst.age",
    ]);
    for keep in [1usize, 2, 3, 4, 10] {
        let first = select_for_deletion(&dir, keep);
        let left: Vec<String> = dir.iter().filter(|n| !first.contains(n)).cloned().collect();
        assert!(select_for_deletion(&left, keep).is_empty(), "keep {keep}");
    }
    assert_eq!(select_for_deletion(&dir, 2).len(), 2);
}
