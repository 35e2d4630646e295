use draupnir::reminder::{last_backup_from, reminder_notice, state_file_contents, threshold_days_from, Urgency};

const DAY: u64 = 86400;

#[test]
fn never_backed_up() {
    let n = reminder_notice(1_000_000, None, 7);
    assert_eq!(n.message, "No backup has ever been performed.");
    assert_eq!(n.urgency, Urgency::Critical);
    assert_eq!(n.urgency.name(), "critical");
}

#[test]
fn recent_backup() {
    let now = 10 * DAY;
    let n = reminder_notice(now, Some(now - 5 * 3600 - 10), 7);
    assert_eq!(n.message, "Backup completed 5 hour(s) ago. Next due in 6 day(s).");
    assert_eq!(n.urgency, Urgency::Low);
    assert_eq!(n.urgency.name(), "low");
}

#[test]
fn backup_in_time() {
    let now = 100 * DAY;
    let n = reminder_notice(now, Some(now - 3 * DAY - 5), 7);
    assert_eq!(n.message, "Last backup 3 day(s) ago. Next due in 3 day(s).");
    assert_eq!(n.urgency, Urgency::Low);
}

#[test]
fn backup_overdue() {
    let now = 100 * DAY;
    let n = reminder_notice(now, Some(now - 10 * DAY), 7);
    assert_eq!(
        n.message,
        "Backup is 3 day(s) overdue (last: 10 day(s) ago). Please plug in your backup disk."
    );
    assert_eq!(n.urgency, Urgency::Critical);
}

#[test]
fn exactly_at_threshold_is_in_time() {
    let now = 100 * DAY;
    let n = reminder_notice(now, Some(now - 7 * DAY), 7);
    assert_eq!(n.message, "Last backup 7 day(s) ago. Next due in 0 day(s).");
    assert_eq!(n.urgency, Urgency::Low);
}

#[test]
fn backup_in_the_future_counts_as_just_now() {
    let n = reminder_notice(100, Some(5000), 1);
    assert_eq!(n.message, "Backup completed 0 hour(s) ago. Next due in 1 day(s).");
}

#[test]
fn threshold_of_less_than_a_day_after_a_day() {
    let now = 100 * DAY;
    let n = reminder_notice(now, Some(now - DAY), 0);
    assert_eq!(n.message, "Backup is 1 day(s) overdue (last: 1 day(s) ago). Please plug in your backup disk.");
}

#[test]
fn state_files_read_back() {
    for v in [0u64, 7, 1_700_000_000, u64::MAX] {
        let text = state_file_contents(v);
        assert_eq!(text, format!("{v}\n"));
        assert_eq!(last_backup_from(Some(text.clone())), Some(v));
        assert_eq!(threshold_days_from(Some(text)), v);
    }
}

#[test]
fn state_file_parsing() {
    assert_eq!(last_backup_from(None), None);
    assert_eq!(last_backup_from(Some("  42 \t\n".to_string())), Some(42));
    assert_eq!(last_backup_from(Some("+42".to_string())), Some(42));
    assert_eq!(last_backup_from(Some("-42".to_string())), None);
    assert_eq!(last_backup_from(Some("".to_string())), None);
    assert_eq!(last_backup_from(Some("4 2".to_string())), None);
    assert_eq!(last_backup_from(Some("18446744073709551616".to_string())), None);
    assert_eq!(last_backup_from(Some("\u{3000}7\u{a0}".to_string())), Some(7));
    assert_eq!(threshold_days_from(None), 7);
    assert_eq!(threshold_days_from(Some("soon".to_string())), 7);
    assert_eq!(threshold_days_from(Some("14\n".to_string())), 14);
}

#[test]
fn parsing_agrees_with_std() {
    for s in ["", "+", "0", "007", " 8", "9 ", "+1", "--1", "1_000", "18446744073709551615", "\u{85}3"] {
        let std = s.trim().parse::<u64>().ok();
        assert_eq!(last_backup_from(Some(s.to_string())), std, "input {s:?}");
    }
}
