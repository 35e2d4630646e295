//! The reminder: how long ago the last backup ran, and what the user is told about it.
use vstd::prelude::*;

use crate::text::{
    chars_of, decimal, is_digit, lemma_decimal_digits, leading_ws, parse_u64, parse_u64_chars,
    push_char, push_decimal, trailing_ws, trim_chars, trimmed, without_plus,
};

verus! {

/// Seconds in a day.
pub const SECS_PER_DAY: u64 = 86400;

/// Seconds in an hour.
pub const SECS_PER_HOUR: u64 = 3600;

/// The threshold, in days, used when none was recorded.
pub const DEFAULT_THRESHOLD_DAYS: u64 = 7;

/// How urgent a notification is.
#[derive(Debug, Clone, Copy, PartialEq, Eq, Structural)]
pub enum Urgency {
    Low,
    Critical,
}

impl Urgency {
    /// The urgency as the notification tool names it.
    pub fn name(&self) -> (s: &'static str)
        ensures
            s@ == urgency_name(*self),
    {
        match self {
            Urgency::Low => "low",
            Urgency::Critical => "critical",
        }
    }
}

/// The name of an urgency.
pub open spec fn urgency_name(u: Urgency) -> Seq<char> {
    match u {
        Urgency::Low => "low"@,
        Urgency::Critical => "critical"@,
    }
}

/// What the reminder tells the user.
#[derive(Debug, Clone, PartialEq, Eq)]
pub struct Notice {
    pub message: String,
    pub urgency: Urgency,
}

/// `a - b`, or zero when `b > a`.
pub open spec fn saturating_sub(a: u64, b: u64) -> u64 {
    if a >= b {
        (a - b) as u64
    } else {
        0
    }
}

/// How the reminder judges a last backup made at `last`, at time `now`, with a threshold of
/// `threshold_days` days.
pub enum Standing {
    /// Less than a day ago.
    Recent,
    /// Longer ago than the threshold.
    Overdue,
    /// Neither.
    InTime,
}

/// The standing of a backup `elapsed` seconds old, with a threshold of `threshold_secs`.
pub open spec fn standing(elapsed: u64, threshold_secs: u64) -> Standing {
    if elapsed < SECS_PER_DAY {
        Standing::Recent
    } else if elapsed > threshold_secs {
        Standing::Overdue
    } else {
        Standing::InTime
    }
}

/// The message and urgency of the reminder at `now`, for a last backup at `last` (`None` when
/// none was ever recorded) and a threshold of `threshold_days` days.
pub open spec fn reminder(now: u64, last: Option<u64>, threshold_days: u64) -> (Seq<char>, Urgency) {
    match last {
        None => ("No backup has ever been performed."@, Urgency::Critical),
        Some(ts) => {
            let threshold_secs = (threshold_days * SECS_PER_DAY) as u64;
            let elapsed = saturating_sub(now, ts);
            let remaining = saturating_sub(threshold_secs, elapsed);
            let days_elapsed = decimal((elapsed / SECS_PER_DAY) as nat);
            let days_remaining = decimal((remaining / SECS_PER_DAY) as nat);
            match standing(elapsed, threshold_secs) {
                Standing::Recent => (
                    "Backup completed "@ + decimal((elapsed / SECS_PER_HOUR) as nat)
                        + " hour(s) ago. Next due in "@ + days_remaining + " day(s)."@,
                    Urgency::Low,
                ),
                Standing::Overdue => (
                    "Backup is "@ + decimal(
                        (saturating_sub(elapsed, threshold_secs) / SECS_PER_DAY) as nat,
                    ) + " day(s) overdue (last: "@ + days_elapsed
                        + " day(s) ago). Please plug in your backup disk."@,
                    Urgency::Critical,
                ),
                Standing::InTime => (
                    "Last backup "@ + days_elapsed + " day(s) ago. Next due in "@ + days_remaining
                        + " day(s)."@,
                    Urgency::Low,
                ),
            }
        },
    }
}

/// The reminder's notice at `now`, for a last backup at `last` (`None` when none was ever
/// recorded) and a threshold of `threshold_days` days.
pub fn reminder_notice(now: u64, last: Option<u64>, threshold_days: u64) -> (n: Notice)
    requires
        last is Some ==> threshold_days * SECS_PER_DAY <= u64::MAX,
    ensures
        (n.message@, n.urgency) == reminder(now, last, threshold_days),
{
    match last {
        None => {
            let mut m = String::new();
            m.append("No backup has ever been performed.");
            Notice { message: m, urgency: Urgency::Critical }
        },
        Some(ts) => {
            let threshold_secs = threshold_days * SECS_PER_DAY;
            let elapsed = now.saturating_sub(ts);
            let remaining = threshold_secs.saturating_sub(elapsed);
            let mut m = String::new();
            if elapsed < SECS_PER_DAY {
                m.append("Backup completed ");
                push_decimal(&mut m, elapsed / SECS_PER_HOUR);
                m.append(" hour(s) ago. Next due in ");
                push_decimal(&mut m, remaining / SECS_PER_DAY);
                m.append(" day(s).");
                Notice { message: m, urgency: Urgency::Low }
            } else if elapsed > threshold_secs {
                m.append("Backup is ");
                push_decimal(&mut m, elapsed.saturating_sub(threshold_secs) / SECS_PER_DAY);
                m.append(" day(s) overdue (last: ");
                push_decimal(&mut m, elapsed / SECS_PER_DAY);
                m.append(" day(s) ago). Please plug in your backup disk.");
                Notice { message: m, urgency: Urgency::Critical }
            } else {
                m.append("Last backup ");
                push_decimal(&mut m, elapsed / SECS_PER_DAY);
                m.append(" day(s) ago. Next due in ");
                push_decimal(&mut m, remaining / SECS_PER_DAY);
                m.append(" day(s).");
                Notice { message: m, urgency: Urgency::Low }
            }
        },
    }
}

/// The timestamp a state file holding `contents` records: its text, trimmed, read as a
/// `u64`; `None` when the file could not be read (`contents` is `None`) or does not parse.
pub open spec fn recorded_number(contents: Option<Seq<char>>) -> Option<u64> {
    match contents {
        None => None,
        Some(c) => parse_u64(trimmed(c)),
    }
}

/// The time of the last backup recorded in the last-backup file, given its contents
/// (`None` when it could not be read).
pub fn last_backup_from(contents: Option<String>) -> (r: Option<u64>)
    ensures
        r == recorded_number(match contents {
            Some(s) => Some(s@),
            None => None,
        }),
{
    match contents {
        None => None,
        Some(s) => {
            let v = chars_of(s.as_str());
            let t = trim_chars(&v);
            parse_u64_chars(&t)
        },
    }
}

/// The threshold recorded in the threshold file, given its contents (`None` when it could
/// not be read); the default when it holds no number.
pub fn threshold_days_from(contents: Option<String>) -> (r: u64)
    ensures
        r == match recorded_number(match contents {
            Some(s) => Some(s@),
            None => None,
        }) {
            Some(d) => d,
            None => DEFAULT_THRESHOLD_DAYS,
        },
{
    match last_backup_from(contents) {
        Some(d) => d,
        None => DEFAULT_THRESHOLD_DAYS,
    }
}

/// What a state file recording the number `n` holds: the number in decimal and a newline.
pub open spec fn state_file_text(n: u64) -> Seq<char> {
    decimal(n as nat).push('\n')
}

/// The contents of a state file recording the number `n`.
pub fn state_file_contents(n: u64) -> (s: String)
    ensures
        s@ == state_file_text(n),
{
    let mut s = String::new();
    push_decimal(&mut s, n);
    push_char(&mut s, '\n');
    s
}

/// What the reminder reads from a state file is the number that was written to it.
pub proof fn lemma_state_file_round_trip(n: u64)
    ensures
        recorded_number(Some(state_file_text(n))) == Some(n),
{
    let d = decimal(n as nat);
    let s = state_file_text(n);
    lemma_decimal_digits(n as nat);
    assert(is_digit(d[0]));
    assert(s[0] == d[0]);
    assert(leading_ws(s) == 0);
    assert(s.drop_last() =~= d);
    assert(is_digit(d.last()));
    assert(trailing_ws(d) == 0);
    assert(trailing_ws(s) == 1);
    assert(s.skip(0) =~= s);
    assert(s.take(s.len() - 1) =~= d);
    assert(trimmed(s) =~= d);
    assert(without_plus(d) == d);
}

/// A backup is reported overdue, with critical urgency, exactly when none is recorded or
/// more than the threshold has passed since it (and at least a day).
pub proof fn lemma_reminder_urgency(now: u64, last: Option<u64>, threshold_days: u64)
    requires
        last is Some ==> threshold_days * SECS_PER_DAY <= u64::MAX,
    ensures
        (reminder(now, last, threshold_days).1 == Urgency::Critical) <==> match last {
            None => true,
            Some(ts) => {
                let elapsed = saturating_sub(now, ts);
                elapsed >= SECS_PER_DAY && elapsed > threshold_days * SECS_PER_DAY
            },
        },
{
}

/// What the reminder says, for each age of the last backup: with `e` the seconds since it
/// (none when the clock is behind it) and `t` the threshold in seconds, a backup less than a
/// day old is reported in hours, one at least a day old and within the threshold in days,
/// and one older than both as overdue; each message also tells the days left, or overdue,
/// rounded down.
pub proof fn lemma_reminder_message(now: u64, last: Option<u64>, threshold_days: u64)
    requires
        last is Some ==> threshold_days * 86400 <= u64::MAX,
    ensures
        last is None ==> reminder(now, last, threshold_days) == (
            "No backup has ever been performed."@,
            Urgency::Critical,
        ),
        last matches Some(ts) ==> ({
            let e: int = if now >= ts { now - ts } else { 0 };
            let t: int = threshold_days * 86400;
            let left: int = if t >= e { t - e } else { 0 };
            &&& e < 86400 ==> reminder(now, last, threshold_days) == (
                "Backup completed "@ + decimal((e / 3600) as nat) + " hour(s) ago. Next due in "@
                    + decimal((left / 86400) as nat) + " day(s)."@,
                Urgency::Low,
            )
            &&& 86400 <= e <= t ==> reminder(now, last, threshold_days) == (
                "Last backup "@ + decimal((e / 86400) as nat) + " day(s) ago. Next due in "@
                    + decimal((left / 86400) as nat) + " day(s)."@,
                Urgency::Low,
            )
            &&& 86400 <= e && t < e ==> reminder(now, last, threshold_days) == (
                "Backup is "@ + decimal(((e - t) / 86400) as nat) + " day(s) overdue (last: "@
                    + decimal((e / 86400) as nat)
                    + " day(s) ago). Please plug in your backup disk."@,
                Urgency::Critical,
            )
        }),
{
}

} // verus!
