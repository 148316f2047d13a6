use wakeup_herdr::child::{handling, Handling, Progress};
use wakeup_herdr::clock::{now_ts, parse_utc_offset, utc_offset};
use wakeup_herdr::time::{Duration, Instant};

#[test]
fn offsets_are_read() {
    assert_eq!(parse_utc_offset("+0530"), Some(19_800));
    assert_eq!(parse_utc_offset("-0800"), Some(-28_800));
    assert_eq!(parse_utc_offset("+0000"), Some(0));
    // Anything in the place of the sign but a minus is a plus, and what follows
    // the minutes is not looked at.
    assert_eq!(parse_utc_offset("x0130"), Some(5_400));
    assert_eq!(parse_utc_offset("+0130 CET"), Some(5_400));
}

#[test]
fn other_texts_are_no_offsets() {
    assert_eq!(parse_utc_offset(""), None);
    assert_eq!(parse_utc_offset("+053"), None);
    assert_eq!(parse_utc_offset("+ab30"), None);
    assert_eq!(parse_utc_offset("+05:30"), None);
    assert_eq!(parse_utc_offset("é0530"), None);
}

#[test]
fn signs_are_taken_within_hours_and_minutes() {
    assert_eq!(parse_utc_offset("++5+7"), Some(5 * 3600 + 7 * 60));
    assert_eq!(parse_utc_offset("--5-7"), Some(5 * 3600 + 7 * 60));
    assert_eq!(parse_utc_offset("+-500"), Some(-18_000));
}

#[test]
fn printed_offsets_may_have_whitespace_around_them() {
    assert_eq!(utc_offset(Some("+0200\n")), 7_200);
    assert_eq!(utc_offset(Some("\u{3000} -0330 \r\n")), -12_600);
    assert_eq!(utc_offset(Some("?")), 0);
    assert_eq!(utc_offset(None), 0);
}

#[test]
fn time_of_day_is_local() {
    assert_eq!(now_ts(0, 0), "00:00:00");
    assert_eq!(now_ts(86_399, 0), "23:59:59");
    assert_eq!(now_ts(86_400, 0), "00:00:00");
    assert_eq!(now_ts(1_783_670_005, 19_800), "13:23:25");
    assert_eq!(now_ts(0, -1), "23:59:59");
    assert_eq!(now_ts(3_600, -28_800), "17:00:00");
    assert_eq!(now_ts(i64::MIN, 0), "08:29:52");
    assert_eq!(now_ts(i64::MAX, 0), "15:30:07");
}

#[test]
fn spans_and_instants() {
    assert_eq!(Duration::from_secs(2).nanos, 2_000_000_000);
    assert_eq!(Duration::from_millis(400).nanos, 400_000_000);
    assert_eq!(
        Duration::from_secs(u64::MAX).nanos,
        18_446_744_073_709_551_615_000_000_000
    );
    assert!(Duration::from_secs(0).is_zero());
    assert!(!Duration::from_millis(1).is_zero());
    let a = Instant { nanos: 100 };
    let b = a.after(Duration { nanos: 50 });
    assert_eq!(b.saturating_duration_since(a), Duration { nanos: 50 });
    assert_eq!(a.saturating_duration_since(b), Duration { nanos: 0 });
    assert!(b.reached(a) && a.reached(a) && !a.reached(b));
    assert_eq!(
        Duration { nanos: 3 }.shorter(Duration { nanos: 4 }),
        Duration { nanos: 3 }
    );
    assert_eq!(
        Duration { nanos: 5 }.shorter(Duration { nanos: 4 }),
        Duration { nanos: 4 }
    );
}

#[test]
fn output_counts_only_of_a_program_that_succeeds_in_time() {
    let limit = Duration::from_secs(8);
    let late = Duration {
        nanos: 8_000_000_001,
    };
    assert_eq!(
        handling(Progress::Ended { success: true }, late, limit),
        Handling::Take
    );
    assert_eq!(
        handling(Progress::Ended { success: false }, limit, limit),
        Handling::Drop
    );
    assert_eq!(
        handling(Progress::Running, limit, limit),
        Handling::LookAgain(Duration::from_millis(30))
    );
    assert_eq!(handling(Progress::Running, late, limit), Handling::Kill);
    assert_eq!(handling(Progress::Unknown, limit, limit), Handling::Drop);
}
