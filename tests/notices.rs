use work_warden::event_log::ElapsedSummary;
use work_warden::notices::{format_duration_minutes, overdue, Notices};

const MINUTE: u64 = 60_000;

#[test]
fn duration_text() {
    assert_eq!(format_duration_minutes(0), "0m");
    assert_eq!(format_duration_minutes(59_999), "0m");
    assert_eq!(format_duration_minutes(5 * MINUTE), "5m");
    assert_eq!(format_duration_minutes(u64::MAX), "30500568904w6d14h25m");
    assert_eq!(format_duration_minutes(60 * MINUTE), "60m");
    assert_eq!(format_duration_minutes(90 * MINUTE), "1h30m");
    assert_eq!(format_duration_minutes(120 * MINUTE), "2h");
    assert_eq!(format_duration_minutes(1440 * MINUTE), "24h");
    assert_eq!(format_duration_minutes(1500 * MINUTE), "1d60m");
    assert_eq!(format_duration_minutes(1501 * MINUTE), "1d1h1m");
    assert_eq!(format_duration_minutes(10080 * MINUTE), "7d");
    assert_eq!(format_duration_minutes((10080 + 1441 + 61) * MINUTE), "1w1d1h2m");
}

fn summary(work: u64, lunch: u64, brk: u64, working: bool, on_lunch: bool, on_break: bool) -> ElapsedSummary {
    ElapsedSummary {
        work_time: work,
        break_time: brk,
        lunch_time: lunch,
        idle_work_time: 0,
        working,
        on_break,
        on_lunch,
        idle_work: false,
    }
}

#[test]
fn overtime_excludes_lunch() {
    let e = summary(9 * 60 * MINUTE, 30 * MINUTE, 0, true, false, false);
    let n = overdue(&e, 8 * 60 * MINUTE, 60 * MINUTE, 30 * MINUTE);
    assert_eq!(n, Notices { overtime: Some(30 * MINUTE), long_lunch: None, long_break: None });
    let off = summary(9 * 60 * MINUTE, 30 * MINUTE, 0, false, false, false);
    assert_eq!(overdue(&off, 8 * 60 * MINUTE, 60 * MINUTE, 30 * MINUTE).overtime, None);
}

#[test]
fn long_lunch_and_break() {
    let e = summary(3 * 60 * MINUTE, 70 * MINUTE, 40 * MINUTE, true, true, true);
    let n = overdue(&e, 8 * 60 * MINUTE, 60 * MINUTE, 30 * MINUTE);
    assert_eq!(n.long_lunch, Some(10 * MINUTE));
    assert_eq!(n.long_break, Some(10 * MINUTE));
    let exact = summary(0, 60 * MINUTE, 30 * MINUTE, false, true, true);
    let n = overdue(&exact, 8 * 60 * MINUTE, 60 * MINUTE, 30 * MINUTE);
    assert_eq!(n.long_lunch, None);
    assert_eq!(n.long_break, None);
}

#[test]
fn lunch_longer_than_work_is_no_overtime() {
    let e = summary(10 * MINUTE, 20 * MINUTE, 0, true, true, false);
    assert_eq!(overdue(&e, 0, 60 * MINUTE, 30 * MINUTE).overtime, None);
}
