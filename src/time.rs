//! Instants, calendar dates and durations, and the calls into `chrono` that
//! read the clock and the local time zone.
use chrono::Datelike;
use vstd::prelude::*;

verus! {

/// The earliest year of a calendar date that `chrono` represents.
pub const MIN_YEAR: i32 = -262143;

/// The latest year of a calendar date that `chrono` represents.
pub const MAX_YEAR: i32 = 262142;

/// An instant, in milliseconds since the Unix epoch, with the offset from UTC
/// (in seconds) of the clock that recorded it. Instants are ordered and
/// subtracted by `millis` alone.
#[derive(Clone, Copy, Debug, PartialEq, Eq, Structural)]
pub struct Timestamp {
    pub millis: i64,
    pub offset_secs: i32,
}

/// The length in milliseconds of the interval from `from` to `to`, or zero
/// when `to` does not come after `from`.
pub open spec fn span_ms(from: Timestamp, to: Timestamp) -> nat {
    if to.millis > from.millis {
        (to.millis - from.millis) as nat
    } else {
        0
    }
}

/// A duration plus a number of milliseconds, held at `u64::MAX` when the sum
/// does not fit.
pub open spec fn sat_add(d: u64, extra: int) -> u64 {
    if d + extra > u64::MAX {
        u64::MAX
    } else {
        (d + extra) as u64
    }
}

/// The interval from `from` to `to` in milliseconds, clamped to zero.
pub fn span_between(from: Timestamp, to: Timestamp) -> (r: u64)
    ensures
        r == span_ms(from, to),
{
    if to.millis > from.millis {
        (to.millis as i128 - from.millis as i128) as u64
    } else {
        0
    }
}

/// `d + extra`, saturating at `u64::MAX`.
pub fn add_duration(d: u64, extra: u64) -> (r: u64)
    ensures
        r == sat_add(d, extra as int),
{
    d.saturating_add(extra)
}

/// A day of the proleptic Gregorian calendar.
#[derive(Clone, Copy, Debug, PartialEq, Eq, Structural)]
pub struct Date {
    pub year: i32,
    pub month: u32,
    pub day: u32,
}

pub open spec fn is_leap_year(year: int) -> bool {
    year % 4 == 0 && (year % 100 != 0 || year % 400 == 0)
}

pub open spec fn days_in_month(year: int, month: int) -> int {
    if month == 2 {
        if is_leap_year(year) {
            29
        } else {
            28
        }
    } else if month == 4 || month == 6 || month == 9 || month == 11 {
        30
    } else {
        31
    }
}

impl Date {
    /// A date that exists in the calendar, within the years `chrono` represents.
    pub open spec fn wf(self) -> bool {
        &&& MIN_YEAR <= self.year <= MAX_YEAR
        &&& 1 <= self.month <= 12
        &&& 1 <= self.day <= days_in_month(self.year as int, self.month as int)
    }

    /// The next calendar day; none after the last day of `MAX_YEAR`.
    pub open spec fn successor(self) -> Option<Date> {
        if (self.day as int) < days_in_month(self.year as int, self.month as int) {
            Some(Date { year: self.year, month: self.month, day: (self.day + 1) as u32 })
        } else if self.month < 12 {
            Some(Date { year: self.year, month: (self.month + 1) as u32, day: 1 })
        } else if self.year < MAX_YEAR {
            Some(Date { year: (self.year + 1) as i32, month: 1, day: 1 })
        } else {
            None
        }
    }
}

/// Relies on `chrono::Local::now`: the current instant and the local offset.
/// Nothing is promised of its value.
#[verifier::external_body]
pub(crate) fn now() -> (r: Timestamp) {
    let t = chrono::Local::now().fixed_offset();
    Timestamp { millis: t.timestamp_millis(), offset_secs: t.offset().local_minus_utc() }
}

/// Relies on `chrono::NaiveDate::succ_opt`: the following calendar day, or
/// none after `chrono`'s last representable date.
#[verifier::external_body]
pub(crate) fn next_day(d: Date) -> (r: Option<Date>)
    requires
        d.wf(),
    ensures
        r == d.successor(),
{
    chrono::NaiveDate::from_ymd_opt(d.year, d.month, d.day).and_then(|n| n.succ_opt()).map(
        |s| Date { year: s.year(), month: s.month(), day: s.day() },
    )
}

/// Relies on `NaiveDateTime::and_local_timezone` with `chrono::Local`: the
/// instant (in milliseconds) of local midnight at the start of `d`, the
/// earlier one where midnight occurs twice, none where it does not occur.
/// It depends on the machine's time zone, so nothing is promised of it.
#[verifier::external_body]
pub(crate) fn local_midnight(d: Date) -> (r: Option<i64>)
    requires
        d.wf(),
{
    chrono::NaiveDate::from_ymd_opt(d.year, d.month, d.day).and_then(
        |n| n.and_time(chrono::NaiveTime::MIN).and_local_timezone(chrono::Local).earliest(),
    ).map(|t| t.timestamp_millis())
}

} // verus!
