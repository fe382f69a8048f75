//! Which over-time notices to show for a day, and how a duration reads in them.
use crate::event_log::ElapsedSummary;
use vstd::prelude::*;
use vstd::string::StringExecFns;

verus! {

/// How far each open category runs past its target, in milliseconds; none
/// where its notice is to be cleared.
#[derive(Clone, Copy, Debug, PartialEq, Eq, Structural)]
pub struct Notices {
    pub overtime: Option<u64>,
    pub long_lunch: Option<u64>,
    pub long_break: Option<u64>,
}

/// `amount - target` when `open` and `amount` exceeds `target`.
pub open spec fn excess(open: bool, amount: int, target: int) -> Option<u64> {
    if open && amount > target {
        Some((amount - target) as u64)
    } else {
        None
    }
}

/// The notices for `elapsed` against the targets (in milliseconds): work
/// beyond its target (lunch time does not count as work) while working, a
/// lunch beyond its target while at lunch, a break beyond its target while
/// on break.
pub fn overdue(elapsed: &ElapsedSummary, work_target: u64, lunch_target: u64, break_target: u64) -> (r: Notices)
    ensures
        r.overtime == excess(
            elapsed.working,
            elapsed.work_time - elapsed.lunch_time,
            work_target as int,
        ),
        r.long_lunch == excess(elapsed.on_lunch, elapsed.lunch_time as int, lunch_target as int),
        r.long_break == excess(elapsed.on_break, elapsed.break_time as int, break_target as int),
{
    let overtime = if elapsed.working && elapsed.work_time >= elapsed.lunch_time
        && elapsed.work_time - elapsed.lunch_time > work_target {
        Some(elapsed.work_time - elapsed.lunch_time - work_target)
    } else {
        None
    };
    let long_lunch = if elapsed.on_lunch && elapsed.lunch_time > lunch_target {
        Some(elapsed.lunch_time - lunch_target)
    } else {
        None
    };
    let long_break = if elapsed.on_break && elapsed.break_time > break_target {
        Some(elapsed.break_time - break_target)
    } else {
        None
    };
    Notices { overtime, long_lunch, long_break }
}

/// The character of a decimal digit.
pub open spec fn digit(d: nat) -> char {
    if d == 0 {
        '0'
    } else if d == 1 {
        '1'
    } else if d == 2 {
        '2'
    } else if d == 3 {
        '3'
    } else if d == 4 {
        '4'
    } else if d == 5 {
        '5'
    } else if d == 6 {
        '6'
    } else if d == 7 {
        '7'
    } else if d == 8 {
        '8'
    } else {
        '9'
    }
}

/// The decimal digits of `n`, most significant first, without leading zeros.
pub open spec fn decimal(n: nat) -> Seq<char>
    decreases n,
{
    if n < 10 {
        seq![digit(n)]
    } else {
        decimal(n / 10) + seq![digit(n % 10)]
    }
}

/// The one-character text of the digit `d`.
fn digit_text(d: u64) -> (r: &'static str)
    requires
        d < 10,
    ensures
        r@ == seq![digit(d as nat)],
{
    proof {
        reveal_strlit("0");
        reveal_strlit("1");
        reveal_strlit("2");
        reveal_strlit("3");
        reveal_strlit("4");
        reveal_strlit("5");
        reveal_strlit("6");
        reveal_strlit("7");
        reveal_strlit("8");
        reveal_strlit("9");
    }
    let r = if d == 0 {
        "0"
    } else if d == 1 {
        "1"
    } else if d == 2 {
        "2"
    } else if d == 3 {
        "3"
    } else if d == 4 {
        "4"
    } else if d == 5 {
        "5"
    } else if d == 6 {
        "6"
    } else if d == 7 {
        "7"
    } else if d == 8 {
        "8"
    } else {
        "9"
    };
    assert(r@ =~= seq![digit(d as nat)]);
    r
}

/// The decimal digits of `n`.
fn decimal_text(n: u64) -> (r: String)
    ensures
        r@ == decimal(n as nat),
    decreases n,
{
    if n < 10 {
        String::from_str(digit_text(n))
    } else {
        let mut r = decimal_text(n / 10);
        r.append(digit_text(n % 10));
        r
    }
}

/// Minutes in a week, a day and an hour.
pub const MINUTES_PER_WEEK: u64 = 10080;

pub const MINUTES_PER_DAY: u64 = 1440;

pub const MINUTES_PER_HOUR: u64 = 60;

/// `count` followed by `unit` where `count` is some, nothing otherwise.
pub open spec fn part(count: Option<nat>, unit: char) -> Seq<char> {
    match count {
        Some(c) => decimal(c) + seq![unit],
        None => Seq::empty(),
    }
}

/// How a number of minutes reads: whole weeks, days and hours where the
/// minutes exceed a week, a day or an hour, then the minutes left over if
/// any; `0m` for none.
pub open spec fn minutes_text(minutes: nat) -> Seq<char> {
    if minutes == 0 {
        seq!['0', 'm']
    } else {
        let weeks = if minutes > MINUTES_PER_WEEK {
            Some(minutes / MINUTES_PER_WEEK as nat)
        } else {
            None
        };
        let m1 = if minutes > MINUTES_PER_WEEK {
            minutes % (MINUTES_PER_WEEK as nat)
        } else {
            minutes
        };
        let days = if m1 > MINUTES_PER_DAY {
            Some(m1 / MINUTES_PER_DAY as nat)
        } else {
            None
        };
        let m2 = if m1 > MINUTES_PER_DAY {
            m1 % (MINUTES_PER_DAY as nat)
        } else {
            m1
        };
        let hours = if m2 > MINUTES_PER_HOUR {
            Some(m2 / MINUTES_PER_HOUR as nat)
        } else {
            None
        };
        let m3 = if m2 > MINUTES_PER_HOUR {
            m2 % (MINUTES_PER_HOUR as nat)
        } else {
            m2
        };
        part(weeks, 'w') + part(days, 'd') + part(hours, 'h') + part(
            if m3 > 0 {
                Some(m3)
            } else {
                None
            },
            'm',
        )
    }
}

fn append_part(out: &mut String, count: u64, unit: &str)
    requires
        unit@.len() == 1,
    ensures
        final(out)@ == old(out)@ + part(Some(count as nat), unit@[0]),
{
    let digits = decimal_text(count);
    out.append(digits.as_str());
    out.append(unit);
    assert(unit@ =~= seq![unit@[0]]);
}

/// A duration in milliseconds as text, to the whole minute: `1w2d3h4m`.
pub fn format_duration_minutes(duration_ms: u64) -> (r: String)
    ensures
        r@ == minutes_text(duration_ms as nat / 60000),
{
    let mut minutes = duration_ms / 60000;
    let ghost total = minutes as nat;
    if minutes == 0 {
        let r = String::from_str("0m");
        proof {
            reveal_strlit("0m");
        }
        return r;
    }
    let mut out = String::new();
    proof {
        reveal_strlit("w");
        reveal_strlit("d");
        reveal_strlit("h");
        reveal_strlit("m");
    }
    if minutes > MINUTES_PER_WEEK {
        append_part(&mut out, minutes / MINUTES_PER_WEEK, "w");
        minutes = minutes % MINUTES_PER_WEEK;
    }
    if minutes > MINUTES_PER_DAY {
        append_part(&mut out, minutes / MINUTES_PER_DAY, "d");
        minutes = minutes % MINUTES_PER_DAY;
    }
    if minutes > MINUTES_PER_HOUR {
        append_part(&mut out, minutes / MINUTES_PER_HOUR, "h");
        minutes = minutes % MINUTES_PER_HOUR;
    }
    if minutes > 0 {
        append_part(&mut out, minutes, "m");
    }
    assert(out@ =~= minutes_text(total));
    out
}

} // verus!
