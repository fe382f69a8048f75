//! Events: the timestamped facts that the log records, and their total order.
use crate::tasks::{lemma_lex_cmp_flip, lemma_lex_cmp_transitive, lex_cmp, TaskSet};
use crate::time::{now, Timestamp};
use core::cmp::Ordering;
use vstd::prelude::*;

verus! {

/// The clocked categories.
#[derive(Clone, Copy, Debug, PartialEq, Eq, Structural, PartialOrd, Ord, Hash)]
pub enum ClockType {
    Day,
    Break,
    Lunch,
}

impl ClockType {
    /// The position of the category in the order `Day < Break < Lunch`.
    pub open spec fn rank(self) -> int {
        match self {
            ClockType::Day => 0,
            ClockType::Break => 1,
            ClockType::Lunch => 2,
        }
    }

    fn rank_of(&self) -> (r: u8)
        ensures
            r as int == self.rank(),
    {
        match self {
            ClockType::Day => 0,
            ClockType::Break => 1,
            ClockType::Lunch => 2,
        }
    }
}

/// A fact of the timecard, with the instant it happened.
#[derive(Clone, Debug)]
pub enum Event {
    ClockIn { time: Timestamp, clock: ClockType },
    ClockOut { time: Timestamp, clock: ClockType },
    Active { time: Timestamp },
    Idle { time: Timestamp },
    Tasks { time: Timestamp, tasks: TaskSet },
}

/// The three-way comparison of two integers.
pub open spec fn cmp_int(a: int, b: int) -> Ordering {
    if a < b {
        Ordering::Less
    } else if a > b {
        Ordering::Greater
    } else {
        Ordering::Equal
    }
}

impl Event {
    /// The instant of the event.
    pub open spec fn at(&self) -> Timestamp {
        match self {
            Event::ClockIn { time, .. } => *time,
            Event::ClockOut { time, .. } => *time,
            Event::Active { time } => *time,
            Event::Idle { time } => *time,
            Event::Tasks { time, .. } => *time,
        }
    }

    /// The rank of the variant: `ClockIn < ClockOut < Active < Idle < Tasks`.
    pub open spec fn rank(&self) -> int {
        match self {
            Event::ClockIn { .. } => 0,
            Event::ClockOut { .. } => 1,
            Event::Active { .. } => 2,
            Event::Idle { .. } => 3,
            Event::Tasks { .. } => 4,
        }
    }

    /// A task set held by the event is well formed.
    pub open spec fn wf(&self) -> bool {
        match self {
            Event::Tasks { tasks, .. } => tasks.wf(),
            _ => true,
        }
    }

    /// The order of events: by instant, then by variant, then by clock type
    /// or by task set; two `Active` or two `Idle` events at one instant are
    /// equal.
    pub open spec fn order(&self, other: &Event) -> Ordering {
        if self.at().millis != other.at().millis {
            cmp_int(self.at().millis as int, other.at().millis as int)
        } else if self.rank() != other.rank() {
            cmp_int(self.rank(), other.rank())
        } else {
            match (self, other) {
                (Event::ClockIn { clock: a, .. }, Event::ClockIn { clock: b, .. }) => cmp_int(
                    a.rank(),
                    b.rank(),
                ),
                (Event::ClockOut { clock: a, .. }, Event::ClockOut { clock: b, .. }) => cmp_int(
                    a.rank(),
                    b.rank(),
                ),
                (Event::Tasks { tasks: a, .. }, Event::Tasks { tasks: b, .. }) => lex_cmp(
                    a@,
                    b@,
                ),
                _ => Ordering::Equal,
            }
        }
    }

    /// `self` comes strictly before `other`.
    pub open spec fn precedes(&self, other: &Event) -> bool {
        self.order(other) == Ordering::Less
    }

    /// A clock-in of `clock` now.
    pub fn clock_in(clock: ClockType) -> (r: Event)
        ensures
            r == (Event::ClockIn { time: r.at(), clock }),
    {
        Event::ClockIn { time: now(), clock }
    }

    /// A clock-out of `clock` now.
    pub fn clock_out(clock: ClockType) -> (r: Event)
        ensures
            r == (Event::ClockOut { time: r.at(), clock }),
    {
        Event::ClockOut { time: now(), clock }
    }

    /// The user is present now.
    pub fn active() -> (r: Event)
        ensures
            r == (Event::Active { time: r.at() }),
    {
        Event::Active { time: now() }
    }

    /// The user went idle now.
    pub fn idle() -> (r: Event)
        ensures
            r == (Event::Idle { time: r.at() }),
    {
        Event::Idle { time: now() }
    }

    /// The active tasks become `tasks` now.
    pub fn tasks(tasks: TaskSet) -> (r: Event)
        ensures
            r == (Event::Tasks { time: r.at(), tasks }),
    {
        Event::Tasks { time: now(), tasks }
    }

    /// The instant of the event.
    pub fn time(&self) -> (r: Timestamp)
        ensures
            r == self.at(),
    {
        match self {
            Event::ClockIn { time, .. } => *time,
            Event::ClockOut { time, .. } => *time,
            Event::Active { time } => *time,
            Event::Idle { time } => *time,
            Event::Tasks { time, .. } => *time,
        }
    }

    fn variant_id(&self) -> (r: u32)
        ensures
            r as int == self.rank(),
    {
        match self {
            Event::ClockIn { .. } => 0,
            Event::ClockOut { .. } => 1,
            Event::Active { .. } => 2,
            Event::Idle { .. } => 3,
            Event::Tasks { .. } => 4,
        }
    }

    /// Compares two events by `order`.
    pub fn cmp(&self, other: &Event) -> (r: Ordering)
        ensures
            r == self.order(other),
    {
        let a = self.time().millis;
        let b = other.time().millis;
        if a < b {
            return Ordering::Less;
        }
        if a > b {
            return Ordering::Greater;
        }
        let va = self.variant_id();
        let vb = other.variant_id();
        if va < vb {
            return Ordering::Less;
        }
        if va > vb {
            return Ordering::Greater;
        }
        match (self, other) {
            (Event::ClockIn { clock: x, .. }, Event::ClockIn { clock: y, .. })
            | (Event::ClockOut { clock: x, .. }, Event::ClockOut { clock: y, .. }) => {
                let rx = x.rank_of();
                let ry = y.rank_of();
                if rx < ry {
                    Ordering::Less
                } else if rx > ry {
                    Ordering::Greater
                } else {
                    Ordering::Equal
                }
            },
            (Event::Tasks { tasks: x, .. }, Event::Tasks { tasks: y, .. }) => x.compare(y),
            _ => Ordering::Equal,
        }
    }
}

impl PartialEq for Event {
    /// Equal in the order of events.
    fn eq(&self, other: &Event) -> (r: bool)
        ensures
            r == (self.order(other) == Ordering::Equal),
    {
        match self.cmp(other) {
            Ordering::Equal => true,
            _ => false,
        }
    }
}

impl vstd::std_specs::cmp::PartialEqSpecImpl for Event {
    open spec fn obeys_eq_spec() -> bool {
        true
    }

    open spec fn eq_spec(&self, other: &Event) -> bool {
        self.order(other) == Ordering::Equal
    }
}

impl PartialOrd for Event {
    /// The order of events; any two events compare.
    fn partial_cmp(&self, other: &Event) -> (r: Option<Ordering>)
        ensures
            r == Some(self.order(other)),
    {
        Some(self.cmp(other))
    }
}

impl vstd::std_specs::cmp::PartialOrdSpecImpl for Event {
    open spec fn obeys_partial_cmp_spec() -> bool {
        true
    }

    open spec fn partial_cmp_spec(&self, other: &Event) -> Option<Ordering> {
        Some(self.order(other))
    }
}

/// The order of events is a total order: reversing the operands reverses
/// the result, two events are equal exactly when they agree on the instant,
/// the variant and the clock type or task set, and it is transitive; so of
/// two events that are not equal exactly one comes first.
pub proof fn lemma_event_order_total(a: Event, b: Event, c: Event)
    ensures
        a.precedes(&b) <==> b.order(&a) == Ordering::Greater,
        (a.order(&b) == Ordering::Equal) <==> (b.order(&a) == Ordering::Equal),
        (a.order(&b) == Ordering::Equal) <==> {
            &&& a.at().millis == b.at().millis
            &&& a.rank() == b.rank()
            &&& (a is ClockIn ==> a->ClockIn_clock == b->ClockIn_clock)
            &&& (a is ClockOut ==> a->ClockOut_clock == b->ClockOut_clock)
            &&& (a is Tasks ==> a->Tasks_tasks@ == b->Tasks_tasks@)
        },
        a.order(&a) == Ordering::Equal,
        a.precedes(&b) && b.precedes(&c) ==> a.precedes(&c),
        a.order(&b) != Ordering::Equal ==> (a.precedes(&b) != b.precedes(&a)),
{
    if let (Event::Tasks { tasks: x, .. }, Event::Tasks { tasks: y, .. }) = (a, b) {
        lemma_lex_cmp_flip(x@, y@);
        lemma_lex_cmp_flip(y@, x@);
    }
    if let Event::Tasks { tasks: x, .. } = a {
        lemma_lex_cmp_flip(x@, x@);
    }
    if a.precedes(&b) && b.precedes(&c) {
        if let (Event::Tasks { tasks: x, .. }, Event::Tasks { tasks: y, .. }, Event::Tasks {
            tasks: z,
            ..
        }) = (a, b, c) {
            if a.at().millis == b.at().millis && b.at().millis == c.at().millis {
                lemma_lex_cmp_transitive(x@, y@, z@);
            }
        }
    }
}

} // verus!
