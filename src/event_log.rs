//! The event log of one day: its ordered events, the state at the start of
//! the day, and the current state, which is always the replay of the one
//! through the other.
use crate::accumulator::TrackedTime;
use crate::event::{lemma_event_order_total, Event};
use crate::state::{lemma_applied_working, State, StateModel};
use crate::time::{local_midnight, next_day, now, Date, Timestamp};
use core::cmp::Ordering;
use vstd::prelude::*;

verus! {

/// Each event comes strictly before every later one.
pub open spec fn sorted_events(s: Seq<Event>) -> bool {
    forall|i: int, j: int| #![trigger s[i], s[j]] 0 <= i < j < s.len() ==> s[i].precedes(&s[j])
}

/// `start` with `events` applied in sequence order.
pub open spec fn replay(start: StateModel, events: Seq<Event>) -> StateModel
    decreases events.len(),
{
    if events.len() == 0 {
        start
    } else {
        replay(start, events.drop_last()).applied(events.last())
    }
}

/// `s` holds an event equal to `e` in the order of events.
pub open spec fn holds_equal(s: Seq<Event>, e: Event) -> bool {
    exists|i: int| 0 <= i < s.len() && (#[trigger] s[i]).order(&e) == Ordering::Equal
}

/// `p` is where `e` goes in `s`: after every event before it, before the rest.
pub open spec fn is_slot(s: Seq<Event>, e: Event, p: int) -> bool {
    &&& 0 <= p <= s.len()
    &&& forall|j: int| 0 <= j < p ==> (#[trigger] s[j]).precedes(&e)
    &&& forall|j: int| p <= j < s.len() ==> !(#[trigger] s[j]).precedes(&e)
}

/// The place of `e` in `s`.
pub open spec fn slot(s: Seq<Event>, e: Event) -> int {
    choose|p: int| is_slot(s, e, p)
}

/// `s` with `e` put in its place, unless it holds an equal event.
pub open spec fn insert_event(s: Seq<Event>, e: Event) -> Seq<Event> {
    if holds_equal(s, e) {
        s
    } else {
        s.insert(slot(s, e), e)
    }
}

/// The events of `s` put one after the other in their places.
pub open spec fn insert_all(s: Seq<Event>) -> Seq<Event>
    decreases s.len(),
{
    if s.len() == 0 {
        s
    } else {
        insert_event(insert_all(s.drop_last()), s.last())
    }
}

/// In a sorted sequence an event has one place.
pub proof fn lemma_slot_unique(s: Seq<Event>, e: Event, p: int)
    requires
        is_slot(s, e, p),
    ensures
        slot(s, e) == p,
{
    let q = slot(s, e);
    assert(is_slot(s, e, q));
    if q < p {
        assert(s[q].precedes(&e));
    } else if q > p {
        assert(s[p].precedes(&e));
    }
}

/// Where the events before `p` precede `e` and the one at `p`, if any,
/// follows it, `p` is the place of `e`, and `s` holds no event equal to it.
proof fn lemma_scan_slot(s: Seq<Event>, e: Event, p: int)
    requires
        sorted_events(s),
        0 <= p <= s.len(),
        forall|j: int| 0 <= j < p ==> (#[trigger] s[j]).precedes(&e),
        p < s.len() ==> s[p].order(&e) == Ordering::Greater,
    ensures
        is_slot(s, e, p),
        !holds_equal(s, e),
        forall|j: int| p <= j < s.len() ==> e.precedes(&(#[trigger] s[j])),
{
    assert forall|j: int| p <= j < s.len() implies e.precedes(&(#[trigger] s[j])) by {
        lemma_event_order_total(s[p], e, s[j]);
        if j > p {
            lemma_event_order_total(e, s[p], s[j]);
        }
    }
    assert forall|j: int| p <= j < s.len() implies !(#[trigger] s[j]).precedes(&e) by {
        lemma_event_order_total(e, s[j], e);
    }
    if holds_equal(s, e) {
        let i = choose|i: int| 0 <= i < s.len() && (#[trigger] s[i]).order(&e) == Ordering::Equal;
        if i >= p {
            lemma_event_order_total(e, s[i], e);
        }
    }
}

/// Putting an event in its place keeps a sequence sorted.
proof fn lemma_insert_sorted(s: Seq<Event>, e: Event, p: int)
    requires
        sorted_events(s),
        is_slot(s, e, p),
        forall|j: int| p <= j < s.len() ==> e.precedes(&(#[trigger] s[j])),
    ensures
        sorted_events(s.insert(p, e)),
{
    let t = s.insert(p, e);
    assert forall|a: int, b: int| #![trigger t[a], t[b]] 0 <= a < b < t.len() implies t[a].precedes(
        &t[b],
    ) by {
        if a < p {
            if b == p {
            } else if b > p {
                assert(t[b] == s[b - 1]);
            }
        } else if a == p {
            assert(t[b] == s[b - 1]);
        } else {
            assert(t[a] == s[a - 1]);
            assert(t[b] == s[b - 1]);
        }
    }
}

/// A sorted sequence, put event by event in place, is itself.
pub proof fn lemma_insert_all_sorted(s: Seq<Event>)
    requires
        sorted_events(s),
    ensures
        insert_all(s) == s,
    decreases s.len(),
{
    if s.len() > 0 {
        let init = s.drop_last();
        assert(sorted_events(init));
        lemma_insert_all_sorted(init);
        let n = init.len() as int;
        if n > 0 {
            assert(s[n - 1].precedes(&s[n]));
            lemma_event_order_total(s[n - 1], s[n], s[n]);
        }
        assert(is_slot(init, s.last(), n)) by {
            assert forall|j: int| 0 <= j < n implies (#[trigger] init[j]).precedes(&s.last()) by {
                assert(s[j].precedes(&s[n]));
            }
        }
        lemma_scan_slot(init, s.last(), n);
        lemma_slot_unique(init, s.last(), n);
        assert(init.insert(n, s.last()) =~= s);
    }
}

/// Whether the order of events puts `a` before `b`, or with it.
fn compare_to(a: &Event, b: &Event, want: Ordering) -> (r: bool)
    ensures
        r == (a.order(b) == want),
{
    match (a.cmp(b), want) {
        (Ordering::Less, Ordering::Less) => true,
        (Ordering::Equal, Ordering::Equal) => true,
        (Ordering::Greater, Ordering::Greater) => true,
        _ => false,
    }
}

/// In a sorted sequence every event has a place.
pub proof fn lemma_slot_exists(s: Seq<Event>, e: Event)
    requires
        sorted_events(s),
    ensures
        is_slot(s, e, slot(s, e)),
    decreases s.len(),
{
    if s.len() == 0 {
        assert(is_slot(s, e, 0));
    } else {
        let init = s.drop_last();
        let n = init.len() as int;
        assert(sorted_events(init));
        lemma_slot_exists(init, e);
        let p = slot(init, e);
        if s[n].precedes(&e) {
            assert forall|j: int| 0 <= j < n + 1 implies (#[trigger] s[j]).precedes(&e) by {
                if j < n {
                    assert(s[j].precedes(&s[n]));
                    lemma_event_order_total(s[j], s[n], e);
                }
            }
            assert(is_slot(s, e, n + 1));
        } else {
            assert(forall|j: int| 0 <= j < n ==> init[j] == s[j]);
            assert(is_slot(s, e, p));
        }
    }
}

/// Putting in `e` leaves unchanged whether `s` holds an event equal to an
/// event `f` that `e` is not equal to.
proof fn lemma_holds_equal_insert(s: Seq<Event>, e: Event, f: Event)
    requires
        sorted_events(s),
        e.order(&f) != Ordering::Equal,
    ensures
        holds_equal(insert_event(s, e), f) == holds_equal(s, f),
{
    if !holds_equal(s, e) {
        lemma_slot_exists(s, e);
        let p = slot(s, e);
        let t = s.insert(p, e);
        if holds_equal(t, f) {
            let i = choose|i: int| 0 <= i < t.len() && (#[trigger] t[i]).order(&f) == Ordering::Equal;
            if i < p {
                assert(s[i] == t[i]);
            } else if i > p {
                assert(s[i - 1] == t[i]);
            }
        }
        if holds_equal(s, f) {
            let i = choose|i: int| 0 <= i < s.len() && (#[trigger] s[i]).order(&f) == Ordering::Equal;
            if i < p {
                assert(s[i] == t[i]);
            } else {
                assert(s[i] == t[i + 1]);
            }
        }
    }
}

proof fn lemma_slot_past_earlier(s: Seq<Event>, e1: Event, e2: Event, p1: int, p2: int)
    requires
        is_slot(s, e1, p1),
        is_slot(s, e2, p2),
        p1 <= p2,
        e1.precedes(&e2),
    ensures
        is_slot(s.insert(p1, e1), e2, p2 + 1),
{
    let s1 = s.insert(p1, e1);
    assert forall|j: int| 0 <= j < p2 + 1 implies (#[trigger] s1[j]).precedes(&e2) by {
        if j < p1 {
            assert(s1[j] == s[j]);
        } else if j > p1 {
            assert(s1[j] == s[j - 1]);
        }
    }
    assert forall|j: int| p2 + 1 <= j < s1.len() implies !(#[trigger] s1[j]).precedes(&e2) by {
        assert(s1[j] == s[j - 1]);
    }
}

proof fn lemma_slot_before_later(s: Seq<Event>, e1: Event, e2: Event, p1: int, p2: int)
    requires
        is_slot(s, e1, p1),
        is_slot(s, e2, p2),
        p1 <= p2,
        e1.precedes(&e2),
    ensures
        is_slot(s.insert(p2, e2), e1, p1),
{
    let s2 = s.insert(p2, e2);
    lemma_event_order_total(e2, e1, e2);
    assert forall|j: int| 0 <= j < p1 implies (#[trigger] s2[j]).precedes(&e1) by {
        assert(s2[j] == s[j]);
    }
    assert forall|j: int| p1 <= j < s2.len() implies !(#[trigger] s2[j]).precedes(&e1) by {
        if j < p2 {
            assert(s2[j] == s[j]);
        } else if j > p2 {
            assert(s2[j] == s[j - 1]);
        }
    }
}

proof fn lemma_insert_commutes_ordered(s: Seq<Event>, e1: Event, e2: Event)
    requires
        sorted_events(s),
        e1.precedes(&e2),
        !holds_equal(s, e1),
        !holds_equal(s, e2),
    ensures
        insert_event(insert_event(s, e1), e2) == insert_event(insert_event(s, e2), e1),
{
    lemma_slot_exists(s, e1);
    lemma_slot_exists(s, e2);
    let p1 = slot(s, e1);
    let p2 = slot(s, e2);
    if p1 > p2 {
        assert(s[p2].precedes(&e1));
        assert(!s[p2].precedes(&e2));
        lemma_event_order_total(s[p2], e1, e2);
    }
    lemma_event_order_total(e1, e2, e2);
    lemma_holds_equal_insert(s, e1, e2);
    lemma_holds_equal_insert(s, e2, e1);
    lemma_slot_past_earlier(s, e1, e2, p1, p2);
    lemma_slot_unique(s.insert(p1, e1), e2, p2 + 1);
    lemma_slot_before_later(s, e1, e2, p1, p2);
    lemma_slot_unique(s.insert(p2, e2), e1, p1);
    assert(s.insert(p1, e1).insert(p2 + 1, e2) =~= s.insert(p2, e2).insert(p1, e1));
}

/// Two events at different instants end up in the same places whichever is
/// added first: the events of a log, and so (by `lemma_current_is_replay`)
/// its current state, depend on which events were added, not on the order
/// of the calls.
pub proof fn lemma_insert_commutes(s: Seq<Event>, e1: Event, e2: Event)
    requires
        sorted_events(s),
        e1.at().millis != e2.at().millis,
    ensures
        insert_event(insert_event(s, e1), e2) == insert_event(insert_event(s, e2), e1),
{
    lemma_event_order_total(e1, e2, e2);
    lemma_holds_equal_insert(s, e1, e2);
    lemma_holds_equal_insert(s, e2, e1);
    if !holds_equal(s, e1) && !holds_equal(s, e2) {
        if e1.precedes(&e2) {
            lemma_insert_commutes_ordered(s, e1, e2);
        } else {
            lemma_insert_commutes_ordered(s, e2, e1);
        }
    }
}

/// Puts `event` in its place among the sorted `events`, unless an equal
/// event is there; returns the place it took.
fn insert_sorted(events: &mut Vec<Event>, event: Event) -> (r: Option<usize>)
    requires
        sorted_events(old(events)@),
        forall|i: int| 0 <= i < old(events)@.len() ==> (#[trigger] old(events)@[i]).wf(),
        event.wf(),
    ensures
        sorted_events(final(events)@),
        forall|i: int| 0 <= i < final(events)@.len() ==> (#[trigger] final(events)@[i]).wf(),
        final(events)@ == insert_event(old(events)@, event),
        r is Some <==> !holds_equal(old(events)@, event),
        r matches Some(p) ==> p == slot(old(events)@, event) && is_slot(old(events)@, event, p as int),
{
    let n = events.len();
    let mut i: usize = 0;
    while i < n && compare_to(&events[i], &event, Ordering::Less)
        invariant
            n == events@.len(),
            i <= n,
            forall|j: int| 0 <= j < i ==> (#[trigger] events@[j]).precedes(&event),
        decreases n - i,
    {
        i += 1;
    }
    if i < n && compare_to(&events[i], &event, Ordering::Equal) {
        assert(holds_equal(events@, event));
        return None;
    }
    proof {
        if i < n {
            lemma_event_order_total(events@[i as int], event, event);
        }
        lemma_scan_slot(events@, event, i as int);
        lemma_slot_unique(events@, event, i as int);
        lemma_insert_sorted(events@, event, i as int);
    }
    let ghost before = events@;
    events.insert(i, event);
    assert forall|k: int| 0 <= k < events@.len() implies (#[trigger] events@[k]).wf() by {
        if k > i {
            assert(events@[k] == before[k - 1]);
        } else if k < i {
            assert(events@[k] == before[k]);
        }
    }
    Some(i)
}

/// The replay of `events` from `start`.
fn replay_events(start: &State, events: &Vec<Event>) -> (r: State)
    requires
        start.wf(),
        forall|i: int| 0 <= i < events@.len() ==> (#[trigger] events@[i]).wf(),
    ensures
        r.wf(),
        r@ == replay(start@, events@),
{
    let mut s = start.clone();
    let mut k: usize = 0;
    assert(events@.take(0) =~= Seq::<Event>::empty());
    while k < events.len()
        invariant
            k <= events@.len(),
            s.wf(),
            forall|i: int| 0 <= i < events@.len() ==> (#[trigger] events@[i]).wf(),
            s@ == replay(start@, events@.take(k as int)),
        decreases events@.len() - k,
    {
        s.apply(&events[k]);
        assert(events@.take(k + 1).drop_last() =~= events@.take(k as int));
        k += 1;
    }
    assert(events@.take(k as int) =~= events@);
    s
}

/// What an `EventLog` holds.
pub struct LogModel {
    pub date: Date,
    pub filename: Seq<char>,
    pub initial: StateModel,
    pub current: StateModel,
    pub events: Seq<Event>,
}

/// Whether an event speaks of presence: `Active` and `Idle` set the
/// heartbeat marker, every other event leaves it alone.
pub open spec fn sets_beat(e: Event) -> bool {
    e is Active || e is Idle
}

impl LogModel {
    /// The log after `add_event(e)`. An event equal to one held changes
    /// nothing. Otherwise it takes its place in the events, and the current
    /// state is their replay from the initial state. An `Active` or `Idle`
    /// event gives the heartbeat marker of that replay; any other event
    /// keeps the marker held before, which refreshes may have moved.
    pub open spec fn added(self, e: Event) -> LogModel {
        if holds_equal(self.events, e) {
            self
        } else {
            let events = insert_event(self.events, e);
            let r = replay(self.initial, events);
            LogModel {
                events: events,
                current: r.with_beat(
                    if sets_beat(e) {
                        r.active_until
                    } else {
                        self.current.active_until
                    },
                ),
                ..self
            }
        }
    }

    /// The events are sorted and well formed, and the current state is their
    /// replay from the initial state, the heartbeat marker aside.
    pub open spec fn consistent(self) -> bool {
        &&& sorted_events(self.events)
        &&& forall|i: int| 0 <= i < self.events.len() ==> (#[trigger] self.events[i]).wf()
        &&& self.current.agrees(replay(self.initial, self.events))
    }

    /// The log with the heartbeat marker set to `beat`.
    pub open spec fn with_beat(self, beat: Option<Timestamp>) -> LogModel {
        LogModel { current: StateModel { active_until: beat, ..self.current }, ..self }
    }

    /// The user was last confirmed active more than `IDLE_GAP_MS` before `now`.
    pub open spec fn stale(self, now: Timestamp) -> bool {
        self.current.active_until matches Some(until) && now.millis - until.millis > IDLE_GAP_MS
    }

    /// The log after `infer_idle_at(now)`: a stale heartbeat becomes an
    /// `Idle` event at the instant of the heartbeat, and the marker is
    /// cleared.
    pub open spec fn idled(self, now: Timestamp) -> LogModel {
        if self.stale(now) {
            self.added(Event::Idle { time: self.current.active_until->0 }).with_beat(None)
        } else {
            self
        }
    }

    /// The log after `force_active_at(now)`: outside an active span an
    /// `Active` event is recorded; then the heartbeat marker is set to `now`.
    pub open spec fn forced(self, now: Timestamp) -> LogModel {
        let mid = if self.current.active_until is None {
            self.added(Event::Active { time: now })
        } else {
            self
        };
        mid.with_beat(Some(now))
    }

    /// The log after `refresh_active_at(now)`: inside an active span the
    /// heartbeat moves to `now`; no event is recorded.
    pub open spec fn refreshed(self, now: Timestamp) -> LogModel {
        if self.current.active_until is Some {
            self.with_beat(Some(now))
        } else {
            self
        }
    }

    /// The empty log that follows this one on `date`: its day starts from
    /// the current state with the totals set to zero.
    pub open spec fn next(self, date: Date, filename: Seq<char>) -> LogModel {
        LogModel {
            date: date,
            filename: filename,
            initial: self.current.reset(),
            current: self.current.reset(),
            events: Seq::empty(),
        }
    }
}

/// How long, in milliseconds, a heartbeat may go without renewal before the
/// user is taken to have gone idle at its instant: five minutes.
pub const IDLE_GAP_MS: i64 = 300_000;

/// The time spent on the log's day in each category, in milliseconds, and
/// which categories are open.
#[derive(Clone, Copy, Debug, PartialEq, Eq, Structural)]
pub struct ElapsedSummary {
    pub work_time: u64,
    pub break_time: u64,
    pub lunch_time: u64,
    pub idle_work_time: u64,
    pub working: bool,
    pub on_break: bool,
    pub on_lunch: bool,
    pub idle_work: bool,
}

/// What a date check did, for its caller to persist.
#[derive(Debug)]
pub struct DateRefresh {
    /// An `Idle` event was inferred from a stale heartbeat.
    pub injected_idle: bool,
    /// The stored date was not today, and a new log replaced the old one.
    pub rolled_over: bool,
    /// The replaced log, where the inferred event changed it.
    pub previous: Option<EventLog>,
    /// The heartbeat was refreshed in place.
    pub refreshed_active: bool,
}

/// Adding an event keeps a log consistent.
pub proof fn lemma_added_consistent(m: LogModel, e: Event)
    requires
        m.consistent(),
        e.wf(),
    ensures
        m.added(e).consistent(),
        m.added(e).initial == m.initial,
        m.added(e).events == insert_event(m.events, e),
{
    let s = m.events;
    if !holds_equal(s, e) {
        lemma_slot_exists(s, e);
        let p = slot(s, e);
        assert forall|j: int| p <= j < s.len() implies e.precedes(&(#[trigger] s[j])) by {
            assert(!s[j].precedes(&e));
            assert(s[j].order(&e) != Ordering::Equal);
            lemma_event_order_total(s[j], e, e);
        }
        lemma_insert_sorted(s, e, p);
        let t = s.insert(p, e);
        assert forall|i: int| 0 <= i < t.len() implies (#[trigger] t[i]).wf() by {
            if i < p {
                assert(t[i] == s[i]);
            } else if i > p {
                assert(t[i] == s[i - 1]);
            }
        }
    }
}

/// Putting an `Idle` event anywhere among the events leaves the working
/// tracker of their replay as it was.
pub proof fn lemma_replay_idle_keeps_working(start: StateModel, s: Seq<Event>, p: int, e: Event)
    requires
        0 <= p <= s.len(),
        e is Idle,
    ensures
        replay(start, s.insert(p, e)).working == replay(start, s).working,
    decreases s.len(),
{
    let t = s.insert(p, e);
    if p == s.len() {
        assert(t.drop_last() =~= s);
        lemma_applied_working(replay(start, s), replay(start, s), e);
    } else {
        let init = s.drop_last();
        assert(t.drop_last() =~= init.insert(p, e));
        assert(t.last() == s.last());
        lemma_replay_idle_keeps_working(start, init, p, e);
        lemma_applied_working(replay(start, t.drop_last()), replay(start, init), s.last());
    }
}

/// Inferring idleness never touches the working tracker, so an open
/// working span survives it with its start.
pub proof fn lemma_idle_keeps_working(m: LogModel, now: Timestamp)
    requires
        m.consistent(),
    ensures
        m.idled(now).current.working == m.current.working,
        m.idled(now).initial == m.initial,
{
    if m.stale(now) {
        let e = Event::Idle { time: m.current.active_until->0 };
        if !holds_equal(m.events, e) {
            lemma_slot_exists(m.events, e);
            lemma_replay_idle_keeps_working(m.initial, m.events, slot(m.events, e), e);
        }
    }
}

/// Adding two events at different instants gives the same log whichever
/// comes first, the heartbeat marker aside: the events are the same, and
/// each current state is their replay from the initial state.
pub proof fn lemma_added_in_any_order(m: LogModel, e1: Event, e2: Event)
    requires
        m.consistent(),
        e1.wf(),
        e2.wf(),
        e1.at().millis != e2.at().millis,
    ensures
        m.added(e1).added(e2).events == m.added(e2).added(e1).events,
        m.added(e1).added(e2).current.agrees(replay(m.initial, m.added(e1).added(e2).events)),
        m.added(e2).added(e1).current.agrees(replay(m.initial, m.added(e2).added(e1).events)),
{
    lemma_added_consistent(m, e1);
    lemma_added_consistent(m.added(e1), e2);
    lemma_added_consistent(m, e2);
    lemma_added_consistent(m.added(e2), e1);
    lemma_insert_commutes(m.events, e1, e2);
}

/// The events and states of one calendar day.
#[derive(Debug)]
pub struct EventLog {
    initial_state: State,
    current_state: State,
    events: Vec<Event>,
    date: Date,
    filename: String,
}

impl View for EventLog {
    type V = LogModel;

    closed spec fn view(&self) -> LogModel {
        LogModel {
            date: self.date,
            filename: self.filename@,
            initial: self.initial_state@,
            current: self.current_state@,
            events: self.events@,
        }
    }
}

impl EventLog {
    /// The events are sorted and well formed, and the current state is the
    /// replay of the events from the initial state, the heartbeat marker
    /// aside.
    pub closed spec fn wf(&self) -> bool {
        &&& self.date.wf()
        &&& self.initial_state.wf()
        &&& self.current_state.wf()
        &&& sorted_events(self.events@)
        &&& forall|i: int| 0 <= i < self.events@.len() ==> (#[trigger] self.events@[i]).wf()
        &&& self.current_state@.agrees(replay(self.initial_state@, self.events@))
    }

    /// The current state of a log is the initial state with its events
    /// applied in their order, whatever order they were added in; only the
    /// heartbeat marker, which refreshes move without events, may differ.
    pub proof fn lemma_current_is_replay(&self)
        requires
            self.wf(),
        ensures
            self@.consistent(),
            sorted_events(self@.events),
            self@.current.agrees(replay(self@.initial, self@.events)),
            self@.date.wf(),
    {
    }

    /// An empty log for `date` that starts from `initial_state`.
    pub fn new(filename: String, date: Date, initial_state: State) -> (r: EventLog)
        requires
            date.wf(),
            initial_state.wf(),
        ensures
            r.wf(),
            r@.filename == filename@,
            r@.date == date,
            r@.initial == initial_state@,
            r@.current == initial_state@,
            r@.events == Seq::<Event>::empty(),
    {
        EventLog {
            current_state: initial_state.clone(),
            initial_state,
            events: Vec::new(),
            date,
            filename,
        }
    }

    /// Rebuilds a log from its parts as they were stored: the events are put
    /// in order (an event equal to an earlier one is dropped), the current
    /// state is replayed from the initial one, and the stored heartbeat
    /// marker is kept. Stored parts that were consistent come back as they
    /// were.
    pub fn restore(
        filename: String,
        date: Date,
        initial_state: State,
        current_state: State,
        events: Vec<Event>,
    ) -> (r: EventLog)
        requires
            date.wf(),
            initial_state.wf(),
            forall|i: int| 0 <= i < events@.len() ==> (#[trigger] events@[i]).wf(),
        ensures
            r.wf(),
            r@.filename == filename@,
            r@.date == date,
            r@.initial == initial_state@,
            r@.events == insert_all(events@),
            r@.current == replay(initial_state@, insert_all(events@)).with_beat(
                current_state@.active_until,
            ),
            sorted_events(events@) && current_state@.agrees(replay(initial_state@, events@))
                ==> r@.events == events@ && r@.current == current_state@,
    {
        let ghost given = events@;
        let total = events.len();
        assert(given.len() == total);
        let mut rest = events;
        let mut sorted: Vec<Event> = Vec::new();
        let mut k: usize = 0;
        assert(given.take(0) =~= Seq::<Event>::empty());
        while rest.len() > 0
            invariant
                k <= given.len(),
                given.len() <= usize::MAX,
                rest@ == given.skip(k as int),
                sorted@ == insert_all(given.take(k as int)),
                sorted_events(sorted@),
                forall|i: int| 0 <= i < given.len() ==> (#[trigger] given[i]).wf(),
                forall|i: int| 0 <= i < sorted@.len() ==> (#[trigger] sorted@[i]).wf(),
            decreases rest@.len(),
        {
            assert(k < given.len());
            let e = rest.remove(0);
            assert(e == given[k as int]);
            assert(given.take(k + 1).drop_last() =~= given.take(k as int));
            insert_sorted(&mut sorted, e);
            k += 1;
            assert(rest@ =~= given.skip(k as int));
        }
        assert(given.take(k as int) =~= given);
        let mut current = replay_events(&initial_state, &sorted);
        current.set_active_until(current_state.active_until());
        proof {
            if sorted_events(given) {
                lemma_insert_all_sorted(given);
            }
        }
        EventLog { initial_state, current_state: current, events: sorted, date, filename }
    }

    /// Records `event`: it takes its place in the order, and the current
    /// state follows.
    pub fn add_event(&mut self, event: Event)
        requires
            old(self).wf(),
            event.wf(),
        ensures
            final(self).wf(),
            final(self)@ == old(self)@.added(event),
    {
        let presence = match &event {
            Event::Active { .. } | Event::Idle { .. } => true,
            _ => false,
        };
        if insert_sorted(&mut self.events, event).is_some() {
            let held = self.current_state.active_until();
            let mut s = replay_events(&self.initial_state, &self.events);
            if !presence {
                s.set_active_until(held);
            }
            self.current_state = s;
        }
    }

    /// A copy of the current state.
    pub fn get_state(&self) -> (r: State)
        requires
            self.wf(),
        ensures
            r.wf(),
            r@ == self@.current,
    {
        self.current_state.clone()
    }

    /// Where the heartbeat is more than `IDLE_GAP_MS` older than `now`,
    /// records an `Idle` event at the heartbeat's instant and says so.
    pub fn infer_idle_at(&mut self, now: Timestamp) -> (r: bool)
        requires
            old(self).wf(),
        ensures
            final(self).wf(),
            r == old(self)@.stale(now),
            final(self)@ == old(self)@.idled(now),
            r ==> final(self)@.current.active_until is None,
    {
        match self.current_state.active_until() {
            Some(until) => {
                if now.millis as i128 - until.millis as i128 > IDLE_GAP_MS as i128 {
                    self.add_event(Event::Idle { time: until });
                    self.current_state.set_active_until(None);
                    true
                } else {
                    false
                }
            },
            None => false,
        }
    }

    /// `infer_idle_at` the present instant.
    pub fn infer_idle(&mut self) -> (r: bool)
        requires
            old(self).wf(),
        ensures
            final(self).wf(),
            exists|t: Timestamp| r == old(self)@.stale(t) && final(self)@ == old(self)@.idled(t),
    {
        let t = now();
        self.infer_idle_at(t)
    }

    /// Marks the user present at `now`: outside an active span an `Active`
    /// event is recorded, and the heartbeat moves to `now`.
    pub fn force_active_at(&mut self, now: Timestamp)
        requires
            old(self).wf(),
        ensures
            final(self).wf(),
            final(self)@ == old(self)@.forced(now),
            final(self)@.current.active_until == Some(now),
    {
        if self.current_state.active_until().is_none() {
            self.add_event(Event::Active { time: now });
        }
        self.current_state.set_active_until(Some(now));
    }

    /// `force_active_at` the present instant.
    pub fn force_active(&mut self)
        requires
            old(self).wf(),
        ensures
            final(self).wf(),
            exists|t: Timestamp| final(self)@ == old(self)@.forced(t),
    {
        let t = now();
        self.force_active_at(t)
    }

    /// Inside an active span, moves the heartbeat to `now` and says so; no
    /// event is recorded.
    pub fn refresh_active_at(&mut self, now: Timestamp) -> (r: bool)
        requires
            old(self).wf(),
        ensures
            final(self).wf(),
            r == old(self)@.current.active_until is Some,
            final(self)@ == old(self)@.refreshed(now),
    {
        if self.current_state.active_until().is_some() {
            self.current_state.set_active_until(Some(now));
            true
        } else {
            false
        }
    }

    /// `refresh_active_at` the present instant; says whether the log changed
    /// and needs to be saved.
    pub fn refresh_active(&mut self) -> (r: bool)
        requires
            old(self).wf(),
        ensures
            final(self).wf(),
            r == old(self)@.current.active_until is Some,
            exists|t: Timestamp| final(self)@ == old(self)@.refreshed(t),
    {
        let t = now();
        self.refresh_active_at(t)
    }

    /// The log that follows this one on `date`, stored under `filename`: it
    /// starts from the current state with the four totals set to zero, so
    /// open spans carry over with their start.
    pub fn next_day_log(&self, date: Date, filename: String) -> (r: EventLog)
        requires
            self.wf(),
            date.wf(),
        ensures
            r.wf(),
            r@ == self@.next(date, filename@),
            r@.initial.working == (TrackedTime {
                since: self@.current.working.since,
                accumulated: 0,
            }),
    {
        let mut initial = self.current_state.clone();
        initial.reset_accumulations();
        EventLog::new(filename, date, initial)
    }

    /// The decisions of a date check at `now`, whose calendar day is `today`,
    /// against the date last stored: a stale heartbeat becomes an `Idle`
    /// event; a new day replaces the log with the next one (stored under
    /// `filename`) and hands back the old one, for the caller to persist the
    /// new log before it lets the old one go (and to put the old one back
    /// should that fail); then the heartbeat is renewed (after an inferred
    /// idle, when `renew_active`) or refreshed (when `refresh_active`). An
    /// open working span carries over to the new day with its start.
    pub fn refresh_date_at(
        &mut self,
        now: Timestamp,
        today: Date,
        stored_date: Date,
        filename: String,
        renew_active: bool,
        refresh_active: bool,
    ) -> (r: DateRefresh)
        requires
            old(self).wf(),
            today.wf(),
        ensures
            final(self).wf(),
            r.injected_idle == old(self)@.stale(now),
            r.rolled_over == (stored_date != today),
            r.previous is Some <==> r.rolled_over,
            r.previous matches Some(p) ==> p.wf() && p@ == old(self)@.idled(now),
            r.rolled_over ==> final(self)@.date == today && final(self)@.initial.working == (
            TrackedTime { since: old(self)@.current.working.since, accumulated: 0 }),
            ({
                let checked = old(self)@.idled(now);
                let dated = if r.rolled_over {
                    checked.next(today, filename@)
                } else {
                    checked
                };
                &&& r.refreshed_active == (!(renew_active && r.injected_idle) && refresh_active
                    && dated.current.active_until is Some)
                &&& final(self)@ == if renew_active && r.injected_idle {
                    dated.forced(now)
                } else if refresh_active {
                    dated.refreshed(now)
                } else {
                    dated
                }
            }),
    {
        let injected_idle = self.infer_idle_at(now);
        let rolled_over = stored_date != today;
        let mut previous: Option<EventLog> = None;
        if rolled_over {
            proof {
                lemma_idle_keeps_working(old(self)@, now);
            }
            let mut next = self.next_day_log(today, filename);
            core::mem::swap(self, &mut next);
            previous = Some(next);
        }
        let mut refreshed_active = false;
        if renew_active && injected_idle {
            self.force_active_at(now);
        } else if refresh_active {
            refreshed_active = self.refresh_active_at(now);
        }
        DateRefresh { injected_idle, rolled_over, previous, refreshed_active }
    }

    /// The time spent in each category within `[day_start, min(now, day_end))`
    /// together with what was closed before, and which categories are open.
    pub fn elapsed_at(&self, day_start: Option<i64>, day_end: Option<i64>, now: Timestamp) -> (r: ElapsedSummary)
        ensures
            r.work_time == self@.current.working.within(day_start, day_end, now),
            r.break_time == self@.current.on_break.within(day_start, day_end, now),
            r.lunch_time == self@.current.on_lunch.within(day_start, day_end, now),
            r.idle_work_time == self@.current.idle_work.within(day_start, day_end, now),
            r.working == self@.current.working.since is Some,
            r.on_break == self@.current.on_break.since is Some,
            r.on_lunch == self@.current.on_lunch.since is Some,
            r.idle_work == self@.current.idle_work.since is Some,
    {
        let state = &self.current_state;
        let working = state.working();
        let on_break = state.on_break();
        let on_lunch = state.on_lunch();
        let idle_work = state.idle_work();
        ElapsedSummary {
            work_time: working.elapsed_between(day_start, day_end, now),
            break_time: on_break.elapsed_between(day_start, day_end, now),
            lunch_time: on_lunch.elapsed_between(day_start, day_end, now),
            idle_work_time: idle_work.elapsed_between(day_start, day_end, now),
            working: working.active(),
            on_break: on_break.active(),
            on_lunch: on_lunch.active(),
            idle_work: idle_work.active(),
        }
    }

    /// `elapsed_at` for the log's date, bounded by its local midnights, now.
    pub fn elapsed(&self) -> (r: ElapsedSummary)
        requires
            self.wf(),
        ensures
            exists|s: Option<i64>, e: Option<i64>, t: Timestamp| {
                &&& r.work_time == self@.current.working.within(s, e, t)
                &&& r.break_time == self@.current.on_break.within(s, e, t)
                &&& r.lunch_time == self@.current.on_lunch.within(s, e, t)
                &&& r.idle_work_time == self@.current.idle_work.within(s, e, t)
            },
            r.working == self@.current.working.since is Some,
            r.on_break == self@.current.on_break.since is Some,
            r.on_lunch == self@.current.on_lunch.since is Some,
            r.idle_work == self@.current.idle_work.since is Some,
    {
        let t = now();
        let day_start = local_midnight(self.date);
        let day_end = match next_day(self.date) {
            Some(next) => local_midnight(next),
            None => None,
        };
        self.elapsed_at(day_start, day_end, t)
    }

    /// The calendar day of the log.
    pub fn date(&self) -> (r: Date)
        ensures
            r == self@.date,
    {
        self.date
    }

    /// Where the log is stored.
    pub fn filename(&self) -> (r: &String)
        ensures
            r@ == self@.filename,
    {
        &self.filename
    }

    /// The state at the start of the day.
    pub fn initial_state(&self) -> (r: &State)
        ensures
            r@ == self@.initial,
    {
        &self.initial_state
    }

    /// The events, in order.
    pub fn events(&self) -> (r: &Vec<Event>)
        ensures
            r@ == self@.events,
    {
        &self.events
    }
}

} // verus!
