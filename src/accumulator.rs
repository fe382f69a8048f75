//! Duration accumulators: one for a single category, one that shares the
//! elapsed time among a set of keys.
use crate::tasks::{TaskID, TaskSet};
use crate::time::{
    add_duration, local_midnight, next_day, now, sat_add, span_between, span_ms, Date, Timestamp,
};
use std::collections::BTreeMap;
use vstd::prelude::*;

verus! {

broadcast use vstd::std_specs::btree::group_btree_axioms;

/// Tracks one category: since when it has been active, if it is, and the
/// time (in milliseconds) of the spans that have already ended.
#[derive(Clone, Copy, Debug, PartialEq, Eq, Structural, Default)]
pub struct TrackedTime {
    pub since: Option<Timestamp>,
    pub accumulated: u64,
}

impl TrackedTime {
    /// The tracker after `start_at(time)`.
    pub open spec fn started(self, time: Timestamp) -> TrackedTime {
        if self.since is Some {
            self
        } else {
            TrackedTime { since: Some(time), accumulated: self.accumulated }
        }
    }

    /// The tracker after `end_at(time)`.
    pub open spec fn ended(self, time: Timestamp) -> TrackedTime {
        match self.since {
            Some(start) => TrackedTime {
                since: None,
                accumulated: sat_add(self.accumulated, span_ms(start, time) as int),
            },
            None => self,
        }
    }

    /// Starts the span at `time`; a tracker already active keeps its start.
    pub fn start_at(&mut self, time: Timestamp)
        ensures
            *final(self) == old(self).started(time),
    {
        if self.since.is_none() {
            self.since = Some(time);
        }
    }

    /// Ends the open span at `time` and adds its length (zero if `time` comes
    /// first) to the total; an inactive tracker is left as it is.
    pub fn end_at(&mut self, time: Timestamp)
        ensures
            *final(self) == old(self).ended(time),
    {
        if let Some(start) = self.since {
            self.accumulated = add_duration(self.accumulated, span_between(start, time));
            self.since = None;
        }
    }

    /// Whether a span is open.
    pub fn active(&self) -> (r: bool)
        ensures
            r == self.since is Some,
    {
        self.since.is_some()
    }

    /// The time counted within one day: the closed spans, plus the part of
    /// the open span, if any, that lies in `[day_start, min(now, day_end))`.
    /// An unknown bound leaves that side of the window open.
    pub open spec fn within(self, day_start: Option<i64>, day_end: Option<i64>, now: Timestamp) -> u64 {
        match self.since {
            None => self.accumulated,
            Some(since) => {
                let end = match day_end {
                    Some(e) => if e < now.millis { e as int } else { now.millis as int },
                    None => now.millis as int,
                };
                let start = match day_start {
                    Some(s) => if since.millis < s { s as int } else { since.millis as int },
                    None => since.millis as int,
                };
                if since.millis < end && start < end {
                    sat_add(self.accumulated, end - start)
                } else {
                    self.accumulated
                }
            },
        }
    }

    /// `within` computed for given window bounds and a given present instant.
    pub fn elapsed_between(&self, day_start: Option<i64>, day_end: Option<i64>, now: Timestamp) -> (r: u64)
        ensures
            r == self.within(day_start, day_end, now),
    {
        match self.since {
            None => self.accumulated,
            Some(since) => {
                let end: i64 = match day_end {
                    Some(e) => if e < now.millis { e } else { now.millis },
                    None => now.millis,
                };
                let start: i64 = match day_start {
                    Some(s) => if since.millis < s { s } else { since.millis },
                    None => since.millis,
                };
                if since.millis < end && start < end {
                    add_duration(self.accumulated, (end as i128 - start as i128) as u64)
                } else {
                    self.accumulated
                }
            },
        }
    }

    /// The time counted on `date` up to now, in the machine's time zone.
    pub fn elapsed_for_date(&self, date: Date) -> (r: u64)
        requires
            date.wf(),
        ensures
            exists|s: Option<i64>, e: Option<i64>, t: Timestamp| r == self.within(s, e, t),
            self.since is None ==> r == self.accumulated,
            r >= self.accumulated,
    {
        let now = now();
        let day_start = local_midnight(date);
        let day_end = match next_day(date) {
            Some(next) => local_midnight(next),
            None => None,
        };
        self.elapsed_between(day_start, day_end, now)
    }
}

/// The steps a tracker can be given, in order: `(true, t)` is `start_at(t)`,
/// `(false, t)` is `end_at(t)`.
pub open spec fn run(t: TrackedTime, steps: Seq<(bool, Timestamp)>) -> TrackedTime
    decreases steps.len(),
{
    if steps.len() == 0 {
        t
    } else {
        let next = if steps[0].0 {
            t.started(steps[0].1)
        } else {
            t.ended(steps[0].1)
        };
        run(next, steps.skip(1))
    }
}

/// The total length of the spans that `steps` close, where a span runs from
/// the first start after the tracker was inactive (or from `open`) to the
/// next end.
pub open spec fn closed_spans(open: Option<Timestamp>, steps: Seq<(bool, Timestamp)>) -> nat
    decreases steps.len(),
{
    if steps.len() == 0 {
        0
    } else if steps[0].0 {
        closed_spans(if open is Some { open } else { Some(steps[0].1) }, steps.skip(1))
    } else {
        match open {
            Some(s) => span_ms(s, steps[0].1) + closed_spans(None, steps.skip(1)),
            None => closed_spans(None, steps.skip(1)),
        }
    }
}

/// Whatever the order of starts and ends, the total a tracker reaches is
/// what it had plus the length of every span that was closed, as long as
/// that sum fits in a `u64` (totals saturate there, over 584 years); and
/// a sequence that closes with an end leaves the tracker inactive.
pub proof fn lemma_run_sums_spans(t: TrackedTime, steps: Seq<(bool, Timestamp)>)
    requires
        t.accumulated + closed_spans(t.since, steps) <= u64::MAX,
    ensures
        run(t, steps).accumulated == t.accumulated + closed_spans(t.since, steps),
        steps.len() > 0 && !steps.last().0 ==> run(t, steps).since is None,
    decreases steps.len(),
{
    if steps.len() > 1 {
        assert(steps.skip(1).last() == steps.last());
    }
    if steps.len() > 0 {
        let next = if steps[0].0 {
            t.started(steps[0].1)
        } else {
            t.ended(steps[0].1)
        };
        lemma_run_sums_spans(next, steps.skip(1));
    }
}

/// What a shared tracker holds: since when it has been running, if it is,
/// the keys that share its time, and the time credited to each key.
pub struct MultiModel {
    pub since: Option<Timestamp>,
    pub ids: Seq<u32>,
    pub accumulated: Map<u32, u64>,
}

/// The time credited to `k`, zero for a key never credited.
pub open spec fn credited(m: Map<u32, u64>, k: u32) -> u64 {
    if m.contains_key(k) {
        m[k]
    } else {
        0
    }
}

/// `m` with `share` added to the time of every key in `ids`.
pub open spec fn credit(m: Map<u32, u64>, ids: Seq<u32>, share: u64) -> Map<u32, u64> {
    Map::new(
        |k: u32| m.contains_key(k) || ids.contains(k),
        |k: u32|
            if ids.contains(k) {
                sat_add(credited(m, k), share as int)
            } else {
                m[k]
            },
    )
}

/// The map that a list of `(key, time)` entries describes; a later entry
/// for a key replaces an earlier one.
pub open spec fn entries_map(entries: Seq<(TaskID, u64)>) -> Map<u32, u64>
    decreases entries.len(),
{
    if entries.len() == 0 {
        Map::empty()
    } else {
        entries_map(entries.drop_last()).insert(entries.last().0.0, entries.last().1)
    }
}

impl MultiModel {
    /// The tracker after `pause(time)`: a running tracker stops and shares
    /// the time since it started evenly (rounded down to the millisecond)
    /// among its keys; with no keys the time is dropped.
    pub open spec fn paused(self, time: Timestamp) -> MultiModel {
        match self.since {
            None => self,
            Some(start) => MultiModel {
                since: None,
                ids: self.ids,
                accumulated: if self.ids.len() > 0 {
                    credit(self.accumulated, self.ids, (span_ms(start, time) / self.ids.len()) as u64)
                } else {
                    self.accumulated
                },
            },
        }
    }

    /// The tracker after `resume(time)`.
    pub open spec fn resumed(self, time: Timestamp) -> MultiModel {
        if self.since is Some {
            self
        } else {
            MultiModel { since: Some(time), ..self }
        }
    }

    /// The tracker after `set_tracked(time, ids)`: paused, given the new
    /// keys, and running again only if it was running before.
    pub open spec fn retracked(self, time: Timestamp, ids: Seq<u32>) -> MultiModel {
        let p = MultiModel { ids: ids, ..self.paused(time) };
        if self.since is Some {
            p.resumed(time)
        } else {
            p
        }
    }
}

/// Tracks a set of keys that share one clock.
#[derive(Debug)]
pub struct TrackedMultiTime {
    since: Option<Timestamp>,
    ids: TaskSet,
    accumulated: BTreeMap<u32, u64>,
    credited_ids: TaskSet,
}

impl View for TrackedMultiTime {
    type V = MultiModel;

    closed spec fn view(&self) -> MultiModel {
        MultiModel { since: self.since, ids: self.ids@, accumulated: self.accumulated@ }
    }
}

impl Clone for TrackedMultiTime {
    fn clone(&self) -> (r: Self)
        ensures
            r@ == self@,
            self.wf() ==> r.wf(),
    {
        TrackedMultiTime {
            since: self.since,
            ids: self.ids.clone(),
            accumulated: self.accumulated.clone(),
            credited_ids: self.credited_ids.clone(),
        }
    }
}

impl Default for TrackedMultiTime {
    fn default() -> (r: Self)
        ensures
            r.wf(),
            r@.since is None,
            r@.ids == Seq::<u32>::empty(),
            r@.accumulated == Map::<u32, u64>::empty(),
    {
        let r = TrackedMultiTime {
            since: None,
            ids: TaskSet::new(),
            accumulated: BTreeMap::new(),
            credited_ids: TaskSet::new(),
        };
        assert(r.credited_ids.members() =~= r.accumulated@.dom());
        r
    }
}

impl TrackedMultiTime {
    /// The keys are strictly increasing, and the credited keys are listed.
    pub closed spec fn wf(&self) -> bool {
        &&& self.ids.wf()
        &&& self.credited_ids.wf()
        &&& self.credited_ids.members() == self.accumulated@.dom()
    }

    /// Stops a running tracker and shares out its time; says whether it was
    /// running.
    pub fn pause(&mut self, time: Timestamp) -> (r: bool)
        requires
            old(self).wf(),
        ensures
            final(self).wf(),
            r == old(self)@.since is Some,
            final(self)@ == old(self)@.paused(time),
    {
        match self.since {
            None => false,
            Some(start) => {
                self.since = None;
                let n = self.ids.len();
                if n > 0 {
                    let share = span_between(start, time) / (n as u64);
                    let ghost acc0 = self.accumulated@;
                    let ghost ids = self.ids@;
                    let mut i: usize = 0;
                    assert(credit(acc0, ids.take(0), share) =~= acc0);
                    while i < n
                        invariant
                            n == ids.len(),
                            i <= n,
                            ids == self.ids@,
                            self.since is None,
                            self.ids.wf(),
                            self.credited_ids.wf(),
                            self.credited_ids.members() == self.accumulated@.dom(),
                            self.accumulated@ == credit(acc0, ids.take(i as int), share),
                        decreases n - i,
                    {
                        let id = self.ids.id_at(i);
                        assert(!ids.take(i as int).contains(id)) by {
                            if ids.take(i as int).contains(id) {
                                let k = choose|k: int| 0 <= k < i && #[trigger] ids.take(i as int)[k] == id;
                                assert(ids[k] < ids[i as int]);
                            }
                        }
                        let cur: u64 = match self.accumulated.get(&id) {
                            Some(d) => *d,
                            None => {
                                self.credited_ids.insert(TaskID(id));
                                0
                            },
                        };
                        self.accumulated.insert(id, add_duration(cur, share));
                        assert(self.accumulated@ =~= credit(acc0, ids.take(i + 1), share)) by {
                            assert forall|k: u32| ids.take(i + 1).contains(k) <==> (ids.take(
                                i as int,
                            ).contains(k) || k == id) by {
                                if ids.take(i + 1).contains(k) {
                                    let j = choose|j: int| 0 <= j < i + 1 && #[trigger] ids.take(i + 1)[j] == k;
                                    if j < i {
                                        assert(ids.take(i as int)[j] == k);
                                    }
                                }
                                if ids.take(i as int).contains(k) {
                                    let j = choose|j: int| 0 <= j < i && #[trigger] ids.take(i as int)[j] == k;
                                    assert(ids.take(i + 1)[j] == k);
                                }
                                if k == id {
                                    assert(ids.take(i + 1)[i as int] == k);
                                }
                            }
                        }
                        assert(self.credited_ids.members() =~= self.accumulated@.dom());
                        i += 1;
                    }
                    assert(ids.take(n as int) =~= ids);
                }
                true
            },
        }
    }

    /// Starts a stopped tracker at `time`; says whether it was stopped.
    pub fn resume(&mut self, time: Timestamp) -> (r: bool)
        requires
            old(self).wf(),
        ensures
            final(self).wf(),
            r == old(self)@.since is None,
            final(self)@ == old(self)@.resumed(time),
    {
        if self.since.is_none() {
            self.since = Some(time);
            true
        } else {
            false
        }
    }

    /// Replaces the keys at `time`: the time so far goes to the old keys,
    /// and a running tracker goes on running for the new ones.
    pub fn set_tracked(&mut self, time: Timestamp, ids: TaskSet)
        requires
            old(self).wf(),
            ids.wf(),
        ensures
            final(self).wf(),
            final(self)@ == old(self)@.retracked(time, ids@),
    {
        let paused = self.pause(time);
        self.ids = ids;
        if paused {
            self.resume(time);
        }
    }

    /// A tracker from its parts as they were stored.
    pub fn from_parts(since: Option<Timestamp>, ids: TaskSet, entries: Vec<(TaskID, u64)>) -> (r: TrackedMultiTime)
        requires
            ids.wf(),
        ensures
            r.wf(),
            r@ == (MultiModel { since, ids: ids@, accumulated: entries_map(entries@) }),
    {
        let mut accumulated: BTreeMap<u32, u64> = BTreeMap::new();
        let mut credited_ids = TaskSet::new();
        let mut k: usize = 0;
        assert(entries@.take(0) =~= Seq::<(TaskID, u64)>::empty());
        assert(credited_ids.members() =~= accumulated@.dom());
        while k < entries.len()
            invariant
                k <= entries@.len(),
                credited_ids.wf(),
                credited_ids.members() == accumulated@.dom(),
                accumulated@ == entries_map(entries@.take(k as int)),
            decreases entries@.len() - k,
        {
            let (id, d) = entries[k];
            accumulated.insert(id.0, d);
            credited_ids.insert(id);
            assert(entries@.take(k + 1).drop_last() =~= entries@.take(k as int));
            assert(credited_ids.members() =~= accumulated@.dom());
            k += 1;
        }
        assert(entries@.take(k as int) =~= entries@);
        TrackedMultiTime { since, ids, accumulated, credited_ids }
    }

    /// The time credited to each key, keys in increasing order.
    pub fn entries(&self) -> (r: Vec<(TaskID, u64)>)
        requires
            self.wf(),
        ensures
            entries_map(r@) == self@.accumulated,
    {
        let mut r: Vec<(TaskID, u64)> = Vec::new();
        let n = self.credited_ids.len();
        let mut k: usize = 0;
        let ghost keys = self.credited_ids@;
        assert(entries_map(r@) =~= self.accumulated@.restrict(keys.take(0).to_set()));
        while k < n
            invariant
                n == keys.len(),
                k <= n,
                keys == self.credited_ids@,
                self.wf(),
                entries_map(r@) == self.accumulated@.restrict(keys.take(k as int).to_set()),
            decreases n - k,
        {
            let id = self.credited_ids.id_at(k);
            assert(keys.to_set().contains(id));
            let d: u64 = match self.accumulated.get(&id) {
                Some(d) => *d,
                None => 0,
            };
            let ghost before = r@;
            r.push((TaskID(id), d));
            assert(r@.drop_last() =~= before);
            assert(keys.take(k + 1).to_set() =~= keys.take(k as int).to_set().insert(id)) by {
                assert(keys.take(k + 1) =~= keys.take(k as int).push(id));
                keys.take(k as int).lemma_push_to_set_commute(id);
            }
            assert(entries_map(r@) =~= self.accumulated@.restrict(keys.take(k + 1).to_set()));
            k += 1;
        }
        assert(keys.take(n as int) =~= keys);
        assert(self.accumulated@.restrict(keys.to_set()) =~= self.accumulated@);
        r
    }

    /// Whether the tracker is running.
    pub fn active(&self) -> (r: bool)
        ensures
            r == self@.since is Some,
    {
        self.since.is_some()
    }

    /// Since when the tracker has been running, if it is.
    pub fn since(&self) -> (r: Option<Timestamp>)
        ensures
            r == self@.since,
    {
        self.since
    }

    /// The keys that currently share the time.
    pub fn ids(&self) -> (r: TaskSet)
        ensures
            r@ == self@.ids,
    {
        self.ids.clone()
    }

    /// The time credited so far to `id`.
    pub fn accumulated_for(&self, id: TaskID) -> (r: u64)
        ensures
            r == credited(self@.accumulated, id.0),
    {
        match self.accumulated.get(&id.0) {
            Some(d) => *d,
            None => 0,
        }
    }
}

} // verus!
