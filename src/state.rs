//! The state of a day: four single-category trackers, the shared task
//! tracker and the heartbeat marker, and how one event changes it.
use crate::accumulator::{MultiModel, TrackedMultiTime, TrackedTime};
use crate::event::{ClockType, Event};
use crate::time::Timestamp;
use vstd::prelude::*;

verus! {

/// What a `State` holds.
pub struct StateModel {
    pub working: TrackedTime,
    pub on_break: TrackedTime,
    pub on_lunch: TrackedTime,
    pub idle_work: TrackedTime,
    pub active_until: Option<Timestamp>,
    pub tasks: MultiModel,
}

impl StateModel {
    /// The state after `event`.
    pub open spec fn applied(self, event: Event) -> StateModel {
        match event {
            Event::ClockIn { time, clock: ClockType::Day } => StateModel {
                working: self.working.started(time),
                idle_work: if self.active_until is None {
                    self.idle_work.started(time)
                } else {
                    self.idle_work
                },
                ..self
            },
            Event::ClockIn { time, clock: ClockType::Break } => StateModel {
                on_break: self.on_break.started(time),
                working: self.working.started(time),
                on_lunch: self.on_lunch.ended(time),
                idle_work: self.idle_work.ended(time),
                tasks: self.tasks.paused(time),
                ..self
            },
            Event::ClockIn { time, clock: ClockType::Lunch } => StateModel {
                on_lunch: self.on_lunch.started(time),
                working: self.working.started(time),
                on_break: self.on_break.ended(time),
                idle_work: self.idle_work.ended(time),
                tasks: self.tasks.paused(time),
                ..self
            },
            Event::ClockOut { time, clock: ClockType::Day } => StateModel {
                working: self.working.ended(time),
                on_break: self.on_break.ended(time),
                on_lunch: self.on_lunch.ended(time),
                idle_work: self.idle_work.ended(time),
                tasks: self.tasks.paused(time),
                ..self
            },
            Event::ClockOut { time, clock: ClockType::Break } => StateModel {
                on_break: self.on_break.ended(time),
                tasks: self.tasks.resumed(time),
                ..self
            },
            Event::ClockOut { time, clock: ClockType::Lunch } => StateModel {
                on_lunch: self.on_lunch.ended(time),
                tasks: self.tasks.resumed(time),
                ..self
            },
            Event::Active { time } => StateModel {
                active_until: Some(time),
                idle_work: self.idle_work.ended(time),
                ..self
            },
            Event::Idle { time } => StateModel {
                active_until: None,
                idle_work: if self.working.since is Some && self.on_break.since is None
                    && self.on_lunch.since is None {
                    self.idle_work.started(time)
                } else {
                    self.idle_work
                },
                ..self
            },
            Event::Tasks { time, tasks } => StateModel {
                tasks: self.tasks.retracked(time, tasks@),
                ..self
            },
        }
    }

    /// The state with the four totals set to zero; open spans, the task
    /// tracker and the heartbeat stay.
    pub open spec fn reset(self) -> StateModel {
        StateModel {
            working: TrackedTime { accumulated: 0, ..self.working },
            on_break: TrackedTime { accumulated: 0, ..self.on_break },
            on_lunch: TrackedTime { accumulated: 0, ..self.on_lunch },
            idle_work: TrackedTime { accumulated: 0, ..self.idle_work },
            ..self
        }
    }

    /// `self` with the heartbeat marker set to `beat`.
    pub open spec fn with_beat(self, beat: Option<Timestamp>) -> StateModel {
        StateModel { active_until: beat, ..self }
    }

    /// Two states that differ at most in the heartbeat marker.
    pub open spec fn agrees(self, other: StateModel) -> bool {
        self.with_beat(other.active_until) == other
    }
}

/// The working tracker after an event depends on the working tracker
/// before it and on the event alone; an `Idle` or `Active` event leaves it
/// as it was.
pub proof fn lemma_applied_working(a: StateModel, b: StateModel, e: Event)
    requires
        a.working == b.working,
    ensures
        a.applied(e).working == b.applied(e).working,
        (e is Idle || e is Active) ==> a.applied(e).working == a.working,
{
}

/// The state of the day.
#[derive(Debug)]
pub struct State {
    working: TrackedTime,
    on_break: TrackedTime,
    on_lunch: TrackedTime,
    idle_work: TrackedTime,
    active_until: Option<Timestamp>,
    tasks: TrackedMultiTime,
}

impl View for State {
    type V = StateModel;

    closed spec fn view(&self) -> StateModel {
        StateModel {
            working: self.working,
            on_break: self.on_break,
            on_lunch: self.on_lunch,
            idle_work: self.idle_work,
            active_until: self.active_until,
            tasks: self.tasks@,
        }
    }
}

impl Clone for State {
    fn clone(&self) -> (r: Self)
        ensures
            r@ == self@,
            self.wf() ==> r.wf(),
    {
        State {
            working: self.working,
            on_break: self.on_break,
            on_lunch: self.on_lunch,
            idle_work: self.idle_work,
            active_until: self.active_until,
            tasks: self.tasks.clone(),
        }
    }
}

impl Default for State {
    fn default() -> (r: Self)
        ensures
            r.wf(),
            r@.working == (TrackedTime { since: None, accumulated: 0 }),
            r@.on_break == (TrackedTime { since: None, accumulated: 0 }),
            r@.on_lunch == (TrackedTime { since: None, accumulated: 0 }),
            r@.idle_work == (TrackedTime { since: None, accumulated: 0 }),
            r@.active_until is None,
            r@.tasks.since is None,
            r@.tasks.ids == Seq::<u32>::empty(),
            r@.tasks.accumulated == Map::<u32, u64>::empty(),
    {
        State {
            working: TrackedTime { since: None, accumulated: 0 },
            on_break: TrackedTime { since: None, accumulated: 0 },
            on_lunch: TrackedTime { since: None, accumulated: 0 },
            idle_work: TrackedTime { since: None, accumulated: 0 },
            active_until: None,
            tasks: TrackedMultiTime::default(),
        }
    }
}

impl State {
    /// The task tracker is well formed.
    pub closed spec fn wf(&self) -> bool {
        self.tasks.wf()
    }

    /// A state from its parts as they were stored.
    pub fn from_parts(
        working: TrackedTime,
        on_break: TrackedTime,
        on_lunch: TrackedTime,
        idle_work: TrackedTime,
        active_until: Option<Timestamp>,
        tasks: TrackedMultiTime,
    ) -> (r: State)
        requires
            tasks.wf(),
        ensures
            r.wf(),
            r@ == (StateModel { working, on_break, on_lunch, idle_work, active_until, tasks: tasks@ }),
    {
        State { working, on_break, on_lunch, idle_work, active_until, tasks }
    }

    /// Brings `event` into the state.
    pub fn apply(&mut self, event: &Event)
        requires
            old(self).wf(),
            event.wf(),
        ensures
            final(self).wf(),
            final(self)@ == old(self)@.applied(*event),
    {
        match event {
            Event::ClockIn { time, clock } => match clock {
                ClockType::Day => {
                    self.working.start_at(*time);
                    if self.active_until.is_none() {
                        self.idle_work.start_at(*time);
                    }
                },
                ClockType::Break => {
                    self.on_break.start_at(*time);
                    self.working.start_at(*time);
                    self.on_lunch.end_at(*time);
                    self.idle_work.end_at(*time);
                    self.tasks.pause(*time);
                },
                ClockType::Lunch => {
                    self.on_lunch.start_at(*time);
                    self.working.start_at(*time);
                    self.on_break.end_at(*time);
                    self.idle_work.end_at(*time);
                    self.tasks.pause(*time);
                },
            },
            Event::ClockOut { time, clock } => match clock {
                ClockType::Day => {
                    self.working.end_at(*time);
                    self.on_break.end_at(*time);
                    self.on_lunch.end_at(*time);
                    self.idle_work.end_at(*time);
                    self.tasks.pause(*time);
                },
                ClockType::Break => {
                    self.on_break.end_at(*time);
                    self.tasks.resume(*time);
                },
                ClockType::Lunch => {
                    self.on_lunch.end_at(*time);
                    self.tasks.resume(*time);
                },
            },
            Event::Active { time } => {
                self.active_until = Some(*time);
                self.idle_work.end_at(*time);
            },
            Event::Idle { time } => {
                self.active_until = None;
                if self.working.active() && !self.on_break.active() && !self.on_lunch.active() {
                    self.idle_work.start_at(*time);
                }
            },
            Event::Tasks { time, tasks } => {
                self.tasks.set_tracked(*time, tasks.clone());
            },
        }
    }

    /// Sets the four totals to zero and keeps every open span.
    pub fn reset_accumulations(&mut self)
        ensures
            final(self).wf() == old(self).wf(),
            final(self)@ == old(self)@.reset(),
    {
        self.working.accumulated = 0;
        self.on_break.accumulated = 0;
        self.on_lunch.accumulated = 0;
        self.idle_work.accumulated = 0;
    }

    /// The heartbeat marker: active up to this instant, if active.
    pub fn active_until(&self) -> (r: Option<Timestamp>)
        ensures
            r == self@.active_until,
    {
        self.active_until
    }

    pub(crate) fn set_active_until(&mut self, beat: Option<Timestamp>)
        ensures
            final(self).wf() == old(self).wf(),
            final(self)@ == (StateModel { active_until: beat, ..old(self)@ }),
    {
        self.active_until = beat;
    }

    /// The working tracker.
    pub fn working(&self) -> (r: TrackedTime)
        ensures
            r == self@.working,
    {
        self.working
    }

    /// The break tracker.
    pub fn on_break(&self) -> (r: TrackedTime)
        ensures
            r == self@.on_break,
    {
        self.on_break
    }

    /// The lunch tracker.
    pub fn on_lunch(&self) -> (r: TrackedTime)
        ensures
            r == self@.on_lunch,
    {
        self.on_lunch
    }

    /// The tracker of idle time while working.
    pub fn idle_work(&self) -> (r: TrackedTime)
        ensures
            r == self@.idle_work,
    {
        self.idle_work
    }

    /// The task tracker.
    pub fn tasks(&self) -> (r: &TrackedMultiTime)
        ensures
            r@ == self@.tasks,
    {
        &self.tasks
    }
}

} // verus!
