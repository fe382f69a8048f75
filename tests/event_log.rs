use std::cmp::Ordering;
use work_warden::event::{ClockType, Event};
use work_warden::event_log::{EventLog, IDLE_GAP_MS};
use work_warden::accumulator::{TrackedMultiTime, TrackedTime};
use work_warden::state::State;
use work_warden::tasks::{TaskID, TaskSet};
use work_warden::time::{Date, Timestamp};

const MINUTE: i64 = 60_000;
const HOUR: i64 = 60 * MINUTE;
const T0: i64 = 1_700_000_000_000;

fn at(millis: i64) -> Timestamp {
    Timestamp { millis, offset_secs: 3600 }
}

fn day() -> Date {
    Date { year: 2023, month: 11, day: 14 }
}

fn fresh() -> EventLog {
    EventLog::new("2023-11-14.log.json".to_string(), day(), State::default())
}

fn clock_in(clock: ClockType, t: i64) -> Event {
    Event::ClockIn { time: at(t), clock }
}

fn clock_out(clock: ClockType, t: i64) -> Event {
    Event::ClockOut { time: at(t), clock }
}

fn set_of(ids: &[u32]) -> TaskSet {
    let mut s = TaskSet::new();
    for &id in ids {
        s.insert(TaskID(id));
    }
    s
}

#[test]
fn day_with_a_break() {
    let mut log = fresh();
    log.add_event(clock_in(ClockType::Day, T0));
    log.add_event(clock_in(ClockType::Break, T0 + HOUR));
    log.add_event(clock_out(ClockType::Break, T0 + HOUR + 15 * MINUTE));
    log.add_event(clock_out(ClockType::Day, T0 + 9 * HOUR));
    let s = log.get_state();
    assert_eq!(s.working().accumulated, (9 * HOUR) as u64);
    assert_eq!(s.on_break().accumulated, (15 * MINUTE) as u64);
    assert!(!s.working().active());
    assert!(!s.on_break().active());
}

#[test]
fn tasks_share_time_until_a_break() {
    let mut log = fresh();
    // a tracker that is already running when the tasks are set
    log.add_event(clock_out(ClockType::Break, T0 - HOUR));
    log.add_event(Event::Tasks { time: at(T0), tasks: set_of(&[1, 2]) });
    log.add_event(clock_in(ClockType::Break, T0 + 30 * MINUTE));
    log.add_event(clock_out(ClockType::Break, T0 + 45 * MINUTE));
    let s = log.get_state();
    assert_eq!(s.tasks().accumulated_for(TaskID(1)), (15 * MINUTE) as u64);
    assert_eq!(s.tasks().accumulated_for(TaskID(2)), (15 * MINUTE) as u64);
    assert!(s.tasks().active());
    assert_eq!(s.on_break().accumulated, (15 * MINUTE) as u64);
}

#[test]
fn order_of_calls_does_not_matter() {
    let mut forward = fresh();
    forward.add_event(clock_in(ClockType::Day, T0));
    forward.add_event(clock_in(ClockType::Lunch, T0 + 3 * HOUR));
    forward.add_event(clock_out(ClockType::Lunch, T0 + 4 * HOUR));
    forward.add_event(clock_out(ClockType::Day, T0 + 8 * HOUR));
    let mut backward = fresh();
    backward.add_event(clock_out(ClockType::Day, T0 + 8 * HOUR));
    backward.add_event(clock_out(ClockType::Lunch, T0 + 4 * HOUR));
    backward.add_event(clock_in(ClockType::Lunch, T0 + 3 * HOUR));
    backward.add_event(clock_in(ClockType::Day, T0));
    let a = forward.get_state();
    let b = backward.get_state();
    assert_eq!(b.working().accumulated, (8 * HOUR) as u64);
    assert_eq!(b.on_lunch().accumulated, HOUR as u64);
    assert_eq!(a.working(), b.working());
    assert_eq!(a.on_lunch(), b.on_lunch());
    assert_eq!(a.idle_work(), b.idle_work());
    let times: Vec<i64> = backward.events().iter().map(|e| e.time().millis).collect();
    assert_eq!(times, vec![T0, T0 + 3 * HOUR, T0 + 4 * HOUR, T0 + 8 * HOUR]);
}

#[test]
fn equal_events_collapse() {
    let mut log = fresh();
    log.add_event(clock_in(ClockType::Day, T0));
    log.add_event(clock_out(ClockType::Break, T0 + HOUR));
    log.add_event(clock_out(ClockType::Break, T0 + HOUR));
    log.add_event(Event::Active { time: at(T0 + 2 * HOUR) });
    log.add_event(Event::Active { time: Timestamp { millis: T0 + 2 * HOUR, offset_secs: 0 } });
    assert_eq!(log.events().len(), 3);
}

#[test]
fn event_order_tie_breaks() {
    let t = T0;
    assert_eq!(clock_in(ClockType::Lunch, t).cmp(&clock_out(ClockType::Day, t + 1)), Ordering::Less);
    assert_eq!(clock_out(ClockType::Day, t).cmp(&clock_in(ClockType::Lunch, t)), Ordering::Greater);
    assert_eq!(clock_in(ClockType::Day, t).cmp(&clock_in(ClockType::Break, t)), Ordering::Less);
    assert_eq!(clock_out(ClockType::Lunch, t).cmp(&clock_out(ClockType::Break, t)), Ordering::Greater);
    assert_eq!(Event::Active { time: at(t) }.cmp(&Event::Idle { time: at(t) }), Ordering::Less);
    assert_eq!(Event::Idle { time: at(t) }.cmp(&Event::Idle { time: at(t) }), Ordering::Equal);
    let a = Event::Tasks { time: at(t), tasks: set_of(&[1, 2]) };
    let b = Event::Tasks { time: at(t), tasks: set_of(&[1, 3]) };
    assert_eq!(a.cmp(&b), Ordering::Less);
    assert_eq!(b.cmp(&a), Ordering::Greater);
    assert_eq!(Event::Idle { time: at(t) }.cmp(&a), Ordering::Less);
}

#[test]
fn idle_inferred_only_past_the_gap() {
    let mut log = fresh();
    log.force_active_at(at(T0));
    assert_eq!(log.get_state().active_until(), Some(at(T0)));
    assert!(!log.infer_idle_at(at(T0 + IDLE_GAP_MS)));
    assert_eq!(log.events().len(), 1);
    assert!(log.infer_idle_at(at(T0 + IDLE_GAP_MS + 1)));
    assert_eq!(log.events().len(), 2);
    match &log.events()[1] {
        Event::Idle { time } => assert_eq!(*time, at(T0)),
        other => panic!("unexpected {:?}", other),
    }
    assert_eq!(log.get_state().active_until(), None);
    assert!(!log.infer_idle_at(at(T0 + 10 * HOUR)));
}

#[test]
fn idle_while_working_counts_idle_time() {
    let mut log = fresh();
    log.force_active_at(at(T0));
    log.add_event(clock_in(ClockType::Day, T0 + MINUTE));
    assert!(!log.get_state().idle_work().active());
    log.add_event(Event::Idle { time: at(T0 + HOUR) });
    assert!(log.get_state().idle_work().active());
    log.force_active_at(at(T0 + 2 * HOUR));
    let s = log.get_state();
    assert_eq!(s.idle_work().accumulated, HOUR as u64);
    assert_eq!(s.active_until(), Some(at(T0 + 2 * HOUR)));
}

#[test]
fn clock_in_while_idle_starts_idle_work() {
    let mut log = fresh();
    log.add_event(clock_in(ClockType::Day, T0));
    assert!(log.get_state().idle_work().active());
}

#[test]
fn heartbeat_refresh_adds_no_event() {
    let mut log = fresh();
    assert!(!log.refresh_active_at(at(T0)));
    log.force_active_at(at(T0));
    assert!(log.refresh_active_at(at(T0 + MINUTE)));
    log.force_active_at(at(T0 + 2 * MINUTE));
    assert_eq!(log.events().len(), 1);
    assert_eq!(log.get_state().active_until(), Some(at(T0 + 2 * MINUTE)));
}

#[test]
fn rollover_carries_open_spans() {
    let mut log = fresh();
    log.add_event(clock_in(ClockType::Day, T0));
    log.add_event(clock_in(ClockType::Break, T0 + HOUR));
    log.add_event(clock_out(ClockType::Break, T0 + 2 * HOUR));
    let next_day = Date { year: 2023, month: 11, day: 15 };
    let next = log.next_day_log(next_day, "2023-11-15.log.json".to_string());
    let start = next.initial_state();
    assert!(start.working().active());
    assert_eq!(start.working().since, Some(at(T0)));
    assert_eq!(start.working().accumulated, 0);
    assert_eq!(start.on_break().accumulated, 0);
    assert!(next.events().is_empty());
    assert_eq!(next.date(), next_day);
    assert_eq!(next.filename(), "2023-11-15.log.json");
    assert_eq!(next.get_state().working(), start.working());
}

#[test]
fn refresh_date_rolls_over_and_keeps_the_old_log() {
    let mut log = fresh();
    log.force_active_at(at(T0));
    log.add_event(clock_in(ClockType::Day, T0));
    let today = Date { year: 2023, month: 11, day: 15 };
    let r = log.refresh_date_at(at(T0 + HOUR), today, day(), "next".to_string(), true, false);
    assert!(r.injected_idle);
    assert!(r.rolled_over);
    let previous = r.previous.expect("the old log is handed back");
    assert_eq!(previous.get_state().active_until(), None);
    assert_eq!(previous.events().len(), 3);
    assert_eq!(previous.date(), day());
    assert_eq!(log.date(), today);
    // renewed after the inferred idle
    assert_eq!(log.events().len(), 1);
    assert_eq!(log.get_state().active_until(), Some(at(T0 + HOUR)));
    assert!(log.initial_state().working().active());
}

#[test]
fn refresh_date_same_day_refreshes_heartbeat() {
    let mut log = fresh();
    log.force_active_at(at(T0));
    let r = log.refresh_date_at(at(T0 + MINUTE), day(), day(), "same".to_string(), false, true);
    assert!(!r.injected_idle);
    assert!(!r.rolled_over);
    assert!(r.previous.is_none());
    assert!(r.refreshed_active);
    assert_eq!(log.get_state().active_until(), Some(at(T0 + MINUTE)));
    assert_eq!(log.filename(), "2023-11-14.log.json");
}

#[test]
fn restore_gives_back_the_same_log() {
    let mut log = fresh();
    log.force_active_at(at(T0));
    log.add_event(clock_in(ClockType::Day, T0 + MINUTE));
    log.add_event(Event::Tasks { time: at(T0 + 2 * MINUTE), tasks: set_of(&[3]) });
    log.refresh_active_at(at(T0 + 3 * MINUTE));
    let events = log.events().clone();
    let back = EventLog::restore(
        log.filename().clone(),
        log.date(),
        log.initial_state().clone(),
        log.get_state(),
        events,
    );
    assert_eq!(back.events().len(), 3);
    let a = log.get_state();
    let b = back.get_state();
    assert_eq!(a.working(), b.working());
    assert_eq!(a.idle_work(), b.idle_work());
    assert_eq!(a.active_until(), b.active_until());
    assert_eq!(a.tasks().entries(), b.tasks().entries());
}

#[test]
fn restore_sorts_and_replays() {
    let events = vec![
        clock_out(ClockType::Day, T0 + 2 * HOUR),
        clock_in(ClockType::Day, T0),
        clock_in(ClockType::Day, T0),
    ];
    let log = EventLog::restore("x".to_string(), day(), State::default(), State::default(), events);
    assert_eq!(log.events().len(), 2);
    assert_eq!(log.get_state().working().accumulated, (2 * HOUR) as u64);
}

#[test]
fn elapsed_summary_of_an_open_day() {
    let mut log = fresh();
    log.force_active_at(at(T0));
    log.add_event(clock_in(ClockType::Day, T0));
    log.add_event(clock_in(ClockType::Lunch, T0 + HOUR));
    let e = log.elapsed_at(Some(T0 - HOUR), Some(T0 + 23 * HOUR), at(T0 + 2 * HOUR));
    assert_eq!(e.work_time, (2 * HOUR) as u64);
    assert_eq!(e.lunch_time, HOUR as u64);
    assert!(e.working && e.on_lunch && !e.on_break && !e.idle_work);
}

#[test]
fn constructors_stamp_the_present() {
    let e = Event::clock_in(ClockType::Day);
    assert!(e.time().millis > T0);
    match Event::tasks(set_of(&[2])) {
        Event::Tasks { tasks, .. } => assert_eq!(tasks.to_vec(), vec![TaskID(2)]),
        _ => panic!("not a task event"),
    }
    assert!(matches!(Event::idle(), Event::Idle { .. }));
    assert!(matches!(Event::active(), Event::Active { .. }));
    assert!(matches!(Event::clock_out(ClockType::Lunch), Event::ClockOut { clock: ClockType::Lunch, .. }));
}

#[test]
fn events_compare_with_operators() {
    assert!(clock_in(ClockType::Day, T0) < clock_out(ClockType::Day, T0));
    assert!(Event::Tasks { time: at(T0), tasks: set_of(&[1]) } > Event::Idle { time: at(T0) });
    assert!(clock_out(ClockType::Day, T0) < clock_in(ClockType::Day, T0 + 1));
    assert_eq!(
        Event::Active { time: at(T0) },
        Event::Active { time: Timestamp { millis: T0, offset_secs: -7200 } }
    );
    assert_ne!(clock_in(ClockType::Day, T0), clock_in(ClockType::Lunch, T0));
    assert_eq!(
        Event::Tasks { time: at(T0), tasks: set_of(&[2, 1]) }.partial_cmp(&Event::Tasks { time: at(T0), tasks: set_of(&[1, 2]) }),
        Some(Ordering::Equal)
    );
}

#[test]
fn late_added_active_event_moves_the_heartbeat() {
    let mut log = fresh();
    log.add_event(Event::Active { time: at(10) });
    log.add_event(clock_in(ClockType::Day, 30));
    log.add_event(Event::Active { time: at(20) });
    assert_eq!(log.get_state().active_until(), Some(at(20)));
}

#[test]
fn refreshed_heartbeat_survives_earlier_events() {
    let mut log = fresh();
    log.force_active_at(at(T0));
    log.refresh_active_at(at(T0 + 3 * MINUTE));
    log.add_event(clock_in(ClockType::Day, T0 + MINUTE));
    assert_eq!(log.get_state().active_until(), Some(at(T0 + 3 * MINUTE)));
}

#[test]
fn inferred_idle_clears_the_heartbeat() {
    let mut log = fresh();
    log.add_event(Event::Active { time: at(100) });
    log.refresh_active_at(at(30));
    assert!(log.infer_idle_at(at(30 + IDLE_GAP_MS + 1)));
    assert_eq!(log.get_state().active_until(), None);
    assert!(log.events().iter().any(|e| matches!(e, Event::Idle { time } if *time == at(30))));
}

#[test]
fn forced_activity_always_sets_the_heartbeat() {
    let mut log = fresh();
    log.add_event(Event::Idle { time: at(100) });
    log.force_active_at(at(50));
    assert_eq!(log.get_state().active_until(), Some(at(50)));
    assert_eq!(log.events().len(), 2);
}

#[test]
fn rollover_hands_back_the_old_log_without_idle() {
    let mut log = fresh();
    log.force_active_at(at(T0));
    log.add_event(clock_in(ClockType::Day, T0));
    let today = Date { year: 2023, month: 11, day: 15 };
    let r = log.refresh_date_at(at(T0 + MINUTE), today, day(), "next".to_string(), true, true);
    assert!(!r.injected_idle);
    assert!(r.rolled_over);
    let previous = r.previous.expect("the old log is handed back");
    assert_eq!(previous.events().len(), 2);
    assert_eq!(log.initial_state().working().since, Some(at(T0)));
    assert_eq!(log.initial_state().working().accumulated, 0);
    assert!(r.refreshed_active);
}

fn started_with_heartbeat(beat: i64) -> EventLog {
    let idle = TrackedTime::default();
    let start = State::from_parts(idle, idle, idle, idle, Some(at(beat)), TrackedMultiTime::default());
    EventLog::new("2023-11-14.log.json".to_string(), day(), start)
}

#[test]
fn active_event_sets_its_own_time() {
    let mut log = started_with_heartbeat(2000);
    log.add_event(Event::Active { time: at(1000) });
    assert_eq!(log.get_state().active_until(), Some(at(1000)));
}

#[test]
fn active_event_before_a_later_one_keeps_call_order_irrelevant() {
    let mut log = started_with_heartbeat(2000);
    log.add_event(clock_in(ClockType::Day, 3000));
    log.add_event(Event::Active { time: at(1000) });
    assert_eq!(log.get_state().active_until(), Some(at(1000)));
    let mut other = started_with_heartbeat(2000);
    other.add_event(Event::Active { time: at(1000) });
    other.add_event(clock_in(ClockType::Day, 3000));
    assert_eq!(other.get_state().active_until(), Some(at(1000)));
    assert_eq!(log.get_state().working(), other.get_state().working());
}

#[test]
fn active_event_earlier_than_a_refreshed_heartbeat() {
    let mut log = fresh();
    log.force_active_at(at(T0));
    log.refresh_active_at(at(T0 + 10 * MINUTE));
    log.add_event(Event::Active { time: at(T0 + 5 * MINUTE) });
    assert_eq!(log.get_state().active_until(), Some(at(T0 + 5 * MINUTE)));
}
