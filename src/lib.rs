//! A daily timecard: an append-only, ordered log of clock and presence events,
//! and the state that replaying it yields.
pub mod time;
pub mod tasks;
pub mod accumulator;
pub mod event;
pub mod state;
pub mod event_log;
pub mod notices;
