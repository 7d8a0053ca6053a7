//! An event analytics engine: an append-only log of per-application usage
//! events and feedback submissions, with time-windowed aggregation queries
//! (daily active users, install counts, cohort retention, feedback pages)
//! computed over it.
//!
//! Calendar dates are day numbers (days since the Unix epoch); timestamps are
//! seconds since the Unix epoch. The clock is injected: every operation that
//! depends on the current time takes it as an argument, so every query is a
//! pure function of the log and its arguments.

pub mod apps;
pub mod counts;
pub mod store;
pub mod feedback;
pub mod laws;
pub mod models;
pub mod retention;
pub mod series;
pub mod strcmp;
