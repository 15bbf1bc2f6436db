//! Expands blueprints of recurring tasks into a chronologically ordered plan
//! of concrete occurrences over a seven-day window.
//!
//! [`types`] holds the value types (durations, recurrences, slots,
//! blueprints, plans); [`scheduler`] holds occurrence generation and the
//! chronological merge.

pub mod scheduler;
pub mod types;
