//! Real-time replay of timestamped event batches.
//!
//! A batch of events, each carrying a microsecond-resolution timestamp, is
//! sorted by timestamp (stably), anchored to the moment replay starts, and
//! dispatched one by one onto a non-blocking outbound channel as each event's
//! shifted instant arrives. Events the channel cannot accept are dropped,
//! never retried, and never stall the run.
//!
//! Anchoring semantics: the earliest event is due exactly at the run's start
//! time, and every later event keeps its original distance from the earliest
//! one (`shifted = timestamp - earliest_timestamp + start_time`).

pub mod replay;
pub mod rewindable;
pub mod sorting;
pub mod waiter;
