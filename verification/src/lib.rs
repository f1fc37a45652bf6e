//! Background task scheduling: a one-shot delayed-task queue with
//! identity-based deduplication and crash-safe persistence, and a periodic
//! daemon manager with manual triggering.
//!
//! The two coordinator loops interact with the outside world (channels,
//! timers, files) only through plain values; every scheduling decision is
//! made by the verified functions in these modules.
//!
//! - [`task`]: the closed set of task kinds and the identity relation that
//!   deduplicates pending work.
//! - [`delayed_tasks`]: the pending queue, one coordinator iteration as a
//!   step function, and the fire-once, dedup-replace and restart-survival
//!   laws.
//! - [`store`]: the tagged-record store format with its round-trip law.
//! - [`daemons`]: the periodic daemon roster, manual-trigger validation,
//!   and the periodicity law.
//! - [`channels`], [`daemons::minecraft`]: the pure naming and team-choice
//!   rules that the host's effects use.
//! - [`util`]: filter lemmas shared by the proofs, the clock, and the
//!   bounded-sleep computation.

pub mod channels;
pub mod daemons;
pub mod delayed_tasks;
pub mod store;
pub mod task;
pub mod util;
