//! Latency bookkeeping for measuring how long an appended message takes to
//! come back from a SpacetimeDB database, and the statistics reported over
//! each batch of such measurements.
//!
//! Latencies are counted in nanoseconds (`u128`, the unit of
//! `Duration::as_nanos`).

pub mod stats;
pub mod roundtrip;
pub mod clock;
pub mod pending;
pub mod batch;
pub mod message;
