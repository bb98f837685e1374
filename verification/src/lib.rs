//! Approximate-optimization test harness.
//!
//! A suite of test cases is run repeatedly against a candidate program; each
//! run is scored by an external scorer, and the best-known answer per test is
//! kept while a running total is maintained.  Execution can be dispatched to a
//! remote worker through a small synchronization protocol with
//! content-addressed file deduplication and chunked transfer.
//!
//! This crate holds the verified core: scores and their parsing, the per-test
//! records and the suite aggregate, the scoring engine that decides when a
//! fresh answer replaces the incumbent, the planning half of the remote sync
//! protocol, and the retry policies.  Process spawning, HTTP and the terminal
//! renderer live outside the library and drive it with plain values.

pub mod util;

pub mod score;

pub mod test_info;

pub mod data;

pub mod engine;

pub mod mtime;

pub mod remote;

pub mod test_log;
