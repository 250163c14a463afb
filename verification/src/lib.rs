//! Verified core of an HTTP load generator.
//!
//! The library holds the engine's decision logic: rate pacing and
//! termination, round-robin target dispatch, worker-pool accounting,
//! per-request outcome classification, metrics aggregation, the
//! line-oriented result codec, and the target-file parsers.  All I/O,
//! the HTTP client, and the async runtime live outside the library and
//! feed it plain values.

pub mod models;
pub mod outcome;
pub mod pacer;
pub mod pool;
pub mod engine;
pub mod metrics;
pub mod stats;
pub mod numbers;
pub mod display;
pub mod parse;
pub mod durations;
pub mod codec;
pub mod targets_file;
pub mod builder;
pub mod report;
pub mod wrappers;

