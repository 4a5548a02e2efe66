//! A verified core for a concurrent HTTP latency micro-benchmark.
//!
//! A pool of workers repeatedly issues requests against one target and
//! records per-request latency in microseconds.  This crate holds the parts
//! that decide and compute: the per-worker bookkeeping (which responses are
//! acceptable, which samples were collected), the lossless merge of all
//! workers' samples with its count check, and the reduction of the merged
//! sample set to summary statistics (mean, p99, p99.9, max) by the
//! nearest-rank method.  Performing the requests, scheduling the workers and
//! printing the summary line are left to the surrounding program.

pub mod errors;
pub mod pool;
pub mod stats;
pub mod worker;
