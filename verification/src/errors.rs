//! The ways a benchmark run can fail.

use vstd::prelude::*;

verus! {

/// Why a benchmark run failed.
///
/// Any single failure is fatal for the whole run: no statistics are computed
/// from a partial sample set.
#[derive(Clone, Copy, PartialEq, Eq, Structural, Debug)]
#[allow(inconsistent_fields)]
pub enum BenchError {
    /// A request never completed (connection refused, reset, resolution
    /// failure).  Never retried.
    Network,
    /// A request completed, but with a status other than the expected one.
    /// Treated exactly like a network failure: fatal, not retried.
    StatusMismatch { expected: u16, got: u16 },
    /// The merged sample set's size differed from
    /// `workers * requests_per_worker`.  Indicates an internal defect (a lost
    /// or duplicated sample), never an ordinary failure of the target.
    SampleCount { expected: usize, got: usize },
}

} // verus!
