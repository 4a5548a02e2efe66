//! One worker's bookkeeping: a fixed number of requests, each either
//! accepted (its latency is recorded) or fatal for the whole run.
//!
//! The worker owns its samples privately until it is finished; the caller
//! issues the requests and hands each outcome to [`WorkerLoop::record`].
//! A response whose status differs from the expected one, or a request that
//! never completed, aborts the worker at once: a single bad response makes
//! the run's measurements incomparable, so nothing is skipped or retried.

use vstd::prelude::*;

use crate::errors::BenchError;

verus! {

/// The state of one worker: how many requests it still owes, which status
/// it accepts, the latencies recorded so far, and whether it has failed.
pub struct WorkerLoop {
    expected_status: u16,
    target_requests: usize,
    samples: Vec<u64>,
    failure: Option<BenchError>,
}

impl WorkerLoop {
    /// The status code every response must carry.
    pub closed spec fn expected_status(self) -> u16 {
        self.expected_status
    }

    /// How many requests this worker performs in total.
    pub closed spec fn target_requests(self) -> nat {
        self.target_requests as nat
    }

    /// The latencies recorded so far, in chronological order.
    pub closed spec fn samples(self) -> Seq<u64> {
        self.samples@
    }

    /// The fatal error this worker stopped on, if any.
    pub closed spec fn failure(self) -> Option<BenchError> {
        self.failure
    }

    /// A worker never records more samples than it has requests.
    pub open spec fn wf(self) -> bool {
        self.samples().len() <= self.target_requests()
    }

    /// The worker still owes requests: it has not failed and has not yet
    /// recorded all of them.
    pub open spec fn is_running(self) -> bool {
        self.failure() is None && self.samples().len() < self.target_requests()
    }

    /// The worker finished cleanly: one sample per request, no failure.
    pub open spec fn is_complete(self) -> bool {
        self.failure() is None && self.samples().len() == self.target_requests()
    }

    /// A fresh worker: nothing recorded, nothing failed.
    pub fn new(expected_status: u16, target_requests: usize) -> (w: Self)
        ensures
            w.wf(),
            w.expected_status() == expected_status,
            w.target_requests() == target_requests,
            w.samples() == Seq::<u64>::empty(),
            w.failure() is None,
    {
        WorkerLoop { expected_status, target_requests, samples: Vec::new(), failure: None }
    }

    /// Whether the caller should issue another request.
    pub fn has_pending(&self) -> (b: bool)
        ensures
            b == self.is_running(),
    {
        self.failure.is_none() && self.samples.len() < self.target_requests
    }

    /// Records the outcome of one request: the status it returned (`None`
    /// when the request never completed) and its measured latency in
    /// microseconds.  The expected status appends the sample; any other
    /// outcome is fatal, recorded as this worker's failure and returned.
    pub fn record(&mut self, status: Option<u16>, elapsed_micros: u64) -> (r: Result<
        (),
        BenchError,
    >)
        requires
            old(self).wf(),
            old(self).is_running(),
        ensures
            final(self).wf(),
            final(self).expected_status() == old(self).expected_status(),
            final(self).target_requests() == old(self).target_requests(),
            match status {
                Some(got) => if got == old(self).expected_status() {
                    &&& r is Ok
                    &&& final(self).samples() == old(self).samples().push(elapsed_micros)
                    &&& final(self).failure() is None
                } else {
                    let e = (BenchError::StatusMismatch {
                        expected: old(self).expected_status(),
                        got,
                    });
                    &&& r == Result::<(), BenchError>::Err(e)
                    &&& final(self).failure() == Some(e)
                    &&& final(self).samples() == old(self).samples()
                },
                None => {
                    &&& r == Result::<(), BenchError>::Err(BenchError::Network)
                    &&& final(self).failure() == Some(BenchError::Network)
                    &&& final(self).samples() == old(self).samples()
                },
            },
    {
        match status {
            Some(got) => {
                if got == self.expected_status {
                    self.samples.push(elapsed_micros);
                    Ok(())
                } else {
                    let e = BenchError::StatusMismatch { expected: self.expected_status, got };
                    self.failure = Some(e);
                    Err(e)
                }
            },
            None => {
                self.failure = Some(BenchError::Network);
                Err(BenchError::Network)
            },
        }
    }

    /// Hands the worker's result back as one atomic unit: its samples when
    /// it finished cleanly, or the failure it aborted on.
    pub fn into_result(self) -> (r: Result<Vec<u64>, BenchError>)
        requires
            self.wf(),
            !self.is_running(),
        ensures
            match self.failure() {
                Some(e) => r == Result::<Vec<u64>, BenchError>::Err(e),
                None => {
                    &&& r is Ok
                    &&& r matches Ok(v) && v@ == self.samples()
                    &&& self.samples().len() == self.target_requests()
                },
            },
    {
        match self.failure {
            Some(e) => Err(e),
            None => Ok(self.samples),
        }
    }
}

} // verus!
