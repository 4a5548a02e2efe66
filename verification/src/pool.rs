//! The coordinator's merge: after every worker has finished, their sample
//! sequences are combined into one global sample set.
//!
//! Merging happens strictly after the join barrier, so no locking is
//! involved: each worker's result arrives as one owned unit.  Any worker
//! failure fails the whole run (the first one, in worker order, is the one
//! propagated), and on success the merge is lossless: exactly
//! `workers * requests_per_worker` samples, checked explicitly.

use vstd::prelude::*;

use crate::errors::BenchError;

verus! {

/// The first failure among the workers' results, in worker order, if any.
pub open spec fn first_failure(results: Seq<Result<Vec<u64>, BenchError>>) -> Option<BenchError>
    decreases results.len(),
{
    if results.len() == 0 {
        None
    } else {
        match results[0] {
            Result::Err(e) => Some(e),
            Result::Ok(_) => first_failure(results.drop_first()),
        }
    }
}

/// All workers' samples, concatenated in worker order.  Meaningful when
/// every result is a success; a failed worker contributes nothing.
pub open spec fn merged_samples(results: Seq<Result<Vec<u64>, BenchError>>) -> Seq<u64>
    decreases results.len(),
{
    if results.len() == 0 {
        Seq::empty()
    } else {
        merged_samples(results.drop_last()) + (match results.last() {
            Result::Ok(v) => v@,
            Result::Err(_) => Seq::empty(),
        })
    }
}

proof fn lemma_first_failure_none(results: Seq<Result<Vec<u64>, BenchError>>)
    requires
        forall|j: int| 0 <= j < results.len() ==> results[j] is Ok,
    ensures
        first_failure(results) is None,
    decreases results.len(),
{
    if results.len() > 0 {
        lemma_first_failure_none(results.drop_first());
    }
}

proof fn lemma_first_failure_found(results: Seq<Result<Vec<u64>, BenchError>>, i: int)
    requires
        0 <= i < results.len(),
        forall|j: int| 0 <= j < i ==> results[j] is Ok,
        results[i] is Err,
    ensures
        first_failure(results) == Some(results[i]->Err_0),
    decreases i,
{
    if i > 0 {
        lemma_first_failure_found(results.drop_first(), i - 1);
    }
}

/// One failed worker fails the whole run: if any single worker's result is
/// an error, the merge propagates an error and no statistics are produced.
pub proof fn lemma_failure_fails_run(results: Seq<Result<Vec<u64>, BenchError>>, i: int)
    requires
        0 <= i < results.len(),
        results[i] is Err,
    ensures
        first_failure(results) is Some,
    decreases results.len(),
{
    if results[0] is Err {
    } else {
        lemma_failure_fails_run(results.drop_first(), i - 1);
    }
}

/// A complete run loses no sample: when every one of the workers returned
/// one sample per request, the merged sample set has exactly
/// `workers * requests_per_worker` samples and there is no failure to
/// propagate.
pub proof fn lemma_lossless_merge(
    results: Seq<Result<Vec<u64>, BenchError>>,
    requests_per_worker: nat,
)
    requires
        forall|i: int| 0 <= i < results.len() ==> results[i] is Ok,
        forall|i: int| 0 <= i < results.len() ==> results[i]->Ok_0@.len() == requests_per_worker,
    ensures
        first_failure(results) is None,
        merged_samples(results).len() == results.len() * requests_per_worker,
    decreases results.len(),
{
    lemma_first_failure_none(results);
    if results.len() == 0 {
    } else {
        let rest = results.drop_last();
        lemma_lossless_merge(rest, requests_per_worker);
        assert(merged_samples(results).len() == rest.len() * requests_per_worker
            + requests_per_worker);
        assert(rest.len() * requests_per_worker + requests_per_worker == results.len()
            * requests_per_worker) by (nonlinear_arith)
            requires rest.len() + 1 == results.len();
    }
}

/// Merges all workers' results into the global sample set.
///
/// The first failed worker, in worker order, fails the run with its own
/// error.  When all workers succeeded, the merged set must hold exactly
/// `workers * requests_per_worker` samples; any other size is an internal
/// defect reported as [`BenchError::SampleCount`].
pub fn merge_results(
    results: Vec<Result<Vec<u64>, BenchError>>,
    workers: usize,
    requests_per_worker: usize,
) -> (r: Result<Vec<u64>, BenchError>)
    requires
        results@.len() == workers,
        workers * requests_per_worker <= usize::MAX,
    ensures
        match first_failure(results@) {
            Some(e) => r == Result::<Vec<u64>, BenchError>::Err(e),
            None => {
                let merged = merged_samples(results@);
                if merged.len() == workers * requests_per_worker {
                    r matches Ok(v) && v@ == merged
                } else {
                    r == Result::<Vec<u64>, BenchError>::Err(
                        (BenchError::SampleCount {
                            expected: (workers * requests_per_worker) as usize,
                            got: merged.len() as usize,
                        }),
                    )
                }
            },
        },
{
    let n = results.len();
    let mut i: usize = 0;
    while i < n
        invariant
            n == results@.len(),
            i <= n,
            forall|j: int| 0 <= j < i ==> results@[j] is Ok,
        decreases n - i,
    {
        match &results[i] {
            Result::Err(e) => {
                proof {
                    lemma_first_failure_found(results@, i as int);
                }
                return Err(*e);
            },
            Result::Ok(_) => {},
        }
        i = i + 1;
    }
    proof {
        lemma_first_failure_none(results@);
    }
    let mut merged: Vec<u64> = Vec::new();
    let mut k: usize = 0;
    proof {
        assert(results@.subrange(0, 0) =~= Seq::<Result<Vec<u64>, BenchError>>::empty());
    }
    while k < n
        invariant
            n == results@.len(),
            k <= n,
            forall|j: int| 0 <= j < results@.len() ==> results@[j] is Ok,
            merged@ == merged_samples(results@.subrange(0, k as int)),
        decreases n - k,
    {
        match &results[k] {
            Result::Ok(v) => {
                merged.extend_from_slice(v.as_slice());
            },
            Result::Err(_) => {
                proof {
                    assert(false);
                }
            },
        }
        proof {
            let kk = k as int;
            let pre = results@.subrange(0, kk);
            let post = results@.subrange(0, kk + 1);
            assert(post.drop_last() =~= pre);
            assert(post.last() == results@[kk]);
        }
        k = k + 1;
    }
    proof {
        assert(results@.subrange(0, n as int) =~= results@);
    }
    let expected = workers * requests_per_worker;
    if merged.len() == expected {
        Ok(merged)
    } else {
        Err(BenchError::SampleCount { expected, got: merged.len() })
    }
}

} // verus!
