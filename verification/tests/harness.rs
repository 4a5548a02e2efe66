// End-to-end behaviour of the benchmark core: workers record scripted
// request outcomes, the coordinator merges their results, and the reducer
// computes the summary statistics.

use latbench::errors::BenchError;
use latbench::pool::merge_results;
use latbench::stats::{nearest_rank_index, reduce, sort_samples, sum_samples};
use latbench::worker::WorkerLoop;

const OK_STATUS: u16 = 200;

/// Runs one worker to completion over scripted per-request outcomes.
fn run_worker(outcomes: &[(Option<u16>, u64)]) -> Result<Vec<u64>, BenchError> {
    let mut worker = WorkerLoop::new(OK_STATUS, outcomes.len());
    for &(status, elapsed) in outcomes {
        if !worker.has_pending() {
            break;
        }
        if let Err(e) = worker.record(status, elapsed) {
            let _ = e;
            break;
        }
    }
    worker.into_result()
}

#[test]
fn complete_run_has_workers_times_requests_samples() {
    let workers = 4;
    let requests = 3;
    let mut results = Vec::new();
    for w in 0..workers {
        let outcomes: Vec<(Option<u16>, u64)> =
            (0..requests).map(|r| (Some(OK_STATUS), (100 * w + r) as u64)).collect();
        results.push(run_worker(&outcomes));
    }
    let merged = merge_results(results, workers, requests).expect("clean run must merge");
    assert_eq!(merged.len(), workers * requests);
}

#[test]
fn merge_keeps_worker_order_and_samples() {
    let results = vec![Ok(vec![3u64, 1]), Ok(vec![7, 5])];
    let merged = merge_results(results, 2, 2).expect("all workers succeeded");
    assert_eq!(merged, vec![3, 1, 7, 5]);
}

#[test]
fn nearest_rank_indices_follow_ceiling_formula() {
    // ceil(100 * 0.99) - 1 = 98, ceil(100 * 0.999) - 1 = 99
    assert_eq!(nearest_rank_index(100, 99, 100), 98);
    assert_eq!(nearest_rank_index(100, 999, 1000), 99);
    // ceil(50 * 0.99) = ceil(49.5) = 50, index 49
    assert_eq!(nearest_rank_index(50, 99, 100), 49);
    // ceil(200 * 0.999) = ceil(199.8) = 200, index 199
    assert_eq!(nearest_rank_index(200, 999, 1000), 199);
    // a single sample: both percentiles clamp to the only index
    assert_eq!(nearest_rank_index(1, 99, 100), 0);
    assert_eq!(nearest_rank_index(1, 999, 1000), 0);
}

#[test]
fn max_is_last_sorted_sample() {
    let samples = vec![12u64, 9, 40, 7, 3];
    let summary = reduce(samples);
    assert_eq!(summary.max_micros, 40);
}

#[test]
fn sorting_sorted_input_is_a_no_op() {
    let mut once = vec![9u64, 2, 2, 30, 4];
    sort_samples(&mut once);
    let mut twice = once.clone();
    sort_samples(&mut twice);
    assert_eq!(once, twice);
    assert_eq!(once, vec![2, 2, 4, 9, 30]);
}

#[test]
fn percentiles_of_presorted_input_match_unsorted_input() {
    let shuffled = vec![5u64, 1, 4, 2, 3];
    let presorted = vec![1u64, 2, 3, 4, 5];
    let a = reduce(shuffled);
    let b = reduce(presorted);
    assert_eq!(a, b);
}

#[test]
fn constant_samples_have_exact_mean() {
    let samples = vec![7u64; 12];
    let summary = reduce(samples);
    assert_eq!(summary.total_micros, 7 * 12);
    assert_eq!(summary.mean_micros(), (7, 0));
    assert_eq!(summary.p99_micros, 7);
    assert_eq!(summary.p999_micros, 7);
    assert_eq!(summary.max_micros, 7);
}

#[test]
fn single_bad_status_fails_the_whole_run() {
    let workers = 3;
    let requests = 4;
    let mut results = Vec::new();
    for w in 0..workers {
        let outcomes: Vec<(Option<u16>, u64)> = (0..requests)
            .map(|r| {
                if w == 1 && r == 2 {
                    (Some(500), 10u64)
                } else {
                    (Some(OK_STATUS), 10u64)
                }
            })
            .collect();
        results.push(run_worker(&outcomes));
    }
    assert_eq!(results[1], Err(BenchError::StatusMismatch { expected: OK_STATUS, got: 500 }));
    let run = merge_results(results, workers, requests);
    assert_eq!(run, Err(BenchError::StatusMismatch { expected: OK_STATUS, got: 500 }));
}

#[test]
fn worker_aborts_on_first_mismatch() {
    let mut worker = WorkerLoop::new(OK_STATUS, 3);
    assert!(worker.record(Some(OK_STATUS), 11).is_ok());
    assert!(worker.record(Some(404), 12).is_err());
    assert!(!worker.has_pending());
    assert_eq!(
        worker.into_result(),
        Err(BenchError::StatusMismatch { expected: OK_STATUS, got: 404 })
    );
}

#[test]
fn clean_run_scenario_reports_one_ordered_line() {
    let workers = 10;
    let requests = 100;
    let mut results = Vec::new();
    for w in 0..workers {
        let outcomes: Vec<(Option<u16>, u64)> =
            (0..requests).map(|r| (Some(OK_STATUS), 1000 + ((w * 31 + r * 7) % 100) as u64)).collect();
        results.push(run_worker(&outcomes));
    }
    let merged = merge_results(results, workers, requests).expect("clean run must merge");
    assert_eq!(merged.len(), workers * requests);
    let summary = reduce(merged);

    let mean_ms = summary.total_micros as f64 / summary.count as f64 / 1000.0;
    let p99_ms = summary.p99_micros as f64 / 1000.0;
    let p999_ms = summary.p999_micros as f64 / 1000.0;
    let max_ms = summary.max_micros as f64 / 1000.0;
    for v in [mean_ms, p99_ms, p999_ms, max_ms] {
        assert!(v.is_finite());
        assert!(v >= 0.0);
    }
    assert!(mean_ms <= p99_ms);
    assert!(p99_ms <= p999_ms);
    assert!(p999_ms <= max_ms);

    let line = format!(
        "{:>10}\t{:>10}\t{:>8.2}\t{:>8.2}\t{:>8.2}\t{:>8.2}",
        "Rust", "reqwest", mean_ms, p99_ms, p999_ms, max_ms
    );
    assert_eq!(line.lines().count(), 1);
    assert_eq!(line.matches('\t').count(), 5);
}

#[test]
fn values_one_to_hundred_select_ninety_nine_and_hundred() {
    // samples 1..=100, deliberately out of order
    let mut samples: Vec<u64> = (1..=100u64).rev().collect();
    samples.swap(10, 60);
    let summary = reduce(samples);
    assert_eq!(summary.p99_micros, 99);
    assert_eq!(summary.p999_micros, 100);
    assert_eq!(summary.max_micros, 100);
}

#[test]
fn unreachable_target_fails_fast() {
    // the very first request never completes: the worker aborts at once
    let mut worker = WorkerLoop::new(OK_STATUS, 100);
    assert_eq!(worker.record(None, 55), Err(BenchError::Network));
    assert!(!worker.has_pending());
    let results = vec![worker.into_result()];
    assert_eq!(merge_results(results, 1, 100), Err(BenchError::Network));
}

#[test]
fn first_failure_in_worker_order_is_propagated() {
    let results: Vec<Result<Vec<u64>, BenchError>> = vec![
        Ok(vec![1, 2]),
        Err(BenchError::Network),
        Err(BenchError::StatusMismatch { expected: OK_STATUS, got: 503 }),
    ];
    assert_eq!(merge_results(results, 3, 2), Err(BenchError::Network));
}

#[test]
fn lost_sample_is_an_internal_defect() {
    // one worker silently returned a sample too few
    let results: Vec<Result<Vec<u64>, BenchError>> = vec![Ok(vec![5, 6]), Ok(vec![8])];
    assert_eq!(
        merge_results(results, 2, 2),
        Err(BenchError::SampleCount { expected: 4, got: 3 })
    );
}

#[test]
fn single_sample_summary() {
    let summary = reduce(vec![42u64]);
    assert_eq!(summary.count, 1);
    assert_eq!(summary.total_micros, 42);
    assert_eq!(summary.mean_micros(), (42, 0));
    assert_eq!(summary.p99_micros, 42);
    assert_eq!(summary.p999_micros, 42);
    assert_eq!(summary.max_micros, 42);
}

#[test]
fn sum_of_samples_is_exact() {
    let samples = vec![u64::MAX, u64::MAX, 1];
    let total = sum_samples(&samples);
    assert_eq!(total, 2 * (u64::MAX as u128) + 1);
}

#[test]
fn worker_completes_after_its_fixed_count() {
    let mut worker = WorkerLoop::new(OK_STATUS, 2);
    assert!(worker.has_pending());
    assert!(worker.record(Some(OK_STATUS), 3).is_ok());
    assert!(worker.has_pending());
    assert!(worker.record(Some(OK_STATUS), 4).is_ok());
    assert!(!worker.has_pending());
    assert_eq!(worker.into_result(), Ok(vec![3, 4]));
}
