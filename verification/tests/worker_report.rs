use bots_core::controller::is_worker_result;
use bots_core::time::Instant;
use bots_core::worker::report::{
    achieved_tps, now_id, output_path, parse_mode, progress_tps, summary_lines, worker_result, Mode,
};
use bots_core::worker::stats::WorkerStats;
use bots_core::worker::submit::{OutcomeKind, SubmitOutcome};

fn outcome(kind: OutcomeKind, latency_ms: u64) -> Option<SubmitOutcome> {
    Some(SubmitOutcome {
        kind,
        latency_ms,
        backpressure_429: 1,
        backpressure_503: 2,
    })
}

#[test]
fn every_payment_is_settled_once() {
    let mut s = WorkerStats::new(Instant::from_nanos(0));
    for _ in 0..5 {
        s.record_launch();
    }
    s.record_outcome(outcome(OutcomeKind::Accepted, 10));
    s.record_outcome(outcome(OutcomeKind::Accepted, 20));
    s.record_outcome(outcome(OutcomeKind::Rejected, 30));
    s.record_outcome(outcome(OutcomeKind::Timeout, 3_000));
    s.record_outcome(None);
    let sum = s.summary(Instant::from_nanos(2_500_000));
    assert_eq!(sum.attempted, 5);
    assert_eq!(sum.sent, 5);
    assert_eq!(sum.accepted, 2);
    assert_eq!(sum.rejected, 1);
    assert_eq!(sum.timeouts, 1);
    assert_eq!(sum.errors, 1);
    assert_eq!(sum.accepted + sum.rejected + sum.timeouts + sum.errors, sum.attempted);
    assert_eq!(sum.backpressure_429, 4);
    assert_eq!(sum.backpressure_503, 8);
    assert_eq!(sum.latency_p50_ms, 20);
    assert_eq!(sum.latency_p95_ms, 3_000);
    assert_eq!(sum.latency_p99_ms, 3_000);
    assert_eq!(sum.duration_ms, 2);
    assert_eq!(s.elapsed_ms(Instant::from_nanos(7_000_000)), 7);
}

#[test]
fn counters_are_recorded_one_by_one() {
    let mut s = WorkerStats::new(Instant::from_nanos(0));
    s.record_attempted(4);
    s.record_sent(3);
    s.record_accepted(2, 1);
    s.record_rejected(5, 1);
    s.record_timeout(6, 1);
    s.record_error(7);
    s.record_backpressure(8, 0);
    s.record_backpressure(0, 9);
    let sum = s.summary(Instant::from_nanos(0));
    assert_eq!(
        (sum.attempted, sum.sent, sum.accepted, sum.rejected),
        (4, 3, 2, 5)
    );
    assert_eq!(
        (sum.timeouts, sum.errors, sum.backpressure_429, sum.backpressure_503),
        (6, 7, 8, 9)
    );
    assert_eq!(sum.latency_p99_ms, 1);
}

#[test]
fn modes_have_names() {
    assert_eq!(parse_mode("http"), Some(Mode::Http));
    assert_eq!(parse_mode("mock"), Some(Mode::Mock));
    assert_eq!(parse_mode("HTTP"), None);
    assert_eq!(parse_mode(""), None);
}

#[test]
fn the_achieved_rate_is_rounded_down() {
    assert_eq!(achieved_tps(599_500, 60_000), 9_991);
    assert_eq!(achieved_tps(1, 3), 333);
    assert_eq!(achieved_tps(5, 0), 0);
    assert_eq!(progress_tps(599_500, 60_000), achieved_tps(599_500, 60_000));
    assert_eq!(progress_tps(5, 0), 5_000);
    assert_eq!(progress_tps(u64::MAX, 1), u64::MAX);
}

#[test]
fn a_result_is_written_and_found() {
    let path = output_path("worker-1", "1700000000");
    assert_eq!(path, "results/worker_worker-1_1700000000.json");
    assert!(is_worker_result(path.trim_start_matches("results/")));
    assert_eq!(now_id(Some(1_700_000_000)), "1700000000");
    assert_eq!(now_id(None), "0");
}

#[test]
fn a_result_holds_the_summary() {
    let mut s = WorkerStats::new(Instant::from_nanos(0));
    s.record_launch();
    s.record_outcome(outcome(OutcomeKind::Accepted, 45));
    let sum = s.summary(Instant::from_nanos(0));
    let r = worker_result(
        "w".to_string(),
        "17".to_string(),
        42,
        "mock".to_string(),
        250,
        &sum,
    );
    assert_eq!(r.achieved_tps, 4);
    assert_eq!(r.duration_ms, 250);
    assert_eq!(r.timestamp, "17");
    assert_eq!(
        summary_lines(&r),
        vec![
            "=== Worker w Summary ===",
            "Duration: 250ms",
            "Seed: 42",
            "Mode: mock",
            "Attempted: 1",
            "Sent: 1",
            "Accepted: 1",
            "Rejected: 0",
            "Backpressure 429: 1",
            "Backpressure 503: 2",
            "Errors: 0",
            "Timeouts: 0",
            "Achieved TPS: 4",
            "Latency p50: 45ms",
            "Latency p95: 45ms",
            "Latency p99: 45ms",
        ]
    );
}
