use bots_core::controller::{
    dry_run_commands, is_worker_result, merge_results, merged_path, merged_summary, ramp_schedule,
    results_fit, ControllerConfig, WorkerResult,
};
use bots_core::{RampConfig, RampPlanner, RampStep};

fn worker(id: &str, n: u64, duration_ms: u64) -> WorkerResult {
    WorkerResult {
        worker_id: id.to_string(),
        timestamp: "t".to_string(),
        duration_ms,
        attempted: n,
        sent: n + 1,
        accepted: n + 2,
        rejected: n + 3,
        errors: n + 4,
        timeouts: n + 5,
        latency_p50_ms: n + 6,
        latency_p95_ms: n + 7,
        latency_p99_ms: n + 8,
        achieved_tps: n + 9,
    }
}

#[test]
fn results_are_merged() {
    let workers = vec![worker("a", 10, 700), worker("b", 20, 900), worker("c", 31, 100)];
    assert!(results_fit(&workers));
    let m = merge_results(workers, "now".to_string());
    assert_eq!(m.timestamp, "now");
    assert_eq!(m.worker_count, 3);
    assert_eq!(m.total_duration_ms, 900);
    assert_eq!(m.total_attempted, 61);
    assert_eq!(m.total_sent, 64);
    assert_eq!(m.total_accepted, 67);
    assert_eq!(m.total_rejected, 70);
    assert_eq!(m.total_errors, 73);
    assert_eq!(m.total_timeouts, 76);
    assert_eq!(m.avg_latency_p50_ms, 26);
    assert_eq!(m.avg_latency_p95_ms, 27);
    assert_eq!(m.avg_latency_p99_ms, 28);
    assert_eq!(m.total_achieved_tps, 88);
    assert_eq!(m.workers.len(), 3);
    assert_eq!(m.workers[1].worker_id, "b");
    assert!(17 <= m.avg_latency_p95_ms && m.avg_latency_p95_ms <= 38);
}

#[test]
fn the_order_of_results_does_not_matter() {
    let (x, y, z) = (("a", 1, 5), ("b", 9, 3), ("c", 4, 8));
    let all = |order: [(&str, u64, u64); 3]| {
        let workers = order.iter().map(|(id, n, ms)| worker(id, *n, *ms)).collect();
        merge_results(workers, String::new())
    };
    let a = all([x, y, z]);
    let b = all([z, x, y]);
    assert_eq!(a.total_attempted, 14);
    assert_eq!(a.total_attempted, b.total_attempted);
    assert_eq!(a.total_accepted, b.total_accepted);
    assert_eq!(a.total_duration_ms, b.total_duration_ms);
    assert_eq!(a.avg_latency_p50_ms, b.avg_latency_p50_ms);
}

#[test]
fn no_results_merge_to_nothing() {
    let m = merge_results(vec![], "t".to_string());
    assert_eq!(m.worker_count, 0);
    assert_eq!(m.total_duration_ms, 0);
    assert_eq!(m.avg_latency_p99_ms, 0);
}

#[test]
fn sums_that_do_not_fit_are_told() {
    let mut big = worker("a", 0, 0);
    big.accepted = u64::MAX;
    assert!(!results_fit(&[big, worker("b", 0, 0)]));
    assert!(results_fit(&[]));
}

#[test]
fn worker_results_are_told_by_their_name() {
    assert!(is_worker_result("worker_w1_17.json"));
    assert!(is_worker_result("worker_.json"));
    assert!(!is_worker_result("worker_w1.txt"));
    assert!(!is_worker_result("prefund_17.json"));
    assert!(!is_worker_result(".json"));
    let merged = merged_path("20250101_000000");
    assert_eq!(merged, "results/run_20250101_000000_merged.json");
    assert!(!is_worker_result(merged.trim_start_matches("results/")));
}

#[test]
fn a_dry_run_names_a_command_for_each_host() {
    let config = ControllerConfig {
        worker_hosts: vec!["h0".to_string(), "user@h1".to_string()],
    };
    assert_eq!(
        dry_run_commands(&config),
        vec![
            "  ssh h0 'cd /path/to/worker && ./worker --worker-id worker-0 --config config.toml --mode http'",
            "  ssh user@h1 'cd /path/to/worker && ./worker --worker-id worker-1 --config config.toml --mode http'",
        ]
    );
}

#[test]
fn the_ramp_schedule_is_printed() {
    let step = |tps, hold_ms| RampStep { tps, hold_ms };
    let planner = RampPlanner::new(RampConfig {
        steps: vec![step(1000, 10000), step(5000, 10000), step(10000, 20000)],
    });
    assert_eq!(
        ramp_schedule(&planner),
        vec![
            "=== Ramp Schedule ===",
            "Total duration: 40000ms",
            "",
            "Step 0: 1000 TPS for 10000ms",
            "Step 1: 5000 TPS for 10000ms",
            "Step 2: 10000 TPS for 20000ms",
        ]
    );
}

#[test]
fn the_merged_summary_is_printed() {
    let m = merge_results(vec![worker("w1", 1, 60)], "t".to_string());
    assert_eq!(
        merged_summary(&m),
        vec![
            "=== Merged Results (1 workers) ===",
            "Total duration: 60ms",
            "Total attempted: 1",
            "Total sent: 2",
            "Total accepted: 3",
            "Total rejected: 4",
            "Total errors: 5",
            "Total timeouts: 6",
            "Total achieved TPS: 10",
            "Avg latency p50: 7ms",
            "Avg latency p95: 8ms",
            "Avg latency p99: 9ms",
            "",
            "=== Per-Worker Breakdown ===",
            "  w1: accepted=3 tps=10 p95=8ms",
        ]
    );
}
