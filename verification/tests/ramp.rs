use bots_core::ramp::RampPlanner;
use bots_core::time::Instant;
use bots_core::{RampConfig, RampStep};

fn two_steps() -> RampPlanner {
    let config = RampConfig {
        steps: vec![
            RampStep {
                tps: 1000,
                hold_ms: 5000,
            },
            RampStep {
                tps: 2000,
                hold_ms: 10000,
            },
        ],
    };
    RampPlanner::new(config)
}

#[test]
fn test_ramp_planner_total_duration() {
    let planner = two_steps();
    assert_eq!(planner.total_duration_ms(), 15000);
}

#[test]
fn test_ramp_planner_plan() {
    let planner = two_steps();
    let start = Instant::from_nanos(0);
    let windows = planner.plan(start);

    assert_eq!(windows.len(), 2);
    assert_eq!(windows[0].step_idx, 0);
    assert_eq!(windows[0].tps, 1000);
    assert_eq!(windows[1].step_idx, 1);
    assert_eq!(windows[1].tps, 2000);
}

#[test]
fn test_current_tps() {
    let planner = two_steps();
    assert_eq!(planner.current_tps(0), Some(1000));
    assert_eq!(planner.current_tps(4999), Some(1000));
    assert_eq!(planner.current_tps(5000), Some(2000));
    assert_eq!(planner.current_tps(14999), Some(2000));
    assert_eq!(planner.current_tps(15000), None);
}

#[test]
fn planned_windows_follow_each_other() {
    let planner = two_steps();
    let start = Instant::from_nanos(7);
    let windows = planner.plan(start);
    assert_eq!(windows[0].start, start);
    assert_eq!(windows[0].end.nanos, 7 + 5_000_000_000);
    assert_eq!(windows[0].end, windows[1].start);
    assert_eq!(windows[1].end.nanos, 7 + 15_000_000_000);
}

#[test]
fn planned_windows_agree_with_the_current_rate() {
    let planner = two_steps();
    let windows = planner.plan(Instant::from_nanos(0));
    for ms in [0u64, 1, 4999, 5000, 5001, 14999, 15000, 20000] {
        let at = ms as u128 * 1_000_000;
        let planned = windows
            .iter()
            .find(|w| w.start.nanos <= at && at < w.end.nanos)
            .map(|w| w.tps);
        assert_eq!(planned, planner.current_tps(ms));
    }
}

#[test]
fn a_step_of_no_time_is_never_current() {
    let planner = RampPlanner::new(RampConfig {
        steps: vec![
            RampStep { tps: 1, hold_ms: 0 },
            RampStep { tps: 2, hold_ms: 1 },
        ],
    });
    assert_eq!(planner.current_tps(0), Some(2));
    assert_eq!(planner.current_tps(1), None);
    assert_eq!(planner.steps().len(), 2);
}

#[test]
fn an_empty_ramp_is_over_at_once() {
    let planner = RampPlanner::new(RampConfig { steps: vec![] });
    assert_eq!(planner.total_duration_ms(), 0);
    assert_eq!(planner.current_tps(0), None);
    assert!(planner.plan(Instant::from_nanos(5)).is_empty());
}

#[test]
fn a_ramp_longer_than_a_u64_is_told_apart() {
    let planner = RampPlanner::new(RampConfig {
        steps: vec![
            RampStep {
                tps: 1,
                hold_ms: u64::MAX,
            },
            RampStep { tps: 2, hold_ms: 1 },
        ],
    });
    assert_eq!(planner.checked_total_duration_ms(), None);
    assert_eq!(planner.current_tps(u64::MAX - 1), Some(1));
    assert_eq!(planner.current_tps(u64::MAX), None);
    assert_eq!(two_steps().checked_total_duration_ms(), Some(15000));
}
