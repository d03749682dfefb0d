use bots_core::worker::run::{LoadRun, LoadTest, RunAction};
use bots_core::worker::schedule::{step_window, Launch, LaunchWindow, StepWindow};
use bots_core::{Config, PaymentConfig, RampConfig, RampStep, ScenarioConfig, TargetConfig};

/// The launches of a window, by the millisecond that they come in.
fn launches(tps: u64, window_ms: u64) -> Vec<u64> {
    let mut w = LaunchWindow::new(tps, window_ms);
    let mut per_ms = Vec::new();
    loop {
        match w.next() {
            Launch::SleepUntil { offset_ms } => {
                assert_eq!(offset_ms, per_ms.len() as u64);
                per_ms.push(0);
            }
            Launch::Payment => {
                let last = per_ms.len() - 1;
                per_ms[last] += 1;
            }
            Launch::Done => return per_ms,
        }
    }
}

#[test]
fn a_full_second_launches_exactly_the_rate() {
    for tps in [0u64, 1, 3, 999, 1000, 1001, 2500] {
        let per_ms = launches(tps, 1000);
        assert_eq!(per_ms.len(), 1000);
        assert_eq!(per_ms.iter().sum::<u64>(), tps);
    }
}

#[test]
fn a_shorter_window_launches_its_share_rounded_down() {
    assert_eq!(launches(1000, 7).iter().sum::<u64>(), 7);
    assert_eq!(launches(999, 500).iter().sum::<u64>(), 499);
    assert_eq!(launches(3, 333).iter().sum::<u64>(), 0);
    assert_eq!(launches(3, 334).iter().sum::<u64>(), 1);
    assert!(launches(50, 0).is_empty());
}

#[test]
fn launches_are_spread_over_the_window() {
    for n in launches(2500, 1000) {
        assert!(n == 2 || n == 3);
    }
    let per_ms = launches(4, 1000);
    let at: Vec<usize> = (0..1000).filter(|i| per_ms[*i] == 1).collect();
    assert_eq!(at, vec![249, 499, 749, 999]);
}

#[test]
fn a_step_is_cut_into_seconds() {
    let w = |offset_ms, length_ms| Some(StepWindow { offset_ms, length_ms });
    assert_eq!(step_window(2_300, 0), w(0, 1000));
    assert_eq!(step_window(2_300, 1), w(1000, 1000));
    assert_eq!(step_window(2_300, 2), w(2000, 300));
    assert_eq!(step_window(2_300, 3), None);
    assert_eq!(step_window(2_000, 2), None);
    assert_eq!(step_window(0, 0), None);
    assert_eq!(step_window(u64::MAX, u64::MAX), None);
}

fn steps() -> Vec<RampStep> {
    vec![
        RampStep {
            tps: 100,
            hold_ms: 1_250,
        },
        RampStep { tps: 7, hold_ms: 0 },
        RampStep {
            tps: 2_000,
            hold_ms: 3,
        },
    ]
}

#[test]
fn a_run_goes_through_all_steps() {
    let mut run = LoadRun::new(steps());
    let mut started = Vec::new();
    let mut slept = Vec::new();
    let mut launched = vec![0u64; 3];
    let mut actions = 0;
    loop {
        actions += 1;
        match run.next() {
            RunAction::StartStep {
                step_idx,
                tps,
                hold_ms,
            } => {
                assert_eq!(tps, steps()[step_idx].tps);
                assert_eq!(hold_ms, steps()[step_idx].hold_ms);
                started.push(step_idx);
                slept.push(0);
            }
            RunAction::SleepUntil { offset_ms } => {
                let step = slept.len() - 1;
                assert_eq!(offset_ms, slept[step]);
                slept[step] += 1;
            }
            RunAction::Launch => launched[slept.len() - 1] += 1,
            RunAction::Done => break,
        }
    }
    assert_eq!(started, vec![0, 1, 2]);
    assert_eq!(slept, vec![1_250, 0, 3]);
    // 100 in the full second and a quarter of that in the rest.
    assert_eq!(launched, vec![125, 0, 6]);
    assert_eq!(run.next(), RunAction::Done);
    // 3 starts, 1253 milliseconds and 131 payments come before the end.
    assert_eq!(actions, 3 + 1_253 + 131 + 1);
}

fn config(rpc_urls: Vec<String>) -> Config {
    Config {
        scenario: ScenarioConfig {
            seed: 9,
            memo: "m".to_string(),
        },
        ramp: RampConfig { steps: steps() },
        target: TargetConfig {
            rpc_urls,
            timeout_ms: 1,
            max_in_flight: 1,
        },
        payment: PaymentConfig {
            from: "me".to_string(),
            to_list_path: String::new(),
            amount_atomic: 5,
            fee_atomic: 6,
            signing_key: "test key".to_string(),
        },
    }
}

#[test]
fn payments_are_numbered_from_zero_in_each_step() {
    let urls = vec!["u0".to_string(), "u1".to_string()];
    let to = vec!["r0".to_string(), "r1".to_string(), "r2".to_string()];
    let mut test = LoadTest::new(config(urls), to);
    assert!(test.can_pay());
    let mut seq = 0;
    let mut n = 0;
    loop {
        match test.next() {
            RunAction::StartStep { .. } => seq = 0,
            RunAction::SleepUntil { .. } => {}
            RunAction::Launch => {
                let r = test.payment();
                assert_eq!(r.base_url, format!("u{}", n % 2));
                assert_eq!(r.body.to, format!("r{}", n % 3));
                assert_eq!(r.body.memo, format!("m|seed=9|seq={seq}"));
                assert_eq!(r.body.from, "me");
                assert_eq!(r.body.signing_key, "test key");
                assert_eq!(r.body.amount, 5);
                assert_eq!(r.body.fee, 6);
                seq += 1;
                n += 1;
            }
            RunAction::Done => break,
        }
    }
    assert_eq!(n, 131);
    assert_eq!(seq, 6);
}

#[test]
fn a_test_without_urls_cannot_pay() {
    let test = LoadTest::new(config(vec![]), vec!["r".to_string()]);
    assert!(!test.can_pay());
    let test = LoadTest::new(config(vec!["u".to_string()]), vec![]);
    assert!(!test.can_pay());
}

#[test]
fn a_run_is_never_ahead_of_its_rate() {
    let mut run = LoadRun::new(vec![RampStep {
        tps: 333,
        hold_ms: 1_000,
    }]);
    let mut begun = 0u64;
    let mut launched = 0u64;
    loop {
        match run.next() {
            RunAction::StartStep { .. } => {}
            RunAction::SleepUntil { .. } => {
                assert_eq!(launched, 333 * begun / 1000);
                begun += 1;
            }
            RunAction::Launch => {
                launched += 1;
                assert!(launched * 1000 <= 333 * begun);
            }
            RunAction::Done => break,
        }
    }
    assert_eq!(launched, 333);
}
