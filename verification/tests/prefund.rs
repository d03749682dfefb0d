use bots_core::prefund::{estimate, total_tx_count, PrefundEstimate, BUFFER_PERCENT};
use bots_core::worker::run::{LoadRun, RunAction};
use bots_core::worker::validate::ZeroFee;
use bots_core::{Config, PaymentConfig, RampConfig, RampStep, ScenarioConfig, TargetConfig};

fn config(steps: &[(u64, u64)], amount_atomic: u128, fee_atomic: u128) -> Config {
    Config {
        scenario: ScenarioConfig {
            seed: 0,
            memo: String::new(),
        },
        ramp: RampConfig {
            steps: steps
                .iter()
                .map(|(tps, hold_ms)| RampStep {
                    tps: *tps,
                    hold_ms: *hold_ms,
                })
                .collect(),
        },
        target: TargetConfig {
            rpc_urls: vec![],
            timeout_ms: 1,
            max_in_flight: 1,
        },
        payment: PaymentConfig {
            from: String::new(),
            to_list_path: String::new(),
            amount_atomic,
            fee_atomic,
            signing_key: String::new(),
        },
    }
}

#[test]
fn full_seconds_are_counted() {
    assert_eq!(
        total_tx_count(&config(&[(1000, 120_000), (5000, 1_999), (7, 999)], 1, 1)),
        125_000
    );
    assert_eq!(total_tx_count(&config(&[], 1, 1)), 0);
}

#[test]
fn the_estimate_adds_up() {
    let e = estimate(&config(&[(1000, 10_000)], 1, 2000)).unwrap();
    assert_eq!(
        e,
        PrefundEstimate {
            total_tx_count: 10_000,
            amount_atomic: 1,
            fee_atomic: 2000,
            required_fees_total_atomic: 20_000_000,
            required_total_atomic: 20_010_000,
            recommended_prefund_atomic: 24_012_000,
            buffer_percent: 20,
        }
    );
    assert_eq!(BUFFER_PERCENT, 20);
    assert_eq!(e.required_total_atomic, 10_000 + e.required_fees_total_atomic);
    // 3 * 1.2 = 3.6, rounded down
    let small = estimate(&config(&[(1, 1000)], 1, 2)).unwrap();
    assert_eq!(small.recommended_prefund_atomic, 3);
}

#[test]
fn an_estimate_without_a_fee_is_refused() {
    assert_eq!(estimate(&config(&[(1, 1000)], 1, 0)), Err(ZeroFee));
}

#[test]
fn huge_amounts_saturate() {
    let e = estimate(&config(&[(2, 1000)], u128::MAX, 1)).unwrap();
    assert_eq!(e.required_fees_total_atomic, 2);
    assert_eq!(e.required_total_atomic, u128::MAX);
    assert_eq!(e.recommended_prefund_atomic, u128::MAX / 100);
}

#[test]
fn the_estimate_counts_what_a_run_launches() {
    for (steps, exact) in [
        (vec![(30u64, 2_000u64), (7, 1_000)], true),
        (vec![(30, 2_500)], false),
    ] {
        let cfg = config(&steps, 1, 1);
        let mut run = LoadRun::new(cfg.ramp.steps.clone());
        let mut launched = 0u128;
        loop {
            match run.next() {
                RunAction::Launch => launched += 1,
                RunAction::Done => break,
                _ => {}
            }
        }
        let counted = total_tx_count(&cfg);
        assert!(counted <= launched);
        assert_eq!(counted == launched, exact);
    }
}
