use bots_core::config::{de_u128_any, ser_u128_as_string, AmountError, RawAmount};
use bots_core::decimal::IntError;
use bots_core::{Config, PaymentConfig, RampConfig, RampStep, ScenarioConfig, TargetConfig};
use toml::{Table, Value};

fn amount(v: &Value) -> u128 {
    let raw = match v {
        Value::Integer(i) => RawAmount::Signed(*i),
        Value::String(s) => RawAmount::Text(s.clone()),
        other => panic!("no amount: {other}"),
    };
    de_u128_any(&raw).unwrap()
}

fn text(v: &Value) -> String {
    v.as_str().unwrap().to_string()
}

fn number(v: &Value) -> u64 {
    v.as_integer().unwrap() as u64
}

fn config_from(s: &str) -> Config {
    let t: Table = s.parse().unwrap();
    let steps = t["ramp"]["steps"].as_array().unwrap();
    let urls = t["target"]["rpc_urls"].as_array().unwrap();
    Config {
        scenario: ScenarioConfig {
            seed: number(&t["scenario"]["seed"]),
            memo: text(&t["scenario"]["memo"]),
        },
        ramp: RampConfig {
            steps: steps
                .iter()
                .map(|s| RampStep {
                    tps: number(&s["tps"]),
                    hold_ms: number(&s["hold_ms"]),
                })
                .collect(),
        },
        target: TargetConfig {
            rpc_urls: urls.iter().map(text).collect(),
            timeout_ms: number(&t["target"]["timeout_ms"]),
            max_in_flight: number(&t["target"]["max_in_flight"]) as u32,
        },
        payment: PaymentConfig {
            from: text(&t["payment"]["from"]),
            to_list_path: text(&t["payment"]["to_list_path"]),
            amount_atomic: amount(&t["payment"]["amount_atomic"]),
            fee_atomic: amount(&t["payment"]["fee_atomic"]),
            signing_key: text(&t["payment"]["signing_key"]),
        },
    }
}

#[test]
fn test_config_serde() {
    let config_str = r#"
[scenario]
seed = 42
memo = "hello"

[[ramp.steps]]
tps = 1000
hold_ms = 5000

[target]
rpc_urls = ["http://localhost:8080"]
timeout_ms = 5000
max_in_flight = 1000

[payment]
from = "from1"
to_list_path = "keys/recipients.json"
amount_atomic = 123
fee_atomic = "2000"
signing_key = "test_key"
        "#;

    let config = config_from(config_str);
    assert_eq!(config.scenario.seed, 42);
    assert_eq!(config.scenario.memo, "hello");
    assert_eq!(config.ramp.steps.len(), 1);
    assert_eq!(config.ramp.steps[0].tps, 1000);
    assert_eq!(config.payment.from, "from1");
    assert_eq!(config.payment.to_list_path, "keys/recipients.json");
    assert_eq!(config.payment.amount_atomic, 123);
    assert_eq!(config.payment.fee_atomic, 2000);
}

#[test]
fn test_ramp_inline_table_parsing() {
    let config_str = r#"
[scenario]
seed = 1
memo = "m"

[ramp]
steps = [
  { tps = 10, hold_ms = 1000 },
  { tps = 20, hold_ms = 2000 }
]

[target]
rpc_urls = ["http://localhost:8080"]
timeout_ms = 1000
max_in_flight = 10

[payment]
from = "from"
to_list_path = "keys/recipients.json"
amount_atomic = 1
fee_atomic = 2000
signing_key = "k"
"#;

    let config = config_from(config_str);
    assert_eq!(config.ramp.steps.len(), 2);
    assert_eq!(config.ramp.steps[0].tps, 10);
    assert_eq!(config.ramp.steps[1].hold_ms, 2000);
}

#[test]
fn ramp_parsing_inline_tables() {
    let config_str = r#"
[scenario]
seed = 42
memo = "ippan-load-test"

[target]
rpc_urls = [
  "https://api1.ippan.uk",
  "https://api2.ippan.uk"
]
timeout_ms = 3000
max_in_flight = 2000

[payment]
from = "@loadbank.ipn"
to_list_path = "keys/recipients.json"
amount_atomic = 1
fee_atomic = 2000
signing_key = "TEST_ONLY_KEY"

[ramp]
steps = [
  { tps = 1000, hold_ms = 120000 },
  { tps = 5000, hold_ms = 120000 }
]
"#;

    let cfg = config_from(config_str);
    assert_eq!(cfg.scenario.seed, 42);
    assert_eq!(cfg.ramp.steps.len(), 2);
    assert_eq!(cfg.ramp.steps[0].tps, 1000);
    assert_eq!(cfg.ramp.steps[1].hold_ms, 120000);
    assert_eq!(cfg.payment.amount_atomic, 1);
    assert_eq!(cfg.payment.fee_atomic, 2000);
}

#[test]
fn payment_u128_serializes_as_string_for_toml() {
    let cfg = Config {
        scenario: ScenarioConfig {
            seed: 42,
            memo: "m".to_string(),
        },
        ramp: RampConfig {
            steps: vec![RampStep {
                tps: 1,
                hold_ms: 1000,
            }],
        },
        target: TargetConfig {
            rpc_urls: vec!["http://127.0.0.1:8080".to_string()],
            timeout_ms: 3000,
            max_in_flight: 1,
        },
        payment: PaymentConfig {
            from: "@a.ipn".to_string(),
            to_list_path: "keys/recipients.json".to_string(),
            amount_atomic: 1u128,
            fee_atomic: 2000u128,
            signing_key: "k".to_string(),
        },
    };

    let mut payment = Table::new();
    payment.insert(
        "amount_atomic".to_string(),
        Value::String(ser_u128_as_string(cfg.payment.amount_atomic)),
    );
    payment.insert(
        "fee_atomic".to_string(),
        Value::String(ser_u128_as_string(cfg.payment.fee_atomic)),
    );
    let s = toml::to_string_pretty(&payment).expect("config should serialize to TOML");
    assert!(s.contains("amount_atomic = \"1\""));
    assert!(s.contains("fee_atomic = \"2000\""));
}

fn read(s: &str) -> Result<u128, AmountError> {
    de_u128_any(&RawAmount::Text(s.to_string()))
}

#[test]
fn amounts_are_read_from_integers() {
    assert_eq!(de_u128_any(&RawAmount::Unsigned(u64::MAX)), Ok(u64::MAX as u128));
    assert_eq!(de_u128_any(&RawAmount::Signed(7)), Ok(7));
    assert_eq!(de_u128_any(&RawAmount::Signed(0)), Ok(0));
    assert_eq!(de_u128_any(&RawAmount::Signed(-1)), Err(AmountError::Negative));
}

#[test]
fn amounts_are_read_from_texts() {
    assert_eq!(read(" \t2000\n"), Ok(2000));
    assert_eq!(read("+5"), Ok(5));
    assert_eq!(read("007"), Ok(7));
    assert_eq!(read("\u{a0}3\u{3000}"), Ok(3));
    assert_eq!(read("340282366920938463463374607431768211455"), Ok(u128::MAX));
    assert_eq!(
        read("340282366920938463463374607431768211456"),
        Err(AmountError::Invalid(IntError::TooLarge))
    );
    assert_eq!(read(""), Err(AmountError::Invalid(IntError::Empty)));
    assert_eq!(read("  "), Err(AmountError::Invalid(IntError::Empty)));
    assert_eq!(read("+"), Err(AmountError::Invalid(IntError::InvalidDigit)));
    assert_eq!(read("-1"), Err(AmountError::Invalid(IntError::InvalidDigit)));
    assert_eq!(read("1_000"), Err(AmountError::Invalid(IntError::InvalidDigit)));
}

#[test]
fn amount_errors_are_worded_as_std_words_them() {
    for s in ["", "+", "-", "x", "12x", "99999999999999999999999999999999999999999", "+-1", " "] {
        let expected = match s.trim().parse::<u128>() {
            Ok(_) => panic!("{s} is a number"),
            Err(e) => format!("invalid u128 string: {e}"),
        };
        assert_eq!(read(s).unwrap_err().message(), expected);
    }
    assert_eq!(
        AmountError::Negative.message(),
        "expected non-negative integer for u128"
    );
}

#[test]
fn amounts_are_read_back_as_written() {
    for v in [0u128, 1, 9, 10, 2000, u64::MAX as u128, u128::MAX] {
        let s = ser_u128_as_string(v);
        assert_eq!(s, v.to_string());
        assert_eq!(read(&s), Ok(v));
    }
    let n = 123_456u64;
    assert_eq!(read(&n.to_string()), de_u128_any(&RawAmount::Unsigned(n)));
}
