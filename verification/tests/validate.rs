use bots_core::decimal::IntError;
use bots_core::worker::validate::{
    url_fault, validate_fee_nonzero, validate_https_only, validate_start, StartError, UrlFault,
    UrlsError, ZeroFee,
};
use bots_core::{Config, PaymentConfig, RampConfig, ScenarioConfig, TargetConfig};

#[test]
fn fees_are_mandatory() {
    assert_eq!(validate_fee_nonzero(0), Err(ZeroFee));
    assert_eq!(validate_fee_nonzero(1), Ok(()));
    assert_eq!(validate_fee_nonzero(u128::MAX), Ok(()));
}

#[test]
fn https_on_its_own_port_is_accepted() {
    for url in [
        "https://api1.ippan.uk",
        "https://api1.ippan.uk:443",
        "https://api1.ippan.uk:",
        "https://api1.ippan.uk:+443",
        "https://api1.ippan.uk:0443/a:b",
        "https://api1.ippan.uk/path:9000",
        "https://",
        "https://user:443",
        "https://a:443?q",
        "https://a:443#f",
        "https://a?x=:9000",
        "https://a#:9000",
        "https://a\\:9000",
        "https:///a:443",
        "https:////",
        "https://\\\\a",
    ] {
        assert_eq!(url_fault(url), None, "{url}");
    }
}

#[test]
fn other_urls_are_refused() {
    for url in ["http://api1.ippan.uk", "HTTPS://a", "https:/a", "", "https:"] {
        assert_eq!(url_fault(url), Some(UrlFault::NotHttps), "{url}");
    }
    for url in [
        "https://a:9000",
        "https://a:443:80",
        "https://a:65535/x",
        "https://api1.ippan.uk:9000?x=:443",
        "https://api1.ippan.uk:9000#:443",
        "https://h:9000\\:443",
        "https:///h:9000",
        "https://\\/h:9000",
        "https://\t/h:9000",
    ] {
        assert_eq!(url_fault(url), Some(UrlFault::NodePort), "{url}");
    }
    for url in ["https://a:x", "https://[::1]", "https://a:443x?q", "https://u:1@a"] {
        assert_eq!(
            url_fault(url),
            Some(UrlFault::InvalidPort(IntError::InvalidDigit)),
            "{url}"
        );
    }
    assert_eq!(
        url_fault("https://a:65536"),
        Some(UrlFault::InvalidPort(IntError::TooLarge))
    );
}

fn list(items: &[&str]) -> Vec<String> {
    items.iter().map(|s| s.to_string()).collect()
}

#[test]
fn the_first_faulty_url_is_told() {
    assert!(validate_https_only(&list(&["https://a", "https://b:443"])).is_ok());
    assert!(matches!(validate_https_only(&[]), Err(UrlsError::Empty)));
    match validate_https_only(&list(&["https://a", "https://b:80", "http://c"])) {
        Err(UrlsError::Faulty { url, fault }) => {
            assert_eq!(url, "https://b:80");
            assert_eq!(fault, UrlFault::NodePort);
        }
        other => panic!("{other:?}"),
    }
}

fn config(urls: &[&str], fee_atomic: u128) -> Config {
    Config {
        scenario: ScenarioConfig {
            seed: 0,
            memo: String::new(),
        },
        ramp: RampConfig { steps: vec![] },
        target: TargetConfig {
            rpc_urls: list(urls),
            timeout_ms: 1,
            max_in_flight: 1,
        },
        payment: PaymentConfig {
            from: String::new(),
            to_list_path: String::new(),
            amount_atomic: 0,
            fee_atomic,
            signing_key: String::new(),
        },
    }
}

#[test]
fn urls_matter_only_over_http() {
    assert!(validate_start("http", &config(&["https://a"], 1)).is_ok());
    assert!(validate_start("mock", &config(&[], 1)).is_ok());
    assert!(validate_start("other", &config(&["http://a"], 1)).is_ok());
    assert!(matches!(
        validate_start("http", &config(&["http://a"], 0)),
        Err(StartError::Urls(UrlsError::Faulty { .. }))
    ));
    assert!(matches!(
        validate_start("http", &config(&[], 0)),
        Err(StartError::Urls(UrlsError::Empty))
    ));
    assert!(matches!(
        validate_start("http", &config(&["https://a"], 0)),
        Err(StartError::ZeroFee)
    ));
    assert!(matches!(
        validate_start("mock", &config(&[], 0)),
        Err(StartError::ZeroFee)
    ));
}
