use bots_core::preflight::{
    allowed_hosts, check_url, check_url_parts, required_ok, shown_base, status_warnings,
    validate_rpc_url, validate_rpc_urls, Preflight, RpcUrlFault, StatusWarnings, UrlParts,
    SLOW_STATUS_WARN_MS,
};

fn fault(raw: &str) -> RpcUrlFault {
    validate_rpc_url(raw, &allowed_hosts()).unwrap_err().fault
}

#[test]
fn the_four_api_hosts_are_allowed() {
    for n in 1..=4 {
        let url = validate_rpc_url(&format!("https://api{n}.ippan.uk"), &allowed_hosts()).unwrap();
        assert_eq!(url.text, format!("https://api{n}.ippan.uk/"));
        assert_eq!(url.host, Some(format!("api{n}.ippan.uk")));
        assert_eq!(url.path, "/");
        assert_eq!(url.port, None);
    }
    assert!(validate_rpc_url("https://API1.ippan.uk:443/", &allowed_hosts()).is_ok());
}

#[test]
fn each_fault_has_its_input() {
    assert_eq!(fault("not a url"), RpcUrlFault::Invalid);
    assert_eq!(fault("http://api1.ippan.uk"), RpcUrlFault::NotHttps);
    assert_eq!(fault("mailto:a@b"), RpcUrlFault::NotHttps);
    assert_eq!(fault("https://u@api1.ippan.uk"), RpcUrlFault::Credentials);
    assert_eq!(fault("https://:p@api1.ippan.uk"), RpcUrlFault::Credentials);
    assert_eq!(fault("https://api5.ippan.uk"), RpcUrlFault::HostNotAllowed);
    assert_eq!(fault("https://10.0.0.1"), RpcUrlFault::HostNotAllowed);
    assert_eq!(fault("https://api1.ippan.uk:9000"), RpcUrlFault::NodePort);
    assert_eq!(fault("https://api1.ippan.uk:8443"), RpcUrlFault::OtherPort);
    assert_eq!(fault("https://api1.ippan.uk/tx"), RpcUrlFault::HasPath);
    assert_eq!(fault("https://api1.ippan.uk?q"), RpcUrlFault::QueryOrFragment);
    assert_eq!(fault("https://api1.ippan.uk#f"), RpcUrlFault::QueryOrFragment);
}

#[test]
fn a_raw_address_is_refused_though_it_is_listed() {
    let allowed = vec!["10.0.0.1".to_string(), "[::1]".to_string()];
    let e = validate_rpc_url("https://10.0.0.1", &allowed).unwrap_err();
    assert_eq!(e.fault, RpcUrlFault::RawIp);
    assert!(validate_rpc_url("https://[::1]", &allowed).is_ok());
}

#[test]
fn faults_tell_the_host_or_the_path() {
    let e = validate_rpc_url("https://example.com", &allowed_hosts()).unwrap_err();
    assert_eq!(e.detail, "example.com");
    let e = validate_rpc_url("https://api2.ippan.uk/a/b", &allowed_hosts()).unwrap_err();
    assert_eq!(e.detail, "/a/b");
    let e = validate_rpc_url("", &allowed_hosts()).unwrap_err();
    assert_eq!(e.detail, "relative URL without a base");
    let e = validate_rpc_url("https://", &allowed_hosts()).unwrap_err();
    assert_eq!(e.detail, "empty host");
}

fn parts() -> UrlParts {
    UrlParts {
        scheme: "https".to_string(),
        username: String::new(),
        password: None,
        host: Some("h".to_string()),
        host_is_ipv4: false,
        port: None,
        path: "/".to_string(),
        query: None,
        fragment: None,
        text: "https://h/".to_string(),
    }
}

#[test]
fn parts_are_checked_in_order() {
    let allowed = vec!["h".to_string()];
    assert!(check_url_parts(&parts(), &allowed).is_ok());
    assert!(check_url_parts(&UrlParts { port: Some(443), ..parts() }, &allowed).is_ok());
    let check = |u: UrlParts| check_url_parts(&u, &allowed).unwrap_err().fault;
    assert_eq!(check(UrlParts { host: None, ..parts() }), RpcUrlFault::NoHost);
    assert_eq!(
        check(UrlParts { host_is_ipv4: true, port: Some(9000), ..parts() }),
        RpcUrlFault::RawIp
    );
    assert_eq!(
        check(UrlParts { port: Some(9000), path: "/x".to_string(), ..parts() }),
        RpcUrlFault::NodePort
    );
    assert_eq!(
        check(UrlParts { path: "/x".to_string(), query: Some(String::new()), ..parts() }),
        RpcUrlFault::HasPath
    );
}

#[test]
fn urls_are_checked_up_to_the_first_fault() {
    let ok = vec![
        "https://api1.ippan.uk".to_string(),
        "https://api2.ippan.uk".to_string(),
    ];
    let urls = validate_rpc_urls(&ok, &allowed_hosts()).unwrap();
    assert_eq!(urls.len(), 2);
    assert_eq!(urls[1].host, Some("api2.ippan.uk".to_string()));
    let bad = vec![ok[0].clone(), "http://api2.ippan.uk".to_string(), "x".to_string()];
    let (at, e) = validate_rpc_urls(&bad, &allowed_hosts()).unwrap_err();
    assert_eq!(at, 1);
    assert_eq!(e.fault, RpcUrlFault::NotHttps);
    assert!(validate_rpc_urls(&[], &allowed_hosts()).unwrap().is_empty());
}

#[test]
fn paths_are_joined_to_the_base() {
    let base = validate_rpc_url("https://api3.ippan.uk", &allowed_hosts()).unwrap();
    assert_eq!(shown_base(&base), "https://api3.ippan.uk");
    assert_eq!(
        check_url(&base, "/health"),
        Ok("https://api3.ippan.uk/health".to_string())
    );
    assert_eq!(
        check_url(&base, "//version"),
        Ok("https://api3.ippan.uk/version".to_string())
    );
    let broken = UrlParts { text: "no base".to_string(), ..parts() };
    assert_eq!(
        check_url(&broken, "/health"),
        Err("relative URL without a base".to_string())
    );
}

#[test]
fn a_required_endpoint_answers_with_200() {
    assert!(required_ok(Some(200)));
    assert!(!required_ok(Some(204)));
    assert!(!required_ok(Some(500)));
    assert!(!required_ok(None));
}

#[test]
fn a_slow_status_only_warns() {
    let w = |slow, non_200, failed| StatusWarnings { slow, non_200, failed };
    assert_eq!(status_warnings(Some(200), SLOW_STATUS_WARN_MS), w(false, false, false));
    assert_eq!(status_warnings(Some(200), 1_001), w(true, false, false));
    assert_eq!(status_warnings(Some(503), 5), w(false, true, false));
    assert_eq!(status_warnings(None, 9_999), w(false, false, true));
}

#[test]
fn one_failed_check_fails_the_preflight() {
    let mut p = Preflight::new();
    assert_eq!(p.verdict(), Ok(()));
    p.record(true);
    assert_eq!(p.verdict(), Ok(()));
    p.record(false);
    p.record(true);
    p.record(false);
    assert_eq!(p.verdict(), Err(2));
    let mut full = Preflight { failures: u64::MAX };
    full.record(false);
    assert_eq!(full.verdict(), Err(u64::MAX));
}
