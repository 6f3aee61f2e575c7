use uptime_forge::{
    base_result, classify_lowered, classify_transport_error, client_build_outcome, dns_outcome,
    get_sorted_results, http_failure_outcome, http_response_outcome, sort_results, tcp_outcome,
    CheckResult, CheckType, DnsProbe, Endpoint, Env, ErrorType, HttpMethod, RetryDriver, StatusMap,
    TcpProbe,
};

fn make_test_endpoint() -> Endpoint {
    Endpoint {
        addr: "https://example.com/health".to_string(),
        check_type: CheckType::Http,
        description: Some("Test endpoint".to_string()),
        group: Some("backend".to_string()),
        tags: vec!["production".to_string(), "api".to_string()],
        interval: 60,
        timeout: 10,
        expected_status: 200,
        skip_tls_verification: false,
        method: HttpMethod::Get,
        headers: Vec::new(),
        body: None,
        retries: 0,
        retry_delay: 5,
        alert_after_failures: 3,
        alert_channels: vec![],
        expected_records: vec![],
    }
}

fn names(results: &[CheckResult]) -> Vec<String> {
    results.iter().map(|r| r.name.clone()).collect()
}

#[test]
fn error_type_as_str_returns_correct_values() {
    assert_eq!(ErrorType::Timeout.as_str(), "timeout");
    assert_eq!(ErrorType::Dns.as_str(), "dns");
    assert_eq!(ErrorType::Tls.as_str(), "tls");
    assert_eq!(ErrorType::Connection.as_str(), "connection");
    assert_eq!(ErrorType::StatusMismatch.as_str(), "status_mismatch");
    assert_eq!(ErrorType::TcpRefused.as_str(), "tcp_refused");
    assert_eq!(ErrorType::DnsNxdomain.as_str(), "dns_nxdomain");
    assert_eq!(ErrorType::DnsMismatch.as_str(), "dns_mismatch");
    assert_eq!(ErrorType::ClientBuild.as_str(), "client_build");
    assert_eq!(ErrorType::Unknown.as_str(), "unknown");
}

#[test]
fn error_type_equality() {
    assert_eq!(ErrorType::Timeout, ErrorType::Timeout);
    assert_ne!(ErrorType::Timeout, ErrorType::Dns);
}

#[test]
fn error_type_clone() {
    let kind = ErrorType::Tls;
    let cloned = kind.clone();
    assert_eq!(kind, cloned);
}

#[test]
fn base_result_copies_endpoint_fields() {
    let endpoint = make_test_endpoint();
    let result = base_result("my-endpoint", &endpoint, &Env::new());

    assert_eq!(result.name, "my-endpoint");
    assert_eq!(result.description, Some("Test endpoint".to_string()));
    assert_eq!(result.group, Some("backend".to_string()));
    assert_eq!(result.tags, vec!["production".to_string(), "api".to_string()]);
    assert_eq!(result.addr, "https://example.com/health");
    assert_eq!(result.check_type, CheckType::Http);
}

#[test]
fn base_result_initializes_is_up_to_false() {
    let endpoint = make_test_endpoint();
    let result = base_result("test", &endpoint, &Env::new());
    assert!(!result.is_up);
}

#[test]
fn base_result_initializes_optional_fields_to_none() {
    let endpoint = make_test_endpoint();
    let result = base_result("test", &endpoint, &Env::new());
    assert!(result.status_code.is_none());
    assert!(result.response_time_ms.is_none());
    assert!(result.error.is_none());
    assert!(result.error_type.is_none());
}

#[test]
fn base_result_resolves_env_vars_in_addr() {
    let mut env = Env::new();
    env.set("TEST_CHECK_HOST", "api.example.com");
    let mut endpoint = make_test_endpoint();
    endpoint.addr = "https://${TEST_CHECK_HOST}/status".to_string();
    let result = base_result("test", &endpoint, &env);
    assert_eq!(result.addr, "https://api.example.com/status");
}

#[test]
fn base_result_handles_none_fields() {
    let mut endpoint = make_test_endpoint();
    endpoint.description = None;
    endpoint.group = None;
    endpoint.tags = vec![];
    let result = base_result("test", &endpoint, &Env::new());
    assert!(result.description.is_none());
    assert!(result.group.is_none());
    assert!(result.tags.is_empty());
}

#[test]
fn check_result_clone() {
    let endpoint = make_test_endpoint();
    let mut result = base_result("test", &endpoint, &Env::new());
    result.is_up = true;
    result.status_code = Some(200);
    result.response_time_ms = Some(150);
    let cloned = result.clone();
    assert_eq!(result.name, cloned.name);
    assert_eq!(result.is_up, cloned.is_up);
    assert_eq!(result.status_code, cloned.status_code);
    assert_eq!(result.response_time_ms, cloned.response_time_ms);
}

#[test]
fn check_result_debug() {
    let endpoint = make_test_endpoint();
    let result = base_result("test", &endpoint, &Env::new());
    let debug_str = format!("{result:?}");
    assert!(debug_str.contains("CheckResult"));
    assert!(debug_str.contains("test"));
}

#[test]
fn base_result_preserves_http_check_type() {
    let mut endpoint = make_test_endpoint();
    endpoint.check_type = CheckType::Http;
    let result = base_result("test", &endpoint, &Env::new());
    assert_eq!(result.check_type, CheckType::Http);
}

#[test]
fn base_result_preserves_tcp_check_type() {
    let mut endpoint = make_test_endpoint();
    endpoint.check_type = CheckType::Tcp;
    endpoint.addr = "tcp://localhost:5432".to_string();
    let result = base_result("test", &endpoint, &Env::new());
    assert_eq!(result.check_type, CheckType::Tcp);
}

#[test]
fn base_result_preserves_dns_check_type() {
    let mut endpoint = make_test_endpoint();
    endpoint.check_type = CheckType::Dns;
    endpoint.addr = "dns://example.com".to_string();
    let result = base_result("test", &endpoint, &Env::new());
    assert_eq!(result.check_type, CheckType::Dns);
}

#[test]
fn get_sorted_results_returns_empty_for_empty_state() {
    let state = StatusMap::new();
    let results = get_sorted_results(&state);
    assert!(results.is_empty());
}

#[test]
fn get_sorted_results_sorts_alphabetically() {
    let mut state = StatusMap::new();
    let endpoint = make_test_endpoint();
    let mut result1 = base_result("zebra", &endpoint, &Env::new());
    result1.is_up = true;
    state.record(result1);
    let mut result2 = base_result("alpha", &endpoint, &Env::new());
    result2.is_up = false;
    state.record(result2);
    let mut result3 = base_result("middle", &endpoint, &Env::new());
    result3.is_up = true;
    state.record(result3);

    let results = get_sorted_results(&state);
    assert_eq!(results.len(), 3);
    assert_eq!(results[0].name, "alpha");
    assert_eq!(results[1].name, "middle");
    assert_eq!(results[2].name, "zebra");
}

#[test]
fn get_sorted_results_preserves_all_fields() {
    let mut state = StatusMap::new();
    let endpoint = make_test_endpoint();
    let mut result = base_result("test", &endpoint, &Env::new());
    result.is_up = true;
    result.status_code = Some(200);
    result.response_time_ms = Some(42);
    state.record(result);

    let results = get_sorted_results(&state);
    assert_eq!(results.len(), 1);
    assert_eq!(results[0].name, "test");
    assert!(results[0].is_up);
    assert_eq!(results[0].status_code, Some(200));
    assert_eq!(results[0].response_time_ms, Some(42));
}

#[test]
fn sort_results_is_case_insensitive() {
    let endpoint = make_test_endpoint();
    let env = Env::new();
    let input = vec![
        base_result("ZEBRA", &endpoint, &env),
        base_result("alpha", &endpoint, &env),
        base_result("Middle", &endpoint, &env),
    ];
    let sorted = sort_results(input);
    assert_eq!(names(&sorted), vec!["alpha", "Middle", "ZEBRA"]);
}

#[test]
fn sort_results_keeps_every_result() {
    let endpoint = make_test_endpoint();
    let env = Env::new();
    let sorted = sort_results(vec![
        base_result("b", &endpoint, &env),
        base_result("a", &endpoint, &env),
        base_result("b", &endpoint, &env),
    ]);
    assert_eq!(names(&sorted), vec!["a", "b", "b"]);
    assert!(sort_results(Vec::new()).is_empty());
}

#[test]
fn status_map_record_replaces_and_remove_purges() {
    let endpoint = make_test_endpoint();
    let env = Env::new();
    let mut state = StatusMap::new();
    state.record(base_result("a", &endpoint, &env));
    let mut newer = base_result("a", &endpoint, &env);
    newer.response_time_ms = Some(7);
    state.record(newer);
    assert_eq!(get_sorted_results(&state).len(), 1);
    assert_eq!(state.get("a").unwrap().response_time_ms, Some(7));
    state.remove("a");
    assert!(state.get("a").is_none());
    assert!(get_sorted_results(&state).is_empty());
}

#[test]
fn http_response_outcome_up_on_expected_status() {
    let base = base_result("api", &make_test_endpoint(), &Env::new());
    let r = http_response_outcome(base, 200, 200, 35);
    assert!(r.is_up);
    assert_eq!(r.status_code, Some(200));
    assert_eq!(r.response_time_ms, Some(35));
    assert!(r.error.is_none());
    assert!(r.error_type.is_none());
}

#[test]
fn http_response_outcome_reports_status_mismatch() {
    let base = base_result("api", &make_test_endpoint(), &Env::new());
    let r = http_response_outcome(base, 200, 503, 12);
    assert!(!r.is_up);
    assert_eq!(r.status_code, Some(503));
    assert_eq!(r.error.as_deref(), Some("expected status 200, got 503"));
    assert_eq!(r.error_type, Some(ErrorType::StatusMismatch));
}

#[test]
fn transport_errors_are_classified() {
    assert_eq!(classify_lowered(true, false, "anything"), ErrorType::Timeout);
    assert_eq!(classify_lowered(false, true, "dns error: failed to lookup"), ErrorType::Dns);
    assert_eq!(classify_lowered(false, true, "could not resolve host"), ErrorType::Dns);
    assert_eq!(classify_lowered(false, true, "invalid peer certificate"), ErrorType::Tls);
    assert_eq!(classify_lowered(false, true, "ssl handshake"), ErrorType::Tls);
    assert_eq!(classify_lowered(false, true, "tcp connect error"), ErrorType::Connection);
    assert_eq!(classify_lowered(false, false, "body error"), ErrorType::Unknown);
    // the raw text is lowercased before it is searched
    assert_eq!(classify_transport_error(false, true, "DNS Error"), ErrorType::Dns);
    assert_eq!(classify_transport_error(false, true, "TLS Handshake"), ErrorType::Tls);
    assert_eq!(classify_lowered(false, true, "DNS Error"), ErrorType::Connection);
}

#[test]
fn http_failure_outcome_records_error_text() {
    let base = base_result("api", &make_test_endpoint(), &Env::new());
    let r = http_failure_outcome(base, false, true, "Connection refused".to_string(), 3);
    assert!(!r.is_up);
    assert_eq!(r.response_time_ms, Some(3));
    assert_eq!(r.error.as_deref(), Some("Connection refused"));
    assert_eq!(r.error_type, Some(ErrorType::Connection));
}

#[test]
fn client_build_outcome_prefixes_message() {
    let base = base_result("api", &make_test_endpoint(), &Env::new());
    let r = client_build_outcome(base, "no TLS backend");
    assert!(!r.is_up);
    assert_eq!(r.error.as_deref(), Some("failed to build HTTP client: no TLS backend"));
    assert_eq!(r.error_type, Some(ErrorType::ClientBuild));
}

#[test]
fn tcp_refused_is_classified() {
    let mut endpoint = make_test_endpoint();
    endpoint.check_type = CheckType::Tcp;
    endpoint.addr = "127.0.0.1:1".to_string();
    endpoint.timeout = 1;
    let base = base_result("db", &endpoint, &Env::new());
    let r = tcp_outcome(base, "127.0.0.1:1", TcpProbe::ConnectFailed("Connection Refused (os error 111)".to_string()), 1);
    assert!(!r.is_up);
    assert_eq!(r.error_type, Some(ErrorType::TcpRefused));
    assert_eq!(r.response_time_ms, Some(1));
}

#[test]
fn tcp_outcomes_cover_every_observation() {
    let base = || base_result("db", &make_test_endpoint(), &Env::new());
    let up = tcp_outcome(base(), "h:1", TcpProbe::Connected { write_ok: true }, 4);
    assert!(up.is_up);
    assert_eq!(up.response_time_ms, Some(4));
    assert!(up.error_type.is_none());

    let write = tcp_outcome(base(), "h:1", TcpProbe::Connected { write_ok: false }, 4);
    assert!(!write.is_up);
    assert_eq!(write.error.as_deref(), Some("connection established but write failed"));
    assert_eq!(write.error_type, Some(ErrorType::Connection));

    let none = tcp_outcome(base(), "h:1", TcpProbe::NoAddresses, 4);
    assert_eq!(none.error.as_deref(), Some("no addresses found for 'h:1'"));
    assert_eq!(none.error_type, Some(ErrorType::Dns));
    assert_eq!(none.response_time_ms, Some(4));

    let resolve = tcp_outcome(base(), "h:1", TcpProbe::ResolveFailed("bad".to_string()), 4);
    assert_eq!(resolve.error.as_deref(), Some("failed to resolve address: bad"));
    assert_eq!(resolve.error_type, Some(ErrorType::Dns));

    let other = tcp_outcome(base(), "h:1", TcpProbe::ConnectFailed("network unreachable".to_string()), 4);
    assert_eq!(other.error_type, Some(ErrorType::Connection));

    let slow = tcp_outcome(base(), "h:1", TcpProbe::TimedOut, 1000);
    assert_eq!(slow.error.as_deref(), Some("connection timed out"));
    assert_eq!(slow.error_type, Some(ErrorType::Timeout));
    assert_eq!(slow.response_time_ms, Some(1000));
}

#[test]
fn dns_outcomes_cover_every_observation() {
    let base = || base_result("dns", &make_test_endpoint(), &Env::new());
    let none: Vec<String> = Vec::new();
    let ips = vec!["1.2.3.4".to_string(), "5.6.7.8".to_string()];

    let up = dns_outcome(base(), &none, DnsProbe::Resolved(ips.clone()), 9);
    assert!(up.is_up);
    assert_eq!(up.response_time_ms, Some(9));

    let empty = dns_outcome(base(), &none, DnsProbe::Resolved(Vec::new()), 9);
    assert!(!empty.is_up);
    assert_eq!(empty.error.as_deref(), Some("DNS resolution returned no records"));
    assert_eq!(empty.error_type, Some(ErrorType::Dns));

    let found = dns_outcome(base(), &vec!["5.6.7.8".to_string()], DnsProbe::Resolved(ips.clone()), 9);
    assert!(found.is_up);

    let wanted = vec!["9.9.9.9".to_string()];
    let missing = dns_outcome(base(), &wanted, DnsProbe::Resolved(ips.clone()), 9);
    assert!(!missing.is_up);
    assert_eq!(missing.error_type, Some(ErrorType::DnsMismatch));
    assert_eq!(
        missing.error.as_deref(),
        Some("expected records [\"9.9.9.9\"], got [\"1.2.3.4\", \"5.6.7.8\"]")
    );

    let nx = dns_outcome(base(), &none, DnsProbe::Failed("NXDOMAIN for example.invalid".to_string()), 9);
    assert_eq!(nx.error_type, Some(ErrorType::DnsNxdomain));
    let nosuch = dns_outcome(base(), &none, DnsProbe::Failed("no such host".to_string()), 9);
    assert_eq!(nosuch.error_type, Some(ErrorType::DnsNxdomain));
    let other = dns_outcome(base(), &none, DnsProbe::Failed("server failure".to_string()), 9);
    assert_eq!(other.error_type, Some(ErrorType::Dns));
    assert_eq!(other.error.as_deref(), Some("server failure"));

    let slow = dns_outcome(base(), &none, DnsProbe::TimedOut, 1000);
    assert_eq!(slow.error.as_deref(), Some("DNS lookup timed out"));
    assert_eq!(slow.error_type, Some(ErrorType::Timeout));
}

#[test]
fn retry_driver_stops_after_retries_plus_one_failures() {
    let mut driver = RetryDriver::new(2);
    assert!(driver.record(false));
    assert!(driver.record(false));
    assert!(!driver.record(false));
    assert_eq!(driver.attempts(), 3);
}

#[test]
fn retry_driver_stops_on_first_success() {
    let mut driver = RetryDriver::new(5);
    assert!(!driver.record(true));
    assert_eq!(driver.attempts(), 1);

    let mut no_retries = RetryDriver::new(0);
    assert!(!no_retries.record(false));
    assert_eq!(no_retries.attempts(), 1);
}
