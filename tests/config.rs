use uptime_forge::{
    default_alert_after_failures, default_expected_status, default_interval,
    default_reload_config_interval, default_retry_delay, default_timeout, error_report,
    substitute_env_vars, unbound_placeholders, CheckType, Config, Endpoint, Env, HttpMethod, ServerConfig, ValidationWarning,
};

fn make_test_endpoint(addr: &str) -> Endpoint {
    Endpoint {
        addr: addr.to_string(),
        check_type: CheckType::Http,
        description: None,
        group: None,
        tags: vec![],
        interval: 60,
        timeout: 10,
        expected_status: 200,
        skip_tls_verification: false,
        method: HttpMethod::Get,
        headers: Vec::new(),
        body: None,
        retries: 0,
        retry_delay: 5,
        alert_after_failures: 3,
        alert_channels: vec![],
        expected_records: vec![],
    }
}

fn make_test_config(endpoints: Vec<(String, Endpoint)>) -> Config {
    Config {
        server: ServerConfig { addr: "127.0.0.1:3000".to_string(), reload_config_interval: 60 },
        endpoints,
    }
}

fn validate_one(endpoint: Endpoint) -> (Vec<ValidationWarning>, Vec<ValidationWarning>) {
    let config = make_test_config(vec![("test".to_string(), endpoint)]);
    config.validate(&Env::new())
}

#[test]
fn substitute_env_vars_replaces_single_variable() {
    let mut env = Env::new();
    env.set("TEST_VAR_SINGLE", "test_value");
    let result = substitute_env_vars("Bearer ${TEST_VAR_SINGLE}", &env);
    assert_eq!(result, "Bearer test_value");
}

#[test]
fn substitute_env_vars_replaces_multiple_variables() {
    let mut env = Env::new();
    env.set("TEST_HOST", "example.com");
    env.set("TEST_PORT", "8080");
    let result = substitute_env_vars("https://${TEST_HOST}:${TEST_PORT}/api", &env);
    assert_eq!(result, "https://example.com:8080/api");
}

#[test]
fn substitute_env_vars_returns_empty_for_missing_variable() {
    let env = Env::new();
    let result = substitute_env_vars("prefix_${NONEXISTENT_VAR_12345}_suffix", &env);
    assert_eq!(result, "prefix__suffix");
}

#[test]
fn substitute_env_vars_preserves_string_without_variables() {
    let input = "just a normal string";
    let result = substitute_env_vars(input, &Env::new());
    assert_eq!(result, input);
}

#[test]
fn substitute_env_vars_handles_adjacent_variables() {
    let mut env = Env::new();
    env.set("TEST_A", "Hello");
    env.set("TEST_B", "World");
    let result = substitute_env_vars("${TEST_A}${TEST_B}", &env);
    assert_eq!(result, "HelloWorld");
}

#[test]
fn substitute_env_vars_ignores_invalid_syntax() {
    let mut env = Env::new();
    env.set("VAR", "x");
    env.set("lowercase", "x");
    let result = substitute_env_vars("$VAR ${} ${lowercase} ${123}", &env);
    assert_eq!(result, "$VAR ${} ${lowercase} ${123}");
}

#[test]
fn substitute_env_vars_latest_binding_wins_and_unclosed_stays() {
    let mut env = Env::new();
    env.set("A_1", "old");
    env.set("A_1", "new");
    assert_eq!(substitute_env_vars("${A_1}", &env), "new");
    assert_eq!(substitute_env_vars("${A_1", &env), "${A_1");
    assert_eq!(substitute_env_vars("$${A_1}}", &env), "$new}");
    assert_eq!(substitute_env_vars("", &env), "");
    assert_eq!(substitute_env_vars("ü${A_1}é", &env), "ünewé");
}

#[test]
fn http_method_default_is_get() {
    assert_eq!(HttpMethod::default(), HttpMethod::Get);
}

#[test]
fn check_type_default_is_http() {
    assert_eq!(CheckType::default(), CheckType::Http);
}

#[test]
fn http_method_names() {
    assert_eq!(HttpMethod::Get.as_str(), "GET");
    assert_eq!(HttpMethod::Post.as_str(), "POST");
    assert_eq!(HttpMethod::Put.as_str(), "PUT");
    assert_eq!(HttpMethod::Patch.as_str(), "PATCH");
    assert_eq!(HttpMethod::Delete.as_str(), "DELETE");
    assert_eq!(HttpMethod::Head.as_str(), "HEAD");
    assert_eq!(HttpMethod::Options.as_str(), "OPTIONS");
}

#[test]
fn defaults_match_the_documented_values() {
    assert_eq!(default_reload_config_interval(), 60);
    assert_eq!(default_interval(), 60);
    assert_eq!(default_timeout(), 10);
    assert_eq!(default_expected_status(), 200);
    assert_eq!(default_retry_delay(), 5);
    assert_eq!(default_alert_after_failures(), 3);
}

#[test]
fn endpoint_resolved_headers_substitutes_env_vars() {
    let mut env = Env::new();
    env.set("TEST_TOKEN", "secret123");
    let mut endpoint = make_test_endpoint("https://example.com");
    endpoint.headers.push(("Authorization".to_string(), "Bearer ${TEST_TOKEN}".to_string()));
    let resolved = endpoint.resolved_headers(&env);
    let value = resolved.iter().find(|(k, _)| k == "Authorization").map(|(_, v)| v.clone());
    assert_eq!(value.unwrap(), "Bearer secret123");
}

#[test]
fn endpoint_resolved_body_substitutes_env_vars() {
    let mut env = Env::new();
    env.set("TEST_USER", "admin");
    let mut endpoint = make_test_endpoint("https://example.com");
    endpoint.body = Some(r#"{"user": "${TEST_USER}"}"#.to_string());
    let resolved = endpoint.resolved_body(&env);
    assert_eq!(resolved.unwrap(), r#"{"user": "admin"}"#);
}

#[test]
fn endpoint_resolved_body_returns_none_when_no_body() {
    let endpoint = make_test_endpoint("https://example.com");
    assert!(endpoint.resolved_body(&Env::new()).is_none());
}

#[test]
fn endpoint_resolved_addr_substitutes_env_vars() {
    let mut env = Env::new();
    env.set("TEST_DOMAIN", "api.example.com");
    let endpoint = make_test_endpoint("https://${TEST_DOMAIN}/health");
    let resolved = endpoint.resolved_addr(&env);
    assert_eq!(resolved, "https://api.example.com/health");
}

#[test]
fn endpoint_equality_compares_headers_as_a_map() {
    let mut a = make_test_endpoint("https://example.com");
    a.headers = vec![("A".to_string(), "1".to_string()), ("B".to_string(), "2".to_string())];
    let mut b = a.clone();
    b.headers = vec![("B".to_string(), "2".to_string()), ("A".to_string(), "1".to_string())];
    assert!(a == b);
    b.headers[0].1 = "3".to_string();
    assert!(a != b);
    let mut c = a.clone();
    c.tags = vec!["x".to_string()];
    assert!(a != c);
    assert!(a == a.duplicate());
}

#[test]
fn validation_errors_when_timeout_exceeds_interval() {
    let mut endpoint = make_test_endpoint("https://example.com");
    endpoint.timeout = 60;
    endpoint.interval = 30;
    let (errors, _warnings) = validate_one(endpoint);
    assert_eq!(errors.len(), 1);
    assert!(errors[0].message.contains("timeout"));
    assert!(errors[0].message.contains("must be less than interval"));
    assert_eq!(errors[0].message, "timeout (60) must be less than interval (30)");
}

#[test]
fn validation_errors_when_timeout_equals_interval() {
    let mut endpoint = make_test_endpoint("https://example.com");
    endpoint.timeout = 60;
    endpoint.interval = 60;
    let (errors, _warnings) = validate_one(endpoint);
    assert_eq!(errors.len(), 1);
    assert!(errors[0].message.contains("timeout"));
}

#[test]
fn validation_passes_when_timeout_less_than_interval() {
    let endpoint = make_test_endpoint("https://example.com");
    let (errors, _warnings) = validate_one(endpoint);
    assert!(errors.is_empty());
}

#[test]
fn validation_errors_on_invalid_http_url() {
    let endpoint = make_test_endpoint("not-a-valid-url");
    let (errors, _warnings) = validate_one(endpoint);
    assert_eq!(errors.len(), 1);
    assert!(errors[0].message.contains("invalid URL"));
    assert!(errors[0].message.starts_with("invalid URL 'not-a-valid-url': "));
}

#[test]
fn validation_errors_when_tcp_missing_port() {
    let mut endpoint = make_test_endpoint("tcp://example.com");
    endpoint.check_type = CheckType::Tcp;
    endpoint.addr = "example.com".to_string();
    let (errors, _warnings) = validate_one(endpoint);
    assert_eq!(errors.len(), 1);
    assert!(errors[0].message.contains("must include port"));
}

#[test]
fn validation_passes_for_tcp_with_port() {
    let mut endpoint = make_test_endpoint("tcp://example.com:5432");
    endpoint.check_type = CheckType::Tcp;
    endpoint.addr = "tcp://example.com:5432".to_string();
    let (errors, _warnings) = validate_one(endpoint);
    assert!(errors.is_empty());
}

#[test]
fn validation_passes_for_tcp_with_host_port_format() {
    let mut endpoint = make_test_endpoint("localhost:5432");
    endpoint.check_type = CheckType::Tcp;
    endpoint.addr = "localhost:5432".to_string();
    let (errors, _warnings) = validate_one(endpoint);
    assert!(errors.is_empty());
}

#[test]
fn validation_errors_when_dns_is_url() {
    let mut endpoint = make_test_endpoint("dns://https://example.com");
    endpoint.check_type = CheckType::Dns;
    endpoint.addr = "https://example.com".to_string();
    let (errors, _warnings) = validate_one(endpoint);
    assert_eq!(errors.len(), 1);
    assert!(errors[0].message.contains("should be a hostname"));
}

#[test]
fn validation_passes_for_dns_hostname() {
    let mut endpoint = make_test_endpoint("example.com");
    endpoint.check_type = CheckType::Dns;
    endpoint.addr = "example.com".to_string();
    let (errors, _warnings) = validate_one(endpoint);
    assert!(errors.is_empty());
}

#[test]
fn validation_passes_for_dns_with_prefix() {
    let mut endpoint = make_test_endpoint("dns://example.com");
    endpoint.check_type = CheckType::Dns;
    endpoint.addr = "dns://example.com".to_string();
    let (errors, _warnings) = validate_one(endpoint);
    assert!(errors.is_empty());
}

#[test]
fn validation_warns_on_aggressive_interval() {
    let mut endpoint = make_test_endpoint("https://example.com");
    endpoint.interval = 5;
    let (errors, warnings) = validate_one(endpoint);
    assert!(!errors.is_empty());
    assert!(warnings.iter().any(|w| w.message.contains("aggressive")));
}

#[test]
fn validation_warns_when_retries_without_delay() {
    let mut endpoint = make_test_endpoint("https://example.com");
    endpoint.retries = 3;
    endpoint.retry_delay = 0;
    let (_errors, warnings) = validate_one(endpoint);
    assert_eq!(warnings.len(), 1);
    assert!(warnings[0].message.contains("retry_delay is 0"));
}

#[test]
fn validation_no_warning_when_retries_with_delay() {
    let mut endpoint = make_test_endpoint("https://example.com");
    endpoint.retries = 3;
    endpoint.retry_delay = 5;
    let (_errors, warnings) = validate_one(endpoint);
    assert!(warnings.is_empty());
}

#[test]
fn validation_no_warning_when_no_retries() {
    let mut endpoint = make_test_endpoint("https://example.com");
    endpoint.retries = 0;
    endpoint.retry_delay = 0;
    let (_errors, warnings) = validate_one(endpoint);
    assert!(warnings.is_empty());
}

#[test]
fn validation_expands_placeholders_before_url_check() {
    let mut env = Env::new();
    env.set("SCHEME", "https");
    let config = make_test_config(vec![("api".to_string(), make_test_endpoint("${SCHEME}://example.test/health"))]);
    let (errors, _) = config.validate(&env);
    assert!(errors.is_empty());
    let (errors, _) = config.validate(&Env::new());
    assert_eq!(errors.len(), 1);
}

#[test]
fn error_report_lists_each_error() {
    let errors = vec![
        ValidationWarning { endpoint: "a".to_string(), message: "first".to_string() },
        ValidationWarning { endpoint: "b".to_string(), message: "second".to_string() },
    ];
    assert_eq!(error_report(&errors), "configuration errors:\n  [a] first\n  [b] second");
}

#[test]
fn auto_reload_period_zero_disables() {
    let off = ServerConfig { addr: "0.0.0.0:1".to_string(), reload_config_interval: 0 };
    assert_eq!(off.auto_reload_period(), None);
    let on = ServerConfig { addr: "0.0.0.0:1".to_string(), reload_config_interval: 60 };
    assert_eq!(on.auto_reload_period(), Some(60));
}

#[test]
fn unbound_placeholders_lists_missing_names_in_order() {
    let mut env = Env::new();
    env.set("HOST", "example.test");
    env.set("EMPTY", "");
    let names = unbound_placeholders("${TOKEN}@${HOST}/${EMPTY}${PORT} $X ${lower} ${TOKEN}", &env);
    assert_eq!(names, vec!["TOKEN", "PORT", "TOKEN"]);
    assert!(unbound_placeholders("no placeholders", &env).is_empty());
    assert!(env.binds("EMPTY"));
    assert!(!env.binds("PORT"));
}
