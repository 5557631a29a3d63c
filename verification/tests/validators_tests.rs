use meridian::error::AppError;
use meridian::models::{CreateProxyRule, ProxyRule, UpdateProxyRule};
use meridian::validators::{
    validate_create_access_list, validate_create_cert, validate_create_proxy, validate_host_entry,
    validate_hostname, validate_ip_cidr, validate_update_proxy, validate_update_proxy_merged,
    validate_worker_processes,
};

fn make_create_input() -> CreateProxyRule {
    CreateProxyRule {
        name: "test".to_string(),
        proxy_type: "http".to_string(),
        listen_port: 80,
        listen_host: None,
        domain: Some("example.com".to_string()),
        path_prefix: None,
        upstream_host: "127.0.0.1".to_string(),
        upstream_port: 3000,
        upstream_scheme: None,
        tls_mode: None,
        certificate_id: None,
        access_list_id: None,
        websocket: None,
        keep_alive: None,
        custom_headers: None,
        upstream_targets: None,
        sort_order: None,
    }
}

#[test]
fn test_valid_create_proxy() {
    assert!(validate_create_proxy(&make_create_input()).is_ok());
}

#[test]
fn test_empty_name_rejected() {
    let mut input = make_create_input();
    input.name = "".to_string();
    assert!(validate_create_proxy(&input).is_err());
}

#[test]
fn test_name_too_long_rejected() {
    let mut input = make_create_input();
    input.name = "a".repeat(101);
    assert!(validate_create_proxy(&input).is_err());
}

#[test]
fn test_invalid_proxy_type() {
    let mut input = make_create_input();
    input.proxy_type = "invalid".to_string();
    assert!(validate_create_proxy(&input).is_err());
}

#[test]
fn test_port_zero_rejected() {
    let mut input = make_create_input();
    input.listen_port = 0;
    assert!(validate_create_proxy(&input).is_err());
}

#[test]
fn test_http_requires_domain() {
    let mut input = make_create_input();
    input.domain = None;
    assert!(validate_create_proxy(&input).is_err());
}

#[test]
fn test_stream_no_domain_ok() {
    let mut input = make_create_input();
    input.proxy_type = "stream_tcp".to_string();
    input.domain = None;
    assert!(validate_create_proxy(&input).is_ok());
}

#[test]
fn test_terminate_requires_cert() {
    let mut input = make_create_input();
    input.tls_mode = Some("terminate".to_string());
    input.certificate_id = None;
    assert!(validate_create_proxy(&input).is_err());
}

#[test]
fn test_passthrough_rejects_cert() {
    let mut input = make_create_input();
    input.tls_mode = Some("passthrough".to_string());
    input.certificate_id = Some("cert-1".to_string());
    assert!(validate_create_proxy(&input).is_err());
}

#[test]
fn test_websocket_only_http() {
    let mut input = make_create_input();
    input.proxy_type = "stream_tcp".to_string();
    input.domain = None;
    input.websocket = Some(true);
    assert!(validate_create_proxy(&input).is_err());
}

#[test]
fn test_path_prefix_must_start_with_slash() {
    let mut input = make_create_input();
    input.path_prefix = Some("api".to_string());
    assert!(validate_create_proxy(&input).is_err());
}

#[test]
fn test_path_prefix_with_slash_ok() {
    let mut input = make_create_input();
    input.path_prefix = Some("/api".to_string());
    assert!(validate_create_proxy(&input).is_ok());
}

#[test]
fn test_valid_ipv4() {
    assert!(validate_ip_cidr("192.168.1.1").is_ok());
}

#[test]
fn test_valid_ipv4_cidr() {
    assert!(validate_ip_cidr("10.0.0.0/8").is_ok());
}

#[test]
fn test_valid_ipv6() {
    assert!(validate_ip_cidr("::1").is_ok());
}

#[test]
fn test_valid_ipv6_cidr() {
    assert!(validate_ip_cidr("fe80::/10").is_ok());
}

#[test]
fn test_all_keyword() {
    assert!(validate_ip_cidr("all").is_ok());
}

#[test]
fn test_invalid_ip() {
    assert!(validate_ip_cidr("not-an-ip").is_err());
}

#[test]
fn test_ipv4_cidr_too_large() {
    assert!(validate_ip_cidr("10.0.0.0/33").is_err());
}

#[test]
fn test_ipv6_cidr_too_large() {
    assert!(validate_ip_cidr("::1/129").is_err());
}

#[test]
fn test_valid_hostname() {
    assert!(validate_hostname("example.com").is_ok());
}

#[test]
fn test_hostname_too_long() {
    assert!(validate_hostname(&"a".repeat(254)).is_err());
}

#[test]
fn test_hostname_invalid_chars() {
    assert!(validate_hostname("exam ple.com").is_err());
}

#[test]
fn test_hostname_leading_dash() {
    assert!(validate_hostname("-example.com").is_err());
}

#[test]
fn test_valid_host_entry() {
    assert!(validate_host_entry("127.0.0.1", "localhost").is_ok());
}

#[test]
fn test_invalid_host_ip() {
    assert!(validate_host_entry("not-ip", "localhost").is_err());
}

#[test]
fn worker_processes_setting() {
    assert!(validate_worker_processes("auto").is_ok());
    assert!(validate_worker_processes("1").is_ok());
    assert!(validate_worker_processes("64").is_ok());
    assert!(validate_worker_processes("+8").is_ok());
    assert!(validate_worker_processes("0").is_err());
    assert!(validate_worker_processes("65").is_err());
    assert!(validate_worker_processes("300").is_err());
    assert!(validate_worker_processes("two").is_err());
    let e = validate_worker_processes("").unwrap_err();
    assert_eq!(e.message(), "Worker processes must be auto or 1-64");
}

#[test]
fn ipv4_cidr_error_message() {
    let e = validate_ip_cidr("10.0.0.0/33").unwrap_err();
    assert_eq!(e.message(), "IPv4 CIDR prefix must be 0-32, got 33");
    assert_eq!(e.error_code(), "VALIDATION_IP");
}

fn empty_update() -> UpdateProxyRule {
    UpdateProxyRule {
        name: None,
        proxy_type: None,
        enabled: None,
        listen_port: None,
        listen_host: None,
        domain: None,
        path_prefix: None,
        upstream_host: None,
        upstream_port: None,
        upstream_scheme: None,
        tls_mode: None,
        certificate_id: None,
        access_list_id: None,
        websocket: None,
        keep_alive: None,
        custom_headers: None,
        upstream_targets: None,
        sort_order: None,
    }
}

#[test]
fn update_checks_each_given_field() {
    assert_eq!(validate_update_proxy(&empty_update()), Ok(()));
    let blank = UpdateProxyRule { name: Some("   ".to_string()), ..empty_update() };
    assert_eq!(
        validate_update_proxy(&blank),
        Err(AppError::Validation("Name must be between 1 and 100 characters".to_string()))
    );
    let port = UpdateProxyRule { listen_port: Some(0), ..empty_update() };
    assert_eq!(
        validate_update_proxy(&port),
        Err(AppError::Validation("listen_port must be between 1 and 65535".to_string()))
    );
    let terminate = UpdateProxyRule { tls_mode: Some("terminate".to_string()), ..empty_update() };
    assert_eq!(
        validate_update_proxy(&terminate),
        Err(AppError::Validation("certificate_id is required when tls_mode is 'terminate'".to_string()))
    );
}

#[test]
fn merged_update_checks_the_resulting_rule() {
    let existing = ProxyRule::from_create(&make_create_input(), "r1".to_string(), "t0".to_string());
    assert!(existing.domain.is_some());
    assert_eq!(
        validate_update_proxy_merged(&empty_update(), &existing),
        Err(AppError::Validation("domain is required for HTTP proxy type".to_string()))
    );
    let keep = UpdateProxyRule { domain: existing.domain.clone(), ..empty_update() };
    assert_eq!(validate_update_proxy_merged(&keep, &existing), Ok(()));
    let stored = existing.updated(&keep, "t1".to_string());
    assert_eq!(stored.domain, existing.domain);
    let bad_prefix = UpdateProxyRule { path_prefix: Some("api".to_string()), ..keep.clone() };
    assert_eq!(
        validate_update_proxy_merged(&bad_prefix, &existing),
        Err(AppError::Validation("path_prefix must start with '/'".to_string()))
    );
    let to_stream = UpdateProxyRule {
        proxy_type: Some("stream_tcp".to_string()),
        websocket: Some(true),
        ..empty_update()
    };
    assert!(validate_update_proxy_merged(&to_stream, &existing).is_err());
}

#[test]
fn access_list_and_certificate_names() {
    assert_eq!(validate_create_access_list("office"), Ok(()));
    assert_eq!(
        validate_create_access_list("  "),
        Err(AppError::Validation("Access list name must be between 1 and 100 characters".to_string()))
    );
    assert_eq!(validate_create_cert("a.com"), Ok(()));
    assert_eq!(
        validate_create_cert(" "),
        Err(AppError::Validation("Certificate domain must not be empty".to_string()))
    );
    assert_eq!(
        validate_create_cert(&"a".repeat(254)),
        Err(AppError::Validation("Certificate domain must not exceed 253 characters".to_string()))
    );
}

#[test]
fn name_limits_count_characters() {
    let mut input = make_create_input();
    input.name = "é".repeat(100);
    assert!(validate_create_proxy(&input).is_ok());
    input.name = "é".repeat(101);
    assert!(validate_create_proxy(&input).is_err());
    assert_eq!(validate_create_access_list(&"ü".repeat(100)), Ok(()));
}
