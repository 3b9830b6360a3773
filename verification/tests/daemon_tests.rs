use airp_core::daemon::{is_authorized, rate_limit_key};

fn bearer(token: &str) -> String {
    format!("Bearer {}", token)
}

#[test]
fn test_dx4_bearer_token_used_as_key() {
    let h = bearer("my-secret-token");
    let key = rate_limit_key(Some(&h), Some("10.0.0.1"));
    assert!(key.starts_with("k:"), "expected k: prefix, got: {}", key);
    assert!(key.contains("my-secret-token"));
}

#[test]
fn test_dx4_ip_used_when_no_auth_header() {
    let key = rate_limit_key(None, Some("10.0.0.1"));
    assert!(key.starts_with("ip:"), "expected ip: prefix, got: {}", key);
    assert!(key.contains("10.0.0.1"));
}

#[test]
fn test_a2_7_falls_back_to_fixed_key_without_auth_or_connect_info() {
    let key = rate_limit_key(None, None);
    assert_eq!(key, "ip:unknown");
}

#[test]
fn test_dx4_long_token_truncated_to_32_chars() {
    let long_token = "x".repeat(64);
    let h = bearer(&long_token);
    let key = rate_limit_key(Some(&h), None);
    assert_eq!(key.len(), 34, "k: prefix (2) + 32 chars = 34; got: {}", key);
}

#[test]
fn non_bearer_header_uses_ip() {
    assert_eq!(rate_limit_key(Some("Basic abc"), Some("1.2.3.4")), "ip:1.2.3.4");
}

#[test]
fn access_key_checks() {
    assert!(is_authorized(None, None));
    assert!(is_authorized(Some(""), None));
    assert!(!is_authorized(Some("secret"), None));
    assert!(!is_authorized(Some("secret"), Some("Bearer secreT")));
    assert!(!is_authorized(Some("secret"), Some("secret")));
    assert!(is_authorized(Some("secret"), Some("Bearer secret")));
}
