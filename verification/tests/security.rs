//! Tests of the security configuration.

use blog::rate_limit::forwarded_address;
use blog::security::{
    create_security_config, security_headers, validate_production_env, EndpointCategory,
    RateLimitError, SecurityConfig, SmtpValidation,
};

#[test]
fn test_security_config_new() {
    let prod_config = SecurityConfig::new(true);
    assert!(prod_config.is_production);

    let dev_config = SecurityConfig::new(false);
    assert!(!dev_config.is_production);
}

#[test]
fn test_create_security_config() {
    let prod_config = create_security_config(true);
    assert!(prod_config.is_production);

    let dev_config = create_security_config(false);
    assert!(!dev_config.is_production);
}

#[test]
fn test_smtp_validation_struct() {
    let valid = SmtpValidation {
        is_configured: true,
        errors: Vec::new(),
        warnings: Vec::new(),
    };
    assert!(valid.is_valid());

    let invalid_not_configured = SmtpValidation {
        is_configured: false,
        errors: vec!["Missing SMTP_HOST".to_string()],
        warnings: Vec::new(),
    };
    assert!(!invalid_not_configured.is_valid());

    let invalid_with_errors = SmtpValidation {
        is_configured: true,
        errors: vec!["SMTP_HOST is empty".to_string()],
        warnings: Vec::new(),
    };
    assert!(!invalid_with_errors.is_valid());

    let valid_with_warnings = SmtpValidation {
        is_configured: true,
        errors: Vec::new(),
        warnings: vec!["Password is short".to_string()],
    };
    assert!(valid_with_warnings.is_valid()); // Warnings don't affect validity
}

fn env_of(pairs: &[(&str, &str)]) -> blog::env::Environment {
    blog::env::Environment::from_pairs(
        pairs
            .iter()
            .map(|(k, v)| (k.to_string(), v.to_string()))
            .collect(),
    )
}

#[test]
fn test_security_config_from_env() {
    let config = blog::security::SecurityConfig::from_env(&env_of(&[]));
    assert!(!config.is_production);
    let config = blog::security::SecurityConfig::from_env(&env_of(&[("RUST_ENV", "production")]));
    assert!(config.is_production);
    let config = blog::security::SecurityConfig::from_env(&env_of(&[("RUST_ENV", "development")]));
    assert!(!config.is_production);
}

const SECOND: u64 = 1_000_000_000;

#[test]
fn test_rate_limiter_allows_under_limit() {
    let mut limiter = blog::rate_limit::RateLimiter::new(5, 60);
    for k in 0..5 {
        assert!(limiter.check_rate_limit("127.0.0.1", k));
    }
}

#[test]
fn test_rate_limiter_blocks_over_limit() {
    let mut limiter = blog::rate_limit::RateLimiter::new(3, 60);
    for k in 0..3 {
        assert!(limiter.check_rate_limit("192.168.1.1", k));
    }
    assert!(!limiter.check_rate_limit("192.168.1.1", 3));
}

#[test]
fn test_rate_limiter_different_ips() {
    let mut limiter = blog::rate_limit::RateLimiter::new(2, 60);
    assert!(limiter.check_rate_limit("10.0.0.1", 0));
    assert!(limiter.check_rate_limit("10.0.0.2", 1));
    assert!(limiter.check_rate_limit("10.0.0.1", 2));
    assert!(limiter.check_rate_limit("10.0.0.2", 3));
    assert!(!limiter.check_rate_limit("10.0.0.1", 4));
    assert!(!limiter.check_rate_limit("10.0.0.2", 5));
}

#[test]
fn test_rate_limiter_memory_cleanup() {
    let mut limiter = blog::rate_limit::RateLimiter::new(10, 1);
    for i in 0..100 {
        let ip = format!("192.168.1.{}", i);
        assert!(limiter.check_rate_limit(&ip, i));
    }
    assert_eq!(limiter.tracked_clients(), 100);
    let later = 1_100 * SECOND / 1_000 + 100;
    for i in 0..10 {
        let ip = format!("192.168.1.{}", i);
        assert!(limiter.check_rate_limit(&ip, later));
    }
    for i in 0..10 {
        let ip = format!("192.168.1.{}", i);
        assert_eq!(limiter.requests_on_record(&ip), Some(1), "Old entries should have been cleaned up");
    }
}

#[test]
fn rate_limit_window_frees_a_blocked_client() {
    let mut limiter = blog::rate_limit::RateLimiter::new(1, 2);
    assert!(limiter.check_rate_limit("a", 0));
    assert!(!limiter.check_rate_limit("a", SECOND));
    assert!(limiter.check_rate_limit("a", 2 * SECOND + 1));
}

#[test]
fn forwarded_address_takes_the_first_entry() {
    assert_eq!(forwarded_address(Some(" 1.2.3.4 , 5.6.7.8")), Some("1.2.3.4".to_string()));
    assert_eq!(forwarded_address(Some("")), Some(String::new()));
    assert_eq!(forwarded_address(None), None);
}

#[test]
fn test_smtp_validation_missing_all() {
    let result = blog::security::validate_smtp_config(&env_of(&[]));
    assert!(!result.is_configured);
    assert!(!result.is_valid());
    assert_eq!(result.errors.len(), 3);
    assert!(result.errors.iter().any(|e| e.contains("SMTP_HOST")));
    assert!(result.errors.iter().any(|e| e.contains("SMTP_USER")));
    assert!(result.errors.iter().any(|e| e.contains("SMTP_PASSWORD")));
}

#[test]
fn test_smtp_validation_valid() {
    let result = blog::security::validate_smtp_config(&env_of(&[
        ("SMTP_HOST", "smtp.example.com"),
        ("SMTP_USER", "user@example.com"),
        ("SMTP_PASSWORD", "secure_password_123"),
    ]));
    assert!(result.is_configured);
    assert!(result.is_valid());
    assert!(result.errors.is_empty());
    assert!(result.warnings.is_empty());
}

#[test]
fn test_smtp_validation_empty_values() {
    let result = blog::security::validate_smtp_config(&env_of(&[
        ("SMTP_HOST", ""),
        ("SMTP_USER", ""),
        ("SMTP_PASSWORD", ""),
    ]));
    assert!(!result.is_valid());
    assert!(result.errors.iter().any(|e| e.contains("SMTP_HOST is empty")));
    assert!(result.errors.iter().any(|e| e.contains("SMTP_USER is empty")));
    assert!(result.errors.iter().any(|e| e.contains("SMTP_PASSWORD is empty")));
}

#[test]
fn test_smtp_validation_warnings() {
    let result = blog::security::validate_smtp_config(&env_of(&[
        ("SMTP_HOST", "mailserver"),
        ("SMTP_USER", "notanemail"),
        ("SMTP_PASSWORD", "short"),
    ]));
    assert!(result.is_configured);
    assert!(result.errors.is_empty());
    assert!(!result.warnings.is_empty());
    assert!(result.warnings.iter().any(|w| w.contains("may be invalid")));
    assert!(result
        .warnings
        .iter()
        .any(|w| w.contains("does not appear to be an email")));
    assert!(result.warnings.iter().any(|w| w.contains("short")));
}

#[test]
fn test_smtp_validation_localhost() {
    let result = blog::security::validate_smtp_config(&env_of(&[
        ("SMTP_HOST", "localhost"),
        ("SMTP_USER", "test@localhost"),
        ("SMTP_PASSWORD", "testpassword123"),
    ]));
    assert!(result.is_configured);
    assert!(result.is_valid());
    assert!(result.warnings.is_empty());
}

#[test]
fn security_headers_differ_between_modes_only_in_hsts_and_csp() {
    let prod = security_headers(SecurityConfig::new(true));
    let dev = security_headers(SecurityConfig::new(false));
    assert_eq!(prod.len(), dev.len());
    for (p, d) in prod.iter().zip(dev.iter()) {
        assert_eq!(p.0, d.0);
        if p.0 != "strict-transport-security" && p.0 != "content-security-policy" {
            assert_eq!(p.1, d.1);
        }
    }
    assert!(prod.iter().any(|(n, v)| n == "x-frame-options" && v == "DENY"));
}

#[test]
fn endpoint_categories_have_their_limits() {
    assert_eq!(EndpointCategory::Api.rate_limit(), Some((100, 60)));
    assert_eq!(EndpointCategory::Contact.rate_limit(), Some((10, 60)));
    assert_eq!(EndpointCategory::Static.rate_limit(), Some((1000, 60)));
    assert_eq!(EndpointCategory::Health.rate_limit(), None);
    assert_eq!(EndpointCategory::Contact.as_str(), "contact");
    let e = RateLimitError::new(EndpointCategory::Contact, 30);
    assert_eq!(e.error, "Rate limit exceeded");
    assert_eq!(e.retry_after, 30);
    assert_eq!(e.remaining, 0);
    assert_eq!(e.category, "contact");
}

#[test]
fn production_env_check_lists_missing_variables() {
    assert!(validate_production_env(&env_of(&[])).is_ok());
    let errors = validate_production_env(&env_of(&[("RUST_ENV", "production")])).unwrap_err();
    assert!(errors
        .iter()
        .any(|e| e == "Missing required environment variable: SURREAL_NS"));
    assert!(errors
        .iter()
        .any(|e| e == "Missing required environment variable: LEPTOS_SITE_ADDR"));
}

#[test]
fn password_lengths_count_bytes() {
    // Four characters, eight UTF-8 bytes: long enough.
    let result = blog::security::validate_smtp_config(&env_of(&[
        ("SMTP_HOST", "smtp.example.com"),
        ("SMTP_USER", "user@example.com"),
        ("SMTP_PASSWORD", "éééé"),
    ]));
    assert!(result.warnings.is_empty());
    // Three characters, six bytes: short.
    let result = blog::security::validate_smtp_config(&env_of(&[
        ("SMTP_HOST", "smtp.example.com"),
        ("SMTP_USER", "user@example.com"),
        ("SMTP_PASSWORD", "ééé"),
    ]));
    assert!(result.warnings.iter().any(|w| w.contains("short")));
}

#[test]
fn production_password_strength_counts_bytes() {
    let mut vars = vec![
        ("RUST_ENV", "production"),
        ("SURREAL_NS", "rustblog"),
        ("SURREAL_DB", "rustblog"),
        ("LEPTOS_SITE_ADDR", "0.0.0.0:3000"),
        ("SURREAL_USERNAME", "app"),
        ("SMTP_HOST", "smtp.example.com"),
        ("SMTP_USER", "user@example.com"),
        ("SMTP_PASSWORD", "a-long-password"),
    ];
    vars.push(("SURREAL_PASSWORD", "éééé"));
    assert!(validate_production_env(&env_of(&vars)).is_ok());
    vars.pop();
    vars.push(("SURREAL_PASSWORD", "ééé"));
    let errors = validate_production_env(&env_of(&vars)).unwrap_err();
    assert_eq!(
        errors,
        vec!["SURREAL_PASSWORD is too weak (minimum 8 characters required)".to_string()]
    );
}
