//! Tests of the shared escaping and checking helpers.

use blog::shared::{is_valid_email, is_valid_slug, is_valid_tag, sanitize_html};

#[test]
fn sanitize_html_escapes_all_metacharacters() {
    assert_eq!(
        sanitize_html("<script>alert('xss')</script>"),
        "&lt;script&gt;alert(&#x27;xss&#x27;)&lt;&#x2F;script&gt;"
    );
    assert_eq!(sanitize_html("a & b `c`"), "a &amp; b &#x60;c&#x60;");
    assert_eq!(sanitize_html("plain text"), "plain text");
}

#[test]
fn is_valid_slug_accepts_safe_slugs() {
    assert!(is_valid_slug("hello-world", 200));
    assert!(is_valid_slug("my_post_123", 200));
    assert!(is_valid_slug("PostTitle", 200));
    assert!(is_valid_slug("a", 200));
    assert!(is_valid_slug("123", 200));
}

#[test]
fn is_valid_slug_rejects_unsafe_slugs() {
    assert!(!is_valid_slug("", 200));
    assert!(!is_valid_slug("hello world", 200)); // spaces
    assert!(!is_valid_slug("hello\"world", 200)); // quotes
    assert!(!is_valid_slug("hello'world", 200)); // single quotes
    assert!(!is_valid_slug("hello;world", 200)); // semicolon
    assert!(!is_valid_slug("hello\nworld", 200)); // newline
    assert!(!is_valid_slug(&"a".repeat(201), 200)); // too long
}

#[test]
fn is_valid_tag_accepts_safe_tags() {
    assert!(is_valid_tag("rust", 100));
    assert!(is_valid_tag("web-dev", 100));
    assert!(is_valid_tag("programming_tips", 100));
    assert!(is_valid_tag("machine learning", 100)); // spaces allowed in tags
}

#[test]
fn is_valid_tag_rejects_unsafe_tags() {
    assert!(!is_valid_tag("", 100));
    assert!(!is_valid_tag("tag\"injection", 100)); // quotes
    assert!(!is_valid_tag("tag;drop", 100)); // semicolon
    assert!(!is_valid_tag("tag\ttab", 100)); // tab
    assert!(!is_valid_tag(&"a".repeat(101), 100)); // too long
}

#[test]
fn is_valid_email_accepts_valid_addresses() {
    assert!(is_valid_email("user@example.com"));
    assert!(is_valid_email("user+tag@sub.example.com"));
    assert!(is_valid_email("user.name@example.co.uk"));
    assert!(is_valid_email("  User@Example.COM  ")); // trimmed
}

#[test]
fn is_valid_email_rejects_invalid_addresses() {
    assert!(!is_valid_email(""));
    assert!(!is_valid_email("invalid")); // no @
    assert!(!is_valid_email("user@@example.com")); // multiple @
    assert!(!is_valid_email("user@")); // no domain
    assert!(!is_valid_email("@example.com")); // no local part
    assert!(!is_valid_email("user@domain")); // no TLD
    assert!(!is_valid_email("user@example.c")); // single-char TLD
    assert!(!is_valid_email("user@.com")); // empty domain part
    assert!(!is_valid_email("user<script>@example.com")); // bad chars
}

#[test]
fn character_checks_ignore_length() {
    assert!(blog::shared::slug_chars_valid("abc-DEF_123"));
    assert!(!blog::shared::slug_chars_valid("a b"));
    assert!(blog::shared::slug_chars_valid(""));
    assert!(blog::shared::tag_chars_valid("web dev"));
    assert!(!blog::shared::tag_chars_valid("c++"));
}

#[test]
fn retry_strategy_backs_off_exponentially_up_to_the_cap() {
    let config = blog::shared::RetryConfig::new(50, 2, 4);
    assert_eq!(config.strategy(), vec![50, 2000, 2000, 2000]);
    let config = blog::shared::RetryConfig::new(2, 1, 5);
    assert_eq!(config.strategy(), vec![2, 4, 8, 16, 32]);
    assert!(blog::shared::RetryConfig::new(10, 1, 0).strategy().is_empty());
}

#[test]
fn test_email_retry_config() {
    let delays = blog::shared::RetryConfig::new(200, 10, 3).strategy();
    assert_eq!(delays.len(), 3);
    assert!(delays[0] >= 180 && delays[0] <= 220);
}
