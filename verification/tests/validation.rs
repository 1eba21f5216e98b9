//! Tests of input validation and sanitization.

use blog::validation::{
    sanitize_html, sanitize_message, validate_email, validate_length, validate_min_length,
    validate_name, validate_slug, validate_tag, ValidationError,
};


// === sanitize_html tests ===

#[test]
fn test_sanitize_html_basic() {
    assert_eq!(sanitize_html("hello"), "hello");
    assert_eq!(sanitize_html(""), "");
    assert_eq!(sanitize_html("Hello World"), "Hello World");
}

#[test]
fn test_sanitize_html_escapes_ampersand() {
    assert_eq!(sanitize_html("Tom & Jerry"), "Tom &amp; Jerry");
    assert_eq!(sanitize_html("a&b&c"), "a&amp;b&amp;c");
}

#[test]
fn test_sanitize_html_escapes_angle_brackets() {
    assert_eq!(sanitize_html("<script>"), "&lt;script&gt;");
    assert_eq!(sanitize_html("a < b > c"), "a &lt; b &gt; c");
}

#[test]
fn test_sanitize_html_escapes_quotes() {
    assert_eq!(sanitize_html(r#""quoted""#), "&quot;quoted&quot;");
    assert_eq!(sanitize_html("it's"), "it&#x27;s");
}

#[test]
fn test_sanitize_html_escapes_slash_and_backtick() {
    assert_eq!(sanitize_html("a/b"), "a&#x2F;b");
    assert_eq!(sanitize_html("`code`"), "&#x60;code&#x60;");
}

#[test]
fn test_sanitize_html_xss_prevention() {
    let xss = r#"<script>alert("XSS")</script>"#;
    let sanitized = sanitize_html(xss);
    assert!(!sanitized.contains('<'));
    assert!(!sanitized.contains('>'));
    assert_eq!(
        sanitized,
        "&lt;script&gt;alert(&quot;XSS&quot;)&lt;&#x2F;script&gt;"
    );
}

#[test]
fn test_sanitize_html_image_onerror() {
    let xss = r#"<img src="x" onerror="alert('xss')">"#;
    let sanitized = sanitize_html(xss);
    assert!(!sanitized.contains('<'));
    assert!(sanitized.contains("&lt;img"));
}

#[test]
fn test_sanitize_html_preserves_unicode() {
    assert_eq!(sanitize_html("Hello 世界"), "Hello 世界");
    assert_eq!(sanitize_html("Café résumé"), "Café résumé");
    assert_eq!(sanitize_html("emoji: 🚀"), "emoji: 🚀");
}

// === validate_slug tests ===

#[test]
fn test_validate_slug_valid() {
    assert_eq!(
        validate_slug("hello-world", 200).unwrap(),
        "hello-world".to_string()
    );
    assert_eq!(
        validate_slug("my_post_123", 200).unwrap(),
        "my_post_123".to_string()
    );
    assert_eq!(
        validate_slug("PostTitle", 200).unwrap(),
        "posttitle".to_string()
    );
    assert_eq!(validate_slug("a", 200).unwrap(), "a".to_string());
    assert_eq!(validate_slug("123", 200).unwrap(), "123".to_string());
}

#[test]
fn test_validate_slug_trims_whitespace() {
    assert_eq!(
        validate_slug("  hello-world  ", 200).unwrap(),
        "hello-world".to_string()
    );
}

#[test]
fn test_validate_slug_lowercases() {
    assert_eq!(
        validate_slug("UPPERCASE", 200).unwrap(),
        "uppercase".to_string()
    );
    assert_eq!(
        validate_slug("MixedCase", 200).unwrap(),
        "mixedcase".to_string()
    );
}

#[test]
fn test_validate_slug_empty() {
    assert_eq!(validate_slug("", 200), Err(ValidationError::Empty));
    assert_eq!(validate_slug("   ", 200), Err(ValidationError::Empty));
}

#[test]
fn test_validate_slug_too_long() {
    let long_slug = "a".repeat(201);
    assert!(matches!(
        validate_slug(&long_slug, 200),
        Err(ValidationError::TooLong {
            max: 200,
            actual: 201
        })
    ));
}

#[test]
fn test_validate_slug_invalid_characters() {
    assert!(matches!(
        validate_slug("hello world", 200),
        Err(ValidationError::InvalidCharacters { .. })
    ));
    assert!(matches!(
        validate_slug("hello@world", 200),
        Err(ValidationError::InvalidCharacters { .. })
    ));
    assert!(matches!(
        validate_slug("hello'world", 200),
        Err(ValidationError::InvalidCharacters { .. })
    ));
    assert!(matches!(
        validate_slug("hello\"world", 200),
        Err(ValidationError::InvalidCharacters { .. })
    ));
    assert!(matches!(
        validate_slug("hello;world", 200),
        Err(ValidationError::InvalidCharacters { .. })
    ));
}

#[test]
fn test_validate_slug_sql_injection_prevention() {
    assert!(validate_slug("'; DROP TABLE posts; --", 200).is_err());
    assert!(validate_slug("1 OR 1=1", 200).is_err());
}

// === validate_tag tests ===

#[test]
fn test_validate_tag_valid() {
    assert_eq!(validate_tag("rust", 100).unwrap(), "rust".to_string());
    assert_eq!(validate_tag("web-dev", 100).unwrap(), "web-dev".to_string());
    assert_eq!(
        validate_tag("programming_tips", 100).unwrap(),
        "programming_tips".to_string()
    );
    assert_eq!(
        validate_tag("machine learning", 100).unwrap(),
        "machine learning".to_string()
    );
}

#[test]
fn test_validate_tag_normalizes_whitespace() {
    assert_eq!(
        validate_tag("  machine   learning  ", 100).unwrap(),
        "machine learning".to_string()
    );
}

#[test]
fn test_validate_tag_empty() {
    assert_eq!(validate_tag("", 100), Err(ValidationError::Empty));
    assert_eq!(validate_tag("   ", 100), Err(ValidationError::Empty));
}

#[test]
fn test_validate_tag_too_long() {
    let long_tag = "a".repeat(101);
    assert!(matches!(
        validate_tag(&long_tag, 100),
        Err(ValidationError::TooLong {
            max: 100,
            actual: 101
        })
    ));
}

#[test]
fn test_validate_tag_invalid_characters() {
    assert!(matches!(
        validate_tag("tag<script>", 100),
        Err(ValidationError::InvalidCharacters { .. })
    ));
    assert!(matches!(
        validate_tag("tag;injection", 100),
        Err(ValidationError::InvalidCharacters { .. })
    ));
    assert!(matches!(
        validate_tag("tag\ttab", 100),
        Err(ValidationError::InvalidCharacters { .. })
    ));
    assert!(matches!(
        validate_tag("tag\nnewline", 100),
        Err(ValidationError::InvalidCharacters { .. })
    ));
}

// === validate_email tests ===

#[test]
fn test_validate_email_valid() {
    assert_eq!(
        validate_email("user@example.com").unwrap(),
        "user@example.com".to_string()
    );
    assert_eq!(
        validate_email("user+tag@example.com").unwrap(),
        "user+tag@example.com".to_string()
    );
    assert_eq!(
        validate_email("user.name@sub.example.com").unwrap(),
        "user.name@sub.example.com".to_string()
    );
    assert_eq!(
        validate_email("USER@EXAMPLE.COM").unwrap(),
        "user@example.com".to_string()
    );
}

#[test]
fn test_validate_email_trims_and_lowercases() {
    assert_eq!(
        validate_email("  User@Example.COM  ").unwrap(),
        "user@example.com".to_string()
    );
}

#[test]
fn test_validate_email_empty() {
    assert_eq!(validate_email(""), Err(ValidationError::Empty));
    assert_eq!(validate_email("   "), Err(ValidationError::Empty));
}

#[test]
fn test_validate_email_too_long() {
    // Create an email that exceeds the 254 character limit
    let long_local = "a".repeat(250);
    let long_email = format!("{}@example.com", long_local);
    assert!(long_email.len() > 254); // Sanity check
    assert!(matches!(
        validate_email(&long_email),
        Err(ValidationError::TooLong { max: 254, .. })
    ));
}

#[test]
fn test_validate_email_invalid_format() {
    // No @
    assert!(matches!(
        validate_email("userexample.com"),
        Err(ValidationError::InvalidFormat { .. })
    ));

    // Multiple @
    assert!(matches!(
        validate_email("user@@example.com"),
        Err(ValidationError::InvalidFormat { .. })
    ));

    // No domain
    assert!(matches!(
        validate_email("user@"),
        Err(ValidationError::InvalidFormat { .. })
    ));

    // No local part
    assert!(matches!(
        validate_email("@example.com"),
        Err(ValidationError::InvalidFormat { .. })
    ));

    // No TLD
    assert!(matches!(
        validate_email("user@example"),
        Err(ValidationError::InvalidFormat { .. })
    ));

    // Single char TLD
    assert!(matches!(
        validate_email("user@example.c"),
        Err(ValidationError::InvalidFormat { .. })
    ));

    // Empty domain part
    assert!(matches!(
        validate_email("user@.com"),
        Err(ValidationError::InvalidFormat { .. })
    ));
}

#[test]
fn test_validate_email_invalid_characters() {
    assert!(matches!(
        validate_email("user<script>@example.com"),
        Err(ValidationError::InvalidCharacters { .. })
    ));
    assert!(matches!(
        validate_email("user@exam ple.com"),
        Err(ValidationError::InvalidCharacters { .. })
    ));
}

// === sanitize_message tests ===

#[test]
fn test_sanitize_message_valid() {
    let result = sanitize_message("Hello, this is a test message.", 5000);
    assert!(result.is_ok());
    assert_eq!(result.unwrap(), "Hello, this is a test message.");
}

#[test]
fn test_sanitize_message_escapes_html() {
    let result = sanitize_message("<script>alert('xss')</script>", 5000);
    assert!(result.is_ok());
    let sanitized = result.unwrap();
    assert!(!sanitized.contains("<script>"));
    assert!(sanitized.contains("&lt;script&gt;"));
}

#[test]
fn test_sanitize_message_preserves_newlines() {
    let result = sanitize_message("Line 1\nLine 2\nLine 3", 5000);
    assert!(result.is_ok());
    assert!(result.unwrap().contains('\n'));
}

#[test]
fn test_sanitize_message_empty() {
    assert_eq!(sanitize_message("", 5000), Err(ValidationError::Empty));
    assert_eq!(sanitize_message("   ", 5000), Err(ValidationError::Empty));
}

#[test]
fn test_sanitize_message_too_long() {
    let long_message = "a".repeat(5001);
    assert!(matches!(
        sanitize_message(&long_message, 5000),
        Err(ValidationError::TooLong {
            max: 5000,
            actual: 5001
        })
    ));
}

#[test]
fn test_sanitize_message_unicode() {
    let result = sanitize_message("Hello 世界! 🚀 Привет!", 5000);
    assert!(result.is_ok());
    assert_eq!(result.unwrap(), "Hello 世界! 🚀 Привет!");
}

// === validate_name tests ===

#[test]
fn test_validate_name_valid() {
    assert_eq!(
        validate_name("John Doe", 100).unwrap(),
        "John Doe".to_string()
    );
    assert_eq!(
        validate_name("Marie-Claire O'Brien", 100).unwrap(),
        "Marie-Claire O&#x27;Brien".to_string()
    );
}

#[test]
fn test_validate_name_unicode() {
    assert_eq!(
        validate_name("田中太郎", 100).unwrap(),
        "田中太郎".to_string()
    );
    assert_eq!(validate_name("Müller", 100).unwrap(), "Müller".to_string());
}

#[test]
fn test_validate_name_sanitizes_html() {
    let result = validate_name("<b>Bold</b>", 100).unwrap();
    assert!(!result.contains('<'));
    assert!(!result.contains('>'));
}

#[test]
fn test_validate_name_empty() {
    assert_eq!(validate_name("", 100), Err(ValidationError::Empty));
    assert_eq!(validate_name("   ", 100), Err(ValidationError::Empty));
}

#[test]
fn test_validate_name_too_long() {
    let long_name = "a".repeat(101);
    assert!(matches!(
        validate_name(&long_name, 100),
        Err(ValidationError::TooLong {
            max: 100,
            actual: 101
        })
    ));
}

// === validate_length tests ===

#[test]
fn test_validate_length_valid() {
    assert_eq!(validate_length("hello", 10).unwrap(), "hello".to_string());
    assert_eq!(
        validate_length("  hello  ", 10).unwrap(),
        "hello".to_string()
    );
}

#[test]
fn test_validate_length_too_long() {
    assert!(matches!(
        validate_length("hello world", 5),
        Err(ValidationError::TooLong { max: 5, actual: 11 })
    ));
}

// === validate_min_length tests ===

#[test]
fn test_validate_min_length_valid() {
    assert_eq!(
        validate_min_length("hello", 3).unwrap(),
        "hello".to_string()
    );
    assert_eq!(
        validate_min_length("hello", 5).unwrap(),
        "hello".to_string()
    );
}

#[test]
fn test_validate_min_length_empty() {
    assert_eq!(validate_min_length("", 1), Err(ValidationError::Empty));
    assert_eq!(validate_min_length("   ", 1), Err(ValidationError::Empty));
}

#[test]
fn test_validate_min_length_too_short() {
    assert!(matches!(
        validate_min_length("hi", 5),
        Err(ValidationError::TooShort { min: 5, actual: 2 })
    ));
}

// === ValidationError Display tests ===

#[test]
fn test_validation_error_display() {
    assert_eq!(
        ValidationError::TooLong {
            max: 10,
            actual: 15
        }
        .message(),
        "Input too long: maximum 10 characters, got 15"
    );
    assert_eq!(
        ValidationError::TooShort { min: 5, actual: 2 }.message(),
        "Input too short: minimum 5 characters, got 2"
    );
    assert_eq!(
        ValidationError::InvalidCharacters {
            allowed: "letters".to_string()
        }
        .message(),
        "Invalid characters: only letters are allowed"
    );
    assert_eq!(
        ValidationError::InvalidFormat {
            expected: "email".to_string()
        }
        .message(),
        "Invalid format: expected email"
    );
    assert_eq!(ValidationError::Empty.message(), "Input cannot be empty");
}

// === Integration/Edge case tests ===

#[test]
fn test_combined_xss_attempts() {
    // Various XSS payloads should all be safely escaped
    let payloads = vec![
        r#"<img src=x onerror=alert(1)>"#,
        r#"<svg onload=alert(1)>"#,
        r#"javascript:alert(1)"#,
        r#"<a href="javascript:alert(1)">click</a>"#,
        r#"<iframe src="javascript:alert(1)">"#,
        r#"<body onload=alert(1)>"#,
        r#"<input onfocus=alert(1) autofocus>"#,
    ];

    for payload in payloads {
        let sanitized = sanitize_html(payload);
        assert!(
            !sanitized.contains('<'),
            "Payload {} was not sanitized",
            payload
        );
        assert!(
            !sanitized.contains('>'),
            "Payload {} was not sanitized",
            payload
        );
    }
}

#[test]
fn test_sql_injection_prevention_in_slug() {
    let injections = vec![
        "'; DROP TABLE posts; --",
        "1 OR 1=1",
        "1; DELETE FROM users",
        "' OR '1'='1",
        "admin'--",
        "1 UNION SELECT * FROM users",
    ];

    for injection in injections {
        let result = validate_slug(injection, 200);
        assert!(
            result.is_err(),
            "SQL injection '{}' should be rejected",
            injection
        );
    }
}

#[test]
fn test_boundary_conditions() {
    // Exact max length
    let exact_slug = "a".repeat(200);
    assert!(validate_slug(&exact_slug, 200).is_ok());

    // One over max length
    let over_slug = "a".repeat(201);
    assert!(validate_slug(&over_slug, 200).is_err());

    // Exact max email length
    let domain = "example.com";
    let local_len = 254 - domain.len() - 1; // -1 for @
    let exact_email = format!("{}@{}", "a".repeat(local_len), domain);
    // This will fail local part validation (max 64) but tests the boundary
    assert!(validate_email(&exact_email).is_err());

    // Valid max local part
    let valid_email = format!("{}@example.com", "a".repeat(64));
    assert!(validate_email(&valid_email).is_ok());
}

// === lengths are counted in characters ===

#[test]
fn name_limit_counts_characters() {
    // Six characters, seven UTF-8 bytes.
    assert_eq!(validate_name("Müller", 6), Ok("Müller".to_string()));
    assert_eq!(
        validate_name("Müllers", 6),
        Err(ValidationError::TooLong { max: 6, actual: 7 })
    );
}

#[test]
fn message_limit_counts_characters() {
    assert_eq!(sanitize_message("世界🚀", 3), Ok("世界🚀".to_string()));
    assert_eq!(
        sanitize_message("世界🚀!", 3),
        Err(ValidationError::TooLong { max: 3, actual: 4 })
    );
}

#[test]
fn length_limits_count_bytes() {
    // "é" is one character and two UTF-8 bytes.
    assert_eq!(
        validate_length("é", 1),
        Err(ValidationError::TooLong { max: 1, actual: 2 })
    );
    assert_eq!(validate_length("  é  ", 2), Ok("é".to_string()));
    assert_eq!(validate_length("   ", 0), Ok(String::new()));
    assert_eq!(validate_min_length("é", 2), Ok("é".to_string()));
    assert_eq!(
        validate_min_length("é", 3),
        Err(ValidationError::TooShort { min: 3, actual: 2 })
    );
    assert_eq!(validate_min_length("   ", 1), Err(ValidationError::Empty));
    assert_eq!(validate_min_length("  ", 0), Ok(String::new()));
}

#[test]
fn slug_and_tag_lengths_count_characters() {
    assert_eq!(
        validate_slug("ééé", 3),
        Err(ValidationError::InvalidCharacters {
            allowed: "alphanumeric characters, hyphens (-), and underscores (_)".to_string()
        })
    );
    assert_eq!(
        validate_tag("éééé", 3),
        Err(ValidationError::TooLong { max: 3, actual: 4 })
    );
}

#[test]
fn email_limits_count_characters() {
    // A 64-character local part with one two-byte letter passes the length
    // rule and is then refused for its characters.
    let local = format!("{}é", "a".repeat(63));
    assert_eq!(
        validate_email(&format!("{}@example.com", local)),
        Err(ValidationError::InvalidCharacters {
            allowed: "alphanumeric characters and standard email special characters".to_string()
        })
    );
    let long = format!("{}@{}.com", "a".repeat(10), "é".repeat(250));
    assert_eq!(
        validate_email(&long),
        Err(ValidationError::TooLong { max: 254, actual: 265 })
    );
}
