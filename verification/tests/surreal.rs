//! Tests of the database address parsing and the sitemap.

use blog::surreal::{build_sitemap, parse_surreal_address, sitemap_reply, SitemapPost};

#[test]
fn parse_surreal_address_http() {
    let (scheme, host) = parse_surreal_address("http://10.0.0.1:8000").unwrap();
    assert_eq!(scheme, "http");
    assert_eq!(host, "10.0.0.1:8000");
}

#[test]
fn parse_surreal_address_https_with_slash() {
    let (scheme, host) = parse_surreal_address("https://example.com:443/").unwrap();
    assert_eq!(scheme, "https");
    assert_eq!(host, "example.com:443");
}

#[test]
fn parse_surreal_address_bare_host_defaults_to_http() {
    let (scheme, host) = parse_surreal_address("10.0.0.1:8000").unwrap();
    assert_eq!(scheme, "http");
    assert_eq!(host, "10.0.0.1:8000");
}

#[test]
fn parse_surreal_address_strips_path() {
    let (scheme, host) = parse_surreal_address("http://10.0.0.1:8000/rpc").unwrap();
    assert_eq!(scheme, "http");
    assert_eq!(host, "10.0.0.1:8000");
}

fn env_of(pairs: &[(&str, &str)]) -> blog::env::Environment {
    blog::env::Environment::from_pairs(
        pairs
            .iter()
            .map(|(k, v)| (k.to_string(), v.to_string()))
            .collect(),
    )
}

#[test]
fn connection_defaults_to_local_http() {
    let s = blog::surreal::ConnectionSettings::from_env(&env_of(&[]));
    assert_eq!(s.protocol, "http");
    assert_eq!(s.host, "127.0.0.1:8000");
    assert!(s.root_credentials.is_none());
    assert!(s.sign_in_attempts().is_empty());
    assert!(s.uses_plain_http());
}

#[test]
fn connection_prefers_the_configured_address_and_tries_database_users_first() {
    let s = blog::surreal::ConnectionSettings::from_env(&env_of(&[
        ("SURREAL_ADDRESS", "https://db.example.com/rpc"),
        ("SURREAL_ROOT_USER", "root"),
        ("SURREAL_ROOT_PASS", "rootpw"),
        ("SURREAL_USERNAME", "app"),
        ("SURREAL_PASSWORD", "apppw"),
        ("SURREAL_NAMESPACE_USER", "ns"),
        ("SURREAL_NAMESPACE_PASS", ""),
    ]));
    assert_eq!(s.protocol, "https");
    assert_eq!(s.host, "db.example.com");
    assert!(!s.uses_plain_http());
    assert_eq!(s.database_credentials, Some(("app".to_string(), "apppw".to_string())));
    assert_eq!(s.namespace_credentials, None);
    let attempts = s.sign_in_attempts();
    assert_eq!(attempts.len(), 2);
    assert!(matches!(attempts[0], blog::surreal::SignIn::Database { .. }));
    assert!(matches!(attempts[1], blog::surreal::SignIn::Root { .. }));
}

#[test]
fn sitemap_lists_fixed_pages_then_posts_with_slugs() {
    let posts = vec![
        SitemapPost { slug: Some("first".to_string()), created_at: "2024-01-01".to_string() },
        SitemapPost { slug: None, created_at: "2024-02-02".to_string() },
    ];
    let xml = build_sitemap(&posts);
    assert!(xml.starts_with("<?xml version=\"1.0\" encoding=\"UTF-8\"?>\n<urlset"));
    assert!(xml.contains("<loc>https://alexthola.com/post/first</loc>\n<changefreq>monthly</changefreq>\n<priority>1.0</priority>\n<lastmod>2024-01-01</lastmod>"));
    assert!(!xml.contains("2024-02-02"));
    assert!(xml.ends_with("</urlset>"));
    assert_eq!(xml.matches("<url>").count(), 6);
}

#[test]
fn sitemap_reply_serves_the_sitemap_or_a_plain_error() {
    let posts = vec![SitemapPost { slug: Some("first".to_string()), created_at: "2024-01-01".to_string() }];
    let ok = sitemap_reply(Some(&posts));
    assert_eq!(ok.status, 200);
    assert_eq!(ok.content_type, "application/xml");
    assert_eq!(ok.body, build_sitemap(&posts));
    let err = sitemap_reply(None);
    assert_eq!(err.status, 500);
    assert_eq!(err.content_type, "text/plain; charset=utf-8");
    assert_eq!(err.body, "Failed to build sitemap");
}
