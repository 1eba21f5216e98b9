//! Tests of the server-function decisions.

use blog::api::{is_valid_slug, is_valid_tag, ContactRequest, Pagination, ACTIVITIES_PER_PAGE};

#[test]
fn test_is_valid_slug_accepts_valid() {
    assert!(is_valid_slug("hello-world"));
    assert!(is_valid_slug("my_post_123"));
    assert!(is_valid_slug("PostTitle"));
    assert!(is_valid_slug("a"));
    assert!(is_valid_slug("123"));
}

#[test]
fn test_is_valid_slug_rejects_invalid() {
    assert!(!is_valid_slug(""));
    assert!(!is_valid_slug("hello world")); // spaces
    assert!(!is_valid_slug("hello\"world")); // quotes
    assert!(!is_valid_slug("hello'world")); // single quotes
    assert!(!is_valid_slug("hello;world")); // semicolon
    assert!(!is_valid_slug("hello\nworld")); // newline
    assert!(!is_valid_slug(&"a".repeat(201))); // too long
}

#[test]
fn test_is_valid_tag_accepts_valid() {
    assert!(is_valid_tag("rust"));
    assert!(is_valid_tag("web-dev"));
    assert!(is_valid_tag("programming_tips"));
    assert!(is_valid_tag("machine learning")); // spaces allowed in tags
}

#[test]
fn test_is_valid_tag_rejects_invalid() {
    assert!(!is_valid_tag(""));
    assert!(!is_valid_tag("tag\"injection")); // quotes
    assert!(!is_valid_tag("tag;drop")); // semicolon
    assert!(!is_valid_tag("tag\ttab")); // tab
    assert!(!is_valid_tag(&"a".repeat(101))); // too long
}

#[test]
fn test_contact_request_default() {
    let request = ContactRequest::default();
    assert_eq!(request.name, "");
    assert_eq!(request.email, "");
    assert_eq!(request.subject, "");
    assert_eq!(request.message, "");
    assert_eq!(request.website, None);
}

#[test]
/// Verifies the `Pagination` struct initializes correctly.
fn test_pagination_struct() {
    let pagination = Pagination { page: 1 };
    assert_eq!(pagination.page, 1);
}

#[test]
/// Confirms that pagination parameters are handled correctly.
fn test_activity_pagination_params() {
    let test_pages = vec![0, 1, 5, 10];
    for page in test_pages {
        let start = page * ACTIVITIES_PER_PAGE;
        assert!(start >= ACTIVITIES_PER_PAGE * page);
    }
}

#[test]
/// Tests the port calculation logic used in integration tests.
fn test_port_calculation() {
    let base_port = 3007;
    let test_port = 3030;
    let expected_db_port = 8000 + (test_port - base_port);
    assert_eq!(expected_db_port, 8023);

    let min_port = 3007;
    let min_db_port = 8000 + (min_port - base_port);
    assert_eq!(min_db_port, 8000);
}

#[test]
/// Tests the URL construction logic for activity endpoints.
fn test_activity_endpoint_url_construction() {
    let base_url = "http://127.0.0.1:3030";
    let page = 0;

    let create_url = format!("{}/api/activities/create", base_url);
    let fetch_url = format!("{}/api/activities?page={page}", base_url);

    assert_eq!(create_url, "http://127.0.0.1:3030/api/activities/create");
    assert_eq!(fetch_url, "http://127.0.0.1:3030/api/activities?page=0");

    for page in 0..=5 {
        let url = format!("{}/api/activities?page={page}", base_url);
        assert!(url.contains(&format!("page={page}")));
    }
}

#[test]
fn count_tags_lists_each_tag_once_in_ascending_order() {
    let tags: Vec<String> = ["rust", "web", "rust", "Zed", "ápple", "rust", "web"]
        .iter()
        .map(|s| s.to_string())
        .collect();
    let counts = blog::api::count_tags(&tags);
    let mut expected = std::collections::BTreeMap::<String, usize>::new();
    for t in &tags {
        *expected.entry(t.clone()).or_insert(0) += 1;
    }
    assert_eq!(counts, expected.into_iter().collect::<Vec<_>>());
    assert_eq!(counts[0], ("Zed".to_string(), 1));
    assert!(blog::api::count_tags(&vec![]).is_empty());
}

#[test]
fn post_list_date_formats_rfc3339_in_utc() {
    assert_eq!(blog::api::post_list_date("2024-03-05T10:00:00Z"), "Mar 5, 2024");
    assert_eq!(blog::api::post_list_date("2024-03-05T23:30:00-02:00"), "Mar 6, 2024");
    assert_eq!(blog::api::post_list_date("not a date"), "not a date");
}

#[test]
fn post_page_needs_a_valid_date_and_renders_the_body() {
    let (date, html) = blog::api::prepare_post_page("2024-12-01T08:00:00+00:00", "# Hi").unwrap();
    assert_eq!(date, "Dec 1");
    assert!(html.contains("<h1>Hi</h1>"), "got: {html}");
    assert_eq!(
        blog::api::prepare_post_page("yesterday", "# Hi"),
        Err(blog::api::PostPageError::InvalidDate)
    );
}

#[test]
fn activities_query_pages_by_ten() {
    assert_eq!(
        blog::api::build_select_activities_query(0),
        "SELECT * FROM activity ORDER BY created_at DESC LIMIT 10 START 0"
    );
    assert_eq!(
        blog::api::build_select_activities_query(3),
        "SELECT * FROM activity ORDER BY created_at DESC LIMIT 10 START 30"
    );
}

#[test]
fn posts_query_quotes_checked_tags_only() {
    assert_eq!(
        blog::api::build_posts_query(&vec![]).unwrap(),
        "SELECT *, author.* from post WHERE is_published = true ORDER BY created_at DESC;"
    );
    assert_eq!(
        blog::api::build_posts_query(&vec!["rust".to_string(), "web dev".to_string()]).unwrap(),
        "SELECT *, author.* from post WHERE tags CONTAINSANY [\"rust\", \"web dev\"] ORDER BY created_at DESC;"
    );
    assert_eq!(
        blog::api::build_posts_query(&vec!["ok".to_string(), "x\"; DELETE".to_string()]),
        Err("Invalid tag format: 'x\"; DELETE'".to_string())
    );
    let long = "a".repeat(120);
    assert_eq!(
        blog::api::build_posts_query(&vec![long.clone()]),
        Err(format!("Invalid tag format: '{}'", &long[..50]))
    );
}

#[test]
fn post_queries_reject_unsafe_slugs() {
    assert_eq!(
        blog::api::build_post_query("hello-world").unwrap(),
        "SELECT *, author.* from post WHERE slug = \"hello-world\""
    );
    assert_eq!(
        blog::api::build_post_query("../etc"),
        Err("Invalid slug format: '../etc'".to_string())
    );
    assert_eq!(
        blog::api::build_increment_views_query("abc_1").unwrap(),
        "UPDATE post:abc_1 SET total_views = total_views + 1;"
    );
    assert_eq!(
        blog::api::build_increment_views_query(""),
        Err("Invalid post id format: ''".to_string())
    );
}

#[test]
fn contact_request_spots_bots_and_builds_the_subject() {
    let mut request = ContactRequest::default();
    request.email = "me@example.com".to_string();
    request.subject = "Hello".to_string();
    assert!(!request.is_bot_submission());
    assert_eq!(request.mail_subject(), "me@example.com - Hello");
    request.website = Some(String::new());
    assert!(!request.is_bot_submission());
    request.website = Some("http://spam".to_string());
    assert!(request.is_bot_submission());
}

#[test]
fn test_select_activities_pagination_logic() {
    assert!(blog::api::build_select_activities_query(0).ends_with("START 0"));
    assert!(blog::api::build_select_activities_query(1).ends_with("START 10"));
}

#[test]
fn mail_delivery_is_retried_three_times() {
    let mut run = ContactRequest::delivery_retries();
    assert_eq!(run.after_failure(), Some(200));
    assert_eq!(run.after_failure(), Some(10_000));
    assert_eq!(run.after_failure(), Some(10_000));
    assert_eq!(run.after_failure(), None);
}
