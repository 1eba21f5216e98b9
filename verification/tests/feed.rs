use blog::feed::{feed_item_of, generate_rss, rss_reply, FeedError, FeedPost};

fn post(slug: Option<&str>, created_at: &str, body: &str) -> FeedPost {
    FeedPost {
        author_name: "Alex".to_string(),
        title: "A title".to_string(),
        body: body.to_string(),
        slug: slug.map(|s| s.to_string()),
        created_at: created_at.to_string(),
    }
}

#[test]
fn feed_lists_posts_with_rfc2822_dates_and_rendered_bodies() {
    let posts = vec![
        post(Some("second"), "2024-02-03T04:05:06Z", "**bold**"),
        post(None, "2023-12-25T15:30:00+02:00", "plain"),
    ];
    let xml = generate_rss(&posts).unwrap();
    assert!(xml.contains("<title>alexthola</title>"), "got: {xml}");
    assert!(xml.contains("<link>https://alexthola.com</link>"));
    assert!(xml.contains("Tech Insights &amp; Consulting"), "got: {xml}");
    assert!(xml.contains("<link>https://alexthola.com/post/second</link>"));
    assert!(xml.contains("<pubDate>Sat, 3 Feb 2024 04:05:06 +0000</pubDate>"), "got: {xml}");
    assert!(xml.contains("<pubDate>Mon, 25 Dec 2023 15:30:00 +0200</pubDate>"), "got: {xml}");
    assert!(xml.contains("<![CDATA[<p><strong>bold</strong></p>"), "got: {xml}");
    assert!(xml.find("second").unwrap() < xml.find("plain").unwrap());
}

#[test]
fn feed_rejects_a_post_with_a_bad_timestamp() {
    let posts = vec![
        post(Some("ok"), "2024-02-03T04:05:06Z", "fine"),
        post(Some("bad"), "Feb 3, 2024", "fine"),
    ];
    assert_eq!(generate_rss(&posts), Err(FeedError::InvalidTimestamp(1)));
}

#[test]
fn empty_feed_is_a_channel_without_items() {
    let xml = generate_rss(&Vec::new()).unwrap();
    assert!(xml.contains("<channel>"));
    assert!(!xml.contains("<item>"));
}

#[test]
fn feed_item_links_to_the_post_page() {
    let p = post(Some("hello-world"), "2024-01-01T00:00:00Z", "x");
    let item = feed_item_of(&p, "date".to_string(), "<p>x</p>".to_string());
    assert_eq!(item.link, Some("https://alexthola.com/post/hello-world".to_string()));
    assert_eq!(item.pub_date, "date");
    assert_eq!(item.description, "<p>x</p>");
    assert_eq!(item.author, "Alex");
    let p = post(None, "2024-01-01T00:00:00Z", "x");
    assert_eq!(feed_item_of(&p, String::new(), String::new()).link, None);
}

#[test]
fn rss_reply_serves_the_feed_or_a_plain_error() {
    let posts = vec![post(Some("a"), "2024-02-03T04:05:06Z", "text")];
    let ok = rss_reply(Some(&posts));
    assert_eq!(ok.status, 200);
    assert_eq!(ok.content_type, "application/rss+xml");
    assert_eq!(ok.body, generate_rss(&posts).unwrap());
    let bad = vec![post(Some("b"), "not a date", "text")];
    let err = rss_reply(Some(&bad));
    assert_eq!(err.status, 500);
    assert_eq!(err.content_type, "text/plain; charset=utf-8");
    assert_eq!(err.body, "Failed to generate RSS feed");
    let unread = rss_reply(None);
    assert_eq!(unread.status, 500);
    assert_eq!(unread.body, "Failed to generate RSS feed");
}
