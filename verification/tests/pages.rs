use blog::pages::{
    archive_year_of, extract_h2_headings, format_post_date, group_by_year, is_current_route,
    month_abbr, month_long, nav_items, note_tag_line, parse_date_pieces, pct_to_bars,
    post_meta_line, split_chars, strip_html_tags, tag_byline, toc_entries, toggle_tag, AppError, DateStampSize, PostListSize, TocHeading,
    TOC_MIN_HEADINGS,
};

// Date stamps

#[test]
fn test_date_stamp_size_variants_distinct() {
    assert_ne!(DateStampSize::Featured, DateStampSize::Default);
    assert_ne!(DateStampSize::Default, DateStampSize::Compact);
    assert_ne!(DateStampSize::Featured, DateStampSize::Compact);
}

#[test]
fn test_date_stamp_size_classes_distinct() {
    assert_ne!(
        DateStampSize::Featured.day_class(),
        DateStampSize::Default.day_class()
    );
}

#[test]
fn date_stamp_kicker_is_larger_only_when_featured() {
    assert_eq!(
        DateStampSize::Featured.kicker_class(),
        "font-mono text-xs uppercase tracking-[0.08em] text-ink-3"
    );
    assert_eq!(
        DateStampSize::Compact.kicker_class(),
        DateStampSize::Default.kicker_class()
    );
}

// Navigation

#[test]
fn test_pipe_nav_items_constant() {
    let items = nav_items();
    assert_eq!(items.len(), 4);
    assert_eq!(items[0].0, "/");
}

#[test]
fn test_pipe_nav_route_match_root() {
    let path = "/notes";
    assert_ne!(path, "/");
    assert!("/notes/something".starts_with("/notes/"));
    assert!(!is_current_route("/", "/notes"));
    assert!(is_current_route("/notes", "/notes/something"));
}

#[test]
fn nav_marks_only_the_matching_item() {
    assert!(is_current_route("/", "/"));
    assert!(is_current_route("/about", "/about"));
    assert!(!is_current_route("/about", "/aboutme"));
    assert!(!is_current_route("/notes", "/"));
    assert!(is_current_route("/references", "/references/x/y"));
}

// Post list rows

#[test]
fn test_parse_date_iso_basic() {
    let (k, d, m) = parse_date_pieces("2026-04-29", false);
    assert_eq!(k, "POSTED");
    assert_eq!(d, "29");
    assert_eq!(m, "APR 2026");
}

#[test]
fn test_parse_date_iso_with_time() {
    let (_, d, m) = parse_date_pieces("2026-12-01T12:00:00Z", true);
    assert_eq!(d, "1");
    assert_eq!(m, "DEC 2026");
}

#[test]
fn test_parse_date_featured_kicker() {
    let (k, _, _) = parse_date_pieces("2026-04-29", true);
    assert_eq!(k, "MOST RECENT");
}

#[test]
fn test_parse_date_unknown_format() {
    let (k, d, m) = parse_date_pieces("not-a-date", false);
    assert_eq!(k, "POSTED");
    assert_eq!(d, "·");
    assert_eq!(m, "not-a-date");
}

#[test]
fn parse_date_rejects_unknown_months_and_long_days() {
    assert_eq!(parse_date_pieces("2026-13-01", false).1, "·");
    assert_eq!(parse_date_pieces("2026-04-123", false).1, "·");
    assert_eq!(parse_date_pieces("2026-04-", false).1, "·");
    assert_eq!(parse_date_pieces("2026-04-00", false).1, "");
}

#[test]
fn post_list_sizes_pick_their_classes() {
    assert_eq!(
        PostListSize::Featured.excerpt_class(),
        "text-ink-2 text-base line-clamp-2"
    );
    assert_eq!(
        PostListSize::Default.excerpt_class(),
        "text-ink-2 text-base line-clamp-1"
    );
    assert_ne!(
        PostListSize::Featured.title_class(),
        PostListSize::Default.title_class()
    );
    assert_eq!(PostListSize::Featured.stamp_size(), DateStampSize::Featured);
    assert_eq!(PostListSize::Default.stamp_size(), DateStampSize::Default);
}

#[test]
fn month_tables_cover_the_twelve_months() {
    assert_eq!(month_abbr("01"), Some("JAN"));
    assert_eq!(month_abbr("12"), Some("DEC"));
    assert_eq!(month_abbr("1"), None);
    assert_eq!(month_long("05"), Some("May"));
    assert_eq!(month_long("09"), Some("September"));
    assert_eq!(month_long("00"), None);
}

// Archive

#[test]
fn test_group_by_year_separates() {
    let dates: Vec<String> = ["2026-04-01", "2026-01-01", "2025-12-31", "2024-06-15"]
        .iter()
        .map(|s| s.to_string())
        .collect();
    let groups = group_by_year(&dates);
    assert_eq!(groups.len(), 3);
    assert_eq!(groups[0].0, "2026");
    assert_eq!(groups[0].1.len(), 2);
    assert_eq!(groups[1].0, "2025");
    assert_eq!(groups[2].0, "2024");
}

#[test]
fn test_group_by_year_undated_fallback() {
    let groups = group_by_year(&vec!["garbage".to_string()]);
    assert_eq!(groups.len(), 1);
    assert_eq!(groups[0].0, "Undated");
}

#[test]
fn test_group_by_year_empty() {
    let groups = group_by_year(&vec![]);
    assert!(groups.is_empty());
}

#[test]
fn group_by_year_keeps_posts_in_order_within_a_year() {
    let dates: Vec<String> = ["2024-01-01", "x", "2023-05-05", "2024-02-02", "y"]
        .iter()
        .map(|s| s.to_string())
        .collect();
    let groups = group_by_year(&dates);
    assert_eq!(
        groups,
        vec![
            ("2024".to_string(), vec![0, 3]),
            ("Undated".to_string(), vec![1, 4]),
            ("2023".to_string(), vec![2]),
        ]
    );
    assert_eq!(archive_year_of("Apr 29, 2026"), "Undated");
}

// Post pages

#[test]
fn test_extract_h2_with_id() {
    let html = r#"<h2 id="intro">Introduction</h2>
        <p>blah</p>
        <h2 id="next-steps">Next steps</h2>"#;
    let h = extract_h2_headings(html);
    assert_eq!(h.len(), 2);
    assert_eq!(h[0].anchor, "intro");
    assert_eq!(h[0].text, "Introduction");
    assert_eq!(h[1].anchor, "next-steps");
}

#[test]
fn test_extract_h2_with_inline_em() {
    let html = r#"<h2 id="why">Why <em>this</em> matters</h2>"#;
    let h = extract_h2_headings(html);
    assert_eq!(h.len(), 1);
    assert_eq!(h[0].text, "Why this matters");
}

#[test]
fn test_extract_h2_without_id_skipped() {
    let html = r#"<h2>No anchor</h2><h2 id="ok">Yes anchor</h2>"#;
    let h = extract_h2_headings(html);
    assert_eq!(h.len(), 1);
    assert_eq!(h[0].anchor, "ok");
}

#[test]
fn extract_h2_stops_at_unclosed_headings() {
    assert!(extract_h2_headings(r#"<h2 id="a">never closed"#).is_empty());
    assert!(extract_h2_headings("<h2 id=").is_empty());
    let h = extract_h2_headings(r#"<h2 id="é">Ünïcode</h2>"#);
    assert_eq!(h[0].anchor, "é");
    assert_eq!(h[0].text, "Ünïcode");
}

#[test]
fn test_format_post_date_iso() {
    let (k, d, y) = format_post_date("2026-04-29");
    assert_eq!(k, "PUBLISHED");
    assert_eq!(d, "April 29,");
    assert_eq!(y, "2026");
}

#[test]
fn test_format_post_date_with_time() {
    let (_, d, y) = format_post_date("2026-12-01T10:00:00Z");
    assert_eq!(d, "December 1,");
    assert_eq!(y, "2026");
}

#[test]
fn test_format_post_date_unparsable() {
    let (_, d, y) = format_post_date("yesterday");
    assert_eq!(d, "yesterday");
    assert_eq!(y, "");
}

#[test]
fn format_post_date_keeps_unknown_month_numbers() {
    let (_, d, y) = format_post_date("2026-13-07");
    assert_eq!(d, "13 7,");
    assert_eq!(y, "2026");
}

#[test]
fn test_strip_html_tags() {
    assert_eq!(strip_html_tags("plain"), "plain");
    assert_eq!(strip_html_tags("<em>foo</em>"), "foo");
    assert_eq!(strip_html_tags("<a href=\"x\">link</a> text"), "link text");
}

// Table of contents

#[test]
fn test_toc_min_headings_constant() {
    assert_eq!(TOC_MIN_HEADINGS, 4);
}

#[test]
fn test_toc_heading_clone_eq() {
    let h = TocHeading {
        level: 2,
        text: "Foo".into(),
        anchor: "foo".into(),
    };
    let h2 = h.clone();
    assert_eq!(h, h2);
}

fn heading(level: u8, anchor: &str) -> TocHeading {
    TocHeading {
        level,
        text: anchor.to_uppercase(),
        anchor: anchor.to_string(),
    }
}

#[test]
fn toc_needs_enough_headings_and_lists_level_two() {
    let few = vec![heading(2, "a"), heading(2, "b"), heading(2, "c")];
    assert!(toc_entries(few).is_empty());
    let many = vec![heading(2, "a"), heading(3, "b"), heading(2, "c"), heading(2, "d")];
    let entries = toc_entries(many);
    assert_eq!(
        entries.iter().map(|h| h.anchor.as_str()).collect::<Vec<_>>(),
        vec!["a", "c", "d"]
    );
}

// References

#[test]
fn test_pct_to_bars_zero() {
    assert_eq!(pct_to_bars(0), "▱▱▱▱▱▱▱▱▱▱");
}

#[test]
fn test_pct_to_bars_full() {
    assert_eq!(pct_to_bars(100), "▰▰▰▰▰▰▰▰▰▰");
}

#[test]
fn test_pct_to_bars_half() {
    assert_eq!(pct_to_bars(50), "▰▰▰▰▰▱▱▱▱▱");
}

#[test]
fn test_pct_to_bars_clamps_overflow() {
    assert_eq!(pct_to_bars(120), "▰▰▰▰▰▰▰▰▰▰");
}

#[test]
fn test_pct_to_bars_low() {
    assert_eq!(pct_to_bars(15), "▰▱▱▱▱▱▱▱▱▱");
}

// Notes and errors

#[test]
fn note_tag_line_joins_hashtags() {
    let tags = vec!["rust".to_string(), "web".to_string()];
    assert_eq!(note_tag_line(&tags), "#rust · #web");
    assert_eq!(note_tag_line(&vec!["one".to_string()]), "#one");
    assert_eq!(note_tag_line(&vec![]), "");
}

#[test]
fn not_found_is_404() {
    assert_eq!(AppError::NotFound.status_code(), 404);
    assert_eq!(AppError::NotFound.message(), "Not Found");
}

#[test]
fn split_chars_matches_str_split() {
    for text in ["", "a-b", "-a--b-", "no dashes"] {
        let v: Vec<char> = text.chars().collect();
        let expected: Vec<Vec<char>> = text.split('-').map(|p| p.chars().collect()).collect();
        assert_eq!(split_chars(&v, '-'), expected);
    }
}

#[test]
fn clicking_a_tag_toggles_it() {
    let mut selected: Vec<String> = vec![];
    toggle_tag(&mut selected, "rust");
    assert_eq!(selected, vec!["rust".to_string()]);
    toggle_tag(&mut selected, "web");
    assert_eq!(selected, vec!["rust".to_string(), "web".to_string()]);
    toggle_tag(&mut selected, "rust");
    assert_eq!(selected, vec!["web".to_string()]);
    let mut twice = vec!["a".to_string(), "b".to_string(), "a".to_string()];
    toggle_tag(&mut twice, "a");
    assert_eq!(twice, vec!["b".to_string()]);
}

#[test]
fn post_page_lines() {
    assert_eq!(
        tag_byline(&vec!["rust".to_string(), "straße".to_string()]),
        "RUST · STRASSE"
    );
    assert_eq!(tag_byline(&vec![]), "UNTAGGED");
    assert_eq!(tag_byline(&vec![String::new()]), "UNTAGGED");
    assert_eq!(post_meta_line("PUBLISHED", 5, 1234), "PUBLISHED · 5 MIN READ · 1234 VIEWS");
}

#[test]
fn extracted_headings_are_level_two_and_clean() {
    let html = r#"<p>x</p><h2 class="t" id="a-b">One <em>two</em> <code>3</code></h2><h2 id="c">Four</h2>"#;
    let h = extract_h2_headings(html);
    assert_eq!(h.len(), 2);
    for heading in &h {
        assert_eq!(heading.level, 2);
        assert!(!heading.anchor.contains('"'));
        assert!(!heading.text.contains('<'));
    }
    assert_eq!(h[0].anchor, "a-b");
    assert_eq!(h[0].text, "One two 3");
    assert_eq!(h[1].text, "Four");
}
