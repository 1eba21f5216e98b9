use blog::markdown::{
    center_image_html, escape_html, extension_of, first_word_of, preprocess_images, process_markdown,
    split_lines,
};

#[test]
fn test_process_markdown_basic() {
    let markdown = "# Hello World\n\nThis is a test.";
    let html = process_markdown(markdown).unwrap();
    assert!(html.contains("<h1"));
    assert!(html.contains("Hello World"));
    assert!(html.contains("<p"));
    assert!(html.contains("This is a test"));
}

#[test]
fn test_process_markdown_code_block() {
    let markdown = "```rust\nfn main() {\n    println!(\"Hello, world!\");\n}\n```";
    let html = process_markdown(markdown).unwrap();
    assert!(html.contains("<pre"));
    assert!(html.contains("<code"));
    assert!(html.contains("main"));
}

#[test]
fn test_process_markdown_empty() {
    let markdown = "";
    let html = process_markdown(markdown).unwrap();
    assert!(html.is_empty() || html.trim().is_empty());
}

#[test]
fn test_process_markdown_math() {
    let markdown = "This is inline math: $x^2$\n\n$$\\int_0^1 x \\, dx$$";
    let html = process_markdown(markdown).unwrap();
    assert!(
        html.contains("katex"),
        "expected KaTeX-rendered output, got: {html}"
    );
}

#[test]
fn test_process_markdown_malformed_math_does_not_panic() {
    let markdown = "inline $\\undefinedcmd{x}$ and block $$\\undefinedcmd{y}$$";
    let html = process_markdown(markdown).expect("malformed math must not error the page");
    assert!(
        html.contains("undefinedcmd"),
        "raw expression should survive as fallback, got: {html}"
    );
}

#[test]
fn test_markdown_formatting() {
    let markdown = "**bold** and *italic*";
    let html = process_markdown(markdown).unwrap();
    assert!(html.contains("<strong>bold</strong>"), "got: {html}");
    assert!(html.contains("<em>italic</em>"), "got: {html}");
}

#[test]
fn markdown_renders_headings_and_code() {
    let html = process_markdown("# Title\n\n```rust\nfn main() {}\n```")
        .expect("markdown should render");
    assert!(html.contains("<h1"), "expected heading, got: {html}");
    assert!(html.contains("Title"));
    assert!(html.contains("<pre"), "expected code block, got: {html}");
}

#[test]
fn markdown_degrades_on_malformed_math() {
    let html =
        process_markdown("bad $\\nope{x}$ math").expect("malformed math must not error the page");
    assert!(html.contains("nope"), "raw expression should survive: {html}");
}

#[test]
fn markdown_centers_images() {
    let html = process_markdown("![alt](photo.png)").expect("should render");
    assert!(html.contains("justify-content: center"));
    assert!(html.contains("photo.png"));
}

#[test]
fn escape_html_replaces_only_amp_and_angle_brackets() {
    assert_eq!(escape_html("a < b && c > \"d\""), "a &lt; b &amp;&amp; c &gt; \"d\"");
    assert_eq!(escape_html(""), "");
}

#[test]
fn center_image_html_inverts_svg_only() {
    assert_eq!(
        center_image_html("/img/a.svg", "svg"),
        "<div style=\"display: flex; justify-content: center;\"><img src=\"/img/a.svg\" style=\"filter: invert(100%); width: 100%;\"></div>"
    );
    assert_eq!(
        center_image_html("/img/a.png", "png"),
        "<div style=\"display: flex; justify-content: center;\"><img src=\"/img/a.png\" style=\"width: 100%;\"></div>"
    );
}

#[test]
fn preprocess_images_rewrites_each_link_and_keeps_the_rest() {
    let out = preprocess_images("before ![a](x.png) mid ![b](dir/y.SVG) ![c](z.svg) after");
    assert_eq!(
        out,
        "before <div style=\"display: flex; justify-content: center;\"><img src=\"x.png\" style=\"width: 100%;\"></div> mid <div style=\"display: flex; justify-content: center;\"><img src=\"dir/y.SVG) ![c](z.svg\" style=\"filter: invert(100%); width: 100%;\"></div> after"
    );
    assert_eq!(preprocess_images("no images here"), "no images here");
    assert_eq!(preprocess_images("ünïcödé ![é](ü.jpg)!"), "ünïcödé <div style=\"display: flex; justify-content: center;\"><img src=\"ü.jpg\" style=\"width: 100%;\"></div>!");
}

#[test]
fn unknown_image_types_are_centred_by_the_renderer() {
    let html = process_markdown("![diagram](chart.TIFF)").unwrap();
    assert!(html.contains("<img src=\"chart.TIFF\" style=\"width: 100%;\">"), "got: {html}");
    let html = process_markdown("![logo](logo.Svg?v=2.SVG)").unwrap();
    assert!(html.contains("filter: invert(100%)"), "got: {html}");
}

#[test]
fn split_lines_matches_str_lines() {
    for text in ["", "a", "a\n", "a\r\nb", "\n\nx\r", "one\ntwo\n\nthree\r\n"] {
        let expected: Vec<String> = text.lines().map(|l| l.to_string()).collect();
        assert_eq!(split_lines(text), expected, "for {text:?}");
    }
}

#[test]
fn first_word_of_info_strings() {
    assert_eq!(first_word_of("  rust ignore"), "rust");
    assert_eq!(first_word_of("python"), "python");
    assert_eq!(first_word_of("   "), "");
}

#[test]
fn extension_of_takes_text_after_last_dot() {
    assert_eq!(extension_of("a/b.c/photo.PNG"), "PNG");
    assert_eq!(extension_of("noext"), "noext");
    assert_eq!(extension_of("trailing."), "");
}

#[test]
fn code_blocks_use_plain_text_for_unknown_languages() {
    let html = process_markdown("```nosuchlanguage\nlet x = 1;\n```").unwrap();
    assert!(html.contains("<pre style=\"background-color: #2b303b; padding: 8px; border-radius: 8px\"><code>"));
    assert!(html.contains("let x = 1;"));
    let html = process_markdown("    indented code\n").unwrap();
    assert!(html.contains("indented code"));
}

#[test]
fn code_blocks_are_coloured_line_by_line() {
    let html = process_markdown("```rust\nfn main() {}\nlet x = 1;\n```").unwrap();
    assert!(html.contains("<span style="), "got: {html}");
    assert_eq!(html.matches("\n").count() >= 2, true);
    assert!(!html.contains("```"));
}
