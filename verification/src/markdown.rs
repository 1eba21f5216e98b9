//! Markdown rendering: image links become centred HTML figures, fenced code is
//! syntax-highlighted, math goes through KaTeX, and everything else is left to
//! the CommonMark renderer.
//!
//! Parsing, highlighting, math typesetting and the final HTML serialisation are
//! done by pulldown-cmark, syntect and KaTeX behind the trusted wrappers below; what
//! this module proves is how their results are combined.

use vstd::prelude::*;

use vstd::utf8::{
    decode_utf8, encode_utf8, encode_utf8_decode_utf8, is_char_boundary,
    is_char_boundary_iff_not_is_continuation_byte, is_char_boundary_start_end_of_seq, valid_utf8,
    valid_utf8_split,
};

use pulldown_cmark::html::push_html;
use pulldown_cmark::{CodeBlockKind, CowStr, Event, Options, Parser, Tag, TagEnd, TextMergeStream};
use syntect::easy::HighlightLines;
use syntect::highlighting::{Theme, ThemeSet};
use syntect::html::{styled_line_to_highlighted_html, IncludeBackground};
use syntect::parsing::SyntaxSet;
use vstd::string::StringSliceAdditionalSpecFns;

use crate::text::{
    before_first, chars_of, is_whitespace, lemma_before_first, lemma_trim_start_skip, slice_chars,
    str_eq, string_from, trim_start, whitespace,
};

verus! {

broadcast use vstd::string::group_string_axioms;

// ---------------------------------------------------------------------------
// Escaping for the fallback paths
// ---------------------------------------------------------------------------

/// What `escape_html` writes for one character.
pub open spec fn minimal_escape_char(c: char) -> Seq<char> {
    if c == '&' {
        seq!['&', 'a', 'm', 'p', ';']
    } else if c == '<' {
        seq!['&', 'l', 't', ';']
    } else if c == '>' {
        seq!['&', 'g', 't', ';']
    } else {
        seq![c]
    }
}

/// `s` with `&`, `<` and `>` replaced by their entities.
pub open spec fn minimal_escaped(s: Seq<char>) -> Seq<char>
    decreases s.len(),
{
    if s.len() == 0 {
        Seq::empty()
    } else {
        minimal_escaped(s.drop_last()) + minimal_escape_char(s.last())
    }
}

/// Minimal HTML escaping for raw text shown when a renderer gives up.
pub fn escape_html(input: &str) -> (out: String)
    ensures
        out@ == minimal_escaped(input@),
{
    let v = chars_of(input);
    let mut out = String::new();
    let mut i: usize = 0;
    while i < v.len()
        invariant
            i <= v.len(),
            v@ == input@,
            out@ == minimal_escaped(v@.take(i as int)),
        decreases v.len() - i,
    {
        let c = v[i];
        if c == '&' {
            out.push_str("&amp;");
            proof {
                reveal_strlit("&amp;");
            }
        } else if c == '<' {
            out.push_str("&lt;");
            proof {
                reveal_strlit("&lt;");
            }
        } else if c == '>' {
            out.push_str("&gt;");
            proof {
                reveal_strlit("&gt;");
            }
        } else {
            out.push(c);
        }
        assert(v@.take(i + 1).drop_last() =~= v@.take(i as int));
        i = i + 1;
    }
    assert(v@.take(i as int) =~= v@);
    out
}

/// Escaped text holds no `<` or `>`: raw text shown on a fallback path cannot
/// open or close a tag.
pub proof fn law_escaped_text_has_no_angle_brackets(s: Seq<char>)
    ensures
        forall|i: int|
            0 <= i < minimal_escaped(s).len() ==> #[trigger] minimal_escaped(s)[i] != '<'
                && minimal_escaped(s)[i] != '>',
    decreases s.len(),
{
    if s.len() > 0 {
        law_escaped_text_has_no_angle_brackets(s.drop_last());
        let head = minimal_escaped(s.drop_last());
        let tail = minimal_escape_char(s.last());
        assert(minimal_escaped(s) == head + tail);
        assert forall|i: int| 0 <= i < minimal_escaped(s).len() implies #[trigger] minimal_escaped(
            s,
        )[i] != '<' && minimal_escaped(s)[i] != '>' by {
            if i >= head.len() {
                assert(minimal_escaped(s)[i] == tail[i - head.len()]);
            } else {
                assert(minimal_escaped(s)[i] == head[i]);
            }
        }
    }
}

// ---------------------------------------------------------------------------
// Centred images
// ---------------------------------------------------------------------------

/// The inline style of a centred image: SVGs are colour-inverted for the dark
/// theme.
pub open spec fn image_style(format: Seq<char>) -> Seq<char> {
    if format == "svg"@ {
        "filter: invert(100%); width: 100%;"@
    } else {
        "width: 100%;"@
    }
}

/// The HTML of a centred image.
pub open spec fn centered_image(path: Seq<char>, format: Seq<char>) -> Seq<char> {
    "<div style=\"display: flex; justify-content: center;\"><img src=\""@ + path
        + "\" style=\""@ + image_style(format) + "\"></div>"@
}

/// Centred `<img>` wrapper for an image at `img_path` whose file extension is
/// `img_format`.
pub fn center_image_html(img_path: &str, img_format: &str) -> (html: String)
    ensures
        html@ == centered_image(img_path@, img_format@),
{
    let mut html = String::new();
    html.push_str("<div style=\"display: flex; justify-content: center;\"><img src=\"");
    html.push_str(img_path);
    html.push_str("\" style=\"");
    if str_eq(img_format, "svg") {
        html.push_str("filter: invert(100%); width: 100%;");
    } else {
        html.push_str("width: 100%;");
    }
    html.push_str("\"></div>");
    html
}

// ---------------------------------------------------------------------------
// Image links
// ---------------------------------------------------------------------------

/// Markdown image links whose target has a common raster or SVG extension; the
/// first group is the image path, the second its extension.
pub const IMAGE_LINK_PATTERN: &'static str = r"!\[.*?\]\((.*?\.(svg|png|jpe?g|gif|bmp|webp))\)";

/// What `regex::Regex::new(pattern)` and then `captures_iter(haystack)` yield:
/// for each successive match, the byte span of every capture group (`None` for
/// a group that took no part in the match), or `None` when the pattern does
/// not compile.
pub uninterp spec fn regex_capture_spans(pattern: Seq<char>, haystack: Seq<char>) -> Option<
    Seq<Seq<Option<(usize, usize)>>>,
>;

/// A byte span of `bytes` whose ends fall on character boundaries.
pub open spec fn span_within(bytes: Seq<u8>, span: (usize, usize)) -> bool {
    &&& span.0 <= span.1 <= bytes.len()
    &&& is_char_boundary(bytes, span.0 as int)
    &&& is_char_boundary(bytes, span.1 as int)
}

/// Where a match begins (in bytes).
pub open spec fn match_start(m: Seq<Option<(usize, usize)>>) -> int {
    (m[0]->0).0 as int
}

/// Where a match ends (in bytes).
pub open spec fn match_end(m: Seq<Option<(usize, usize)>>) -> int {
    (m[0]->0).1 as int
}

/// The shape that the regex documentation promises of `captures_iter`: group 0
/// (the whole match) is always present, every span lies on character
/// boundaries of the haystack, and successive matches do not overlap.
pub open spec fn captures_well_formed(bytes: Seq<u8>, ms: Seq<Seq<Option<(usize, usize)>>>) -> bool {
    &&& forall|k: int| 0 <= k < ms.len() ==> (#[trigger] ms[k]).len() >= 1 && ms[k][0] is Some
    &&& forall|k: int, g: int|
        0 <= k < ms.len() && 0 <= g < ms[k].len() && (#[trigger] ms[k][g]) is Some ==> span_within(
            bytes,
            ms[k][g]->0,
        )
    &&& forall|j: int, k: int|
        0 <= j < k < ms.len() ==> match_end(#[trigger] ms[j]) <= match_start(#[trigger] ms[k])
}

/// Runs `regex::Regex::captures_iter` and reports the byte spans of the
/// groups of each match. The result is named by `regex_capture_spans`; its
/// shape (`captures_well_formed`) is what the crate documents of `Match`
/// offsets (code point boundaries, `start <= end`, group 0 always present) and
/// of the iterator (successive non-overlapping matches).
#[verifier::external_body]
fn capture_spans(pattern: &str, haystack: &str) -> (spans: Option<Vec<Vec<Option<(usize, usize)>>>>)
    ensures
        spans.deep_view() == regex_capture_spans(pattern@, haystack@),
        spans matches Some(ms) ==> captures_well_formed(haystack.spec_bytes(), ms.deep_view()),
{
    let re = regex::Regex::new(pattern).ok()?;
    Some(
        re.captures_iter(haystack).map(
            |c| c.iter().map(|g| g.map(|m| (m.start(), m.end()))).collect(),
        ).collect(),
    )
}

/// The text of the bytes `bytes[from..to]`.
pub open spec fn text_of(bytes: Seq<u8>, from: int, to: int) -> Seq<char> {
    decode_utf8(bytes.subrange(from, to))
}

/// Whether a match has the path and extension groups that a rewrite needs.
pub open spec fn has_image_groups(m: Seq<Option<(usize, usize)>>) -> bool {
    m.len() >= 3 && m[0] is Some && m[1] is Some && m[2] is Some
}

/// The source from byte `pos` on, with matches `k..` turned into centred
/// images and everything between them copied.
pub open spec fn images_from(
    src: Seq<u8>,
    ms: Seq<Seq<Option<(usize, usize)>>>,
    k: int,
    pos: int,
) -> Seq<char>
    decreases ms.len() - k,
{
    if k >= ms.len() || k < 0 {
        text_of(src, pos, src.len() as int)
    } else if has_image_groups(ms[k]) {
        let whole = ms[k][0]->0;
        let path = ms[k][1]->0;
        let format = ms[k][2]->0;
        text_of(src, pos, whole.0 as int) + centered_image(
            text_of(src, path.0 as int, path.1 as int),
            text_of(src, format.0 as int, format.1 as int),
        ) + images_from(src, ms, k + 1, whole.1 as int)
    } else {
        images_from(src, ms, k + 1, pos)
    }
}

/// `markdown` with every image link that `IMAGE_LINK_PATTERN` finds replaced
/// by a centred `<img>`.
pub open spec fn images_centered(markdown: Seq<char>) -> Seq<char> {
    match regex_capture_spans(IMAGE_LINK_PATTERN@, markdown) {
        Some(ms) => images_from(encode_utf8(markdown), ms, 0, 0),
        None => markdown,
    }
}

proof fn lemma_boundary_in_suffix(bytes: Seq<u8>, a: int, b: int)
    requires
        valid_utf8(bytes),
        0 <= a <= b <= bytes.len(),
        is_char_boundary(bytes, a),
        is_char_boundary(bytes, b),
    ensures
        valid_utf8(bytes.subrange(a, bytes.len() as int)),
        is_char_boundary(bytes.subrange(a, bytes.len() as int), b - a),
{
    valid_utf8_split(bytes, a);
    let t = bytes.subrange(a, bytes.len() as int);
    if b == bytes.len() {
        is_char_boundary_start_end_of_seq(t);
    } else {
        is_char_boundary_iff_not_is_continuation_byte(bytes, b);
        is_char_boundary_iff_not_is_continuation_byte(t, b - a);
        assert(t[b - a] == bytes[b]);
    }
}

/// The part of `s` between two character boundaries.
fn byte_slice(s: &str, from: usize, to: usize) -> (r: &str)
    requires
        from <= to <= s.spec_bytes().len(),
        is_char_boundary(s.spec_bytes(), from as int),
        is_char_boundary(s.spec_bytes(), to as int),
    ensures
        r@ == text_of(s.spec_bytes(), from as int, to as int),
{
    proof {
        vstd::utf8::encode_utf8_valid_utf8(s@);
        lemma_boundary_in_suffix(s.spec_bytes(), from as int, to as int);
    }
    let (_, tail) = s.split_at(from);
    let (mid, _) = tail.split_at(to - from);
    proof {
        assert(mid.spec_bytes() =~= s.spec_bytes().subrange(from as int, to as int));
        encode_utf8_decode_utf8(mid@);
    }
    mid
}

/// The part of `s` from a character boundary on.
fn byte_suffix(s: &str, from: usize) -> (r: &str)
    requires
        from <= s.spec_bytes().len(),
        is_char_boundary(s.spec_bytes(), from as int),
    ensures
        r@ == text_of(s.spec_bytes(), from as int, s.spec_bytes().len() as int),
{
    let (_, tail) = s.split_at(from);
    proof {
        encode_utf8_decode_utf8(tail@);
    }
    tail
}

/// Replaces the matches of an image-link pattern in `markdown` by centred
/// images; `caps` are the capture spans of the matches, group 1 the image path
/// and group 2 its extension. Matches without those groups are left as they are.
pub fn center_image_links(markdown: &str, caps: &Vec<Vec<Option<(usize, usize)>>>) -> (out: String)
    requires
        captures_well_formed(markdown.spec_bytes(), caps.deep_view()),
    ensures
        out@ == images_from(markdown.spec_bytes(), caps.deep_view(), 0, 0),
{
    let ghost src = markdown.spec_bytes();
    let ghost ms = caps.deep_view();
    proof {
        vstd::utf8::encode_utf8_valid_utf8(markdown@);
        is_char_boundary_start_end_of_seq(src);
    }
    let mut out = String::new();
    let mut pos: usize = 0;
    let mut k: usize = 0;
    while k < caps.len()
        invariant
            src == markdown.spec_bytes(),
            valid_utf8(src),
            ms == caps.deep_view(),
            captures_well_formed(src, ms),
            k <= caps.len(),
            pos <= src.len(),
            is_char_boundary(src, pos as int),
            forall|j: int| k <= j < ms.len() ==> pos <= match_start(#[trigger] ms[j]),
            out@ + images_from(src, ms, k as int, pos as int) == images_from(src, ms, 0, 0),
        decreases caps.len() - k,
    {
        let m = &caps[k];
        assert(ms[k as int] == m.deep_view());
        let mut replaced = false;
        if m.len() >= 3 {
            if let (Some(whole), Some(path), Some(format)) = (m[0], m[1], m[2]) {
                assert(ms[k as int][0] == Some(whole));
                assert(ms[k as int][1] == Some(path));
                assert(ms[k as int][2] == Some(format));
                out.push_str(byte_slice(markdown, pos, whole.0));
                let html = center_image_html(
                    byte_slice(markdown, path.0, path.1),
                    byte_slice(markdown, format.0, format.1),
                );
                out.push_str(&html);
                pos = whole.1;
                replaced = true;
                assert forall|j: int| k + 1 <= j < ms.len() implies pos <= match_start(
                    #[trigger] ms[j],
                ) by {
                    assert(match_end(ms[k as int]) <= match_start(ms[j]));
                }
            }
        }
        if !replaced {
            assert(!has_image_groups(ms[k as int]));
        }
        k = k + 1;
    }
    out.push_str(byte_suffix(markdown, pos));
    out
}

/// Markdown in which the image-link pattern finds nothing passes through the
/// image rewrite unchanged.
pub proof fn law_text_without_image_links_is_unchanged(markdown: Seq<char>)
    requires
        regex_capture_spans(IMAGE_LINK_PATTERN@, markdown) == Some(
            Seq::<Seq<Option<(usize, usize)>>>::empty(),
        ),
    ensures
        images_centered(markdown) == markdown,
{
    let src = encode_utf8(markdown);
    assert(src.subrange(0, src.len() as int) =~= src);
    encode_utf8_decode_utf8(markdown);
}

/// Rewrites Markdown image links into centred HTML.
pub fn preprocess_images(markdown: &str) -> (out: String)
    ensures
        out@ == images_centered(markdown@),
{
    match capture_spans(IMAGE_LINK_PATTERN, markdown) {
        Some(caps) => center_image_links(markdown, &caps),
        None => markdown.to_string(),
    }
}

// ---------------------------------------------------------------------------
// Lines, words and file extensions
// ---------------------------------------------------------------------------

/// A line without the `'\r'` of a `"\r\n"` ending.
pub open spec fn without_cr(line: Seq<char>) -> Seq<char> {
    if line.len() > 0 && line.last() == '\r' {
        line.drop_last()
    } else {
        line
    }
}

/// The lines of `s` as `str::lines` yields them: split at `'\n'`, a `'\r'`
/// before the `'\n'` dropped, and no empty line after a final line ending.
pub open spec fn lines_of(s: Seq<char>) -> Seq<Seq<char>>
    decreases s.len(),
{
    if s.len() == 0 {
        Seq::empty()
    } else {
        let head = before_first(s, '\n');
        if head.len() < s.len() {
            seq![without_cr(head)] + lines_of(s.skip(head.len() + 1 as int))
        } else {
            seq![s]
        }
    }
}

/// The lines of `content`, as `str::lines` splits them.
pub fn split_lines(content: &str) -> (lines: Vec<String>)
    ensures
        lines.deep_view() == lines_of(content@),
{
    let v = chars_of(content);
    let mut lines: Vec<String> = Vec::new();
    let mut start: usize = 0;
    assert(v@.skip(0) =~= v@);
    assert(lines.deep_view() + lines_of(v@) =~= lines_of(v@));
    while start < v.len()
        invariant
            start <= v.len(),
            v@ == content@,
            lines.deep_view() + lines_of(v@.skip(start as int)) == lines_of(v@),
        decreases v.len() - start,
    {
        let mut k: usize = start;
        while k < v.len() && v[k] != '\n'
            invariant
                start <= k <= v.len(),
                forall|j: int| start <= j < k ==> v@[j] != '\n',
            decreases v.len() - k,
        {
            k = k + 1;
        }
        let ghost rest = v@.skip(start as int);
        proof {
            assert forall|j: int| 0 <= j < k - start implies rest[j] != '\n' by {
                assert(rest[j] == v@[start + j]);
            }
            if k < v.len() {
                assert(rest[k - start] == v@[k as int]);
            }
            lemma_before_first(rest, '\n', k - start);
            assert(rest.take(k - start) =~= v@.subrange(start as int, k as int));
        }
        let ghost old_lines = lines.deep_view();
        if k < v.len() {
            let end = if k > start && v[k - 1] == '\r' {
                k - 1
            } else {
                k
            };
            let line = string_from(&slice_chars(&v, start, end));
            assert(line@ == without_cr(v@.subrange(start as int, k as int))) by {
                if k > start && v@[k - 1] == '\r' {
                    assert(v@.subrange(start as int, k as int).drop_last() =~= v@.subrange(
                        start as int,
                        end as int,
                    ));
                }
            }
            lines.push(line);
            assert(rest.skip(k - start + 1) =~= v@.skip(k + 1));
            assert(lines.deep_view() =~= old_lines.push(line@));
            assert(lines.deep_view() + lines_of(v@.skip(k + 1)) =~= old_lines + lines_of(rest));
            start = k + 1;
        } else {
            let line = string_from(&slice_chars(&v, start, k));
            lines.push(line);
            assert(rest =~= v@.subrange(start as int, k as int));
            assert(lines.deep_view() =~= old_lines.push(line@));
            assert(v@.skip(k as int) =~= Seq::<char>::empty());
            assert(lines.deep_view() + lines_of(v@.skip(k as int)) =~= old_lines + lines_of(rest));
            start = k;
        }
    }
    assert(v@.skip(start as int) =~= Seq::<char>::empty());
    assert(lines.deep_view() + Seq::<Seq<char>>::empty() =~= lines.deep_view());
    lines
}

/// The characters of `s` up to its first whitespace.
pub open spec fn leading_word(s: Seq<char>) -> Seq<char>
    decreases s.len(),
{
    if s.len() == 0 || is_whitespace(s[0]) {
        Seq::empty()
    } else {
        seq![s[0]] + leading_word(s.drop_first())
    }
}

/// The first whitespace-separated word of `s` (empty when there is none), as
/// `s.split_whitespace().next().unwrap_or("")`.
pub open spec fn first_word(s: Seq<char>) -> Seq<char> {
    leading_word(trim_start(s))
}

proof fn lemma_leading_word(s: Seq<char>, j: int)
    requires
        0 <= j <= s.len(),
        forall|k: int| 0 <= k < j ==> !is_whitespace(#[trigger] s[k]),
        j == s.len() || is_whitespace(s[j]),
    ensures
        leading_word(s) == s.take(j),
    decreases j,
{
    if j == 0 {
        assert(s.take(0) =~= Seq::<char>::empty());
    } else {
        assert(!is_whitespace(s[0]));
        let t = s.drop_first();
        assert forall|k: int| 0 <= k < j - 1 implies !is_whitespace(#[trigger] t[k]) by {
            assert(t[k] == s[k + 1]);
        }
        if j - 1 < t.len() {
            assert(t[j - 1] == s[j]);
        }
        lemma_leading_word(t, j - 1);
        assert(seq![s[0]] + t.take(j - 1) =~= s.take(j));
    }
}

/// The first whitespace-separated word of `s`.
pub fn first_word_of(s: &str) -> (w: String)
    ensures
        w@ == first_word(s@),
{
    let v = chars_of(s);
    let mut i: usize = 0;
    while i < v.len() && whitespace(v[i])
        invariant
            i <= v.len(),
            forall|k: int| 0 <= k < i ==> is_whitespace(#[trigger] v@[k]),
        decreases v.len() - i,
    {
        i = i + 1;
    }
    let mut j: usize = i;
    while j < v.len() && !whitespace(v[j])
        invariant
            i <= j <= v.len(),
            forall|k: int| i <= k < j ==> !is_whitespace(#[trigger] v@[k]),
        decreases v.len() - j,
    {
        j = j + 1;
    }
    proof {
        lemma_trim_start_skip(v@, i as int);
        let t = v@.skip(i as int);
        assert forall|k: int| 0 <= k < j - i implies !is_whitespace(#[trigger] t[k]) by {
            assert(t[k] == v@[i + k]);
        }
        if j < v.len() {
            assert(t[j - i] == v@[j as int]);
        }
        lemma_leading_word(t, j - i);
        assert(t.take(j - i) =~= v@.subrange(i as int, j as int));
    }
    string_from(&slice_chars(&v, i, j))
}

/// The part of `s` after its last `'.'` (all of `s` when there is none), as
/// `s.split('.').next_back()`.
pub open spec fn after_last_dot(s: Seq<char>) -> Seq<char>
    decreases s.len(),
{
    if s.len() == 0 {
        s
    } else if s.last() == '.' {
        Seq::empty()
    } else {
        after_last_dot(s.drop_last()).push(s.last())
    }
}

proof fn lemma_after_last_dot(s: Seq<char>, k: int)
    requires
        0 <= k <= s.len(),
        forall|j: int| k <= j < s.len() ==> s[j] != '.',
        k == 0 || s[k - 1] == '.',
    ensures
        after_last_dot(s) == s.skip(k),
    decreases s.len(),
{
    if s.len() == k {
        if k > 0 {
            assert(s.last() == '.');
        }
        assert(s.skip(k) =~= Seq::<char>::empty());
    } else {
        let t = s.drop_last();
        lemma_after_last_dot(t, k);
        assert(t.skip(k).push(s.last()) =~= s.skip(k));
    }
}

/// The file extension of an image path: the text after its last `'.'`.
pub fn extension_of(path: &str) -> (ext: String)
    ensures
        ext@ == after_last_dot(path@),
{
    let v = chars_of(path);
    let mut k: usize = v.len();
    while k > 0 && v[k - 1] != '.'
        invariant
            k <= v.len(),
            forall|j: int| k <= j < v.len() ==> v@[j] != '.',
        decreases k,
    {
        k = k - 1;
    }
    proof {
        lemma_after_last_dot(v@, k as int);
        assert(v@.skip(k as int) =~= v@.subrange(k as int, v.len() as int));
    }
    string_from(&slice_chars(&v, k, v.len()))
}

/// The Unicode lowercase of `s`, as `str::to_lowercase` computes it.
pub uninterp spec fn unicode_lowercase(s: Seq<char>) -> Seq<char>;

/// `str::to_lowercase`; its result is named by `unicode_lowercase`.
#[verifier::external_body]
fn to_lowercase(s: &str) -> (r: String)
    ensures
        r@ == unicode_lowercase(s@),
{
    s.to_lowercase()
}

// ---------------------------------------------------------------------------
// Code highlighting
// ---------------------------------------------------------------------------

#[verifier::external_type_specification]
#[verifier::external_body]
pub struct ExSyntaxSet(SyntaxSet);

#[verifier::external_type_specification]
#[verifier::external_body]
pub struct ExTheme(Theme);

/// The colour theme that code blocks are highlighted with.
pub const CODE_THEME: &'static str = "base16-eighties.dark";

/// Syntect's default syntax definitions together with one of its default
/// themes, the one named `theme_name`.
pub struct Highlighter {
    syntaxes: SyntaxSet,
    theme: Theme,
    theme_name: Ghost<Seq<char>>,
}

impl Highlighter {
    /// The name of the theme this highlighter colours with.
    pub closed spec fn theme(&self) -> Seq<char> {
        self.theme_name@
    }
}

/// Whether syntect's default theme set has a theme of this name.
pub uninterp spec fn syntect_has_theme(name: Seq<char>) -> bool;

/// Whether syntect's default syntax set has a syntax for this token (a
/// language name or file extension).
pub uninterp spec fn syntect_knows_token(token: Seq<char>) -> bool;

/// The HTML that syntect writes for each of `lines` when they are highlighted
/// one after another with the default theme `theme` and the syntax found for
/// `token` (plain text for `None`); `None` when highlighting a line fails.
pub uninterp spec fn syntect_line_html(
    theme: Seq<char>,
    token: Option<Seq<char>>,
    lines: Seq<Seq<char>>,
) -> Option<Seq<Seq<char>>>;

/// Loads `SyntaxSet::load_defaults_newlines` and the theme `theme` of
/// `ThemeSet::load_defaults`; `None` when there is no such theme.
#[verifier::external_body]
fn load_highlighter(theme: &str) -> (h: Option<Highlighter>)
    ensures
        h.is_some() == syntect_has_theme(theme@),
        h matches Some(h) ==> h.theme() == theme@,
{
    let found = ThemeSet::load_defaults().themes.get(theme)?.clone();
    Some(
        Highlighter {
            syntaxes: SyntaxSet::load_defaults_newlines(),
            theme: found,
            theme_name: Ghost(theme@),
        },
    )
}

/// `SyntaxSet::find_syntax_by_token` on the default syntaxes: whether a syntax
/// is found for `token`.
#[verifier::external_body]
fn knows_token(h: &Highlighter, token: &str) -> (found: bool)
    ensures
        found == syntect_knows_token(token@),
{
    h.syntaxes.find_syntax_by_token(token).is_some()
}

/// Highlights `lines` in order with one `HighlightLines` (so that a line's
/// colours may depend on the lines before it) and turns each into HTML with
/// `styled_line_to_highlighted_html`, without background colours. The result
/// is named by `syntect_line_html`; the source maps every line to one piece of
/// HTML, so a successful result has one entry per line.
#[verifier::external_body]
fn highlight_lines(h: &Highlighter, token: Option<&str>, lines: &Vec<String>) -> (html: Option<
    Vec<String>,
>)
    requires
        token matches Some(t) ==> syntect_knows_token(t@),
    ensures
        html.deep_view() == syntect_line_html(h.theme(), token.deep_view(), lines.deep_view()),
        html matches Some(v) ==> v.len() == lines.len(),
{
    let syntax = match token {
        Some(t) => h.syntaxes.find_syntax_by_token(t).unwrap(),
        None => h.syntaxes.find_syntax_plain_text(),
    };
    let mut highlighter = HighlightLines::new(syntax, &h.theme);
    lines.iter().map(
        |line| {
            let ranges = highlighter.highlight_line(line, &h.syntaxes).ok()?;
            styled_line_to_highlighted_html(&ranges, IncludeBackground::No).ok()
        },
    ).collect()
}

/// What opens a highlighted code block.
pub const CODE_BLOCK_OPEN: &'static str =
    "<pre style=\"background-color: #2b303b; padding: 8px; border-radius: 8px\"><code>";

/// The highlighted lines, each followed by a line break.
pub open spec fn joined_lines(html: Seq<Seq<char>>) -> Seq<char>
    decreases html.len(),
{
    if html.len() == 0 {
        Seq::empty()
    } else {
        joined_lines(html.drop_last()) + html.last() + seq!['\n']
    }
}

/// A code block made of highlighted lines.
pub open spec fn code_block_html(html: Seq<Seq<char>>) -> Seq<char> {
    CODE_BLOCK_OPEN@ + joined_lines(html) + "</code></pre>"@
}

/// The syntax used for a code block's language: the one syntect finds for it,
/// else plain text.
pub open spec fn syntax_token(language: Seq<char>) -> Option<Seq<char>> {
    if syntect_knows_token(language) {
        Some(language)
    } else {
        None
    }
}

/// The HTML of a code block, or `None` when highlighting fails.
pub open spec fn highlighted_block(theme: Seq<char>, language: Seq<char>, content: Seq<char>) -> Option<
    Seq<char>,
> {
    match syntect_line_html(theme, syntax_token(language), lines_of(content)) {
        Some(html) => Some(code_block_html(html)),
        None => None,
    }
}

/// Syntax-highlights one fenced code block into inline-styled HTML.
pub fn highlight_code_block(h: &Highlighter, content: &str, language: &str) -> (html: Option<String>)
    ensures
        html.deep_view() == highlighted_block(h.theme(), language@, content@),
{
    let lines = split_lines(content);
    let found = if knows_token(h, language) {
        highlight_lines(h, Some(language), &lines)
    } else {
        highlight_lines(h, None, &lines)
    };
    let line_html = match found {
        Some(v) => v,
        None => {
            return None;
        },
    };
    let ghost hs = line_html.deep_view();
    let mut out = String::new();
    out.push_str(CODE_BLOCK_OPEN);
    let mut i: usize = 0;
    while i < line_html.len()
        invariant
            i <= line_html.len(),
            hs == line_html.deep_view(),
            out@ == CODE_BLOCK_OPEN@ + joined_lines(hs.take(i as int)),
        decreases line_html.len() - i,
    {
        out.push_str(&line_html[i]);
        out.push('\n');
        assert(hs.take(i + 1).drop_last() =~= hs.take(i as int));
        assert(hs[i as int] == line_html[i as int]@);
        i = i + 1;
    }
    assert(hs.take(i as int) =~= hs);
    out.push_str("</code></pre>");
    Some(out)
}

// ---------------------------------------------------------------------------
// Math
// ---------------------------------------------------------------------------

/// The HTML that KaTeX writes for `expr` (in display mode when `display`), or
/// `None` when KaTeX rejects it.
pub uninterp spec fn katex_html(expr: Seq<char>, display: bool) -> Option<Seq<char>>;

/// `katex::render_with_opts` with the display mode set to `display`; the
/// result is named by `katex_html`, and an error of KaTeX becomes `None`.
#[verifier::external_body]
fn render_math(expr: &str, display: bool) -> (html: Option<String>)
    ensures
        html.deep_view() == katex_html(expr@, display),
{
    let mut opts = katex::Opts::default();
    opts.set_display_mode(display);
    katex::render_with_opts(expr, &opts).ok()
}

/// What stands for inline math: KaTeX's HTML, or the escaped expression in
/// `<code>` when KaTeX rejects it.
pub open spec fn inline_math_html(expr: Seq<char>) -> Seq<char> {
    match katex_html(expr, false) {
        Some(html) => html,
        None => "<code>"@ + minimal_escaped(expr) + "</code>"@,
    }
}

/// What stands for display math: KaTeX's HTML, or the escaped expression in
/// `<pre><code>` when KaTeX rejects it.
pub open spec fn display_math_html(expr: Seq<char>) -> Seq<char> {
    match katex_html(expr, true) {
        Some(html) => html,
        None => "<pre><code>"@ + minimal_escaped(expr) + "</code></pre>"@,
    }
}

/// Renders inline math, falling back to the raw expression rather than failing
/// when KaTeX rejects it.
pub fn inline_math(expr: &str) -> (html: String)
    ensures
        html@ == inline_math_html(expr@),
{
    match render_math(expr, false) {
        Some(html) => html,
        None => {
            let mut out = String::new();
            out.push_str("<code>");
            out.push_str(&escape_html(expr));
            out.push_str("</code>");
            out
        },
    }
}

/// Renders display math, falling back to the raw expression rather than
/// failing when KaTeX rejects it.
pub fn display_math(expr: &str) -> (html: String)
    ensures
        html@ == display_math_html(expr@),
{
    match render_math(expr, true) {
        Some(html) => html,
        None => {
            let mut out = String::new();
            out.push_str("<pre><code>");
            out.push_str(&escape_html(expr));
            out.push_str("</code></pre>");
            out
        },
    }
}

// ---------------------------------------------------------------------------
// CommonMark events
// ---------------------------------------------------------------------------

#[verifier::external_type_specification]
#[verifier::external_body]
pub struct ExEvent<'a>(Event<'a>);

/// The CommonMark extensions a parse enables.
#[derive(Clone, Copy, Debug, PartialEq, Eq)]
pub enum MarkdownExtension {
    Tables,
    TaskLists,
    Strikethrough,
    Math,
}

/// What the rendering logic reads of one parsed event.
#[derive(Debug)]
pub enum MarkdownEvent {
    /// Start of a code block, with the info string of a fenced block.
    CodeBlockStart(Option<String>),
    CodeBlockEnd,
    Text(String),
    /// Start of an image, with its destination.
    ImageStart(String),
    ImageEnd,
    InlineMath(String),
    DisplayMath(String),
    /// Any other event: it is rendered as the parser gave it.
    Other,
}

pub enum MarkdownEventView {
    CodeBlockStart(Option<Seq<char>>),
    CodeBlockEnd,
    Text(Seq<char>),
    ImageStart(Seq<char>),
    ImageEnd,
    InlineMath(Seq<char>),
    DisplayMath(Seq<char>),
    Other,
}

impl View for MarkdownEvent {
    type V = MarkdownEventView;

    open spec fn view(&self) -> MarkdownEventView {
        match self {
            MarkdownEvent::CodeBlockStart(info) => MarkdownEventView::CodeBlockStart(
                info.deep_view(),
            ),
            MarkdownEvent::CodeBlockEnd => MarkdownEventView::CodeBlockEnd,
            MarkdownEvent::Text(t) => MarkdownEventView::Text(t@),
            MarkdownEvent::ImageStart(url) => MarkdownEventView::ImageStart(url@),
            MarkdownEvent::ImageEnd => MarkdownEventView::ImageEnd,
            MarkdownEvent::InlineMath(m) => MarkdownEventView::InlineMath(m@),
            MarkdownEvent::DisplayMath(m) => MarkdownEventView::DisplayMath(m@),
            MarkdownEvent::Other => MarkdownEventView::Other,
        }
    }
}

/// One event of the rendered stream: a parsed event kept as it was, or raw
/// HTML put in its place.
#[derive(Debug)]
pub enum HtmlPiece {
    /// The parsed event at this index.
    Keep(usize),
    /// A block of raw HTML.
    Html(String),
    /// Raw HTML inside a paragraph.
    InlineHtml(String),
}

pub enum HtmlPieceView {
    Keep(usize),
    Html(Seq<char>),
    InlineHtml(Seq<char>),
}

impl View for HtmlPiece {
    type V = HtmlPieceView;

    open spec fn view(&self) -> HtmlPieceView {
        match self {
            HtmlPiece::Keep(i) => HtmlPieceView::Keep(*i),
            HtmlPiece::Html(h) => HtmlPieceView::Html(h@),
            HtmlPiece::InlineHtml(h) => HtmlPieceView::InlineHtml(h@),
        }
    }
}

/// The views of a sequence of pieces.
pub open spec fn pieces_view(pieces: Seq<HtmlPiece>) -> Seq<HtmlPieceView> {
    pieces.map_values(|p: HtmlPiece| p@)
}

/// The number of events that pulldown-cmark's `Parser::new_ext`, merged by
/// `TextMergeStream`, yields for `source` with these extensions.
pub uninterp spec fn markdown_event_count(source: Seq<char>, extensions: Seq<MarkdownExtension>) -> nat;

/// What the `i`-th of those events is, as far as rendering reads it.
pub uninterp spec fn markdown_event_at(
    source: Seq<char>,
    extensions: Seq<MarkdownExtension>,
    i: int,
) -> MarkdownEventView;

/// The HTML that `pulldown_cmark::html::push_html` writes for the events of
/// `source`, with the stream replaced by `pieces`.
pub uninterp spec fn markdown_html(
    source: Seq<char>,
    extensions: Seq<MarkdownExtension>,
    pieces: Seq<HtmlPieceView>,
) -> Seq<char>;

/// The events of `source`, as rendering reads them.
pub open spec fn markdown_events(source: Seq<char>, extensions: Seq<MarkdownExtension>) -> Seq<
    MarkdownEventView,
> {
    Seq::new(
        markdown_event_count(source, extensions),
        |i: int| markdown_event_at(source, extensions, i),
    )
}

/// The parsed events of a Markdown text.
pub struct ParsedMarkdown {
    events: Vec<Event<'static>>,
    source: Ghost<Seq<char>>,
    extensions: Ghost<Seq<MarkdownExtension>>,
}

impl ParsedMarkdown {
    /// The number of events.
    pub fn event_count(&self) -> (n: usize)
        ensures
            n == self.len(),
    {
        self.events.len()
    }

    /// The text that was parsed.
    pub closed spec fn source(&self) -> Seq<char> {
        self.source@
    }

    /// The extensions it was parsed with.
    pub closed spec fn extensions(&self) -> Seq<MarkdownExtension> {
        self.extensions@
    }

    /// The number of events.
    pub closed spec fn len(&self) -> nat {
        self.events.len() as nat
    }
}

/// Parses `source` with `pulldown_cmark::Parser::new_ext` and the given
/// extensions, merging adjacent text with `TextMergeStream`; the number of
/// events is named by `markdown_event_count`.
#[verifier::external_body]
fn parse_markdown(source: &str, extensions: &Vec<MarkdownExtension>) -> (parsed: ParsedMarkdown)
    ensures
        parsed.source() == source@,
        parsed.extensions() == extensions@,
        parsed.len() == markdown_event_count(source@, extensions@),
{
    let mut options = Options::empty();
    for extension in extensions.iter() {
        options.insert(
            match extension {
                MarkdownExtension::Tables => Options::ENABLE_TABLES,
                MarkdownExtension::TaskLists => Options::ENABLE_TASKLISTS,
                MarkdownExtension::Strikethrough => Options::ENABLE_STRIKETHROUGH,
                MarkdownExtension::Math => Options::ENABLE_MATH,
            },
        );
    }
    let events = TextMergeStream::new(Parser::new_ext(source, options)).map(Event::into_static);
    ParsedMarkdown { events: events.collect(), source: Ghost(source@), extensions: Ghost(extensions@) }
}

/// Tells apart the variants of the `i`-th parsed event that rendering reads;
/// the result is named by `markdown_event_at`.
#[verifier::external_body]
fn event_at(parsed: &ParsedMarkdown, i: usize) -> (event: MarkdownEvent)
    requires
        i < parsed.len(),
    ensures
        event@ == markdown_event_at(parsed.source(), parsed.extensions(), i as int),
{
    match &parsed.events[i] {
        Event::Start(Tag::CodeBlock(CodeBlockKind::Fenced(info))) => MarkdownEvent::CodeBlockStart(Some(info.to_string())),
        Event::Start(Tag::CodeBlock(CodeBlockKind::Indented)) => MarkdownEvent::CodeBlockStart(None),
        Event::End(TagEnd::CodeBlock) => MarkdownEvent::CodeBlockEnd,
        Event::Text(text) => MarkdownEvent::Text(text.to_string()),
        Event::Start(Tag::Image { dest_url, .. }) => MarkdownEvent::ImageStart(dest_url.to_string()),
        Event::End(TagEnd::Image) => MarkdownEvent::ImageEnd,
        Event::InlineMath(math) => MarkdownEvent::InlineMath(math.to_string()),
        Event::DisplayMath(math) => MarkdownEvent::DisplayMath(math.to_string()),
        _ => MarkdownEvent::Other,
    }
}

/// Feeds `pulldown_cmark::html::push_html` the stream that `pieces` describe:
/// a kept index stands for that parsed event, the others for `Event::Html` and
/// `Event::InlineHtml`. The result is named by `markdown_html`.
#[verifier::external_body]
fn render_pieces(parsed: ParsedMarkdown, pieces: Vec<HtmlPiece>) -> (html: String)
    requires
        keeps_below(pieces_view(pieces@), parsed.len()),
    ensures
        html@ == markdown_html(parsed.source(), parsed.extensions(), pieces_view(pieces@)),
{
    let mut html = String::new();
    let stream = pieces.into_iter().map(
        |piece| match piece {
            HtmlPiece::Keep(i) => parsed.events[i].clone(),
            HtmlPiece::Html(h) => Event::Html(CowStr::from(h)),
            HtmlPiece::InlineHtml(h) => Event::InlineHtml(CowStr::from(h)),
        },
    );
    push_html(&mut html, stream);
    html
}

// ---------------------------------------------------------------------------
// Rendering
// ---------------------------------------------------------------------------

/// Where the walk over the parsed events stands.
pub struct RenderState {
    /// Inside a code block.
    pub in_code: bool,
    /// The language of the current code block, when it names one.
    pub language: Option<Seq<char>>,
    /// The text of the current (or last) code block.
    pub code: Seq<char>,
    /// The end of the current image is to be dropped.
    pub skip_image: bool,
    /// The stream written so far.
    pub pieces: Seq<HtmlPieceView>,
}

pub open spec fn initial_render_state() -> RenderState {
    RenderState {
        in_code: false,
        language: None,
        code: Seq::empty(),
        skip_image: false,
        pieces: Seq::empty(),
    }
}

/// `st` with `piece` appended to the stream.
pub open spec fn with_piece(st: RenderState, piece: HtmlPieceView) -> RenderState {
    RenderState { pieces: st.pieces.push(piece), ..st }
}

/// One step of the walk: event `i` is `ev`. Code-block text is gathered and
/// highlighted at the end of the block (`None` when that fails), images become
/// centred figures whose closing event is dropped, math goes through KaTeX, and
/// every other event is kept.
pub open spec fn render_step(
    theme: Seq<char>,
    st: RenderState,
    ev: MarkdownEventView,
    i: usize,
) -> Option<RenderState> {
    match ev {
        MarkdownEventView::CodeBlockStart(info) => Some(
            RenderState {
                in_code: true,
                code: Seq::empty(),
                language: match info {
                    Some(text) => Some(first_word(text)),
                    None => None,
                },
                ..st
            },
        ),
        MarkdownEventView::CodeBlockEnd => {
            let language = match st.language {
                Some(l) => l,
                None => "plaintext"@,
            };
            match highlighted_block(theme, language, st.code) {
                Some(html) => Some(
                    RenderState {
                        in_code: false,
                        language: None,
                        pieces: st.pieces.push(HtmlPieceView::Html(html)),
                        ..st
                    },
                ),
                None => None,
            }
        },
        MarkdownEventView::Text(text) => if st.in_code {
            Some(RenderState { code: st.code + text, ..st })
        } else {
            Some(with_piece(st, HtmlPieceView::Keep(i)))
        },
        MarkdownEventView::ImageStart(url) => Some(
            RenderState {
                skip_image: true,
                ..with_piece(
                    st,
                    HtmlPieceView::Html(
                        centered_image(url, unicode_lowercase(after_last_dot(url))),
                    ),
                )
            },
        ),
        MarkdownEventView::ImageEnd => if st.skip_image {
            Some(RenderState { skip_image: false, ..st })
        } else {
            Some(RenderState { skip_image: false, ..with_piece(st, HtmlPieceView::Keep(i)) })
        },
        MarkdownEventView::InlineMath(expr) => Some(
            with_piece(st, HtmlPieceView::InlineHtml(inline_math_html(expr))),
        ),
        MarkdownEventView::DisplayMath(expr) => Some(
            with_piece(st, HtmlPieceView::Html(display_math_html(expr))),
        ),
        MarkdownEventView::Other => Some(with_piece(st, HtmlPieceView::Keep(i))),
    }
}

/// The state after the first `n` events.
pub open spec fn render_prefix(theme: Seq<char>, evs: Seq<MarkdownEventView>, n: nat) -> Option<
    RenderState,
>
    decreases n,
{
    if n == 0 {
        Some(initial_render_state())
    } else {
        match render_prefix(theme, evs, (n - 1) as nat) {
            Some(st) => render_step(theme, st, evs[n - 1], (n - 1) as usize),
            None => None,
        }
    }
}

/// The rendered stream of `evs`, or `None` when a code block cannot be
/// highlighted.
pub open spec fn rendered_pieces(theme: Seq<char>, evs: Seq<MarkdownEventView>) -> Option<
    Seq<HtmlPieceView>,
> {
    match render_prefix(theme, evs, evs.len()) {
        Some(st) => Some(st.pieces),
        None => None,
    }
}

proof fn lemma_render_stays_failed(theme: Seq<char>, evs: Seq<MarkdownEventView>, n: nat, m: nat)
    requires
        n <= m,
        render_prefix(theme, evs, n) is None,
    ensures
        render_prefix(theme, evs, m) is None,
    decreases m - n,
{
    if n < m {
        lemma_render_stays_failed(theme, evs, n, (m - 1) as nat);
    }
}

/// Rendering fails only at the end of a code block: a stream without code
/// blocks always renders, whatever its math (KaTeX's rejections fall back to
/// the raw expression) or images.
pub proof fn law_only_code_blocks_can_fail(theme: Seq<char>, evs: Seq<MarkdownEventView>, n: nat)
    requires
        n <= evs.len(),
        forall|i: int| 0 <= i < n ==> !(#[trigger] evs[i] is CodeBlockEnd),
    ensures
        render_prefix(theme, evs, n) is Some,
    decreases n,
{
    if n > 0 {
        law_only_code_blocks_can_fail(theme, evs, (n - 1) as nat);
        assert(!(evs[n - 1] is CodeBlockEnd));
    }
}

/// Markdown with no code, images or math renders exactly as the parser gave
/// it: every event is kept, in order.
pub proof fn law_plain_events_pass_through(theme: Seq<char>, evs: Seq<MarkdownEventView>, n: nat)
    requires
        n <= evs.len(),
        n <= usize::MAX + 1,
        forall|i: int|
            0 <= i < n ==> (#[trigger] evs[i] is Other || evs[i] is Text),
    ensures
        render_prefix(theme, evs, n) == Some(
            RenderState {
                pieces: Seq::new(n, |i: int| HtmlPieceView::Keep(i as usize)),
                ..initial_render_state()
            },
        ),
    decreases n,
{
    if n > 0 {
        law_plain_events_pass_through(theme, evs, (n - 1) as nat);
        assert(evs[n - 1] is Other || evs[n - 1] is Text);
        let prev = Seq::new((n - 1) as nat, |i: int| HtmlPieceView::Keep(i as usize));
        assert(prev.push(HtmlPieceView::Keep((n - 1) as usize)) =~= Seq::new(
            n,
            |i: int| HtmlPieceView::Keep(i as usize),
        ));
    } else {
        assert(Seq::new(0, |i: int| HtmlPieceView::Keep(i as usize)) =~= Seq::<HtmlPieceView>::empty());
    }
}

/// The text of the `Text` events among `evs[from..to]`, in order.
pub open spec fn code_text(evs: Seq<MarkdownEventView>, from: int, to: int) -> Seq<char>
    decreases to - from,
{
    if to <= from {
        Seq::empty()
    } else {
        code_text(evs, from, to - 1) + match evs[to - 1] {
            MarkdownEventView::Text(t) => t,
            _ => Seq::empty(),
        }
    }
}

/// The language a code block is highlighted in: the first word of its info
/// string, or plain text without one.
pub open spec fn block_language(info: Option<Seq<char>>) -> Seq<char> {
    match info {
        Some(text) => first_word(text),
        None => "plaintext"@,
    }
}

proof fn lemma_inside_code_block(theme: Seq<char>, evs: Seq<MarkdownEventView>, s: nat, k: nat)
    requires
        s < k <= evs.len(),
        evs[s as int] is CodeBlockStart,
        forall|j: int| s < j < k ==> !(#[trigger] evs[j] is CodeBlockStart) && !(evs[j] is CodeBlockEnd),
        render_prefix(theme, evs, k) is Some,
    ensures
        ({
            let st = render_prefix(theme, evs, k)->0;
            &&& st.in_code
            &&& block_language(evs[s as int]->CodeBlockStart_0) == match st.language {
                Some(l) => l,
                None => "plaintext"@,
            }
            &&& st.code == code_text(evs, s + 1 as int, k as int)
        }),
    decreases k,
{
    if k == s + 1 {
        assert(render_prefix(theme, evs, s) is Some) by {
            if render_prefix(theme, evs, s) is None {
                lemma_render_stays_failed(theme, evs, s, k);
            }
        }
    } else {
        assert(render_prefix(theme, evs, (k - 1) as nat) is Some) by {
            if render_prefix(theme, evs, (k - 1) as nat) is None {
                lemma_render_stays_failed(theme, evs, (k - 1) as nat, k);
            }
        }
        lemma_inside_code_block(theme, evs, s, (k - 1) as nat);
        assert(!(evs[k - 1] is CodeBlockStart) && !(evs[k - 1] is CodeBlockEnd));
    }
}

/// Each code block is highlighted from its own text only: where a block opens at
/// event `s` and closes at event `e`, the piece written at `e` is the
/// highlighting, in the language of the block's info string, of exactly the text
/// between the two; text of earlier blocks plays no part.
pub proof fn law_code_block_is_highlighted_from_its_own_text(
    theme: Seq<char>,
    evs: Seq<MarkdownEventView>,
    s: nat,
    e: nat,
)
    requires
        s < e < evs.len(),
        evs[s as int] is CodeBlockStart,
        evs[e as int] is CodeBlockEnd,
        forall|j: int| s < j < e ==> !(#[trigger] evs[j] is CodeBlockStart) && !(evs[j] is CodeBlockEnd),
        render_prefix(theme, evs, e + 1) is Some,
    ensures
        highlighted_block(theme, block_language(evs[s as int]->CodeBlockStart_0), code_text(evs, s + 1 as int, e as int))
            is Some,
        render_prefix(theme, evs, e + 1)->0.pieces.last() == HtmlPieceView::Html(
            highlighted_block(theme, block_language(evs[s as int]->CodeBlockStart_0), code_text(evs, s + 1 as int, e as int))->0,
        ),
{
    assert(render_prefix(theme, evs, e) is Some) by {
        if render_prefix(theme, evs, e) is None {
            lemma_render_stays_failed(theme, evs, e, e + 1);
        }
    }
    lemma_inside_code_block(theme, evs, s, e);
}

/// Every kept index names one of the first `n` events.
pub open spec fn keeps_below(pieces: Seq<HtmlPieceView>, n: nat) -> bool {
    forall|k: int|
        0 <= k < pieces.len() ==> (#[trigger] pieces[k] matches HtmlPieceView::Keep(i) ==> i < n)
}

proof fn lemma_step_keeps_below(theme: Seq<char>, st: RenderState, ev: MarkdownEventView, i: usize)
    requires
        keeps_below(st.pieces, i as nat),
        render_step(theme, st, ev, i) is Some,
    ensures
        keeps_below(render_step(theme, st, ev, i)->0.pieces, (i + 1) as nat),
{
    let next = render_step(theme, st, ev, i)->0;
    assert forall|k: int| 0 <= k < next.pieces.len() implies (#[trigger] next.pieces[k] matches HtmlPieceView::Keep(j) ==> j < i + 1) by {
        if k < st.pieces.len() {
            assert(next.pieces[k] == st.pieces[k]);
        }
    }
}

/// The walk over the parsed events, as far as it has come.
pub struct RenderProgress {
    pub in_code: bool,
    pub language: Option<String>,
    pub code: String,
    pub skip_image: bool,
    pub pieces: Vec<HtmlPiece>,
}

impl View for RenderProgress {
    type V = RenderState;

    open spec fn view(&self) -> RenderState {
        RenderState {
            in_code: self.in_code,
            language: self.language.deep_view(),
            code: self.code@,
            skip_image: self.skip_image,
            pieces: pieces_view(self.pieces@),
        }
    }
}

impl RenderProgress {
    /// The walk before the first event.
    pub fn new() -> (progress: Self)
        ensures
            progress@ == initial_render_state(),
    {
        let progress = RenderProgress {
            in_code: false,
            language: None,
            code: String::new(),
            skip_image: false,
            pieces: Vec::new(),
        };
        assert(pieces_view(progress.pieces@) =~= Seq::<HtmlPieceView>::empty());
        progress
    }

    /// Takes event `i`, which is `ev`; `false`, with nothing changed, when it
    /// closes a code block that cannot be highlighted.
    pub fn advance(&mut self, h: &Highlighter, ev: MarkdownEvent, i: usize) -> (ok: bool)
        ensures
            match render_step(h.theme(), old(self)@, ev@, i) {
                Some(st) => ok && final(self)@ == st,
                None => !ok && final(self)@ == old(self)@,
            },
    {
        let ghost before = self.pieces@;
        match ev {
            MarkdownEvent::CodeBlockStart(info) => {
                self.in_code = true;
                self.code = String::new();
                self.language = match info {
                    Some(text) => Some(first_word_of(&text)),
                    None => None,
                };
            },
            MarkdownEvent::CodeBlockEnd => {
                let highlighted = match &self.language {
                    Some(l) => highlight_code_block(h, &self.code, l.as_str()),
                    None => highlight_code_block(h, &self.code, "plaintext"),
                };
                match highlighted {
                    Some(html) => {
                        self.pieces.push(HtmlPiece::Html(html));
                    },
                    None => {
                        return false;
                    },
                }
                self.in_code = false;
                self.language = None;
            },
            MarkdownEvent::Text(text) => {
                if self.in_code {
                    self.code.push_str(&text);
                } else {
                    self.pieces.push(HtmlPiece::Keep(i));
                }
            },
            MarkdownEvent::ImageStart(url) => {
                let format = to_lowercase(&extension_of(&url));
                self.pieces.push(HtmlPiece::Html(center_image_html(&url, &format)));
                self.skip_image = true;
            },
            MarkdownEvent::ImageEnd => {
                if !self.skip_image {
                    self.pieces.push(HtmlPiece::Keep(i));
                }
                self.skip_image = false;
            },
            MarkdownEvent::InlineMath(expr) => {
                self.pieces.push(HtmlPiece::InlineHtml(inline_math(&expr)));
            },
            MarkdownEvent::DisplayMath(expr) => {
                self.pieces.push(HtmlPiece::Html(display_math(&expr)));
            },
            MarkdownEvent::Other => {
                self.pieces.push(HtmlPiece::Keep(i));
            },
        }
        proof {
            if self.pieces@.len() > before.len() {
                assert(self.pieces@ == before.push(self.pieces@.last()));
                assert(pieces_view(self.pieces@) =~= pieces_view(before).push(
                    self.pieces@.last()@,
                ));
            } else {
                assert(self.pieces@ == before);
            }
        }
        true
    }
}

/// Walks the parsed events and writes the stream to render.
fn render_events(h: &Highlighter, parsed: &ParsedMarkdown) -> (pieces: Option<Vec<HtmlPiece>>)
    requires
        parsed.len() == markdown_event_count(parsed.source(), parsed.extensions()),
    ensures
        match pieces {
            Some(v) => rendered_pieces(h.theme(), markdown_events(parsed.source(), parsed.extensions()))
                == Some(pieces_view(v@)) && keeps_below(pieces_view(v@), parsed.len()),
            None => rendered_pieces(
                h.theme(),
                markdown_events(parsed.source(), parsed.extensions()),
            ) is None,
        },
{
    let ghost theme = h.theme();
    let ghost evs = markdown_events(parsed.source(), parsed.extensions());
    let n = parsed.event_count();
    let mut progress = RenderProgress::new();
    let mut i: usize = 0;
    while i < n
        invariant
            n == parsed.len(),
            evs == markdown_events(parsed.source(), parsed.extensions()),
            evs.len() == n,
            theme == h.theme(),
            i <= n,
            render_prefix(theme, evs, i as nat) == Some(progress@),
            keeps_below(progress@.pieces, i as nat),
        decreases n - i,
    {
        let ev = event_at(parsed, i);
        assert(evs[i as int] == ev@);
        let ghost st = progress@;
        if !progress.advance(h, ev, i) {
            proof {
                lemma_render_stays_failed(theme, evs, (i + 1) as nat, evs.len());
            }
            return None;
        }
        proof {
            lemma_step_keeps_below(theme, st, evs[i as int], i);
        }
        i = i + 1;
    }
    assert(render_prefix(theme, evs, evs.len()) == render_prefix(theme, evs, n as nat));
    Some(progress.pieces)
}

/// The extensions Markdown posts are parsed with.
pub open spec fn post_extensions() -> Seq<MarkdownExtension> {
    seq![
        MarkdownExtension::Tables,
        MarkdownExtension::TaskLists,
        MarkdownExtension::Strikethrough,
        MarkdownExtension::Math,
    ]
}

fn post_extension_list() -> (v: Vec<MarkdownExtension>)
    ensures
        v@ == post_extensions(),
{
    let v = vec![
        MarkdownExtension::Tables,
        MarkdownExtension::TaskLists,
        MarkdownExtension::Strikethrough,
        MarkdownExtension::Math,
    ];
    assert(v@ =~= post_extensions());
    v
}

/// Why a post could not be rendered.
#[derive(Debug, Clone, Copy, PartialEq, Eq, Structural)]
pub enum MarkdownError {
    /// The code theme is not among syntect's defaults.
    MissingTheme,
    /// Syntect failed on a line of a code block.
    Highlighting,
}

/// What rendering `markdown` gives: images centred first, then the events of
/// the result walked as `render_step` says and serialised by pulldown-cmark.
pub open spec fn markdown_outcome(markdown: Seq<char>) -> Result<Seq<char>, MarkdownError> {
    if !syntect_has_theme(CODE_THEME@) {
        Err(MarkdownError::MissingTheme)
    } else {
        let source = images_centered(markdown);
        match rendered_pieces(CODE_THEME@, markdown_events(source, post_extensions())) {
            Some(pieces) => Ok(markdown_html(source, post_extensions(), pieces)),
            None => Err(MarkdownError::Highlighting),
        }
    }
}

/// Renders a Markdown post to HTML.
pub fn process_markdown(markdown: &str) -> (html: Result<String, MarkdownError>)
    ensures
        match html {
            Ok(h) => markdown_outcome(markdown@) == Ok::<Seq<char>, MarkdownError>(h@),
            Err(e) => markdown_outcome(markdown@) == Err::<Seq<char>, MarkdownError>(e),
        },
{
    let h = match load_highlighter(CODE_THEME) {
        Some(h) => h,
        None => {
            return Err(MarkdownError::MissingTheme);
        },
    };
    let source = preprocess_images(markdown);
    let extensions = post_extension_list();
    let parsed = parse_markdown(&source, &extensions);
    match render_events(&h, &parsed) {
        Some(pieces) => Ok(render_pieces(parsed, pieces)),
        None => Err(MarkdownError::Highlighting),
    }
}

} // verus!
