//! What the pages compute from post data before rendering it: date labels,
//! the table of contents of a post, archive groups, and small view choices.

use vstd::prelude::*;

use crate::text::{
    all_chars, ascii_digit, before_first, char_width, chars_of, is_ascii_digit, lemma_before_first,
    lemma_utf8_len_push, lemma_utf8_len_subrange, matches_at, occurs_at, owned, slice_chars, str_eq,
    string_from, trim, trim_chars, utf8_len, width_of,
};

verus! {

broadcast use vstd::string::group_string_axioms;

// ---------------------------------------------------------------------------
// Splitting
// ---------------------------------------------------------------------------

/// The pieces of `s` between occurrences of `c`, as `str::split(c)` yields
/// them (one empty piece for an empty `s`).
pub open spec fn split_on(s: Seq<char>, c: char) -> Seq<Seq<char>>
    decreases s.len(),
{
    let head = before_first(s, c);
    if head.len() < s.len() {
        seq![head] + split_on(s.skip(head.len() + 1 as int), c)
    } else {
        seq![s]
    }
}

/// The character sequences of a list of character vectors.
pub open spec fn chars_view(v: Seq<Vec<char>>) -> Seq<Seq<char>> {
    v.map_values(|w: Vec<char>| w@)
}

/// The pieces of `v` between occurrences of `c`.
pub fn split_chars(v: &Vec<char>, c: char) -> (parts: Vec<Vec<char>>)
    ensures
        chars_view(parts@) == split_on(v@, c),
{
    let mut parts: Vec<Vec<char>> = Vec::new();
    let mut start: usize = 0;
    assert(v@.skip(0) =~= v@);
    assert(chars_view(parts@) + split_on(v@, c) =~= split_on(v@, c));
    loop
        invariant
            start <= v.len(),
            chars_view(parts@) + split_on(v@.skip(start as int), c) == split_on(v@, c),
        decreases v.len() - start,
    {
        let mut k: usize = start;
        while k < v.len() && v[k] != c
            invariant
                start <= k <= v.len(),
                forall|j: int| start <= j < k ==> v@[j] != c,
            decreases v.len() - k,
        {
            k = k + 1;
        }
        let ghost rest = v@.skip(start as int);
        proof {
            assert forall|j: int| 0 <= j < k - start implies rest[j] != c by {
                assert(rest[j] == v@[start + j]);
            }
            if k < v.len() {
                assert(rest[k - start] == v@[k as int]);
            }
            lemma_before_first(rest, c, k - start);
            assert(rest.take(k - start) =~= v@.subrange(start as int, k as int));
        }
        let ghost old_parts = chars_view(parts@);
        let piece = slice_chars(v, start, k);
        parts.push(piece);
        assert(chars_view(parts@) =~= old_parts.push(v@.subrange(start as int, k as int)));
        if k < v.len() {
            assert(rest.skip(k - start + 1) =~= v@.skip(k + 1));
            assert(chars_view(parts@) + split_on(v@.skip(k + 1), c) =~= old_parts + split_on(rest, c));
            start = k + 1;
        } else {
            assert(rest =~= v@.subrange(start as int, k as int));
            assert(chars_view(parts@) =~= old_parts + split_on(rest, c));
            return parts;
        }
    }
}

/// Whether every character of `v` is an ASCII digit.
pub fn all_ascii_digits(v: &Vec<char>) -> (b: bool)
    ensures
        b == all_chars(v@, |c: char| is_ascii_digit(c)),
{
    let mut i: usize = 0;
    while i < v.len()
        invariant
            i <= v.len(),
            forall|k: int| 0 <= k < i ==> is_ascii_digit(#[trigger] v@[k]),
        decreases v.len() - i,
    {
        if !ascii_digit(v[i]) {
            assert(!(|c: char| is_ascii_digit(c))(v@[i as int]));
            return false;
        }
        i = i + 1;
    }
    true
}

/// `s` without its leading `'0'`s, as `trim_start_matches('0')`.
pub open spec fn without_leading_zeros(s: Seq<char>) -> Seq<char>
    decreases s.len(),
{
    if s.len() > 0 && s[0] == '0' {
        without_leading_zeros(s.drop_first())
    } else {
        s
    }
}

/// `v` without its leading `'0'`s.
pub fn strip_leading_zeros(v: &Vec<char>) -> (r: Vec<char>)
    ensures
        r@ == without_leading_zeros(v@),
{
    let mut i: usize = 0;
    assert(v@.skip(0) =~= v@);
    while i < v.len() && v[i] == '0'
        invariant
            i <= v.len(),
            without_leading_zeros(v@.skip(i as int)) == without_leading_zeros(v@),
        decreases v.len() - i,
    {
        assert(v@.skip(i as int).drop_first() =~= v@.skip(i + 1));
        i = i + 1;
    }
    let r = slice_chars(v, i, v.len());
    assert(r@ =~= v@.skip(i as int));
    r
}

// ---------------------------------------------------------------------------
// Months
// ---------------------------------------------------------------------------

/// The full English name of a two-digit month number.
pub open spec fn month_long_name(m: Seq<char>) -> Option<Seq<char>> {
    if m == "01"@ {
        Some("January"@)
    } else if m == "02"@ {
        Some("February"@)
    } else if m == "03"@ {
        Some("March"@)
    } else if m == "04"@ {
        Some("April"@)
    } else if m == "05"@ {
        Some("May"@)
    } else if m == "06"@ {
        Some("June"@)
    } else if m == "07"@ {
        Some("July"@)
    } else if m == "08"@ {
        Some("August"@)
    } else if m == "09"@ {
        Some("September"@)
    } else if m == "10"@ {
        Some("October"@)
    } else if m == "11"@ {
        Some("November"@)
    } else if m == "12"@ {
        Some("December"@)
    } else {
        None
    }
}

/// The upper-case three-letter abbreviation of a two-digit month number.
pub open spec fn month_abbr_name(m: Seq<char>) -> Option<Seq<char>> {
    if m == "01"@ {
        Some("JAN"@)
    } else if m == "02"@ {
        Some("FEB"@)
    } else if m == "03"@ {
        Some("MAR"@)
    } else if m == "04"@ {
        Some("APR"@)
    } else if m == "05"@ {
        Some("MAY"@)
    } else if m == "06"@ {
        Some("JUN"@)
    } else if m == "07"@ {
        Some("JUL"@)
    } else if m == "08"@ {
        Some("AUG"@)
    } else if m == "09"@ {
        Some("SEP"@)
    } else if m == "10"@ {
        Some("OCT"@)
    } else if m == "11"@ {
        Some("NOV"@)
    } else if m == "12"@ {
        Some("DEC"@)
    } else {
        None
    }
}

/// The full name of month `month_num` ("01" to "12").
pub fn month_long(month_num: &str) -> (name: Option<&'static str>)
    ensures
        name.deep_view() == month_long_name(month_num@),
{
    if str_eq(month_num, "01") {
        Some("January")
    } else if str_eq(month_num, "02") {
        Some("February")
    } else if str_eq(month_num, "03") {
        Some("March")
    } else if str_eq(month_num, "04") {
        Some("April")
    } else if str_eq(month_num, "05") {
        Some("May")
    } else if str_eq(month_num, "06") {
        Some("June")
    } else if str_eq(month_num, "07") {
        Some("July")
    } else if str_eq(month_num, "08") {
        Some("August")
    } else if str_eq(month_num, "09") {
        Some("September")
    } else if str_eq(month_num, "10") {
        Some("October")
    } else if str_eq(month_num, "11") {
        Some("November")
    } else if str_eq(month_num, "12") {
        Some("December")
    } else {
        None
    }
}

/// The three-letter abbreviation of month `month_num` ("01" to "12").
pub fn month_abbr(month_num: &str) -> (name: Option<&'static str>)
    ensures
        name.deep_view() == month_abbr_name(month_num@),
{
    if str_eq(month_num, "01") {
        Some("JAN")
    } else if str_eq(month_num, "02") {
        Some("FEB")
    } else if str_eq(month_num, "03") {
        Some("MAR")
    } else if str_eq(month_num, "04") {
        Some("APR")
    } else if str_eq(month_num, "05") {
        Some("MAY")
    } else if str_eq(month_num, "06") {
        Some("JUN")
    } else if str_eq(month_num, "07") {
        Some("JUL")
    } else if str_eq(month_num, "08") {
        Some("AUG")
    } else if str_eq(month_num, "09") {
        Some("SEP")
    } else if str_eq(month_num, "10") {
        Some("OCT")
    } else if str_eq(month_num, "11") {
        Some("NOV")
    } else if str_eq(month_num, "12") {
        Some("DEC")
    } else {
        None
    }
}

// ---------------------------------------------------------------------------
// Date labels
// ---------------------------------------------------------------------------

/// The `-`-separated pieces of the date part (before any `T`) of a time.
pub open spec fn date_fields(created_at: Seq<char>) -> Seq<Seq<char>> {
    split_on(before_first(created_at, 'T'), '-')
}

/// A four-digit year (four ASCII digits, hence four bytes too).
pub open spec fn is_year(s: Seq<char>) -> bool {
    s.len() == 4 && all_chars(s, |c: char| is_ascii_digit(c))
}

/// The kicker, day line and year line above a post's title: "PUBLISHED",
/// "April 29," and "2026" for "2026-04-29"; an unknown month number is shown
/// as it is, and a time that is not `YYYY-MM-DD` shape is shown whole.
pub open spec fn post_date_lines(created_at: Seq<char>) -> (Seq<char>, Seq<char>, Seq<char>) {
    let parts = date_fields(created_at);
    if parts.len() == 3 && is_year(parts[0]) && all_chars(parts[2], |c: char| is_ascii_digit(c)) {
        let month = match month_long_name(parts[1]) {
            Some(name) => name,
            None => parts[1],
        };
        (
            "PUBLISHED"@,
            month + seq![' '] + without_leading_zeros(parts[2]) + seq![','],
            parts[0],
        )
    } else {
        ("PUBLISHED"@, created_at, Seq::empty())
    }
}

/// The date lines of a post page.
pub fn format_post_date(created_at: &str) -> (lines: (String, String, String))
    ensures
        (lines.0@, lines.1@, lines.2@) == post_date_lines(created_at@),
{
    let v = chars_of(created_at);
    let date_part = crate::text::prefix_before(&v, 'T');
    let parts = split_chars(&date_part, '-');
    assert(chars_view(parts@) == date_fields(created_at@));
    if parts.len() == 3 && parts[0].len() == 4 && all_ascii_digits(&parts[0]) && all_ascii_digits(
        &parts[2],
    ) {
        assert(chars_view(parts@)[0] == parts@[0]@);
        assert(chars_view(parts@)[1] == parts@[1]@);
        assert(chars_view(parts@)[2] == parts@[2]@);
        let month_text = string_from(&parts[1]);
        let mut day_line = String::new();
        match month_long(month_text.as_str()) {
            Some(name) => day_line.push_str(name),
            None => day_line.push_str(month_text.as_str()),
        }
        day_line.push(' ');
        let day = strip_leading_zeros(&parts[2]);
        crate::text::push_chars(&mut day_line, &day);
        day_line.push(',');
        (owned("PUBLISHED"), day_line, string_from(&parts[0]))
    } else {
        (owned("PUBLISHED"), owned(created_at), String::new())
    }
}

/// The kicker, day and meta line of a post's date stamp: the day without
/// leading zeros and "APR 2026" for "2026-04-29" (the kicker is "MOST RECENT"
/// for the featured post, else "POSTED"); a time that is not `YYYY-MM-DD`
/// with a known month and a one- or two-digit day gets "·" and the raw time.
pub open spec fn date_stamp_pieces(created_at: Seq<char>, featured: bool) -> (
    Seq<char>,
    Seq<char>,
    Seq<char>,
) {
    let kicker = if featured {
        "MOST RECENT"@
    } else {
        "POSTED"@
    };
    let parts = date_fields(created_at);
    if parts.len() == 3 && is_year(parts[0]) && all_chars(parts[2], |c: char| is_ascii_digit(c))
        && parts[2].len() > 0 && parts[2].len() <= 2 && month_abbr_name(parts[1]) is Some {
        (
            kicker,
            without_leading_zeros(parts[2]),
            month_abbr_name(parts[1])->0 + seq![' '] + parts[0],
        )
    } else {
        (kicker, "·"@, created_at)
    }
}

/// The pieces of a post's date stamp.
pub fn parse_date_pieces(created_at: &str, featured: bool) -> (pieces: (String, String, String))
    ensures
        (pieces.0@, pieces.1@, pieces.2@) == date_stamp_pieces(created_at@, featured),
{
    let kicker = if featured {
        owned("MOST RECENT")
    } else {
        owned("POSTED")
    };
    let v = chars_of(created_at);
    let date_part = crate::text::prefix_before(&v, 'T');
    let parts = split_chars(&date_part, '-');
    assert(chars_view(parts@) == date_fields(created_at@));
    if parts.len() == 3 && parts[0].len() == 4 && all_ascii_digits(&parts[0]) && all_ascii_digits(
        &parts[2],
    ) && parts[2].len() > 0 && parts[2].len() <= 2 {
        assert(chars_view(parts@)[0] == parts@[0]@);
        assert(chars_view(parts@)[1] == parts@[1]@);
        assert(chars_view(parts@)[2] == parts@[2]@);
        let month_text = string_from(&parts[1]);
        if let Some(name) = month_abbr(month_text.as_str()) {
            let day = string_from(&strip_leading_zeros(&parts[2]));
            let mut meta = owned(name);
            meta.push(' ');
            crate::text::push_chars(&mut meta, &parts[0]);
            return (kicker, day, meta);
        }
    }
    (kicker, owned("·"), owned(created_at))
}

// ---------------------------------------------------------------------------
// Table of contents
// ---------------------------------------------------------------------------

/// One heading entry in the table of contents.
#[derive(Clone, Debug, PartialEq, Eq)]
pub struct TocHeading {
    /// Heading level (2 = h2, 3 = h3). Only h2 is listed.
    pub level: u8,
    /// Display text of the heading.
    pub text: String,
    /// Anchor id (without `#` prefix).
    pub anchor: String,
}

pub struct TocHeadingView {
    pub level: u8,
    pub text: Seq<char>,
    pub anchor: Seq<char>,
}

impl View for TocHeading {
    type V = TocHeadingView;

    open spec fn view(&self) -> TocHeadingView {
        TocHeadingView { level: self.level, text: self.text@, anchor: self.anchor@ }
    }
}

pub open spec fn headings_view(hs: Seq<TocHeading>) -> Seq<TocHeadingView> {
    hs.map_values(|h: TocHeading| h@)
}

/// Minimum number of headings a post needs for a table of contents.
pub const TOC_MIN_HEADINGS: usize = 4;

/// The level-2 headings among `hs`, in order.
pub open spec fn level_two(hs: Seq<TocHeadingView>) -> Seq<TocHeadingView>
    decreases hs.len(),
{
    if hs.len() == 0 {
        Seq::empty()
    } else if hs.last().level == 2 {
        level_two(hs.drop_last()).push(hs.last())
    } else {
        level_two(hs.drop_last())
    }
}

/// The entries the table of contents lists: none for a post with fewer than
/// `TOC_MIN_HEADINGS` headings, else its level-2 headings.
pub open spec fn toc_listing(hs: Seq<TocHeadingView>) -> Seq<TocHeadingView> {
    if hs.len() < TOC_MIN_HEADINGS {
        Seq::empty()
    } else {
        level_two(hs)
    }
}

/// The level-2 headings are kept as they are, text and anchor included, in their
/// order; every other heading is left out.
pub proof fn law_level_two_is_a_filter(hs: Seq<TocHeadingView>)
    ensures
        level_two(hs) == hs.filter(|h: TocHeadingView| h.level == 2),
    decreases hs.len(),
{
    reveal_with_fuel(Seq::filter, 1);
    if hs.len() > 0 {
        law_level_two_is_a_filter(hs.drop_last());
    }
}

/// The table of contents lists nothing for a post with fewer than
/// `TOC_MIN_HEADINGS` headings; otherwise it lists each level-2 heading
/// unchanged, in order.
pub proof fn law_toc_lists_headings_unchanged(hs: Seq<TocHeadingView>)
    ensures
        hs.len() < TOC_MIN_HEADINGS ==> toc_listing(hs).len() == 0,
        hs.len() >= TOC_MIN_HEADINGS ==> toc_listing(hs) == hs.filter(|h: TocHeadingView| h.level == 2),
{
    law_level_two_is_a_filter(hs);
}

/// The entries of the table of contents of a post with these headings.
pub fn toc_entries(headings: Vec<TocHeading>) -> (entries: Vec<TocHeading>)
    ensures
        headings_view(entries@) == toc_listing(headings_view(headings@)),
{
    let mut entries: Vec<TocHeading> = Vec::new();
    if headings.len() < TOC_MIN_HEADINGS {
        assert(headings_view(entries@) =~= Seq::<TocHeadingView>::empty());
        return entries;
    }
    let ghost hv = headings_view(headings@);
    let mut rest = headings;
    let mut taken: Vec<TocHeading> = Vec::new();
    let mut i: usize = 0;
    let n = rest.len();
    assert(headings_view(entries@) =~= level_two(hv.take(0)));
    while i < n
        invariant
            n == hv.len(),
            i <= n,
            headings_view(rest@) == hv,
            headings_view(entries@) == level_two(hv.take(i as int)),
        decreases n - i,
    {
        let h = rest[i].clone();
        assert(hv[i as int] == rest@[i as int]@);
        assert(hv.take(i + 1).drop_last() =~= hv.take(i as int));
        if rest[i].level == 2 {
            let ghost before = entries@;
            entries.push(TocHeading { level: rest[i].level, text: copy_string(&rest[i].text), anchor: copy_string(&rest[i].anchor) });
            assert(headings_view(entries@) =~= headings_view(before).push(hv[i as int]));
        }
        i = i + 1;
    }
    assert(hv.take(n as int) =~= hv);
    entries
}

/// A copy of `s`.
fn copy_string(s: &String) -> (r: String)
    ensures
        r@ == s@,
{
    s.clone()
}

/// `s` with the text between `<` and `>` left out; `in_tag` is whether the
/// walk ends inside a tag.
pub open spec fn untagged(s: Seq<char>) -> (Seq<char>, bool)
    decreases s.len(),
{
    if s.len() == 0 {
        (Seq::empty(), false)
    } else {
        let (out, in_tag) = untagged(s.drop_last());
        let c = s.last();
        if c == '<' {
            (out, true)
        } else if c == '>' {
            (out, false)
        } else if !in_tag {
            (out.push(c), in_tag)
        } else {
            (out, in_tag)
        }
    }
}

/// The text of a heading: tags left out, then trimmed.
pub open spec fn stripped_text(s: Seq<char>) -> Seq<char> {
    trim(untagged(s).0)
}

/// Crude tag stripper for headings (handles `<em>foo</em>` and similar).
pub fn strip_html_tags(s: &str) -> (out: String)
    ensures
        out@ == stripped_text(s@),
{
    let v = chars_of(s);
    let mut out: Vec<char> = Vec::new();
    let mut in_tag = false;
    let mut i: usize = 0;
    while i < v.len()
        invariant
            i <= v.len(),
            (out@, in_tag) == untagged(v@.take(i as int)),
        decreases v.len() - i,
    {
        let c = v[i];
        assert(v@.take(i + 1).drop_last() =~= v@.take(i as int));
        if c == '<' {
            in_tag = true;
        } else if c == '>' {
            in_tag = false;
        } else if !in_tag {
            out.push(c);
        }
        i = i + 1;
    }
    assert(v@.take(i as int) =~= v@);
    string_from(&trim_chars(&out))
}

/// How far past `from` the first occurrence of the non-empty pattern `p` in
/// `s` at or after `from` lies, if there is one.
pub open spec fn find_from(s: Seq<char>, p: Seq<char>, from: int) -> Option<nat>
    decreases s.len() - from,
{
    if from < 0 || from >= s.len() || from + p.len() > s.len() {
        None
    } else if occurs_at(s, p, from) {
        Some(0)
    } else {
        match find_from(s, p, from + 1) {
            Some(d) => Some(d + 1),
            None => None,
        }
    }
}

pub proof fn lemma_find_from_bound(s: Seq<char>, p: Seq<char>, from: int)
    ensures
        find_from(s, p, from) matches Some(d) ==> from >= 0 && from + d + p.len() <= s.len(),
    decreases s.len() - from,
{
    if !(from < 0 || from >= s.len() || from + p.len() > s.len()) && !occurs_at(s, p, from) {
        lemma_find_from_bound(s, p, from + 1);
    }
}

/// The distance from `from` to the next occurrence of `p` in `v`.
pub fn find_from_exec(v: &Vec<char>, p: &Vec<char>, from: usize) -> (r: Option<usize>)
    requires
        from <= v.len(),
    ensures
        match r {
            Some(d) => find_from(v@, p@, from as int) == Some(d as nat) && from + d + p.len()
                <= v.len(),
            None => find_from(v@, p@, from as int) is None,
        },
{
    proof {
        lemma_find_from_bound(v@, p@, from as int);
    }
    let mut k: usize = from;
    while k < v.len() && p.len() <= v.len() - k
        invariant
            from <= k <= v.len(),
            find_from(v@, p@, from as int) == match find_from(v@, p@, k as int) {
                Some(d) => Some((d + (k - from)) as nat),
                None => None::<nat>,
            },
        decreases v.len() - k,
    {
        if matches_at(v, p, k) {
            return Some(k - from);
        }
        k = k + 1;
    }
    None
}

/// Whether the encoding of `v[from..]` has at least `n` bytes.
fn has_bytes_left(v: &Vec<char>, from: usize, n: usize) -> (b: bool)
    requires
        from <= v.len(),
        n <= 1024,
    ensures
        b == (utf8_len(v@.skip(from as int)) >= n),
{
    let ghost rest = v@.skip(from as int);
    let mut sum: usize = 0;
    let mut j: usize = from;
    while j < v.len() && sum < n
        invariant
            from <= j <= v.len(),
            rest == v@.skip(from as int),
            n <= 1024,
            sum == utf8_len(rest.take(j - from)),
            sum < n + 4,
        decreases v.len() - j,
    {
        proof {
            assert(rest.take(j - from + 1) =~= rest.take(j - from).push(v@[j as int]));
            lemma_utf8_len_push(rest.take(j - from), v@[j as int]);
            crate::text::lemma_char_width_bounds(v@[j as int]);
        }
        sum = sum + width_of(v[j]);
        j = j + 1;
    }
    proof {
        if j == v.len() {
            assert(rest.take(j - from) =~= rest);
        } else {
            lemma_utf8_len_subrange(rest, 0, j - from);
            assert(rest.take(j - from) =~= rest.subrange(0, j - from));
        }
    }
    sum >= n
}

/// The position of the `>` that closes the opening tag of the `<h2` at `c`: the
/// first `>` after `<h2`.
pub open spec fn h2_tag_end(s: Seq<char>, c: int) -> Option<int> {
    match find_from(s, ">"@, c + 3) {
        Some(d) => Some(c + 3 + d),
        None => None,
    }
}

/// The anchor of the `<h2` at `c` whose opening tag ends at `close`: what follows
/// the first `id="` inside the tag, up to the next `"`, wherever that is.
pub open spec fn h2_anchor(s: Seq<char>, c: int, close: int) -> Option<Seq<char>> {
    match find_from(s.subrange(c + 3, close), "id=\""@, 0) {
        Some(p) => match find_from(s, "\""@, c + 3 + p + 4) {
            Some(e) => Some(s.subrange(c + 3 + p + 4, c + 3 + p + 4 + e)),
            None => None,
        },
        None => None,
    }
}

/// The heading whose opening tag ends at `close`: its text runs to the next
/// `</h2>`, where the search for the next heading resumes. `None` when no
/// `</h2>` follows.
pub open spec fn h2_text_end(s: Seq<char>, close: int) -> Option<int> {
    match find_from(s, "</h2>"@, close + 1) {
        Some(e) => Some(close + 1 + e),
        None => None,
    }
}

/// The heading listed for the `<h2` at `c` (none without an anchor), and where
/// the search goes on; `None` when its tag or its text is never closed.
pub open spec fn h2_at(s: Seq<char>, c: int) -> Option<(Option<TocHeadingView>, int)> {
    match h2_tag_end(s, c) {
        None => None,
        Some(close) => match h2_text_end(s, close) {
            None => None,
            Some(end) => Some(
                (
                    match h2_anchor(s, c, close) {
                        Some(a) => Some(
                            TocHeadingView { level: 2, text: stripped_text(s.subrange(close + 1, end)), anchor: a },
                        ),
                        None => None,
                    },
                    end + 5,
                ),
            ),
        },
    }
}

/// The headings found in `s` from position `c` on: the heading of each `<h2`
/// that has an anchor, in order, the search going on after each `</h2>`. It
/// ends when fewer than eight bytes are left or a heading is not closed.
pub open spec fn h2_headings_from(s: Seq<char>, c: int) -> Seq<TocHeadingView>
    decreases s.len() - c,
{
    if c < 0 || c >= s.len() || utf8_len(s.skip(c)) < 8 {
        Seq::empty()
    } else if !occurs_at(s, "<h2"@, c) {
        h2_headings_from(s, c + 1)
    } else {
        match h2_at(s, c) {
            None => Seq::empty(),
            Some((h, next)) => {
                proof {
                    lemma_h2_at_advances(s, c);
                }
                match h {
                    Some(heading) => seq![heading] + h2_headings_from(s, next),
                    None => h2_headings_from(s, next),
                }
            },
        }
    }
}

/// The search goes on past the heading it found.
pub proof fn lemma_h2_at_advances(s: Seq<char>, c: int)
    requires
        0 <= c,
    ensures
        h2_at(s, c) is Some ==> c < h2_at(s, c).unwrap().1 <= s.len(),
{
    reveal_strlit("</h2>");
    match h2_tag_end(s, c) {
        Some(close) => {
            lemma_find_from_bound(s, "</h2>"@, close + 1);
        },
        None => {},
    }
}

/// The search for `p` from `from` finds its first occurrence there.
pub proof fn lemma_find_from_first(s: Seq<char>, p: Seq<char>, from: int)
    ensures
        find_from(s, p, from) matches Some(d) ==> occurs_at(s, p, from + d) && forall|j: int|
            from <= j < from + d ==> !#[trigger] occurs_at(s, p, j),
    decreases s.len() - from,
{
    if !(from < 0 || from >= s.len() || from + p.len() > s.len()) && !occurs_at(s, p, from) {
        lemma_find_from_first(s, p, from + 1);
    }
}

/// Tags are left out of a heading's text: no `<` remains.
pub proof fn lemma_untagged_has_no_open_bracket(s: Seq<char>)
    ensures
        forall|i: int| 0 <= i < untagged(s).0.len() ==> #[trigger] untagged(s).0[i] != '<',
    decreases s.len(),
{
    if s.len() > 0 {
        lemma_untagged_has_no_open_bracket(s.drop_last());
        let out = untagged(s.drop_last()).0;
        assert forall|i: int| 0 <= i < untagged(s).0.len() implies #[trigger] untagged(s).0[i] != '<' by {
            if i < out.len() {
                assert(untagged(s).0[i] == out[i]);
            }
        }
    }
}

/// Every heading listed is a level-2 heading whose anchor holds no `"` and
/// whose text holds no `<`.
pub proof fn law_listed_headings_are_clean(s: Seq<char>, c: int)
    ensures
        forall|k: int|
            0 <= k < h2_headings_from(s, c).len() ==> {
                let h = #[trigger] h2_headings_from(s, c)[k];
                &&& h.level == 2
                &&& forall|i: int| 0 <= i < h.anchor.len() ==> h.anchor[i] != '"'
                &&& forall|i: int| 0 <= i < h.text.len() ==> h.text[i] != '<'
            },
    decreases s.len() - c,
{
    if c < 0 || c >= s.len() || utf8_len(s.skip(c)) < 8 {
    } else if !occurs_at(s, "<h2"@, c) {
        law_listed_headings_are_clean(s, c + 1);
        assert(h2_headings_from(s, c) == h2_headings_from(s, c + 1));
    } else {
        match h2_at(s, c) {
            None => {},
            Some((h, next)) => {
                lemma_h2_at_advances(s, c);
                law_listed_headings_are_clean(s, next);
                let rest = h2_headings_from(s, next);
                match h {
                    Some(heading) => {
                        let close = h2_tag_end(s, c).unwrap();
                        let end = h2_text_end(s, close).unwrap();
                        reveal_strlit("\"");
                        reveal_strlit("id=\"");
                        let p = find_from(s.subrange(c + 3, close), "id=\""@, 0).unwrap();
                        let start = c + 3 + p + 4;
                        lemma_find_from_first(s, "\""@, start);
                        lemma_find_from_bound(s, "\""@, start);
                        let e = find_from(s, "\""@, start).unwrap();
                        assert(heading.anchor == s.subrange(start, start + e));
                        assert("\""@ =~= seq!['"']);
                        assert forall|i: int| 0 <= i < heading.anchor.len() implies heading.anchor[i] != '"' by {
                            assert(heading.anchor[i] == s[start + i]);
                            assert(!occurs_at(s, "\""@, start + i));
                            assert(s.subrange(start + i, start + i + 1) =~= seq![s[start + i]]);
                        }
                        let raw = s.subrange(close + 1, end);
                        lemma_untagged_has_no_open_bracket(raw);
                        let r = crate::text::lemma_trim_is_subrange(untagged(raw).0);
                        assert forall|i: int| 0 <= i < heading.text.len() implies heading.text[i] != '<' by {
                            assert(heading.text[i] == untagged(raw).0[r.0 + i]);
                        }
                        let all = h2_headings_from(s, c);
                        assert(all == seq![heading] + rest);
                        assert forall|k: int| 1 <= k < all.len() implies #[trigger] all[k] == rest[k - 1] by {}
                        assert(all[0] == heading);
                    },
                    None => {
                        assert(h2_headings_from(s, c) == rest);
                    },
                }
            },
        }
    }
}

/// The `<h2 id="anchor">Text</h2>` headings of rendered HTML, in order.
pub fn extract_h2_headings(html: &str) -> (headings: Vec<TocHeading>)
    ensures
        headings_view(headings@) == h2_headings_from(html@, 0),
{
    let v = chars_of(html);
    let open_h2 = chars_of("<h2");
    let gt = chars_of(">");
    let id_attr = chars_of("id=\"");
    let quote = chars_of("\"");
    let close_h2 = chars_of("</h2>");
    proof {
        reveal_strlit("<h2");
        reveal_strlit(">");
        reveal_strlit("id=\"");
        reveal_strlit("\"");
        reveal_strlit("</h2>");
    }
    let mut headings: Vec<TocHeading> = Vec::new();
    let mut c: usize = 0;
    assert(headings_view(headings@) =~= Seq::<TocHeadingView>::empty());
    loop
        invariant
            c <= v.len(),
            v@ == html@,
            open_h2@ == "<h2"@,
            gt@ == ">"@,
            id_attr@ == "id=\""@,
            quote@ == "\""@,
            close_h2@ == "</h2>"@,
            open_h2@.len() == 3,
            gt@.len() == 1,
            id_attr@.len() == 4,
            quote@.len() == 1,
            close_h2@.len() == 5,
            headings_view(headings@) + h2_headings_from(v@, c as int) == h2_headings_from(v@, 0),
        ensures
            headings_view(headings@) == h2_headings_from(v@, 0),
        decreases v.len() - c,
    {
        if c >= v.len() || !has_bytes_left(&v, c, 8) {
            assert(headings_view(headings@) + Seq::<TocHeadingView>::empty() =~= headings_view(
                headings@,
            ));
            break ;
        }
        if !matches_at(&v, &open_h2, c) {
            c = c + 1;
            continue ;
        }
        let after = c + 3;
        let d = match find_from_exec(&v, &gt, after) {
            Some(d) => d,
            None => {
                assert(headings_view(headings@) + Seq::<TocHeadingView>::empty() =~= headings_view(
                    headings@,
                ));
                break ;
            },
        };
        let close = after + d;
        let opening = slice_chars(&v, after, close);
        let anchor: Option<String> = match find_from_exec(&opening, &id_attr, 0) {
            Some(p) => {
                let start = after + p + 4;
                match find_from_exec(&v, &quote, start) {
                    Some(e) => Some(string_from(&slice_chars(&v, start, start + e))),
                    None => None,
                }
            },
            None => None,
        };
        let text_start = close + 1;
        let e = match find_from_exec(&v, &close_h2, text_start) {
            Some(e) => e,
            None => {
                assert(headings_view(headings@) + Seq::<TocHeadingView>::empty() =~= headings_view(
                    headings@,
                ));
                break ;
            },
        };
        let ghost before = headings@;
        let ghost anchor_view = anchor.deep_view();
        let ghost next = (text_start + e + 5) as int;
        assert(opening@ == v@.subrange(after as int, close as int));
        assert(h2_at(v@, c as int) == Some((
            match anchor_view {
                Some(a) => Some(TocHeadingView {
                    level: 2,
                    text: stripped_text(v@.subrange(text_start as int, text_start + e)),
                    anchor: a,
                }),
                None => None::<TocHeadingView>,
            },
            next,
        )));
        assert(h2_headings_from(v@, c as int) == match anchor_view {
            Some(a) => seq![
                TocHeadingView {
                    level: 2,
                    text: stripped_text(v@.subrange(text_start as int, text_start + e)),
                    anchor: a,
                },
            ] + h2_headings_from(v@, next),
            None => h2_headings_from(v@, next),
        });
        match anchor {
            Some(a) => {
                let raw = string_from(&slice_chars(&v, text_start, text_start + e));
                let text = strip_html_tags(raw.as_str());
                headings.push(TocHeading { level: 2, text, anchor: a });
                assert(headings_view(headings@) =~= headings_view(before) + seq![
                    headings@.last()@,
                ]);
            },
            None => {},
        }
        c = text_start + e + 5;
    }
    headings
}

// ---------------------------------------------------------------------------
// Post page lines
// ---------------------------------------------------------------------------

/// The Unicode upper case of `s`, as `str::to_uppercase` computes it.
pub uninterp spec fn unicode_uppercase(s: Seq<char>) -> Seq<char>;

/// `str::to_uppercase`; its result is named by `unicode_uppercase`.
#[verifier::external_body]
fn to_uppercase(s: &str) -> (r: String)
    ensures
        r@ == unicode_uppercase(s@),
{
    s.to_uppercase()
}

/// The tags in upper case, joined by " · ".
pub open spec fn joined_upper(tags: Seq<Seq<char>>) -> Seq<char>
    decreases tags.len(),
{
    if tags.len() == 0 {
        Seq::empty()
    } else if tags.len() == 1 {
        unicode_uppercase(tags[0])
    } else {
        joined_upper(tags.drop_last()) + " · "@ + unicode_uppercase(tags.last())
    }
}

/// The tag line under a post's title: its tags in upper case joined by " · ",
/// or "UNTAGGED" when that is empty.
pub open spec fn byline_of(tags: Seq<Seq<char>>) -> Seq<char> {
    if joined_upper(tags).len() == 0 {
        "UNTAGGED"@
    } else {
        joined_upper(tags)
    }
}

/// The tag line of a post page.
pub fn tag_byline(tags: &Vec<String>) -> (line: String)
    ensures
        line@ == byline_of(crate::api::strings_view(tags@)),
{
    let ghost tv = crate::api::strings_view(tags@);
    let mut line = String::new();
    let mut i: usize = 0;
    while i < tags.len()
        invariant
            i <= tags.len(),
            tv == crate::api::strings_view(tags@),
            line@ == joined_upper(tv.take(i as int)),
        decreases tags.len() - i,
    {
        if i > 0 {
            line.push_str(" · ");
        }
        let upper = to_uppercase(tags[i].as_str());
        line.push_str(upper.as_str());
        assert(tv.take(i + 1).drop_last() =~= tv.take(i as int));
        assert(tv[i as int] == tags@[i as int]@);
        proof {
            if i == 0 {
                assert(tv.take(0) =~= Seq::<Seq<char>>::empty());
                assert(line@ =~= joined_upper(tv.take(1)));
            }
        }
        i = i + 1;
    }
    assert(tv.take(i as int) =~= tv);
    if line.as_str().is_empty() {
        owned("UNTAGGED")
    } else {
        line
    }
}

/// The meta row above a post's title, e.g. "PUBLISHED · 5 MIN READ · 42 VIEWS".
pub open spec fn meta_row(kicker: Seq<char>, read_time: nat, views: nat) -> Seq<char> {
    kicker + " · "@ + crate::text::decimal(read_time) + " MIN READ · "@ + crate::text::decimal(views)
        + " VIEWS"@
}

/// The meta row of a post page.
pub fn post_meta_line(kicker: &str, read_time: usize, total_views: usize) -> (line: String)
    ensures
        line@ == meta_row(kicker@, read_time as nat, total_views as nat),
{
    let mut line = owned(kicker);
    line.push_str(" · ");
    crate::text::push_decimal(&mut line, read_time as u64);
    line.push_str(" MIN READ · ");
    crate::text::push_decimal(&mut line, total_views as u64);
    line.push_str(" VIEWS");
    line
}

// ---------------------------------------------------------------------------
// Archive
// ---------------------------------------------------------------------------

/// The archive year of a post: the part of its creation time before the first
/// `-` when that is a four-digit year, else "Undated".
pub open spec fn archive_year(created_at: Seq<char>) -> Seq<char> {
    let year = before_first(created_at, '-');
    if is_year(year) {
        year
    } else {
        "Undated"@
    }
}

/// The archive year of a post created at `created_at`.
pub fn archive_year_of(created_at: &str) -> (year: String)
    ensures
        year@ == archive_year(created_at@),
{
    let v = chars_of(created_at);
    let year = crate::text::prefix_before(&v, '-');
    if year.len() == 4 && all_ascii_digits(&year) {
        string_from(&year)
    } else {
        owned("Undated")
    }
}

/// The first group with key `key`.
pub open spec fn group_position(groups: Seq<(Seq<char>, Seq<usize>)>, key: Seq<char>) -> Option<nat>
    decreases groups.len(),
{
    if groups.len() == 0 {
        None
    } else {
        match group_position(groups.drop_last(), key) {
            Some(j) => Some(j),
            None => if groups.last().0 == key {
                Some((groups.len() - 1) as nat)
            } else {
                None
            },
        }
    }
}

/// The first `n` posts grouped by year: a group per year in order of first
/// appearance, each listing the positions of its posts in order.
pub open spec fn grouped_by_year(years: Seq<Seq<char>>, n: nat) -> Seq<(Seq<char>, Seq<usize>)>
    decreases n,
{
    if n == 0 {
        Seq::empty()
    } else {
        let groups = grouped_by_year(years, (n - 1) as nat);
        let key = years[n - 1];
        match group_position(groups, key) {
            Some(j) => groups.update(j as int, (groups[j as int].0, groups[j as int].1.push((n - 1) as usize))),
            None => groups.push((key, seq![(n - 1) as usize])),
        }
    }
}

pub open spec fn groups_view(groups: Seq<(String, Vec<usize>)>) -> Seq<(Seq<char>, Seq<usize>)> {
    groups.map_values(|g: (String, Vec<usize>)| (g.0@, g.1@))
}

pub open spec fn archive_years(created_at: Seq<String>) -> Seq<Seq<char>> {
    created_at.map_values(|c: String| archive_year(c@))
}

/// The position of the group `key` among `groups`.
fn find_group(groups: &Vec<(String, Vec<usize>)>, key: &String) -> (r: Option<usize>)
    ensures
        match r {
            Some(j) => j < groups.len() && group_position(groups_view(groups@), key@) == Some(
                j as nat,
            ),
            None => group_position(groups_view(groups@), key@) is None,
        },
{
    let ghost gv = groups_view(groups@);
    let mut j: usize = 0;
    while j < groups.len()
        invariant
            j <= groups.len(),
            gv == groups_view(groups@),
            group_position(gv.take(j as int), key@) is None,
        decreases groups.len() - j,
    {
        assert(gv.take(j + 1).drop_last() =~= gv.take(j as int));
        if str_eq(groups[j].0.as_str(), key.as_str()) {
            proof {
                lemma_group_position_prefix(gv, key@, (j + 1) as nat);
            }
            return Some(j);
        }
        j = j + 1;
    }
    assert(gv.take(j as int) =~= gv);
    None
}

proof fn lemma_group_position_prefix(groups: Seq<(Seq<char>, Seq<usize>)>, key: Seq<char>, k: nat)
    requires
        k <= groups.len(),
        group_position(groups.take(k as int), key) is Some,
    ensures
        group_position(groups, key) == group_position(groups.take(k as int), key),
    decreases groups.len() - k,
{
    if k < groups.len() {
        assert(groups.take(k + 1 as int).drop_last() =~= groups.take(k as int));
        lemma_group_position_prefix(groups, key, k + 1);
    } else {
        assert(groups.take(k as int) =~= groups);
    }
}

/// Groups posts by the year of their creation time: a group per year in order
/// of first appearance (newest first for posts listed newest first), each
/// listing the positions of its posts in the order they were given.
pub fn group_by_year(created_at: &Vec<String>) -> (groups: Vec<(String, Vec<usize>)>)
    ensures
        groups_view(groups@) == grouped_by_year(archive_years(created_at@), created_at@.len()),
{
    let ghost years = archive_years(created_at@);
    let mut groups: Vec<(String, Vec<usize>)> = Vec::new();
    let mut i: usize = 0;
    assert(groups_view(groups@) =~= Seq::<(Seq<char>, Seq<usize>)>::empty());
    while i < created_at.len()
        invariant
            i <= created_at.len(),
            years == archive_years(created_at@),
            groups_view(groups@) == grouped_by_year(years, i as nat),
        decreases created_at.len() - i,
    {
        let year = archive_year_of(created_at[i].as_str());
        assert(years[i as int] == year@);
        let ghost gv = groups_view(groups@);
        match find_group(&groups, &year) {
            Some(j) => {
                let (name, mut members) = groups.remove(j);
                members.push(i);
                groups.insert(j, (name, members));
                assert(groups_view(groups@) =~= gv.update(
                    j as int,
                    (gv[j as int].0, gv[j as int].1.push(i)),
                ));
            },
            None => {
                let mut members: Vec<usize> = Vec::new();
                members.push(i);
                groups.push((year, members));
                assert(members@ =~= seq![i]);
                assert(groups_view(groups@) =~= gv.push((years[i as int], seq![i])));
            },
        }
        i = i + 1;
    }
    groups
}

// ---------------------------------------------------------------------------
// Small view choices
// ---------------------------------------------------------------------------

/// `n` copies of `c`.
pub open spec fn repeated(c: char, n: nat) -> Seq<char> {
    Seq::new(n, |_i: int| c)
}

/// The number of filled cells of a percentage bar: one per full ten percent,
/// the percentage capped at 100.
pub open spec fn filled_cells(pct: u8) -> nat {
    (if pct > 100 {
        100nat
    } else {
        pct as nat
    }) / 10
}

/// A ten-cell bar with `filled_cells(pct)` filled cells.
pub open spec fn percentage_bar(pct: u8) -> Seq<char> {
    repeated('▰', filled_cells(pct)) + repeated('▱', (10 - filled_cells(pct)) as nat)
}

/// A 0..=100 percentage as a ten-cell mono bar `▰▰▰▰▰▱▱▱▱▱`.
pub fn pct_to_bars(pct: u8) -> (bars: String)
    ensures
        bars@ == percentage_bar(pct),
{
    let capped: u8 = if pct > 100 {
        100
    } else {
        pct
    };
    let filled: u8 = capped / 10;
    let mut bars = String::new();
    let mut k: u8 = 0;
    while k < 10
        invariant
            k <= 10,
            filled == filled_cells(pct),
            filled <= 10,
            bars@ == percentage_bar(pct).take(k as int),
        decreases 10 - k,
    {
        if k < filled {
            bars.push('▰');
        } else {
            bars.push('▱');
        }
        assert(percentage_bar(pct).take(k + 1) =~= percentage_bar(pct).take(k as int).push(
            bars@.last(),
        ));
        k = k + 1;
    }
    assert(percentage_bar(pct).take(10) =~= percentage_bar(pct));
    bars
}

/// Size variant for the date-stamp tile. Affects the day numeral size.
#[derive(Clone, Copy, Debug, PartialEq, Eq, Structural)]
pub enum DateStampSize {
    /// Largest variant: the home page's featured post.
    Featured,
    /// Post-list rows on home and archive.
    Default,
    /// Tight spaces.
    Compact,
}

impl DateStampSize {
    /// The classes of the day numeral.
    pub fn day_class(self) -> (class: &'static str)
        ensures
            class@ == match self {
                DateStampSize::Featured => "font-display text-5xl font-medium leading-none tracking-tight text-ink"@,
                DateStampSize::Default => "font-display text-3xl font-medium leading-none tracking-tight text-ink"@,
                DateStampSize::Compact => "font-display text-2xl font-medium leading-none tracking-tight text-ink"@,
            },
    {
        match self {
            DateStampSize::Featured => "font-display text-5xl font-medium leading-none tracking-tight text-ink",
            DateStampSize::Default => "font-display text-3xl font-medium leading-none tracking-tight text-ink",
            DateStampSize::Compact => "font-display text-2xl font-medium leading-none tracking-tight text-ink",
        }
    }

    /// The classes of the kicker above the day.
    pub fn kicker_class(self) -> (class: &'static str)
        ensures
            class@ == match self {
                DateStampSize::Featured => "font-mono text-xs uppercase tracking-[0.08em] text-ink-3"@,
                _ => "font-mono text-[11px] uppercase tracking-[0.08em] text-ink-3"@,
            },
    {
        match self {
            DateStampSize::Featured => "font-mono text-xs uppercase tracking-[0.08em] text-ink-3",
            _ => "font-mono text-[11px] uppercase tracking-[0.08em] text-ink-3",
        }
    }
}

/// Size variant for a post row.
#[derive(Clone, Copy, Debug, PartialEq, Eq, Structural)]
pub enum PostListSize {
    /// Larger variant for the top-of-home featured post.
    Featured,
    /// Recent-posts and archive lists.
    Default,
}

impl PostListSize {
    /// The classes of the row's title.
    pub fn title_class(self) -> (class: &'static str)
        ensures
            class@ == match self {
                PostListSize::Featured => "font-display text-2xl sm:text-3xl italic font-medium leading-tight text-ink hover:text-accent transition-colors"@,
                PostListSize::Default => "font-display text-xl italic font-medium leading-tight text-ink hover:text-accent transition-colors"@,
            },
    {
        match self {
            PostListSize::Featured => "font-display text-2xl sm:text-3xl italic font-medium leading-tight text-ink hover:text-accent transition-colors",
            PostListSize::Default => "font-display text-xl italic font-medium leading-tight text-ink hover:text-accent transition-colors",
        }
    }

    /// The classes of the row's excerpt: two lines for the featured post, one
    /// otherwise.
    pub fn excerpt_class(self) -> (class: &'static str)
        ensures
            class@ == match self {
                PostListSize::Featured => "text-ink-2 text-base line-clamp-2"@,
                PostListSize::Default => "text-ink-2 text-base line-clamp-1"@,
            },
    {
        match self {
            PostListSize::Featured => "text-ink-2 text-base line-clamp-2",
            PostListSize::Default => "text-ink-2 text-base line-clamp-1",
        }
    }

    /// The date-stamp size of a row of this size.
    pub fn stamp_size(self) -> (size: DateStampSize)
        ensures
            size == match self {
                PostListSize::Featured => DateStampSize::Featured,
                PostListSize::Default => DateStampSize::Default,
            },
    {
        match self {
            PostListSize::Featured => DateStampSize::Featured,
            PostListSize::Default => DateStampSize::Default,
        }
    }
}

/// Application-level errors shown by the error page.
#[derive(Clone, Copy, Debug, PartialEq, Eq, Structural)]
pub enum AppError {
    NotFound,
}

impl AppError {
    /// The HTTP status code of the error.
    pub fn status_code(&self) -> (code: u16)
        ensures
            code == match self {
                AppError::NotFound => 404u16,
            },
    {
        match self {
            AppError::NotFound => 404,
        }
    }

    /// The text shown for the error.
    pub fn message(&self) -> (text: String)
        ensures
            text@ == match self {
                AppError::NotFound => "Not Found"@,
            },
    {
        match self {
            AppError::NotFound => owned("Not Found"),
        }
    }
}

/// The primary navigation: path and label of each item, in order.
pub fn nav_items() -> (items: Vec<(&'static str, &'static str)>)
    ensures
        items@.len() == 4,
        items@[0].0@ == "/"@ && items@[0].1@ == "writing"@,
        items@[1].0@ == "/notes"@ && items@[1].1@ == "notes"@,
        items@[2].0@ == "/references"@ && items@[2].1@ == "references"@,
        items@[3].0@ == "/about"@ && items@[3].1@ == "about"@,
{
    vec![("/", "writing"), ("/notes", "notes"), ("/references", "references"), ("/about", "about")]
}

/// Whether the navigation item `href` is the current page: the root only for
/// the root itself, any other item for its own path and the paths below it.
pub open spec fn is_current_item(href: Seq<char>, route: Seq<char>) -> bool {
    if href == "/"@ {
        route == "/"@
    } else {
        route == href || (route.len() > href.len() && route.take(href.len() + 1 as int) == href.push('/'))
    }
}

/// Whether the navigation item `href` is highlighted on `current_route`.
pub fn is_current_route(href: &str, current_route: &str) -> (current: bool)
    ensures
        current == is_current_item(href@, current_route@),
{
    if str_eq(href, "/") {
        return str_eq(current_route, "/");
    }
    if str_eq(current_route, href) {
        return true;
    }
    let route = chars_of(current_route);
    let mut prefix = chars_of(href);
    prefix.push('/');
    let below = crate::text::starts_with_chars(&route, &prefix);
    proof {
        if below {
            assert(route@.len() > href@.len());
        }
    }
    below
}

/// The tags of a note as one line: `#rust · #web`.
pub open spec fn tag_line_of(tags: Seq<Seq<char>>) -> Seq<char>
    decreases tags.len(),
{
    if tags.len() == 0 {
        Seq::empty()
    } else if tags.len() == 1 {
        seq!['#'] + tags[0]
    } else {
        tag_line_of(tags.drop_last()) + " · #"@ + tags.last()
    }
}

/// The tag line of a note.
pub fn note_tag_line(tags: &Vec<String>) -> (line: String)
    ensures
        line@ == tag_line_of(crate::api::strings_view(tags@)),
{
    let ghost tv = crate::api::strings_view(tags@);
    let mut line = String::new();
    let mut i: usize = 0;
    while i < tags.len()
        invariant
            i <= tags.len(),
            tv == crate::api::strings_view(tags@),
            line@ == tag_line_of(tv.take(i as int)),
        decreases tags.len() - i,
    {
        if i > 0 {
            line.push_str(" · #");
        } else {
            line.push('#');
        }
        line.push_str(tags[i].as_str());
        assert(tv.take(i + 1).drop_last() =~= tv.take(i as int));
        assert(tv[i as int] == tags@[i as int]@);
        proof {
            if i == 0 {
                assert(tv.take(1) =~= seq![tv[0]]);
                assert(tv.take(0) =~= Seq::<Seq<char>>::empty());
            }
        }
        i = i + 1;
    }
    assert(tv.take(i as int) =~= tv);
    line
}

/// `sel` without any copy of `t`.
pub open spec fn without_tag(sel: Seq<Seq<char>>, t: Seq<char>) -> Seq<Seq<char>>
    decreases sel.len(),
{
    if sel.len() == 0 {
        sel
    } else if sel.last() == t {
        without_tag(sel.drop_last(), t)
    } else {
        without_tag(sel.drop_last(), t).push(sel.last())
    }
}

/// The tag selection after clicking `t`: a selected tag is deselected (every
/// copy of it removed), another one is added at the end.
pub open spec fn toggled(sel: Seq<Seq<char>>, t: Seq<char>) -> Seq<Seq<char>> {
    if sel.contains(t) {
        without_tag(sel, t)
    } else {
        sel.push(t)
    }
}

/// Clicks tag `tag` in the tag strip.
pub fn toggle_tag(selected: &mut Vec<String>, tag: &str)
    ensures
        crate::api::strings_view(final(selected)@) == toggled(
            crate::api::strings_view(old(selected)@),
            tag@,
        ),
{
    let ghost sv = crate::api::strings_view(selected@);
    let mut kept: Vec<String> = Vec::new();
    let mut found = false;
    let mut i: usize = 0;
    assert(crate::api::strings_view(kept@) =~= without_tag(sv.take(0), tag@));
    while i < selected.len()
        invariant
            i <= selected.len(),
            sv == crate::api::strings_view(selected@),
            crate::api::strings_view(kept@) == without_tag(sv.take(i as int), tag@),
            found == sv.take(i as int).contains(tag@),
        decreases selected.len() - i,
    {
        assert(sv.take(i + 1).drop_last() =~= sv.take(i as int));
        assert(sv[i as int] == selected@[i as int]@);
        if crate::text::str_eq(selected[i].as_str(), tag) {
            found = true;
            proof {
                let q = sv.take(i + 1);
                assert(q[i as int] == tag@);
            }
        } else {
            let ghost before = kept@;
            kept.push(selected[i].clone());
            assert(crate::api::strings_view(kept@) =~= crate::api::strings_view(before).push(
                sv[i as int],
            ));
            proof {
                let q = sv.take(i + 1);
                let p = sv.take(i as int);
                if q.contains(tag@) {
                    let k = choose|k: int| 0 <= k < q.len() && q[k] == tag@;
                    assert(p[k] == tag@);
                }
                if p.contains(tag@) {
                    let k = choose|k: int| 0 <= k < p.len() && p[k] == tag@;
                    assert(q[k] == tag@);
                }
            }
        }
        i = i + 1;
    }
    assert(sv.take(i as int) =~= sv);
    if found {
        *selected = kept;
    } else {
        let ghost before = selected@;
        selected.push(owned(tag));
        assert(crate::api::strings_view(selected@) =~= crate::api::strings_view(before).push(tag@));
    }
}

// ---------------------------------------------------------------------------
// Laws
// ---------------------------------------------------------------------------

/// Clicking a tag flips whether it is selected, and leaves every other tag's
/// selection as it was.
pub proof fn law_toggle_flips_only_that_tag(sel: Seq<Seq<char>>, t: Seq<char>, other: Seq<char>)
    requires
        other != t,
    ensures
        toggled(sel, t).contains(t) == !sel.contains(t),
        toggled(sel, t).contains(other) == sel.contains(other),
{
    lemma_without_tag(sel, t, other);
    if !sel.contains(t) {
        assert(sel.push(t)[sel.len() as int] == t);
        if sel.contains(other) {
            let k = choose|k: int| 0 <= k < sel.len() && sel[k] == other;
            assert(sel.push(t)[k] == other);
        }
        if sel.push(t).contains(other) {
            let k = choose|k: int| 0 <= k < sel.len() + 1 && sel.push(t)[k] == other;
            assert(sel[k] == other);
        }
    }
}

proof fn lemma_without_tag(sel: Seq<Seq<char>>, t: Seq<char>, other: Seq<char>)
    requires
        other != t,
    ensures
        !without_tag(sel, t).contains(t),
        without_tag(sel, t).contains(other) == sel.contains(other),
    decreases sel.len(),
{
    if sel.len() > 0 {
        lemma_without_tag(sel.drop_last(), t, other);
        let w = without_tag(sel.drop_last(), t);
        if sel.last() != t {
            assert(w.push(sel.last())[w.len() as int] == sel.last());
            if w.push(sel.last()).contains(t) {
                let k = choose|k: int| 0 <= k < w.len() + 1 && w.push(sel.last())[k] == t;
                assert(w[k] == t);
            }
            if w.push(sel.last()).contains(other) {
                let k = choose|k: int| 0 <= k < w.len() + 1 && w.push(sel.last())[k] == other;
                if k < w.len() {
                    assert(w[k] == other);
                    let j = choose|j: int| 0 <= j < sel.drop_last().len() && sel.drop_last()[j] == other;
                    assert(sel[j] == other);
                } else {
                    assert(sel[sel.len() - 1] == other);
                }
            }
            if sel.contains(other) {
                let j = choose|j: int| 0 <= j < sel.len() && sel[j] == other;
                if j < sel.len() - 1 {
                    assert(sel.drop_last()[j] == other);
                    let k = choose|k: int| 0 <= k < w.len() && w[k] == other;
                    assert(w.push(sel.last())[k] == other);
                } else {
                    assert(w.push(sel.last())[w.len() as int] == other);
                }
            }
        } else {
            if sel.contains(other) {
                let j = choose|j: int| 0 <= j < sel.len() && sel[j] == other;
                assert(j < sel.len() - 1);
                assert(sel.drop_last()[j] == other);
            }
            if sel.drop_last().contains(other) {
                let j = choose|j: int| 0 <= j < sel.drop_last().len() && sel.drop_last()[j] == other;
                assert(sel[j] == other);
            }
        }
    }
}

/// Stripping tags leaves no `<` or `>` in a heading's text.
pub proof fn law_stripped_text_has_no_angle_brackets(s: Seq<char>)
    ensures
        forall|i: int|
            0 <= i < untagged(s).0.len() ==> #[trigger] untagged(s).0[i] != '<' && untagged(s).0[i]
                != '>',
    decreases s.len(),
{
    if s.len() > 0 {
        law_stripped_text_has_no_angle_brackets(s.drop_last());
        let prev = untagged(s.drop_last()).0;
        assert forall|i: int| 0 <= i < untagged(s).0.len() implies #[trigger] untagged(s).0[i]
            != '<' && untagged(s).0[i] != '>' by {
            if i < prev.len() {
                assert(untagged(s).0[i] == prev[i]);
            }
        }
    }
}

/// The table of contents lists only level-2 headings, and none at all for a
/// post with fewer than `TOC_MIN_HEADINGS` headings.
pub proof fn law_toc_lists_only_level_two(hs: Seq<TocHeadingView>)
    ensures
        hs.len() < TOC_MIN_HEADINGS ==> toc_listing(hs).len() == 0,
        forall|i: int| 0 <= i < toc_listing(hs).len() ==> (#[trigger] toc_listing(hs)[i]).level == 2,
        toc_listing(hs).len() <= hs.len(),
{
    lemma_level_two(hs);
}

proof fn lemma_level_two(hs: Seq<TocHeadingView>)
    ensures
        forall|i: int| 0 <= i < level_two(hs).len() ==> (#[trigger] level_two(hs)[i]).level == 2,
        level_two(hs).len() <= hs.len(),
    decreases hs.len(),
{
    if hs.len() > 0 {
        lemma_level_two(hs.drop_last());
    }
}

/// A percentage bar always has ten cells.
pub proof fn law_bars_have_ten_cells(pct: u8)
    ensures
        percentage_bar(pct).len() == 10,
        percentage_bar(pct) == percentage_bar(if pct > 100 { 100u8 } else { pct }),
{
}

/// Post `p` is listed in one of the groups.
pub open spec fn listed_in(groups: Seq<(Seq<char>, Seq<usize>)>, p: int) -> bool {
    exists|a: int, k: int|
        0 <= a < groups.len() && 0 <= k < groups[a].1.len() && #[trigger] groups[a].1[k] == p as usize
}

/// The year groups of the archive partition the posts: every post is listed in
/// exactly one group, the one of its year, and no year has two groups.
pub proof fn law_year_groups_partition_posts(years: Seq<Seq<char>>, n: nat)
    requires
        n <= years.len(),
        n <= usize::MAX,
    ensures
        forall|a: int, b: int|
            0 <= a < b < grouped_by_year(years, n).len() ==> #[trigger] grouped_by_year(years, n)[a].0
                != #[trigger] grouped_by_year(years, n)[b].0,
        forall|a: int, k: int|
            0 <= a < grouped_by_year(years, n).len() && 0 <= k < grouped_by_year(years, n)[a].1.len()
                ==> {
                let p = #[trigger] grouped_by_year(years, n)[a].1[k];
                p < n && years[p as int] == grouped_by_year(years, n)[a].0
            },
        forall|p: int| 0 <= p < n ==> #[trigger] listed_in(grouped_by_year(years, n), p),
        forall|a: int, j: int, k: int|
            0 <= a < grouped_by_year(years, n).len() && 0 <= j < k < grouped_by_year(
                years,
                n,
            )[a].1.len() ==> #[trigger] grouped_by_year(years, n)[a].1[j]
                < #[trigger] grouped_by_year(years, n)[a].1[k],
    decreases n,
{
    if n > 0 {
        law_year_groups_partition_posts(years, (n - 1) as nat);
        let gs = grouped_by_year(years, (n - 1) as nat);
        let key = years[n - 1];
        lemma_group_position(gs, key);
        let ng = grouped_by_year(years, n);
        match group_position(gs, key) {
            Some(j) => {
                assert forall|a: int, k: int|
                    0 <= a < ng.len() && 0 <= k < ng[a].1.len() implies {
                    let p = #[trigger] ng[a].1[k];
                    p < n && years[p as int] == ng[a].0
                } by {
                    if a != j || k < gs[a].1.len() {
                        assert(ng[a].1[k] == gs[a].1[k]);
                    } else {
                        assert(ng[a].1[k] == (n - 1) as usize);
                    }
                }
                assert forall|p: int| 0 <= p < n implies #[trigger] listed_in(ng, p) by {
                    if p < n - 1 {
                        assert(listed_in(gs, p));
                        let (a, k) = choose|a: int, k: int|
                            0 <= a < gs.len() && 0 <= k < gs[a].1.len() && #[trigger] gs[a].1[k]
                                == p as usize;
                        assert(ng[a].1[k] == gs[a].1[k]);
                    } else {
                        assert(ng[j as int].1[gs[j as int].1.len() as int] == (n - 1) as usize);
                    }
                }
                assert forall|a: int, x: int, y: int|
                    0 <= a < ng.len() && 0 <= x < y < ng[a].1.len() implies #[trigger] ng[a].1[x]
                        < #[trigger] ng[a].1[y] by {
                    if a == j && y == gs[a].1.len() {
                        let p = gs[a].1[x];
                        assert(p < n - 1);
                        assert(ng[a].1[x] == p);
                        assert(ng[a].1[y] == (n - 1) as usize);
                    } else if a == j {
                        assert(ng[a].1[x] == gs[a].1[x]);
                        assert(ng[a].1[y] == gs[a].1[y]);
                    }
                }
            },
            None => {
                assert forall|a: int, b: int| 0 <= a < b < ng.len() implies #[trigger] ng[a].0
                    != #[trigger] ng[b].0 by {
                    if b == gs.len() {
                        assert(gs[a].0 != key);
                    }
                }
                assert forall|a: int, k: int|
                    0 <= a < ng.len() && 0 <= k < ng[a].1.len() implies {
                    let p = #[trigger] ng[a].1[k];
                    p < n && years[p as int] == ng[a].0
                } by {
                    if a < gs.len() {
                        assert(ng[a] == gs[a]);
                    }
                }
                assert forall|p: int| 0 <= p < n implies #[trigger] listed_in(ng, p) by {
                    if p < n - 1 {
                        assert(listed_in(gs, p));
                        let (a, k) = choose|a: int, k: int|
                            0 <= a < gs.len() && 0 <= k < gs[a].1.len() && #[trigger] gs[a].1[k]
                                == p as usize;
                        assert(ng[a] == gs[a]);
                    } else {
                        assert(ng[gs.len() as int].1[0] == (n - 1) as usize);
                    }
                }
                assert forall|a: int, x: int, y: int|
                    0 <= a < ng.len() && 0 <= x < y < ng[a].1.len() implies #[trigger] ng[a].1[x]
                        < #[trigger] ng[a].1[y] by {
                    if a < gs.len() {
                        assert(ng[a] == gs[a]);
                    }
                }
            },
        }
    }
}

proof fn lemma_group_position(groups: Seq<(Seq<char>, Seq<usize>)>, key: Seq<char>)
    ensures
        match group_position(groups, key) {
            Some(j) => j < groups.len() && groups[j as int].0 == key,
            None => forall|a: int| 0 <= a < groups.len() ==> #[trigger] groups[a].0 != key,
        },
    decreases groups.len(),
{
    if groups.len() > 0 {
        lemma_group_position(groups.drop_last(), key);
        match group_position(groups.drop_last(), key) {
            Some(j) => {
                assert(groups[j as int] == groups.drop_last()[j as int]);
            },
            None => {
                assert forall|a: int| 0 <= a < groups.len() - 1 implies #[trigger] groups[a].0 != key by {
                    assert(groups[a] == groups.drop_last()[a]);
                }
            },
        }
    }
}

} // verus!
