//! Helpers shared by the page server functions and the HTTP server: HTML
//! escaping, slug/tag/email checks and the retry schedule.

use vstd::prelude::*;

use crate::text::{
    ascii_alnum, chars_of, has_char, is_ascii_alnum, lemma_utf8_len_ascii, slice_chars, trim,
    trim_chars, utf8_len,
};

verus! {

broadcast use vstd::string::group_string_axioms;

// ---------------------------------------------------------------------------
// HTML escaping
// ---------------------------------------------------------------------------

/// The escape sequence written for one character.
pub open spec fn html_escape_char(c: char) -> Seq<char> {
    if c == '&' {
        seq!['&', 'a', 'm', 'p', ';']
    } else if c == '<' {
        seq!['&', 'l', 't', ';']
    } else if c == '>' {
        seq!['&', 'g', 't', ';']
    } else if c == '"' {
        seq!['&', 'q', 'u', 'o', 't', ';']
    } else if c == '\'' {
        seq!['&', '#', 'x', '2', '7', ';']
    } else if c == '/' {
        seq!['&', '#', 'x', '2', 'F', ';']
    } else if c == '`' {
        seq!['&', '#', 'x', '6', '0', ';']
    } else {
        seq![c]
    }
}

/// `s` with every HTML metacharacter replaced by its entity.
pub open spec fn html_escaped(s: Seq<char>) -> Seq<char>
    decreases s.len(),
{
    if s.len() == 0 {
        Seq::empty()
    } else {
        html_escaped(s.drop_last()) + html_escape_char(s.last())
    }
}

/// The characters that `sanitize_html` never lets through unescaped.
pub open spec fn is_html_meta(c: char) -> bool {
    c == '<' || c == '>' || c == '"' || c == '\'' || c == '/' || c == '`'
}

/// Appends the escape sequence of `c` to `out`.
pub fn push_html_escaped(out: &mut String, c: char)
    ensures
        final(out)@ == old(out)@ + html_escape_char(c),
{
    if c == '&' {
        out.push_str("&amp;");
        proof {
            reveal_strlit("&amp;");
        }
    } else if c == '<' {
        out.push_str("&lt;");
        proof {
            reveal_strlit("&lt;");
        }
    } else if c == '>' {
        out.push_str("&gt;");
        proof {
            reveal_strlit("&gt;");
        }
    } else if c == '"' {
        out.push_str("&quot;");
        proof {
            reveal_strlit("&quot;");
        }
    } else if c == '\'' {
        out.push_str("&#x27;");
        proof {
            reveal_strlit("&#x27;");
        }
    } else if c == '/' {
        out.push_str("&#x2F;");
        proof {
            reveal_strlit("&#x2F;");
        }
    } else if c == '`' {
        out.push_str("&#x60;");
        proof {
            reveal_strlit("&#x60;");
        }
    } else {
        out.push(c);
        assert(old(out)@.push(c) =~= old(out)@ + seq![c]);
    }
}

/// The escaped form of the characters `v`.
pub fn escape_html_chars(v: &Vec<char>) -> (out: String)
    ensures
        out@ == html_escaped(v@),
{
    let mut out = String::new();
    let mut i: usize = 0;
    while i < v.len()
        invariant
            i <= v.len(),
            out@ == html_escaped(v@.take(i as int)),
        decreases v.len() - i,
    {
        push_html_escaped(&mut out, v[i]);
        assert(v@.take(i + 1).drop_last() =~= v@.take(i as int));
        i = i + 1;
    }
    assert(v@.take(i as int) =~= v@);
    out
}

/// Escapes HTML metacharacters so untrusted text can be safely interpolated
/// into HTML output or database query strings.
pub fn sanitize_html(input: &str) -> (out: String)
    ensures
        out@ == html_escaped(input@),
{
    let v = chars_of(input);
    escape_html_chars(&v)
}

/// No HTML metacharacter survives escaping.
pub proof fn lemma_html_escaped_has_no_meta(s: Seq<char>)
    ensures
        forall|i: int| 0 <= i < html_escaped(s).len() ==> !is_html_meta(#[trigger] html_escaped(s)[i]),
    decreases s.len(),
{
    if s.len() > 0 {
        lemma_html_escaped_has_no_meta(s.drop_last());
        let a = html_escaped(s.drop_last());
        let b = html_escape_char(s.last());
        assert forall|i: int| 0 <= i < (a + b).len() implies !is_html_meta(#[trigger] (a + b)[i]) by {
            if i >= a.len() {
                assert((a + b)[i] == b[i - a.len()]);
            }
        }
    }
}

/// Text without `&` and metacharacters is left as it is.
pub proof fn lemma_html_escaped_plain(s: Seq<char>)
    requires
        forall|i: int| 0 <= i < s.len() ==> !is_html_meta(#[trigger] s[i]) && s[i] != '&',
    ensures
        html_escaped(s) == s,
    decreases s.len(),
{
    if s.len() > 0 {
        lemma_html_escaped_plain(s.drop_last());
        assert(s.drop_last().push(s.last()) =~= s);
        assert(s.drop_last() + seq![s.last()] =~= s);
    }
}

/// Escaping distributes over concatenation.
pub proof fn lemma_html_escaped_append(a: Seq<char>, b: Seq<char>)
    ensures
        html_escaped(a + b) == html_escaped(a) + html_escaped(b),
    decreases b.len(),
{
    if b.len() == 0 {
        assert(a + b =~= a);
        assert(html_escaped(a) + html_escaped(b) =~= html_escaped(a));
    } else {
        assert((a + b).drop_last() =~= a + b.drop_last());
        assert((a + b).last() == b.last());
        lemma_html_escaped_append(a, b.drop_last());
        assert(html_escaped(a) + html_escaped(b.drop_last()) + html_escape_char(b.last())
            =~= html_escaped(a) + (html_escaped(b.drop_last()) + html_escape_char(b.last())));
    }
}

// ---------------------------------------------------------------------------
// Slugs and tags
// ---------------------------------------------------------------------------

pub open spec fn is_slug_char(c: char) -> bool {
    is_ascii_alnum(c) || c == '-' || c == '_'
}

pub open spec fn is_tag_char(c: char) -> bool {
    is_ascii_alnum(c) || c == '-' || c == '_' || c == ' '
}

pub open spec fn slug_chars_ok(s: Seq<char>) -> bool {
    forall|i: int| 0 <= i < s.len() ==> is_slug_char(#[trigger] s[i])
}

pub open spec fn tag_chars_ok(s: Seq<char>) -> bool {
    forall|i: int| 0 <= i < s.len() ==> is_tag_char(#[trigger] s[i])
}

/// A slug is usable in a query: non-empty, at most `max_len` bytes, slug-safe.
pub open spec fn slug_ok(s: Seq<char>, max_len: nat) -> bool {
    s.len() > 0 && utf8_len(s) <= max_len && slug_chars_ok(s)
}

/// A tag is usable in a query: non-empty, at most `max_len` bytes, tag-safe.
pub open spec fn tag_ok(s: Seq<char>, max_len: nat) -> bool {
    s.len() > 0 && utf8_len(s) <= max_len && tag_chars_ok(s)
}

pub fn slug_char(c: char) -> (b: bool)
    ensures
        b == is_slug_char(c),
{
    ascii_alnum(c) || c == '-' || c == '_'
}

pub fn tag_char(c: char) -> (b: bool)
    ensures
        b == is_tag_char(c),
{
    ascii_alnum(c) || c == '-' || c == '_' || c == ' '
}

pub fn all_slug_chars(v: &Vec<char>) -> (b: bool)
    ensures
        b == slug_chars_ok(v@),
{
    let mut i: usize = 0;
    while i < v.len()
        invariant
            i <= v.len(),
            forall|k: int| 0 <= k < i ==> is_slug_char(#[trigger] v@[k]),
        decreases v.len() - i,
    {
        if !slug_char(v[i]) {
            return false;
        }
        i = i + 1;
    }
    true
}

pub fn all_tag_chars(v: &Vec<char>) -> (b: bool)
    ensures
        b == tag_chars_ok(v@),
{
    let mut i: usize = 0;
    while i < v.len()
        invariant
            i <= v.len(),
            forall|k: int| 0 <= k < i ==> is_tag_char(#[trigger] v@[k]),
        decreases v.len() - i,
    {
        if !tag_char(v[i]) {
            return false;
        }
        i = i + 1;
    }
    true
}

/// Slug-safe and tag-safe text is ASCII, one byte per character.
pub proof fn lemma_tag_chars_utf8_len(s: Seq<char>)
    requires
        tag_chars_ok(s),
    ensures
        utf8_len(s) == s.len(),
{
    assert forall|i: int| 0 <= i < s.len() implies (s[i] as u32) < 0x80 by {
        assert(is_tag_char(s[i]));
    }
    lemma_utf8_len_ascii(s);
}

pub proof fn lemma_slug_chars_are_tag_chars(s: Seq<char>)
    requires
        slug_chars_ok(s),
    ensures
        tag_chars_ok(s),
{
    assert forall|i: int| 0 <= i < s.len() implies is_tag_char(#[trigger] s[i]) by {
        assert(is_slug_char(s[i]));
    }
}

/// Returns `true` if every character of `s` is allowed in a URL slug:
/// ASCII alphanumerics, hyphens, and underscores.
pub fn slug_chars_valid(s: &str) -> (b: bool)
    ensures
        b == slug_chars_ok(s@),
{
    let v = chars_of(s);
    all_slug_chars(&v)
}

/// Returns `true` if every character of `s` is allowed in a tag:
/// ASCII alphanumerics, hyphens, underscores, and spaces.
pub fn tag_chars_valid(s: &str) -> (b: bool)
    ensures
        b == tag_chars_ok(s@),
{
    let v = chars_of(s);
    all_tag_chars(&v)
}

/// Returns `true` if `slug` is non-empty, within `max_len` bytes, and contains
/// only slug-safe characters.
pub fn is_valid_slug(slug: &str, max_len: usize) -> (b: bool)
    ensures
        b == slug_ok(slug@, max_len as nat),
{
    let v = chars_of(slug);
    if v.len() == 0 {
        return false;
    }
    if !all_slug_chars(&v) {
        return false;
    }
    proof {
        lemma_slug_chars_are_tag_chars(v@);
        lemma_tag_chars_utf8_len(v@);
    }
    v.len() <= max_len
}

/// Returns `true` if `tag` is non-empty, within `max_len` bytes, and contains
/// only tag-safe characters.
pub fn is_valid_tag(tag: &str, max_len: usize) -> (b: bool)
    ensures
        b == tag_ok(tag@, max_len as nat),
{
    let v = chars_of(tag);
    if v.len() == 0 {
        return false;
    }
    if !all_tag_chars(&v) {
        return false;
    }
    proof {
        lemma_tag_chars_utf8_len(v@);
    }
    v.len() <= max_len
}

// ---------------------------------------------------------------------------
// E-mail addresses
// ---------------------------------------------------------------------------

/// The first rule of the e-mail check that an address breaks.
pub enum EmailCheck {
    Valid,
    Empty,
    TooLong,
    NotOneAt,
    BadLocalPart,
    NoDottedDomain,
    EmptyLabel,
    ShortTld,
    BadCharacters,
}

pub const MAX_EMAIL_LEN: usize = 254;

pub const MAX_LOCAL_LEN: usize = 64;

/// `k` is the position of the only `@` of `t`.
pub open spec fn sole_at(t: Seq<char>, k: int) -> bool {
    &&& 0 <= k < t.len()
    &&& t[k] == '@'
    &&& forall|j: int| 0 <= j < t.len() && j != k ==> t[j] != '@'
}

/// `m` is the position of the last `.` of `d`.
pub open spec fn last_dot(d: Seq<char>, m: int) -> bool {
    &&& 0 <= m < d.len()
    &&& d[m] == '.'
    &&& forall|j: int| m < j < d.len() ==> d[j] != '.'
}

/// Two dots meet at `i` and `i + 1`.
pub open spec fn double_dot_at(d: Seq<char>, i: int) -> bool {
    d[i] == '.' && d[i + 1] == '.'
}

/// Splitting `d` at `.` yields an empty piece.
pub open spec fn has_empty_label(d: Seq<char>) -> bool {
    ||| d[0] == '.'
    ||| d.last() == '.'
    ||| exists|i: int| 0 <= i < d.len() - 1 && #[trigger] double_dot_at(d, i)
}

pub open spec fn is_local_char(c: char) -> bool {
    is_ascii_alnum(c) || c == '.' || c == '_' || c == '%' || c == '+' || c == '-'
}

pub open spec fn is_domain_char(c: char) -> bool {
    is_ascii_alnum(c) || c == '.' || c == '-'
}

pub open spec fn local_part(t: Seq<char>) -> Seq<char> {
    t.take(choose|k: int| sole_at(t, k))
}

pub open spec fn domain_part(t: Seq<char>) -> Seq<char> {
    t.skip((choose|k: int| sole_at(t, k)) + 1)
}

pub open spec fn top_label(d: Seq<char>) -> Seq<char> {
    d.skip((choose|m: int| last_dot(d, m)) + 1)
}

/// The verdict on an already trimmed address `t`: the rules are tried in order
/// and the first one broken is reported.
pub open spec fn email_check(t: Seq<char>) -> EmailCheck {
    if t.len() == 0 {
        EmailCheck::Empty
    } else if t.len() > MAX_EMAIL_LEN {
        EmailCheck::TooLong
    } else if !(exists|k: int| sole_at(t, k)) {
        EmailCheck::NotOneAt
    } else if local_part(t).len() == 0 || local_part(t).len() > MAX_LOCAL_LEN {
        EmailCheck::BadLocalPart
    } else if domain_part(t).len() == 0 || !has_char(domain_part(t), '.') {
        EmailCheck::NoDottedDomain
    } else if has_empty_label(domain_part(t)) {
        EmailCheck::EmptyLabel
    } else if top_label(domain_part(t)).len() < 2 {
        EmailCheck::ShortTld
    } else if !(forall|i: int| 0 <= i < local_part(t).len() ==> is_local_char(#[trigger] local_part(t)[i]))
        || !(forall|i: int| 0 <= i < domain_part(t).len() ==> is_domain_char(#[trigger] domain_part(t)[i])) {
        EmailCheck::BadCharacters
    } else {
        EmailCheck::Valid
    }
}

proof fn lemma_sole_at_unique(t: Seq<char>, k: int)
    requires
        sole_at(t, k),
    ensures
        (choose|j: int| sole_at(t, j)) == k,
{
    let j = choose|j: int| sole_at(t, j);
    assert(sole_at(t, j));
}

proof fn lemma_last_dot_unique(d: Seq<char>, m: int)
    requires
        last_dot(d, m),
    ensures
        (choose|j: int| last_dot(d, j)) == m,
{
    let j = choose|j: int| last_dot(d, j);
    assert(last_dot(d, j));
}

pub fn local_char(c: char) -> (b: bool)
    ensures
        b == is_local_char(c),
{
    ascii_alnum(c) || c == '.' || c == '_' || c == '%' || c == '+' || c == '-'
}

pub fn domain_char(c: char) -> (b: bool)
    ensures
        b == is_domain_char(c),
{
    ascii_alnum(c) || c == '.' || c == '-'
}

/// Position of the only `@`, if there is exactly one.
fn find_sole_at(t: &Vec<char>) -> (r: Option<usize>)
    ensures
        match r {
            Some(k) => sole_at(t@, k as int),
            None => !(exists|k: int| sole_at(t@, k)),
        },
{
    let mut found: Option<usize> = None;
    let mut i: usize = 0;
    while i < t.len()
        invariant
            i <= t.len(),
            match found {
                Some(k) => k < i && t@[k as int] == '@' && forall|j: int|
                    0 <= j < i && j != k ==> t@[j] != '@',
                None => forall|j: int| 0 <= j < i ==> t@[j] != '@',
            },
        decreases t.len() - i,
    {
        if t[i] == '@' {
            match found {
                Some(k) => {
                    assert(!sole_at(t@, k as int));
                    assert forall|m: int| !sole_at(t@, m) by {
                        if sole_at(t@, m) {
                            if m == k {
                                assert(t@[i as int] == '@');
                            } else {
                                assert(t@[k as int] == '@');
                            }
                        }
                    }
                    return None;
                },
                None => {
                    found = Some(i);
                },
            }
        }
        i = i + 1;
    }
    match found {
        Some(k) => {},
        None => {
            assert forall|m: int| !sole_at(t@, m) by {
                if sole_at(t@, m) {
                    assert(t@[m] == '@');
                }
            }
        },
    }
    found
}

/// Position of the last `.`, if any.
fn find_last_dot(d: &Vec<char>) -> (r: Option<usize>)
    ensures
        match r {
            Some(m) => last_dot(d@, m as int),
            None => !has_char(d@, '.'),
        },
{
    let mut j: usize = d.len();
    while j > 0
        invariant
            j <= d.len(),
            forall|k: int| j <= k < d.len() ==> d@[k] != '.',
        decreases j,
    {
        if d[j - 1] == '.' {
            return Some(j - 1);
        }
        j = j - 1;
    }
    None
}

/// Whether splitting `d` at `.` yields an empty piece; `d` is not empty.
fn find_empty_label(d: &Vec<char>) -> (b: bool)
    requires
        d.len() > 0,
    ensures
        b == has_empty_label(d@),
{
    if d[0] == '.' || d[d.len() - 1] == '.' {
        return true;
    }
    let mut i: usize = 0;
    while i + 1 < d.len()
        invariant
            i + 1 <= d.len(),
            forall|k: int| 0 <= k < i ==> !#[trigger] double_dot_at(d@, k),
        decreases d.len() - i,
    {
        if d[i] == '.' && d[i + 1] == '.' {
            assert(double_dot_at(d@, i as int));
            return true;
        }
        i = i + 1;
    }
    false
}

fn all_local_chars(v: &Vec<char>) -> (b: bool)
    ensures
        b == (forall|i: int| 0 <= i < v@.len() ==> is_local_char(#[trigger] v@[i])),
{
    let mut i: usize = 0;
    while i < v.len()
        invariant
            i <= v.len(),
            forall|k: int| 0 <= k < i ==> is_local_char(#[trigger] v@[k]),
        decreases v.len() - i,
    {
        if !local_char(v[i]) {
            return false;
        }
        i = i + 1;
    }
    true
}

fn all_domain_chars(v: &Vec<char>) -> (b: bool)
    ensures
        b == (forall|i: int| 0 <= i < v@.len() ==> is_domain_char(#[trigger] v@[i])),
{
    let mut i: usize = 0;
    while i < v.len()
        invariant
            i <= v.len(),
            forall|k: int| 0 <= k < i ==> is_domain_char(#[trigger] v@[k]),
        decreases v.len() - i,
    {
        if !domain_char(v[i]) {
            return false;
        }
        i = i + 1;
    }
    true
}

/// Runs the e-mail rules on an already trimmed address.
pub fn check_email_chars(t: &Vec<char>) -> (r: EmailCheck)
    ensures
        r == email_check(t@),
{
    if t.len() == 0 {
        return EmailCheck::Empty;
    }
    if t.len() > MAX_EMAIL_LEN {
        return EmailCheck::TooLong;
    }
    let k = match find_sole_at(t) {
        Some(k) => k,
        None => {
            return EmailCheck::NotOneAt;
        },
    };
    proof {
        lemma_sole_at_unique(t@, k as int);
    }
    let local = slice_chars(t, 0, k);
    let domain = slice_chars(t, k + 1, t.len());
    assert(local@ =~= local_part(t@));
    assert(domain@ =~= domain_part(t@));
    if local.len() == 0 || local.len() > MAX_LOCAL_LEN {
        return EmailCheck::BadLocalPart;
    }
    let m = match find_last_dot(&domain) {
        Some(m) => m,
        None => {
            return EmailCheck::NoDottedDomain;
        },
    };
    if find_empty_label(&domain) {
        return EmailCheck::EmptyLabel;
    }
    proof {
        lemma_last_dot_unique(domain@, m as int);
    }
    let tld = slice_chars(&domain, m + 1, domain.len());
    assert(tld@ =~= top_label(domain@));
    if tld.len() < 2 {
        return EmailCheck::ShortTld;
    }
    if !all_local_chars(&local) || !all_domain_chars(&domain) {
        return EmailCheck::BadCharacters;
    }
    EmailCheck::Valid
}

/// Returns `true` if `email` is structurally valid: a single `@`, a 1-64 byte
/// local part, a dotted domain whose final label (TLD) is at least two
/// characters, and only standard email characters throughout.
pub fn is_valid_email(email: &str) -> (b: bool)
    ensures
        b == (email_check(trim(email@)) == EmailCheck::Valid),
{
    let v = chars_of(email);
    let t = trim_chars(&v);
    let r = check_email_chars(&t);
    match r {
        EmailCheck::Valid => true,
        _ => false,
    }
}

/// A valid address is plain ASCII, so its length and that of its local part are
/// the same counted in characters or in UTF-8 bytes: at most 254 and 1 to 64.
pub proof fn law_valid_email_is_ascii(t: Seq<char>)
    requires
        email_check(t) == EmailCheck::Valid,
    ensures
        utf8_len(t) == t.len() <= MAX_EMAIL_LEN,
        utf8_len(local_part(t)) == local_part(t).len(),
        1 <= local_part(t).len() <= MAX_LOCAL_LEN,
{
    let k = choose|k: int| sole_at(t, k);
    let l = local_part(t);
    let d = domain_part(t);
    assert forall|i: int| 0 <= i < t.len() implies (t[i] as u32) < 0x80 by {
        if i < k {
            assert(l[i] == t[i]);
            assert(is_local_char(l[i]));
        } else if i > k {
            assert(d[i - k - 1] == t[i]);
            assert(is_domain_char(d[i - k - 1]));
        }
    }
    lemma_utf8_len_ascii(t);
    assert forall|i: int| 0 <= i < l.len() implies (l[i] as u32) < 0x80 by {
        assert(l[i] == t[i]);
    }
    lemma_utf8_len_ascii(l);
}

// ---------------------------------------------------------------------------
// Retry schedule
// ---------------------------------------------------------------------------

/// Configuration for retry behavior when invoking asynchronous operations.
#[derive(Debug, Clone, Copy)]
pub struct RetryConfig {
    /// The initial delay in milliseconds before the first retry attempt.
    pub initial_delay_millis: u64,
    /// The maximum delay in seconds between retry attempts.
    pub max_delay_secs: u64,
    /// The maximum number of retry attempts.
    pub max_retries: u32,
}

impl RetryConfig {
    /// Creates a new `RetryConfig` with specified delay and retry parameters.
    pub fn new(initial_delay_millis: u64, max_delay_secs: u64, max_retries: u32) -> (r: Self)
        ensures
            r.initial_delay_millis == initial_delay_millis,
            r.max_delay_secs == max_delay_secs,
            r.max_retries == max_retries,
    {
        Self { initial_delay_millis, max_delay_secs, max_retries }
    }

    /// The delays (in milliseconds) between the attempts that this configuration
    /// allows: exponential back-off from the initial delay, capped at the maximum
    /// delay, one delay per retry.
    pub fn strategy(&self) -> (r: Vec<u128>)
        ensures
            r@.len() == self.max_retries,
            forall|i: int|
                0 <= i < r@.len() ==> #[trigger] r@[i] == backoff_delay(
                    self.initial_delay_millis as nat,
                    self.max_delay_secs as nat,
                    i as nat,
                ),
    {
        backoff_schedule(self.initial_delay_millis, self.max_delay_secs, self.max_retries)
    }
}

impl Default for RetryConfig {
    /// Returns a default `RetryConfig` with `initial_delay_millis` of 50ms,
    /// `max_delay_secs` of 2s, and `max_retries` of 3.
    fn default() -> (r: Self)
        ensures
            r.initial_delay_millis == 50,
            r.max_delay_secs == 2,
            r.max_retries == 3,
    {
        Self { initial_delay_millis: 50, max_delay_secs: 2, max_retries: 3 }
    }
}

/// What follows a failed attempt of a retried operation that has already been
/// retried `retries` times under the schedule `delays`: the retry count after it,
/// and the delay to wait before trying again, or `None` to give up.
pub open spec fn retry_decision(delays: Seq<u128>, retries: nat) -> (nat, Option<u128>) {
    if retries < delays.len() {
        (retries + 1, Some(delays[retries as int]))
    } else {
        (retries, None)
    }
}

/// The retry count after `failures` failed attempts in a row.
pub open spec fn retries_after(delays: Seq<u128>, failures: nat) -> nat
    decreases failures,
{
    if failures == 0 {
        0
    } else {
        retry_decision(delays, retries_after(delays, (failures - 1) as nat)).0
    }
}

/// The decisions of an operation that is retried on a schedule of delays: it is
/// tried once, and after each failure tried again after the next delay, until
/// the delays are used up.
pub struct RetryRun {
    /// The delays in milliseconds, one per retry.
    pub delays: Vec<u128>,
    /// How many retries have been granted so far.
    pub retries: usize,
}

impl RetryRun {
    /// No more retries granted than the schedule has delays.
    pub open spec fn wf(&self) -> bool {
        self.retries <= self.delays@.len()
    }

    /// A run on the schedule of `config`, before its first attempt.
    pub fn new(config: RetryConfig) -> (r: Self)
        ensures
            r.wf(),
            r.retries == 0,
            r.delays@.len() == config.max_retries,
            forall|i: int|
                0 <= i < r.delays@.len() ==> #[trigger] r.delays@[i] == backoff_delay(
                    config.initial_delay_millis as nat,
                    config.max_delay_secs as nat,
                    i as nat,
                ),
    {
        RetryRun { delays: config.strategy(), retries: 0 }
    }

    /// Records a failed attempt: `Some(d)` to wait `d` milliseconds and try
    /// again, `None` to give up with the error of this attempt.
    pub fn after_failure(&mut self) -> (r: Option<u128>)
        requires
            old(self).wf(),
        ensures
            final(self).wf(),
            final(self).delays@ == old(self).delays@,
            (final(self).retries as nat, r) == retry_decision(old(self).delays@, old(self).retries as nat),
    {
        if self.retries < self.delays.len() {
            let d = self.delays[self.retries];
            self.retries = self.retries + 1;
            Some(d)
        } else {
            None
        }
    }
}

/// An operation that keeps failing is retried once per delay of its schedule,
/// waiting the delays in order, and given up at the failure after the last one:
/// it is tried at most one time more than the schedule has delays.
pub proof fn law_retry_follows_schedule(delays: Seq<u128>, failures: nat)
    ensures
        retries_after(delays, failures) == if failures < delays.len() {
            failures
        } else {
            delays.len()
        },
        retry_decision(delays, retries_after(delays, failures)).1 == if failures < delays.len() {
            Some(delays[failures as int])
        } else {
            None::<u128>
        },
    decreases failures,
{
    if failures > 0 {
        law_retry_follows_schedule(delays, (failures - 1) as nat);
    }
}

/// `a * b`, saturating at `u64::MAX`.
pub open spec fn saturating_mul_u64(a: nat, b: nat) -> nat {
    if a * b > u64::MAX {
        u64::MAX as nat
    } else {
        a * b
    }
}

/// The back-off state before the `i`-th delay: `base` raised to the `i + 1`-th
/// power, saturating.
pub open spec fn backoff_current(base: nat, i: nat) -> nat
    decreases i,
{
    if i == 0 {
        base
    } else {
        saturating_mul_u64(backoff_current(base, (i - 1) as nat), base)
    }
}

/// The `i`-th delay in milliseconds: the back-off state, capped at `max_secs` seconds.
pub open spec fn backoff_delay(base: nat, max_secs: nat, i: nat) -> nat {
    if backoff_current(base, i) > max_secs * 1000 {
        max_secs * 1000
    } else {
        backoff_current(base, i)
    }
}

/// Wraps `tokio_retry::strategy::ExponentialBackoff::from_millis(base)
/// .max_delay(Duration::from_secs(max_secs)).take(count)`, collecting the delays as
/// milliseconds. Claimed, from the crate's source: there are `count` delays; each starts
/// at `base` and is multiplied by `base` (saturating at `u64::MAX`) after every step,
/// and any delay above `max_secs` seconds is replaced by exactly that maximum.
#[verifier::external_body]
fn backoff_schedule(base: u64, max_secs: u64, count: u32) -> (r: Vec<u128>)
    ensures
        r@.len() == count,
        forall|i: int|
            0 <= i < r@.len() ==> #[trigger] r@[i] == backoff_delay(
                base as nat,
                max_secs as nat,
                i as nat,
            ),
{
    tokio_retry::strategy::ExponentialBackoff::from_millis(base)
        .max_delay(std::time::Duration::from_secs(max_secs))
        .take(count as usize)
        .map(|d| d.as_millis())
        .collect()
}

} // verus!
