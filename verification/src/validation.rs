//! Input validation and sanitization for user-supplied text: slugs, tags,
//! e-mail addresses, contact messages and names.

use vstd::prelude::*;

use crate::shared::{
    check_email_chars, email_check, escape_html_chars, html_escaped, lemma_slug_chars_are_tag_chars,
    lemma_tag_chars_utf8_len, slug_chars_ok, tag_chars_ok, tag_ok, all_slug_chars, all_tag_chars,
    EmailCheck, MAX_EMAIL_LEN,
};
use crate::text::{
    ascii_lower, chars_of, decimal, lower_string_from, owned,
    push_decimal, string_from, trim, trim_chars, utf8_len,
};

verus! {

broadcast use vstd::string::group_string_axioms;

/// Validation error types for input validation failures.
#[derive(Debug, Clone, PartialEq, Eq)]
pub enum ValidationError {
    /// Input exceeds maximum allowed length.
    TooLong {
        /// Maximum allowed length.
        max: usize,
        /// Actual length of input.
        actual: usize,
    },
    /// Input is shorter than minimum required length.
    TooShort {
        /// Minimum required length.
        min: usize,
        /// Actual length of input.
        actual: usize,
    },
    /// Input contains characters not in the allowed set.
    InvalidCharacters {
        /// Description of allowed characters.
        allowed: String,
    },
    /// Input does not match expected format.
    InvalidFormat {
        /// Description of expected format.
        expected: String,
    },
    /// Input is empty when a value is required.
    Empty,
}

/// A `ValidationError` with its texts taken as character sequences.
pub enum ValidationErrorView {
    TooLong { max: nat, actual: nat },
    TooShort { min: nat, actual: nat },
    InvalidCharacters { allowed: Seq<char> },
    InvalidFormat { expected: Seq<char> },
    Empty,
}

impl View for ValidationError {
    type V = ValidationErrorView;

    open spec fn view(&self) -> ValidationErrorView {
        match self {
            ValidationError::TooLong { max, actual } => ValidationErrorView::TooLong {
                max: *max as nat,
                actual: *actual as nat,
            },
            ValidationError::TooShort { min, actual } => ValidationErrorView::TooShort {
                min: *min as nat,
                actual: *actual as nat,
            },
            ValidationError::InvalidCharacters { allowed } => ValidationErrorView::InvalidCharacters {
                allowed: allowed@,
            },
            ValidationError::InvalidFormat { expected } => ValidationErrorView::InvalidFormat {
                expected: expected@,
            },
            ValidationError::Empty => ValidationErrorView::Empty,
        }
    }
}

/// The outcome of a validation, with strings as character sequences.
pub open spec fn outcome(r: Result<String, ValidationError>) -> Result<Seq<char>, ValidationErrorView> {
    match r {
        Ok(s) => Ok(s@),
        Err(e) => Err(e@),
    }
}

/// The human-readable message of an error.
pub open spec fn error_message(e: ValidationErrorView) -> Seq<char> {
    match e {
        ValidationErrorView::TooLong { max, actual } => "Input too long: maximum "@ + decimal(max)
            + " characters, got "@ + decimal(actual),
        ValidationErrorView::TooShort { min, actual } => "Input too short: minimum "@ + decimal(min)
            + " characters, got "@ + decimal(actual),
        ValidationErrorView::InvalidCharacters { allowed } => "Invalid characters: only "@ + allowed
            + " are allowed"@,
        ValidationErrorView::InvalidFormat { expected } => "Invalid format: expected "@ + expected,
        ValidationErrorView::Empty => "Input cannot be empty"@,
    }
}

impl ValidationError {
    /// The message shown to the user for this error.
    pub fn message(&self) -> (m: String)
        ensures
            m@ == error_message(self@),
    {
        match self {
            ValidationError::TooLong { max, actual } => {
                let mut m = owned("Input too long: maximum ");
                push_decimal(&mut m, *max as u64);
                m.push_str(" characters, got ");
                push_decimal(&mut m, *actual as u64);
                m
            },
            ValidationError::TooShort { min, actual } => {
                let mut m = owned("Input too short: minimum ");
                push_decimal(&mut m, *min as u64);
                m.push_str(" characters, got ");
                push_decimal(&mut m, *actual as u64);
                m
            },
            ValidationError::InvalidCharacters { allowed } => {
                let mut m = owned("Invalid characters: only ");
                m.push_str(allowed.as_str());
                m.push_str(" are allowed");
                m
            },
            ValidationError::InvalidFormat { expected } => {
                let mut m = owned("Invalid format: expected ");
                m.push_str(expected.as_str());
                m
            },
            ValidationError::Empty => owned("Input cannot be empty"),
        }
    }
}

// ---------------------------------------------------------------------------
// Fixed descriptions
// ---------------------------------------------------------------------------

pub open spec fn slug_allowed() -> Seq<char> {
    "alphanumeric characters, hyphens (-), and underscores (_)"@
}

pub open spec fn tag_allowed() -> Seq<char> {
    "alphanumeric characters, hyphens (-), underscores (_), and spaces"@
}

pub open spec fn email_allowed() -> Seq<char> {
    "alphanumeric characters and standard email special characters"@
}

pub open spec fn email_shape_expected() -> Seq<char> {
    "valid email address (user@domain.com)"@
}

pub open spec fn email_local_expected() -> Seq<char> {
    "valid email address with local part (1-64 characters)"@
}

pub open spec fn email_domain_expected() -> Seq<char> {
    "valid email address with domain (e.g., example.com)"@
}

pub open spec fn email_labels_expected() -> Seq<char> {
    "valid email address with proper domain format"@
}

pub open spec fn email_tld_expected() -> Seq<char> {
    "valid email address with valid TLD (at least 2 characters)"@
}

// ---------------------------------------------------------------------------
// Specifications of the validators
// ---------------------------------------------------------------------------

/// `validate_slug` on input `s`.
pub open spec fn slug_outcome(s: Seq<char>, max_len: nat) -> Result<Seq<char>, ValidationErrorView> {
    let t = trim(s);
    if t.len() == 0 {
        Err(ValidationErrorView::Empty)
    } else if t.len() > max_len {
        Err(ValidationErrorView::TooLong { max: max_len, actual: t.len() })
    } else if !slug_chars_ok(t) {
        Err(ValidationErrorView::InvalidCharacters { allowed: slug_allowed() })
    } else {
        Ok(ascii_lower(t))
    }
}

/// `t` with every space that follows another space removed.
pub open spec fn collapse_spaces(t: Seq<char>) -> Seq<char>
    decreases t.len(),
{
    if t.len() == 0 {
        t
    } else if t.len() >= 2 && t.last() == ' ' && t[t.len() - 2] == ' ' {
        collapse_spaces(t.drop_last())
    } else {
        collapse_spaces(t.drop_last()).push(t.last())
    }
}

/// `validate_tag` on input `s`.
pub open spec fn tag_outcome(s: Seq<char>, max_len: nat) -> Result<Seq<char>, ValidationErrorView> {
    let t = trim(s);
    if t.len() == 0 {
        Err(ValidationErrorView::Empty)
    } else if t.len() > max_len {
        Err(ValidationErrorView::TooLong { max: max_len, actual: t.len() })
    } else if !tag_chars_ok(t) {
        Err(ValidationErrorView::InvalidCharacters { allowed: tag_allowed() })
    } else {
        Ok(collapse_spaces(t))
    }
}

/// `validate_email` on input `s`.
pub open spec fn email_outcome(s: Seq<char>) -> Result<Seq<char>, ValidationErrorView> {
    let t = trim(s);
    match email_check(t) {
        EmailCheck::Empty => Err(ValidationErrorView::Empty),
        EmailCheck::TooLong => Err(
            ValidationErrorView::TooLong { max: MAX_EMAIL_LEN as nat, actual: t.len() },
        ),
        EmailCheck::NotOneAt => Err(
            ValidationErrorView::InvalidFormat { expected: email_shape_expected() },
        ),
        EmailCheck::BadLocalPart => Err(
            ValidationErrorView::InvalidFormat { expected: email_local_expected() },
        ),
        EmailCheck::NoDottedDomain => Err(
            ValidationErrorView::InvalidFormat { expected: email_domain_expected() },
        ),
        EmailCheck::EmptyLabel => Err(
            ValidationErrorView::InvalidFormat { expected: email_labels_expected() },
        ),
        EmailCheck::ShortTld => Err(
            ValidationErrorView::InvalidFormat { expected: email_tld_expected() },
        ),
        EmailCheck::BadCharacters => Err(
            ValidationErrorView::InvalidCharacters { allowed: email_allowed() },
        ),
        EmailCheck::Valid => Ok(ascii_lower(t)),
    }
}

/// `sanitize_message` and `validate_name` on input `s`: non-empty, bounded, escaped.
pub open spec fn escaped_outcome(s: Seq<char>, max_len: nat) -> Result<Seq<char>, ValidationErrorView> {
    let t = trim(s);
    if t.len() == 0 {
        Err(ValidationErrorView::Empty)
    } else if t.len() > max_len {
        Err(ValidationErrorView::TooLong { max: max_len, actual: t.len() })
    } else {
        Ok(html_escaped(t))
    }
}

/// `validate_length` on input `s`: the trimmed text's length is that of its UTF-8
/// encoding.
pub open spec fn length_outcome(s: Seq<char>, max_len: nat) -> Result<Seq<char>, ValidationErrorView> {
    let t = trim(s);
    if utf8_len(t) > max_len {
        Err(ValidationErrorView::TooLong { max: max_len, actual: utf8_len(t) })
    } else {
        Ok(t)
    }
}

/// `validate_min_length` on input `s`: the trimmed text's length is that of its
/// UTF-8 encoding.
pub open spec fn min_length_outcome(s: Seq<char>, min_len: nat) -> Result<Seq<char>, ValidationErrorView> {
    let t = trim(s);
    if t.len() == 0 && min_len > 0 {
        Err(ValidationErrorView::Empty)
    } else if utf8_len(t) < min_len {
        Err(ValidationErrorView::TooShort { min: min_len, actual: utf8_len(t) })
    } else {
        Ok(t)
    }
}

// ---------------------------------------------------------------------------
// Validators
// ---------------------------------------------------------------------------

/// The trimmed characters of `input` and how many there are.
fn trimmed_with_len(input: &str) -> (r: (Vec<char>, usize))
    ensures
        r.0@ == trim(input@),
        r.1 == trim(input@).len(),
{
    let v = chars_of(input);
    let t = trim_chars(&v);
    let n = t.len();
    (t, n)
}

/// Sanitizes a string by escaping HTML entities to prevent XSS attacks.
pub fn sanitize_html(input: &str) -> (out: String)
    ensures
        out@ == html_escaped(input@),
{
    crate::shared::sanitize_html(input)
}

/// Validates and sanitizes a slug: trimmed, non-empty, at most `max_len` characters,
/// only ASCII alphanumerics, `-` and `_`; returned in lower case.
pub fn validate_slug(input: &str, max_len: usize) -> (r: Result<String, ValidationError>)
    ensures
        outcome(r) == slug_outcome(input@, max_len as nat),
{
    let (t, n) = trimmed_with_len(input);
    if t.len() == 0 {
        return Err(ValidationError::Empty);
    }
    if n > max_len {
        return Err(ValidationError::TooLong { max: max_len, actual: n });
    }
    if !all_slug_chars(&t) {
        return Err(
            ValidationError::InvalidCharacters {
                allowed: owned("alphanumeric characters, hyphens (-), and underscores (_)"),
            },
        );
    }
    Ok(lower_string_from(&t))
}

/// `t` with runs of spaces collapsed.
fn collapse_spaces_chars(t: &Vec<char>) -> (r: Vec<char>)
    ensures
        r@ == collapse_spaces(t@),
{
    let mut r: Vec<char> = Vec::new();
    let mut i: usize = 0;
    while i < t.len()
        invariant
            i <= t.len(),
            r@ == collapse_spaces(t@.take(i as int)),
        decreases t.len() - i,
    {
        let ghost p = t@.take(i + 1);
        assert(p.drop_last() =~= t@.take(i as int));
        if i >= 1 && t[i] == ' ' && t[i - 1] == ' ' {
            assert(p[p.len() - 2] == t@[i - 1]);
        } else {
            if i >= 1 {
                assert(p[p.len() - 2] == t@[i - 1]);
            }
            r.push(t[i]);
        }
        i = i + 1;
    }
    assert(t@.take(i as int) =~= t@);
    r
}

/// Validates and sanitizes a tag: trimmed, non-empty, at most `max_len` characters,
/// only ASCII alphanumerics, `-`, `_` and spaces; runs of spaces are collapsed.
pub fn validate_tag(input: &str, max_len: usize) -> (r: Result<String, ValidationError>)
    ensures
        outcome(r) == tag_outcome(input@, max_len as nat),
{
    let (t, n) = trimmed_with_len(input);
    if t.len() == 0 {
        return Err(ValidationError::Empty);
    }
    if n > max_len {
        return Err(ValidationError::TooLong { max: max_len, actual: n });
    }
    if !all_tag_chars(&t) {
        return Err(
            ValidationError::InvalidCharacters {
                allowed: owned("alphanumeric characters, hyphens (-), underscores (_), and spaces"),
            },
        );
    }
    let c = collapse_spaces_chars(&t);
    Ok(string_from(&c))
}

/// Validates an e-mail address; on success returns it trimmed and lower-cased.
pub fn validate_email(input: &str) -> (r: Result<String, ValidationError>)
    ensures
        outcome(r) == email_outcome(input@),
{
    let (t, n) = trimmed_with_len(input);
    match check_email_chars(&t) {
        EmailCheck::Empty => Err(ValidationError::Empty),
        EmailCheck::TooLong => Err(ValidationError::TooLong { max: MAX_EMAIL_LEN, actual: n }),
        EmailCheck::NotOneAt => Err(
            ValidationError::InvalidFormat {
                expected: owned("valid email address (user@domain.com)"),
            },
        ),
        EmailCheck::BadLocalPart => Err(
            ValidationError::InvalidFormat {
                expected: owned("valid email address with local part (1-64 characters)"),
            },
        ),
        EmailCheck::NoDottedDomain => Err(
            ValidationError::InvalidFormat {
                expected: owned("valid email address with domain (e.g., example.com)"),
            },
        ),
        EmailCheck::EmptyLabel => Err(
            ValidationError::InvalidFormat {
                expected: owned("valid email address with proper domain format"),
            },
        ),
        EmailCheck::ShortTld => Err(
            ValidationError::InvalidFormat {
                expected: owned("valid email address with valid TLD (at least 2 characters)"),
            },
        ),
        EmailCheck::BadCharacters => Err(
            ValidationError::InvalidCharacters {
                allowed: owned("alphanumeric characters and standard email special characters"),
            },
        ),
        EmailCheck::Valid => Ok(lower_string_from(&t)),
    }
}

/// Sanitizes a contact form message: trimmed, non-empty, at most `max_len`
/// characters, with all HTML escaped (newlines are kept).
pub fn sanitize_message(input: &str, max_len: usize) -> (r: Result<String, ValidationError>)
    ensures
        outcome(r) == escaped_outcome(input@, max_len as nat),
{
    let (t, n) = trimmed_with_len(input);
    if t.len() == 0 {
        return Err(ValidationError::Empty);
    }
    if n > max_len {
        return Err(ValidationError::TooLong { max: max_len, actual: n });
    }
    Ok(escape_html_chars(&t))
}

/// Validates and sanitizes a name: trimmed, non-empty, at most `max_len` characters,
/// with all HTML escaped (any Unicode letters are kept).
pub fn validate_name(input: &str, max_len: usize) -> (r: Result<String, ValidationError>)
    ensures
        outcome(r) == escaped_outcome(input@, max_len as nat),
{
    let (t, n) = trimmed_with_len(input);
    if t.len() == 0 {
        return Err(ValidationError::Empty);
    }
    if n > max_len {
        return Err(ValidationError::TooLong { max: max_len, actual: n });
    }
    Ok(escape_html_chars(&t))
}

/// The trimmed text of `input` and the length of its UTF-8 encoding.
fn trimmed_with_byte_len(input: &str) -> (r: (String, usize))
    ensures
        r.0@ == trim(input@),
        r.1 == utf8_len(trim(input@)),
{
    let v = chars_of(input);
    let t = string_from(&trim_chars(&v));
    let n = t.as_str().as_bytes().len();
    (t, n)
}

/// Validates that the trimmed input is at most `max_len` bytes long; returns it
/// trimmed.
pub fn validate_length(input: &str, max_len: usize) -> (r: Result<String, ValidationError>)
    ensures
        outcome(r) == length_outcome(input@, max_len as nat),
{
    let (t, n) = trimmed_with_byte_len(input);
    if n > max_len {
        return Err(ValidationError::TooLong { max: max_len, actual: n });
    }
    Ok(t)
}

/// Validates that the trimmed input is non-empty when a minimum is set and at
/// least `min_len` bytes long; returns it trimmed.
pub fn validate_min_length(input: &str, min_len: usize) -> (r: Result<String, ValidationError>)
    ensures
        outcome(r) == min_length_outcome(input@, min_len as nat),
{
    let (t, n) = trimmed_with_byte_len(input);
    if n == 0 && min_len > 0 {
        return Err(ValidationError::Empty);
    }
    if n < min_len {
        return Err(ValidationError::TooShort { min: min_len, actual: n });
    }
    Ok(t)
}

// ---------------------------------------------------------------------------
// Laws
// ---------------------------------------------------------------------------

/// `validate_email` accepts exactly the addresses that `is_valid_email` accepts:
/// both run the same ordered checks on the trimmed address.
pub proof fn law_email_validators_agree(s: Seq<char>)
    ensures
        (email_outcome(s) is Ok) <==> (email_check(trim(s)) == EmailCheck::Valid),
{
}

proof fn lemma_ascii_lower_keeps_slug(t: Seq<char>)
    requires
        slug_chars_ok(t),
    ensures
        slug_chars_ok(ascii_lower(t)),
        ascii_lower(t).len() == t.len(),
{
    assert forall|i: int| 0 <= i < ascii_lower(t).len() implies crate::shared::is_slug_char(
        #[trigger] ascii_lower(t)[i],
    ) by {
        assert(crate::shared::is_slug_char(t[i]));
    }
}

/// What `validate_slug` returns is itself a valid slug for the same limit, and it
/// succeeds exactly when the trimmed input is a valid slug.
pub proof fn law_validated_slug_is_valid(s: Seq<char>, max_len: nat)
    ensures
        (slug_outcome(s, max_len) is Ok) <==> crate::shared::slug_ok(trim(s), max_len),
        slug_outcome(s, max_len) matches Ok(r) ==> crate::shared::slug_ok(r, max_len) && r == ascii_lower(r),
{
    let t = trim(s);
    if slug_chars_ok(t) {
        lemma_slug_chars_are_tag_chars(t);
        lemma_tag_chars_utf8_len(t);
    }
    if slug_outcome(s, max_len) is Ok {
        let r = ascii_lower(t);
        lemma_ascii_lower_keeps_slug(t);
        lemma_slug_chars_are_tag_chars(t);
        lemma_tag_chars_utf8_len(t);
        lemma_slug_chars_are_tag_chars(r);
        lemma_tag_chars_utf8_len(r);
        assert(ascii_lower(r) =~= r) by {
            assert forall|i: int| 0 <= i < r.len() implies ascii_lower(r)[i] == r[i] by {
                assert(crate::shared::is_slug_char(t[i]));
            }
        }
    }
}

/// The facts about collapsing spaces that the tag law needs.
pub proof fn lemma_collapse_spaces(t: Seq<char>)
    ensures
        collapse_spaces(t).len() <= t.len(),
        tag_chars_ok(t) ==> tag_chars_ok(collapse_spaces(t)),
        forall|i: int|
            0 <= i < collapse_spaces(t).len() - 1 ==> !(#[trigger] collapse_spaces(t)[i] == ' '
                && collapse_spaces(t)[i + 1] == ' '),
        t.len() > 0 ==> collapse_spaces(t).len() > 0 && collapse_spaces(t)[0] == t[0]
            && collapse_spaces(t).last() == t.last(),
    decreases t.len(),
{
    if t.len() > 0 {
        let u = t.drop_last();
        lemma_collapse_spaces(u);
        let c = collapse_spaces(t);
        let cu = collapse_spaces(u);
        if tag_chars_ok(t) {
            assert(tag_chars_ok(u)) by {
                assert forall|i: int| 0 <= i < u.len() implies crate::shared::is_tag_char(#[trigger] u[i]) by {
                    assert(u[i] == t[i]);
                }
            }
        }
        if t.len() >= 2 && t.last() == ' ' && t[t.len() - 2] == ' ' {
            assert(u.last() == t[t.len() - 2]);
            assert(u[0] == t[0]);
        } else {
            assert(c == cu.push(t.last()));
            if u.len() > 0 {
                assert(u[0] == t[0]);
                assert(u.last() == t[t.len() - 2]);
            }
            assert forall|i: int| 0 <= i < c.len() - 1 implies !(#[trigger] c[i] == ' ' && c[i + 1]
                == ' ') by {
                if i < cu.len() - 1 {
                    assert(c[i] == cu[i] && c[i + 1] == cu[i + 1]);
                } else {
                    assert(c[i] == cu.last());
                }
            }
            if tag_chars_ok(t) {
                assert forall|i: int| 0 <= i < c.len() implies crate::shared::is_tag_char(#[trigger] c[i]) by {
                    if i < cu.len() {
                        assert(c[i] == cu[i]);
                    }
                }
            }
        }
    }
}

/// What `validate_tag` returns is a valid tag for the same limit, with no space at
/// either end and no two spaces in a row.
pub proof fn law_validated_tag_is_normalized(s: Seq<char>, max_len: nat)
    ensures
        tag_outcome(s, max_len) matches Ok(r) ==> {
            &&& tag_ok(r, max_len)
            &&& r[0] != ' '
            &&& r.last() != ' '
            &&& forall|i: int| 0 <= i < r.len() - 1 ==> !(#[trigger] r[i] == ' ' && r[i + 1] == ' ')
        },
{
    let t = trim(s);
    if tag_outcome(s, max_len) is Ok {
        let r = collapse_spaces(t);
        crate::text::lemma_trim_is_subrange(s);
        lemma_collapse_spaces(t);
        lemma_tag_chars_utf8_len(t);
        lemma_tag_chars_utf8_len(r);
    }
}

/// Whatever `sanitize_message` and `validate_name` return carries no raw HTML
/// metacharacter.
pub proof fn law_escaped_output_has_no_markup(s: Seq<char>, max_len: nat)
    ensures
        escaped_outcome(s, max_len) matches Ok(r) ==> forall|i: int|
            0 <= i < r.len() ==> !crate::shared::is_html_meta(#[trigger] r[i]),
{
    crate::shared::lemma_html_escaped_has_no_meta(trim(s));
}

} // verus!
