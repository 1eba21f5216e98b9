//! The decisions behind the page server functions: which database queries are
//! sent (only for inputs that are safe to interpolate), tag counting, and the
//! contact form's spam check.

use vstd::prelude::*;

use std::fmt::Write as _;

use crate::markdown::{markdown_outcome, process_markdown, MarkdownError};
use crate::shared::{backoff_delay, slug_ok, tag_ok, RetryConfig, RetryRun};
use crate::text::{
    chars_of, decimal, lemma_text_less_asymmetric, lemma_text_less_irreflexive,
    lemma_text_less_total, lemma_text_less_transitive, owned, push_chars, push_decimal, slice_chars,
    text_less,
};

verus! {

broadcast use vstd::string::group_string_axioms;

/// Number of activities per page.
pub const ACTIVITIES_PER_PAGE: usize = 10;

/// Longest slug accepted in a query.
pub const MAX_SLUG_LEN: usize = 200;

/// Longest tag accepted in a query.
pub const MAX_TAG_LEN: usize = 100;

/// Validates that a slug contains only safe characters for use in database queries:
/// non-empty, at most 200 bytes, ASCII alphanumerics, `-` and `_`.
pub fn is_valid_slug(slug: &str) -> (b: bool)
    ensures
        b == slug_ok(slug@, MAX_SLUG_LEN as nat),
{
    crate::shared::is_valid_slug(slug, MAX_SLUG_LEN)
}

/// Validates that a tag contains only safe characters for use in database queries:
/// non-empty, at most 100 bytes, ASCII alphanumerics, `-`, `_` and spaces.
pub fn is_valid_tag(tag: &str) -> (b: bool)
    ensures
        b == tag_ok(tag@, MAX_TAG_LEN as nat),
{
    crate::shared::is_valid_tag(tag, MAX_TAG_LEN)
}

/// The first (at most) 50 characters of `s`, as quoted in error messages.
pub open spec fn excerpt(s: Seq<char>) -> Seq<char> {
    if s.len() <= 50 {
        s
    } else {
        s.take(50)
    }
}

fn push_excerpt(out: &mut String, s: &str)
    ensures
        final(out)@ == old(out)@ + excerpt(s@),
{
    let v = chars_of(s);
    let n = if v.len() <= 50 {
        v.len()
    } else {
        50
    };
    let e = slice_chars(&v, 0, n);
    assert(e@ =~= excerpt(s@));
    push_chars(out, &e);
}

/// `prefix'excerpt'`: the message for a rejected value.
pub open spec fn rejection(prefix: Seq<char>, value: Seq<char>) -> Seq<char> {
    prefix + "'"@ + excerpt(value) + "'"@
}

fn rejection_message(prefix: &str, value: &str) -> (m: String)
    ensures
        m@ == rejection(prefix@, value@),
{
    let mut m = owned(prefix);
    m.push_str("'");
    push_excerpt(&mut m, value);
    m.push_str("'");
    m
}

/// The query that lists activities of page `page` (0-based).
pub open spec fn activities_query(page: nat) -> Seq<char> {
    "SELECT * FROM activity ORDER BY created_at DESC LIMIT 10 START "@ + decimal(page * 10)
}

/// Constructs the query fetching page `page` of the activity feed.
pub fn build_select_activities_query(page: usize) -> (q: String)
    requires
        page * ACTIVITIES_PER_PAGE <= usize::MAX,
    ensures
        q@ == activities_query(page as nat),
{
    let start = page * ACTIVITIES_PER_PAGE;
    let mut q = owned("SELECT * FROM activity ORDER BY created_at DESC LIMIT 10 START ");
    push_decimal(&mut q, start as u64);
    q
}

// ---------------------------------------------------------------------------
// Post queries
// ---------------------------------------------------------------------------

pub open spec fn all_posts_query() -> Seq<char> {
    "SELECT *, author.* from post WHERE is_published = true ORDER BY created_at DESC;"@
}

pub open spec fn quoted(t: Seq<char>) -> Seq<char> {
    "\""@ + t + "\""@
}

/// The tags, each in double quotes, separated by `, `.
pub open spec fn quoted_list(tags: Seq<Seq<char>>) -> Seq<char>
    decreases tags.len(),
{
    if tags.len() == 0 {
        Seq::empty()
    } else if tags.len() == 1 {
        quoted(tags[0])
    } else {
        quoted_list(tags.drop_last()) + ", "@ + quoted(tags.last())
    }
}

pub open spec fn strings_view(v: Seq<String>) -> Seq<Seq<char>> {
    v.map_values(|s: String| s@)
}

/// `i` is the first tag that fails the tag check.
pub open spec fn first_bad_tag(tags: Seq<Seq<char>>, i: int) -> bool {
    &&& 0 <= i < tags.len()
    &&& !tag_ok(tags[i], MAX_TAG_LEN as nat)
    &&& forall|j: int| 0 <= j < i ==> tag_ok(#[trigger] tags[j], MAX_TAG_LEN as nat)
}

/// The post-listing query for `tags`: all published posts when there are none,
/// otherwise posts carrying any of them, provided every tag is valid.
pub open spec fn posts_query(tags: Seq<Seq<char>>) -> Result<Seq<char>, Seq<char>> {
    if tags.len() == 0 {
        Ok(all_posts_query())
    } else if exists|i: int| first_bad_tag(tags, i) {
        Err(rejection("Invalid tag format: "@, tags[choose|i: int| first_bad_tag(tags, i)]))
    } else {
        Ok(
            "SELECT *, author.* from post WHERE tags CONTAINSANY ["@ + quoted_list(tags)
                + "] ORDER BY created_at DESC;"@,
        )
    }
}

pub open spec fn result_view(r: Result<String, String>) -> Result<Seq<char>, Seq<char>> {
    match r {
        Ok(s) => Ok(s@),
        Err(e) => Err(e@),
    }
}

/// Builds the query that lists posts, filtered by `tags` when there are any.
/// A tag that is not safe to interpolate is rejected with an error message.
pub fn build_posts_query(tags: &Vec<String>) -> (r: Result<String, String>)
    ensures
        result_view(r) == posts_query(strings_view(tags@)),
{
    let ghost tv = strings_view(tags@);
    if tags.len() == 0 {
        return Ok(owned("SELECT *, author.* from post WHERE is_published = true ORDER BY created_at DESC;"));
    }
    let mut i: usize = 0;
    while i < tags.len()
        invariant
            i <= tags.len(),
            tv == strings_view(tags@),
            forall|j: int| 0 <= j < i ==> tag_ok(#[trigger] tv[j], MAX_TAG_LEN as nat),
        decreases tags.len() - i,
    {
        if !is_valid_tag(tags[i].as_str()) {
            proof {
                assert(first_bad_tag(tv, i as int));
                let k = choose|k: int| first_bad_tag(tv, k);
                if k < i {
                    assert(tag_ok(tv[k], MAX_TAG_LEN as nat));
                } else if k > i {
                    assert(tag_ok(tv[i as int], MAX_TAG_LEN as nat));
                }
            }
            return Err(rejection_message("Invalid tag format: ", tags[i].as_str()));
        }
        i = i + 1;
    }
    let mut q = owned("SELECT *, author.* from post WHERE tags CONTAINSANY [");
    let ghost start = q@;
    let mut k: usize = 0;
    while k < tags.len()
        invariant
            k <= tags.len(),
            tv == strings_view(tags@),
            q@ == start + quoted_list(tv.take(k as int)),
        decreases tags.len() - k,
    {
        let ghost before = q@;
        if k > 0 {
            q.push_str(", ");
        }
        q.push_str("\"");
        q.push_str(tags[k].as_str());
        q.push_str("\"");
        proof {
            let p = tv.take(k + 1);
            assert(p.drop_last() =~= tv.take(k as int));
            assert(p.last() == tags@[k as int]@);
            if k == 0 {
                assert(q@ =~= start + quoted_list(p));
            } else {
                assert(q@ =~= start + quoted_list(p));
            }
        }
        k = k + 1;
    }
    assert(tv.take(k as int) =~= tv);
    proof {
        assert forall|j: int| !first_bad_tag(tv, j) by {
            if 0 <= j < tv.len() {
                assert(tag_ok(tv[j], MAX_TAG_LEN as nat));
            }
        }
    }
    q.push_str("] ORDER BY created_at DESC;");
    Ok(q)
}

/// The query fetching the post with slug `slug`, when the slug is valid.
pub open spec fn post_query(slug: Seq<char>) -> Result<Seq<char>, Seq<char>> {
    if slug_ok(slug, MAX_SLUG_LEN as nat) {
        Ok("SELECT *, author.* from post WHERE slug = \""@ + slug + "\""@)
    } else {
        Err(rejection("Invalid slug format: "@, slug))
    }
}

/// Builds the query that fetches one post by slug; an unsafe slug is rejected.
pub fn build_post_query(slug: &str) -> (r: Result<String, String>)
    ensures
        result_view(r) == post_query(slug@),
{
    if !is_valid_slug(slug) {
        return Err(rejection_message("Invalid slug format: ", slug));
    }
    let mut q = owned("SELECT *, author.* from post WHERE slug = \"");
    q.push_str(slug);
    q.push_str("\"");
    Ok(q)
}

/// The query counting a view of post `id`, when the id is valid.
pub open spec fn increment_views_query(id: Seq<char>) -> Result<Seq<char>, Seq<char>> {
    if slug_ok(id, MAX_SLUG_LEN as nat) {
        Ok("UPDATE post:"@ + id + " SET total_views = total_views + 1;"@)
    } else {
        Err(rejection("Invalid post id format: "@, id))
    }
}

/// Builds the query that counts a view of a post; an unsafe id is rejected.
pub fn build_increment_views_query(id: &str) -> (r: Result<String, String>)
    ensures
        result_view(r) == increment_views_query(id@),
{
    if !is_valid_slug(id) {
        return Err(rejection_message("Invalid post id format: ", id));
    }
    let mut q = owned("UPDATE post:");
    q.push_str(id);
    q.push_str(" SET total_views = total_views + 1;");
    Ok(q)
}

/// A query is only ever built from values that passed the slug or tag check.
pub proof fn law_queries_only_interpolate_checked_values(tags: Seq<Seq<char>>, slug: Seq<char>)
    ensures
        posts_query(tags) is Ok ==> forall|i: int|
            0 <= i < tags.len() ==> tag_ok(#[trigger] tags[i], MAX_TAG_LEN as nat),
        post_query(slug) is Ok ==> slug_ok(slug, MAX_SLUG_LEN as nat),
        increment_views_query(slug) is Ok ==> slug_ok(slug, MAX_SLUG_LEN as nat),
{
    if posts_query(tags) is Ok && tags.len() > 0 {
        assert forall|i: int| 0 <= i < tags.len() implies tag_ok(#[trigger] tags[i], MAX_TAG_LEN as nat) by {
            if !tag_ok(tags[i], MAX_TAG_LEN as nat) {
                lemma_some_first_bad(tags, i);
            }
        }
    }
}

proof fn lemma_some_first_bad(tags: Seq<Seq<char>>, i: int)
    requires
        0 <= i < tags.len(),
        !tag_ok(tags[i], MAX_TAG_LEN as nat),
    ensures
        exists|k: int| first_bad_tag(tags, k),
    decreases i,
{
    if forall|j: int| 0 <= j < i ==> tag_ok(#[trigger] tags[j], MAX_TAG_LEN as nat) {
        assert(first_bad_tag(tags, i));
    } else {
        let j = choose|j: int| 0 <= j < i && !tag_ok(#[trigger] tags[j], MAX_TAG_LEN as nat);
        lemma_some_first_bad(tags, j);
    }
}

// ---------------------------------------------------------------------------
// Tag counts
// ---------------------------------------------------------------------------

/// How often `t` occurs in `tags`.
pub open spec fn occurrences(tags: Seq<Seq<char>>, t: Seq<char>) -> nat
    decreases tags.len(),
{
    if tags.len() == 0 {
        0
    } else {
        occurrences(tags.drop_last(), t) + if tags.last() == t {
            1nat
        } else {
            0nat
        }
    }
}

pub open spec fn counts_view(v: Seq<(String, usize)>) -> Seq<(Seq<char>, nat)> {
    v.map_values(|p: (String, usize)| (p.0@, p.1 as nat))
}

/// `counts` lists each tag of `tags` once, with its number of occurrences.
pub open spec fn counts_tags(counts: Seq<(Seq<char>, nat)>, tags: Seq<Seq<char>>) -> bool {
    &&& forall|i: int, j: int|
        0 <= i < counts.len() && 0 <= j < counts.len() && i != j ==> #[trigger] counts[i].0
            != #[trigger] counts[j].0
    &&& forall|i: int| 0 <= i < counts.len() ==> #[trigger] counts[i].1 == occurrences(tags, counts[i].0)
    &&& forall|i: int| 0 <= i < counts.len() ==> tags.contains(#[trigger] counts[i].0)
    &&& forall|k: int| 0 <= k < tags.len() ==> exists|i: int|
        0 <= i < counts.len() && #[trigger] counts[i].0 == #[trigger] tags[k]
}

proof fn lemma_occurrences_absent(tags: Seq<Seq<char>>, t: Seq<char>)
    requires
        !tags.contains(t),
    ensures
        occurrences(tags, t) == 0,
    decreases tags.len(),
{
    if tags.len() > 0 {
        assert(!tags.drop_last().contains(t)) by {
            if tags.drop_last().contains(t) {
                let k = choose|k: int| 0 <= k < tags.drop_last().len() && tags.drop_last()[k] == t;
                assert(tags[k] == t);
            }
        }
        lemma_occurrences_absent(tags.drop_last(), t);
        assert(tags.last() != t) by {
            if tags.last() == t {
                assert(tags[tags.len() - 1] == t);
            }
        }
    }
}

/// The sum of the counts.
pub open spec fn total_count(counts: Seq<(Seq<char>, nat)>) -> nat
    decreases counts.len(),
{
    if counts.len() == 0 {
        0
    } else {
        total_count(counts.drop_last()) + counts.last().1
    }
}

proof fn lemma_total_update(counts: Seq<(Seq<char>, nat)>, j: int, key: Seq<char>)
    requires
        0 <= j < counts.len(),
    ensures
        total_count(counts.update(j, (key, counts[j].1 + 1))) == total_count(counts) + 1,
    decreases counts.len(),
{
    let u = counts.update(j, (key, counts[j].1 + 1));
    if j < counts.len() - 1 {
        assert(u.drop_last() =~= counts.drop_last().update(j, (key, counts[j].1 + 1)));
        lemma_total_update(counts.drop_last(), j, key);
    } else {
        assert(u.drop_last() =~= counts.drop_last());
    }
}

proof fn lemma_total_insert(counts: Seq<(Seq<char>, nat)>, j: int, key: Seq<char>)
    requires
        0 <= j <= counts.len(),
    ensures
        total_count(counts.insert(j, (key, 1nat))) == total_count(counts) + 1,
    decreases counts.len(),
{
    let ins = counts.insert(j, (key, 1nat));
    if j == counts.len() {
        assert(ins.drop_last() =~= counts);
    } else {
        assert(ins.drop_last() =~= counts.drop_last().insert(j, (key, 1nat)));
        lemma_total_insert(counts.drop_last(), j, key);
    }
}

/// The counted tags are in ascending order, the order in which a
/// `BTreeMap<String, usize>` lists its keys.
pub open spec fn counts_sorted(counts: Seq<(Seq<char>, nat)>) -> bool {
    forall|i: int, j: int|
        0 <= i < j < counts.len() ==> text_less(#[trigger] counts[i].0, #[trigger] counts[j].0)
}

/// Counts the posts per tag: each tag once, in ascending order, with the
/// number of times it occurs.
#[verifier::rlimit(50)]
pub fn count_tags(tags: &Vec<String>) -> (counts: Vec<(String, usize)>)
    ensures
        counts_tags(counts_view(counts@), strings_view(tags@)),
        counts_sorted(counts_view(counts@)),
        total_count(counts_view(counts@)) == tags@.len(),
{
    let ghost tv = strings_view(tags@);
    let mut counts: Vec<(String, usize)> = Vec::new();
    let mut i: usize = 0;
    assert(counts_view(counts@) =~= Seq::<(Seq<char>, nat)>::empty());
    while i < tags.len()
        invariant
            i <= tags.len(),
            tv == strings_view(tags@),
            counts_tags(counts_view(counts@), tv.take(i as int)),
            counts_sorted(counts_view(counts@)),
            total_count(counts_view(counts@)) == i,
            forall|c: int| 0 <= c < counts@.len() ==> counts@[c].1 <= i,
        decreases tags.len() - i,
    {
        let ghost cv = counts_view(counts@);
        let ghost p = tv.take(i as int);
        let ghost q = tv.take(i + 1);
        let ghost t = tv[i as int];
        assert(q.drop_last() =~= p);
        assert(q.last() == t);
        assert(t == tags@[i as int]@);
        let mut pos: usize = 0;
        while pos < counts.len() && crate::text::str_less(counts[pos].0.as_str(), tags[i].as_str())
            invariant
                pos <= counts.len(),
                i < tags.len(),
                cv == counts_view(counts@),
                t == tags@[i as int]@,
                forall|d: int| 0 <= d < pos ==> text_less(#[trigger] cv[d].0, t),
            decreases counts.len() - pos,
        {
            pos = pos + 1;
        }
        if pos < counts.len() && crate::text::str_eq(counts[pos].0.as_str(), tags[i].as_str()) {
            let name = counts[pos].0.clone();
            let n = counts[pos].1;
            counts.set(pos, (name, n + 1));
            proof {
                let nv = counts_view(counts@);
                assert(nv =~= cv.update(pos as int, (cv[pos as int].0, cv[pos as int].1 + 1)));
                lemma_total_update(cv, pos as int, cv[pos as int].0);
                assert forall|a: int| 0 <= a < nv.len() implies #[trigger] nv[a].1 == occurrences(q, nv[a].0) by {
                    assert(nv[a].0 == cv[a].0);
                    if a == pos {
                        assert(nv[a].1 == cv[a].1 + 1);
                    } else {
                        assert(nv[a] == cv[a]);
                        assert(cv[a].0 != cv[pos as int].0);
                    }
                }
                assert forall|k: int| 0 <= k < q.len() implies exists|a: int|
                    0 <= a < nv.len() && #[trigger] nv[a].0 == #[trigger] q[k] by {
                    if k < p.len() {
                        assert(q[k] == p[k]);
                        let a = choose|a: int| 0 <= a < cv.len() && #[trigger] cv[a].0 == #[trigger] p[k];
                        assert(nv[a].0 == cv[a].0);
                    } else {
                        assert(nv[pos as int].0 == q[k]);
                    }
                }
                assert forall|a: int| 0 <= a < nv.len() implies q.contains(#[trigger] nv[a].0) by {
                    assert(nv[a].0 == cv[a].0);
                    let k = choose|k: int| 0 <= k < p.len() && p[k] == cv[a].0;
                    assert(q[k] == p[k]);
                }
                assert forall|a: int, b: int|
                    0 <= a < nv.len() && 0 <= b < nv.len() && a != b implies #[trigger] nv[a].0
                        != #[trigger] nv[b].0 by {
                    assert(nv[a].0 == cv[a].0 && nv[b].0 == cv[b].0);
                }
                assert forall|a: int, b: int| 0 <= a < b < nv.len() implies text_less(
                    #[trigger] nv[a].0,
                    #[trigger] nv[b].0,
                ) by {
                    assert(nv[a].0 == cv[a].0 && nv[b].0 == cv[b].0);
                }
            }
        } else {
            proof {
                assert forall|a: int| 0 <= a < cv.len() implies cv[a].0 != t by {
                    if a < pos {
                        lemma_text_less_irreflexive(t);
                    } else if a == pos {
                    } else {
                        assert(text_less(cv[pos as int].0, cv[a].0));
                        if cv[a].0 == t {
                            lemma_text_less_total(cv[pos as int].0, t);
                            lemma_text_less_asymmetric(cv[pos as int].0, t);
                        }
                    }
                }
                assert(!p.contains(t)) by {
                    if p.contains(t) {
                        let k = choose|k: int| 0 <= k < p.len() && p[k] == t;
                        let a = choose|a: int| 0 <= a < cv.len() && #[trigger] cv[a].0 == #[trigger] p[k];
                    }
                }
                lemma_occurrences_absent(p, t);
                if pos < cv.len() {
                    lemma_text_less_total(cv[pos as int].0, t);
                }
            }
            counts.insert(pos, (tags[i].clone(), 1));
            proof {
                let nv = counts_view(counts@);
                assert(nv.len() == cv.len() + 1);
                assert(nv =~= cv.insert(pos as int, (t, 1nat)));
                lemma_total_insert(cv, pos as int, t);
                assert forall|a: int| 0 <= a < nv.len() implies #[trigger] nv[a] == if a < pos {
                    cv[a]
                } else if a == pos {
                    (t, 1nat)
                } else {
                    cv[a - 1]
                } by {}
                assert forall|a: int| 0 <= a < nv.len() implies #[trigger] nv[a].1 == occurrences(q, nv[a].0) by {
                    if a != pos {
                        let b = if a < pos { a } else { a - 1 };
                        assert(nv[a] == cv[b]);
                        assert(cv[b].0 != t);
                    }
                }
                assert forall|k: int| 0 <= k < q.len() implies exists|a: int|
                    0 <= a < nv.len() && #[trigger] nv[a].0 == #[trigger] q[k] by {
                    if k < p.len() {
                        assert(q[k] == p[k]);
                        let b = choose|b: int| 0 <= b < cv.len() && #[trigger] cv[b].0 == #[trigger] p[k];
                        if b < pos {
                            assert(nv[b].0 == cv[b].0);
                        } else {
                            assert(nv[b + 1].0 == cv[b].0);
                        }
                    } else {
                        assert(nv[pos as int].0 == q[k]);
                    }
                }
                assert forall|a: int| 0 <= a < nv.len() implies q.contains(#[trigger] nv[a].0) by {
                    if a == pos {
                        assert(q[q.len() - 1] == nv[a].0);
                    } else {
                        let b = if a < pos { a } else { a - 1 };
                        assert(nv[a].0 == cv[b].0);
                        let k = choose|k: int| 0 <= k < p.len() && p[k] == cv[b].0;
                        assert(q[k] == p[k]);
                    }
                }
                assert forall|a: int, b: int| 0 <= a < b < nv.len() implies text_less(
                    #[trigger] nv[a].0,
                    #[trigger] nv[b].0,
                ) by {
                    if a < pos && b < pos {
                    } else if a < pos && b == pos {
                    } else if a < pos {
                        assert(text_less(cv[a].0, t));
                        assert(text_less(t, cv[pos as int].0));
                        if b - 1 > pos {
                            lemma_text_less_transitive(t, cv[pos as int].0, cv[b - 1].0);
                        }
                        lemma_text_less_transitive(cv[a].0, t, cv[b - 1].0);
                    } else if a == pos {
                        assert(text_less(t, cv[pos as int].0));
                        if b - 1 > pos {
                            lemma_text_less_transitive(t, cv[pos as int].0, cv[b - 1].0);
                        }
                    } else {
                        assert(nv[a] == cv[a - 1] && nv[b] == cv[b - 1]);
                    }
                }
                assert forall|a: int, b: int|
                    0 <= a < nv.len() && 0 <= b < nv.len() && a != b implies #[trigger] nv[a].0
                        != #[trigger] nv[b].0 by {
                    if a < b {
                        assert(text_less(nv[a].0, nv[b].0));
                        lemma_text_less_irreflexive(nv[a].0);
                    } else {
                        assert(text_less(nv[b].0, nv[a].0));
                        lemma_text_less_irreflexive(nv[b].0);
                    }
                }
            }
        }
        i = i + 1;
    }
    assert(tv.take(i as int) =~= tv);
    counts
}

// ---------------------------------------------------------------------------
// Contact form
// ---------------------------------------------------------------------------

/// Contact form submission data.
///
/// The `website` field is a honeypot: people never see it, bots fill it in.
#[derive(Debug, Clone)]
pub struct ContactRequest {
    pub name: String,
    pub email: String,
    pub subject: String,
    pub message: String,
    /// Honeypot field - should be empty for legitimate submissions.
    pub website: Option<String>,
}

impl Default for ContactRequest {
    fn default() -> (r: Self)
        ensures
            r.name@.len() == 0,
            r.email@.len() == 0,
            r.subject@.len() == 0,
            r.message@.len() == 0,
            r.website is None,
    {
        ContactRequest {
            name: String::new(),
            email: String::new(),
            subject: String::new(),
            message: String::new(),
            website: None,
        }
    }
}

impl ContactRequest {
    /// Whether the honeypot was filled in (the submission is then dropped silently).
    pub fn is_bot_submission(&self) -> (b: bool)
        ensures
            b == (self.website matches Some(w) && w@.len() > 0),
    {
        match &self.website {
            Some(w) => !w.as_str().is_empty(),
            None => false,
        }
    }

    /// The subject line of the mail sent for this submission: `email - subject`.
    pub fn mail_subject(&self) -> (s: String)
        ensures
            s@ == self.email@ + " - "@ + self.subject@,
    {
        let mut s = self.email.clone();
        s.push_str(" - ");
        s.push_str(self.subject.as_str());
        s
    }

    /// The retries of the mail's delivery: back-off from 200 ms, at most 10 s
    /// apart, three retries.
    pub fn delivery_retries() -> (r: RetryRun)
        ensures
            r.wf(),
            r.retries == 0,
            r.delays@.len() == 3,
            forall|i: int| 0 <= i < 3 ==> #[trigger] r.delays@[i] == backoff_delay(200, 10, i as nat),
    {
        RetryRun::new(RetryConfig::new(200, 10, 3))
    }
}

/// Represents pagination parameters for fetching data.
#[derive(Debug, Clone, Copy)]
pub struct Pagination {
    pub page: usize,
}

// ---------------------------------------------------------------------------
// Post dates
// ---------------------------------------------------------------------------

/// The date of an RFC 3339 time, taken in UTC and written with a strftime
/// format by chrono; `None` when the time is not RFC 3339 or the format cannot
/// be written.
pub uninterp spec fn utc_date_format(time: Seq<char>, format: Seq<char>) -> Option<Seq<char>>;

/// Parses `format` with chrono's `StrftimeItems` and `time` with
/// `DateTime::parse_from_rfc3339`, and writes the UTC date of the time with
/// those items; the result is named by `utc_date_format`. A format chrono
/// rejects, a time that does not parse, and a formatting error all give `None`.
#[verifier::external_body]
fn utc_date_text(time: &str, format: &str) -> (text: Option<String>)
    ensures
        text.deep_view() == utc_date_format(time@, format@),
{
    let items = chrono::format::StrftimeItems::new(format).parse().ok()?;
    let parsed = chrono::DateTime::parse_from_rfc3339(time).ok()?;
    let date = parsed.with_timezone(&chrono::Utc).date_naive();
    let mut out = String::new();
    write!(out, "{}", date.format_with_items(items.iter())).ok()?;
    Some(out)
}

/// How a post's date appears in post lists, e.g. "Apr 29, 2026".
pub const LIST_DATE_FORMAT: &'static str = "%b %-d, %Y";

/// How a post's date appears on its own page, e.g. "Apr 29".
pub const PAGE_DATE_FORMAT: &'static str = "%b %-d";

/// The date shown for a post in a list: its UTC date as `LIST_DATE_FORMAT`
/// writes it, or the stored text unchanged when that is not an RFC 3339 time.
pub open spec fn list_date(created_at: Seq<char>) -> Seq<char> {
    match utc_date_format(created_at, LIST_DATE_FORMAT@) {
        Some(text) => text,
        None => created_at,
    }
}

/// The date shown for a post in the post lists.
pub fn post_list_date(created_at: &str) -> (date: String)
    ensures
        date@ == list_date(created_at@),
{
    match utc_date_text(created_at, LIST_DATE_FORMAT) {
        Some(text) => text,
        None => owned(created_at),
    }
}

/// Why a post page could not be prepared.
#[derive(Debug, Clone, Copy, PartialEq, Eq, Structural)]
pub enum PostPageError {
    /// The creation time is not an RFC 3339 time.
    InvalidDate,
    /// The body could not be rendered.
    Markdown(MarkdownError),
}

/// The date line and rendered body of a post page, or why there are none: the
/// date is looked at first.
pub open spec fn post_page_content(created_at: Seq<char>, body: Seq<char>) -> Result<
    (Seq<char>, Seq<char>),
    PostPageError,
> {
    match utc_date_format(created_at, PAGE_DATE_FORMAT@) {
        None => Err(PostPageError::InvalidDate),
        Some(date) => match markdown_outcome(body) {
            Ok(html) => Ok((date, html)),
            Err(e) => Err(PostPageError::Markdown(e)),
        },
    }
}

/// The date line and rendered body of a post's own page.
pub fn prepare_post_page(created_at: &str, body: &str) -> (page: Result<(String, String), PostPageError>)
    ensures
        match page {
            Ok((date, html)) => post_page_content(created_at@, body@) == Ok::<
                (Seq<char>, Seq<char>),
                PostPageError,
            >((date@, html@)),
            Err(e) => post_page_content(created_at@, body@) == Err::<
                (Seq<char>, Seq<char>),
                PostPageError,
            >(e),
        },
{
    let date = match utc_date_text(created_at, PAGE_DATE_FORMAT) {
        Some(d) => d,
        None => {
            return Err(PostPageError::InvalidDate);
        },
    };
    match process_markdown(body) {
        Ok(html) => Ok((date, html)),
        Err(e) => Err(PostPageError::Markdown(e)),
    }
}

} // verus!
