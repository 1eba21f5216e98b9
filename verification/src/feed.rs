//! The RSS feed: each published post becomes an item whose description is the
//! rendered post and whose date is in RFC 2822 form.

use vstd::prelude::*;

use crate::markdown::{markdown_outcome, process_markdown, MarkdownError};
use crate::text::owned;

verus! {

broadcast use vstd::string::group_string_axioms;

/// A published post, as the feed needs it.
pub struct FeedPost {
    pub author_name: String,
    pub title: String,
    /// The Markdown body.
    pub body: String,
    pub slug: Option<String>,
    /// The creation time in RFC 3339 form.
    pub created_at: String,
}

pub struct FeedPostView {
    pub author_name: Seq<char>,
    pub title: Seq<char>,
    pub body: Seq<char>,
    pub slug: Option<Seq<char>>,
    pub created_at: Seq<char>,
}

impl View for FeedPost {
    type V = FeedPostView;

    open spec fn view(&self) -> FeedPostView {
        FeedPostView {
            author_name: self.author_name@,
            title: self.title@,
            body: self.body@,
            slug: self.slug.deep_view(),
            created_at: self.created_at@,
        }
    }
}

/// One item of the feed.
pub struct FeedItem {
    pub author: String,
    pub title: String,
    /// The rendered HTML of the post.
    pub description: String,
    pub link: Option<String>,
    /// The publication date in RFC 2822 form.
    pub pub_date: String,
}

pub struct FeedItemView {
    pub author: Seq<char>,
    pub title: Seq<char>,
    pub description: Seq<char>,
    pub link: Option<Seq<char>>,
    pub pub_date: Seq<char>,
}

impl View for FeedItem {
    type V = FeedItemView;

    open spec fn view(&self) -> FeedItemView {
        FeedItemView {
            author: self.author@,
            title: self.title@,
            description: self.description@,
            link: self.link.deep_view(),
            pub_date: self.pub_date@,
        }
    }
}

pub open spec fn items_view(items: Seq<FeedItem>) -> Seq<FeedItemView> {
    items.map_values(|item: FeedItem| item@)
}

/// Why the feed could not be generated.
#[derive(Debug, Clone, Copy, PartialEq, Eq, Structural)]
pub enum FeedError {
    /// The post at this position has a creation time that is not RFC 3339.
    InvalidTimestamp(usize),
    /// The post at this position could not be rendered.
    Markdown(usize, MarkdownError),
}

pub const FEED_TITLE: &'static str = "alexthola";

pub const SITE_URL: &'static str = "https://alexthola.com";

pub const FEED_DESCRIPTION: &'static str = "Alex Thola's Blog \u{2013} Tech Insights & Consulting";

/// Where a post with this slug is published.
pub const POST_URL_PREFIX: &'static str = "https://alexthola.com/post/";

/// The RFC 2822 form of an RFC 3339 time, as chrono's
/// `DateTime::parse_from_rfc3339` and `to_rfc2822` give it; `None` when the
/// text is not RFC 3339.
pub uninterp spec fn rfc2822_from_rfc3339(text: Seq<char>) -> Option<Seq<char>>;

/// Parses `text` with `chrono::DateTime::parse_from_rfc3339` and writes it back
/// with `to_rfc2822`; the result is named by `rfc2822_from_rfc3339`. Every
/// parsed time has a four-digit local year, so `to_rfc2822` does not panic.
#[verifier::external_body]
fn rfc3339_to_rfc2822(text: &str) -> (date: Option<String>)
    ensures
        date.deep_view() == rfc2822_from_rfc3339(text@),
{
    chrono::DateTime::parse_from_rfc3339(text).ok().map(|time| time.to_rfc2822())
}

/// The XML that the `rss` crate writes for a channel with this title, link,
/// description and items.
pub uninterp spec fn rss_channel_xml(
    title: Seq<char>,
    link: Seq<char>,
    description: Seq<char>,
    items: Seq<FeedItemView>,
) -> Seq<char>;

/// Builds an `rss::Channel` with `ChannelBuilder` from the given fields and one
/// `rss::Item` per feed item (author, title, description, link and publication
/// date set from its fields), and writes it with `to_string`; the result is
/// named by `rss_channel_xml`.
#[verifier::external_body]
fn channel_xml(title: &str, link: &str, description: &str, items: &Vec<FeedItem>) -> (xml: String)
    ensures
        xml@ == rss_channel_xml(title@, link@, description@, items_view(items@)),
{
    let items: Vec<rss::Item> = items.iter().map(
        |f| {
            let mut item = rss::Item::default();
            item.set_author(f.author.clone());
            item.set_title(f.title.clone());
            item.set_description(f.description.clone());
            item.set_link(f.link.clone());
            item.set_pub_date(f.pub_date.clone());
            item
        },
    ).collect();
    let mut channel = rss::ChannelBuilder::default();
    channel.title(title).link(link).description(description).items(items).build().to_string()
}

/// The link of a post with this slug.
pub open spec fn post_link(slug: Option<Seq<char>>) -> Option<Seq<char>> {
    match slug {
        Some(s) => Some(POST_URL_PREFIX@ + s),
        None => None,
    }
}

/// The feed item of a post, given its RFC 2822 date and rendered body.
pub open spec fn feed_item(post: FeedPostView, date: Seq<char>, html: Seq<char>) -> FeedItemView {
    FeedItemView {
        author: post.author_name,
        title: post.title,
        description: html,
        link: post_link(post.slug),
        pub_date: date,
    }
}

/// The items of the first `n` posts, or the error of the first post whose date
/// or body fails (the date is looked at first).
pub open spec fn feed_items(posts: Seq<FeedPostView>, n: nat) -> Result<Seq<FeedItemView>, FeedError>
    decreases n,
{
    if n == 0 {
        Ok(Seq::empty())
    } else {
        match feed_items(posts, (n - 1) as nat) {
            Err(e) => Err(e),
            Ok(items) => {
                let post = posts[n - 1];
                match rfc2822_from_rfc3339(post.created_at) {
                    None => Err(FeedError::InvalidTimestamp((n - 1) as usize)),
                    Some(date) => match markdown_outcome(post.body) {
                        Err(e) => Err(FeedError::Markdown((n - 1) as usize, e)),
                        Ok(html) => Ok(items.push(feed_item(post, date, html))),
                    },
                }
            },
        }
    }
}

/// The feed of `posts`, newest first as they are given.
pub open spec fn feed_xml(posts: Seq<FeedPostView>) -> Result<Seq<char>, FeedError> {
    match feed_items(posts, posts.len()) {
        Ok(items) => Ok(rss_channel_xml(FEED_TITLE@, SITE_URL@, FEED_DESCRIPTION@, items)),
        Err(e) => Err(e),
    }
}

pub open spec fn posts_view(posts: Seq<FeedPost>) -> Seq<FeedPostView> {
    posts.map_values(|p: FeedPost| p@)
}

proof fn lemma_feed_stays_failed(posts: Seq<FeedPostView>, n: nat, m: nat)
    requires
        n <= m,
        feed_items(posts, n) is Err,
    ensures
        feed_items(posts, m) == feed_items(posts, n),
    decreases m - n,
{
    if n < m {
        lemma_feed_stays_failed(posts, n, (m - 1) as nat);
    }
}

/// The link of a post with this slug.
fn link_of(slug: &Option<String>) -> (link: Option<String>)
    ensures
        link.deep_view() == post_link(slug.deep_view()),
{
    match slug {
        Some(s) => {
            let mut link = String::new();
            link.push_str(POST_URL_PREFIX);
            link.push_str(s.as_str());
            Some(link)
        },
        None => None,
    }
}

/// The feed item of `post`, given its RFC 2822 date and rendered body.
pub fn feed_item_of(post: &FeedPost, date: String, html: String) -> (item: FeedItem)
    ensures
        item@ == feed_item(post@, date@, html@),
{
    FeedItem {
        author: post.author_name.clone(),
        title: post.title.clone(),
        description: html,
        link: link_of(&post.slug),
        pub_date: date,
    }
}

/// Generates the RSS feed of the published posts.
pub fn generate_rss(posts: &Vec<FeedPost>) -> (xml: Result<String, FeedError>)
    ensures
        match xml {
            Ok(x) => feed_xml(posts_view(posts@)) == Ok::<Seq<char>, FeedError>(x@),
            Err(e) => feed_xml(posts_view(posts@)) == Err::<Seq<char>, FeedError>(e),
        },
{
    let ghost pv = posts_view(posts@);
    let mut items: Vec<FeedItem> = Vec::new();
    let mut i: usize = 0;
    assert(items_view(items@) =~= Seq::<FeedItemView>::empty());
    while i < posts.len()
        invariant
            i <= posts.len(),
            pv == posts_view(posts@),
            feed_items(pv, i as nat) == Ok::<Seq<FeedItemView>, FeedError>(items_view(items@)),
        decreases posts.len() - i,
    {
        let post = &posts[i];
        assert(pv[i as int] == post@);
        let date = match rfc3339_to_rfc2822(post.created_at.as_str()) {
            Some(d) => d,
            None => {
                proof {
                    lemma_feed_stays_failed(pv, (i + 1) as nat, pv.len());
                }
                return Err(FeedError::InvalidTimestamp(i));
            },
        };
        let html = match process_markdown(post.body.as_str()) {
            Ok(h) => h,
            Err(e) => {
                proof {
                    lemma_feed_stays_failed(pv, (i + 1) as nat, pv.len());
                }
                return Err(FeedError::Markdown(i, e));
            },
        };
        let ghost before = items@;
        items.push(feed_item_of(post, date, html));
        assert(items_view(items@) =~= items_view(before).push(items@.last()@));
        i = i + 1;
    }
    assert(pv.len() == posts@.len());
    Ok(channel_xml(FEED_TITLE, SITE_URL, FEED_DESCRIPTION, &items))
}

/// A generated feed has one item per post, in the order of the posts, each
/// with the post's title and author and a link exactly when the post has a
/// slug.
pub proof fn law_feed_has_an_item_per_post(posts: Seq<FeedPostView>, n: nat)
    requires
        n <= posts.len(),
        feed_items(posts, n) is Ok,
    ensures
        feed_items(posts, n)->Ok_0.len() == n,
        forall|i: int|
            0 <= i < n ==> {
                let item = #[trigger] feed_items(posts, n)->Ok_0[i];
                &&& item.title == posts[i].title
                &&& item.author == posts[i].author_name
                &&& item.link is Some <==> posts[i].slug is Some
            },
    decreases n,
{
    if n > 0 {
        law_feed_has_an_item_per_post(posts, (n - 1) as nat);
        let prev = feed_items(posts, (n - 1) as nat)->Ok_0;
        let items = feed_items(posts, n)->Ok_0;
        assert forall|i: int| 0 <= i < n implies {
            let item = #[trigger] items[i];
            &&& item.title == posts[i].title
            &&& item.author == posts[i].author_name
            &&& item.link is Some <==> posts[i].slug is Some
        } by {
            if i < n - 1 {
                assert(items[i] == prev[i]);
            }
        }
    }
}

// ---------------------------------------------------------------------------
// Replies
// ---------------------------------------------------------------------------

/// An HTTP reply: status code, content type and body.
pub struct Reply {
    pub status: u16,
    pub content_type: String,
    pub body: String,
}

/// `r` has this status, content type and body.
pub open spec fn reply_is(r: Reply, status: u16, content_type: Seq<char>, body: Seq<char>) -> bool {
    r.status == status && r.content_type@ == content_type && r.body@ == body
}

/// The content type of a plain-text error reply.
pub open spec fn plain_text_type() -> Seq<char> {
    "text/plain; charset=utf-8"@
}

/// The reply `status`, `content_type`, `body`.
pub fn reply(status: u16, content_type: &str, body: String) -> (r: Reply)
    ensures
        reply_is(r, status, content_type@, body@),
{
    Reply { status, content_type: owned(content_type), body }
}

/// The reply to a request for the feed, given the published posts, or `None`
/// when they could not be read: the feed as `application/rss+xml`, or a
/// plain-text server error when the posts could not be read or rendered.
pub fn rss_reply(posts: Option<&Vec<FeedPost>>) -> (r: Reply)
    ensures
        match posts {
            Some(p) => match feed_xml(posts_view(p@)) {
                Ok(x) => reply_is(r, 200, "application/rss+xml"@, x),
                Err(_) => reply_is(r, 500, plain_text_type(), "Failed to generate RSS feed"@),
            },
            None => reply_is(r, 500, plain_text_type(), "Failed to generate RSS feed"@),
        },
{
    match posts {
        Some(p) => match generate_rss(p) {
            Ok(x) => reply(200, "application/rss+xml", x),
            Err(_) => reply(500, "text/plain; charset=utf-8", owned("Failed to generate RSS feed")),
        },
        None => reply(500, "text/plain; charset=utf-8", owned("Failed to generate RSS feed")),
    }
}

} // verus!
