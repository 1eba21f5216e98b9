//! Database connection settings read from the environment, and the XML sitemap
//! built from the published posts.

use vstd::prelude::*;

use crate::env::{lookup, Environment};
use crate::feed::{plain_text_type, reply, reply_is, Reply};
use crate::text::{
    ascii_lower, before_first, chars_eq, chars_of, contains_seq, find_seq, first_at,
    lemma_first_at_unique, owned, prefix_before, push_chars, string_from, trim, trim_chars,
};

verus! {

broadcast use vstd::string::group_string_axioms;

// ---------------------------------------------------------------------------
// Database address
// ---------------------------------------------------------------------------

/// The scheme and the remainder of an address: split at the first `://`, or
/// `http` and the whole address when there is none.
pub open spec fn scheme_and_rest(s: Seq<char>) -> (Seq<char>, Seq<char>) {
    if contains_seq(s, "://"@) {
        let i = choose|i: int| first_at(s, "://"@, i);
        (s.take(i), s.skip(i + "://"@.len()))
    } else {
        ("http"@, s)
    }
}

/// `parse_surreal_address` on `raw`: the scheme (`https` when it says so in any
/// case, `http` otherwise) and the host, i.e. the part before the first `/`.
pub open spec fn surreal_address(raw: Seq<char>) -> Option<(Seq<char>, Seq<char>)> {
    let t = trim(raw);
    if t.len() == 0 {
        None
    } else {
        let (scheme, rest) = scheme_and_rest(t);
        let host = trim(before_first(rest, '/'));
        if host.len() == 0 {
            None
        } else {
            Some(
                (
                    if ascii_lower(scheme) == "https"@ {
                        "https"@
                    } else {
                        "http"@
                    },
                    host,
                ),
            )
        }
    }
}

pub open spec fn pair_view(p: Option<(String, String)>) -> Option<(Seq<char>, Seq<char>)> {
    match p {
        Some(p) => Some((p.0@, p.1@)),
        None => None,
    }
}

fn lowered(v: &Vec<char>) -> (r: Vec<char>)
    ensures
        r@ == ascii_lower(v@),
{
    let mut r: Vec<char> = Vec::new();
    let mut i: usize = 0;
    while i < v.len()
        invariant
            i <= v.len(),
            r@ == ascii_lower(v@.take(i as int)),
        decreases v.len() - i,
    {
        r.push(crate::text::lower_char(v[i]));
        assert(ascii_lower(v@.take(i + 1)) =~= ascii_lower(v@.take(i as int)).push(
            crate::text::ascii_lower_char(v@[i as int]),
        ));
        i = i + 1;
    }
    assert(v@.take(i as int) =~= v@);
    r
}

/// Splits a database address such as `https://db.example.com:443/rpc` into its
/// scheme and host; `None` when it is blank or has no host.
pub fn parse_surreal_address(raw: &str) -> (r: Option<(String, String)>)
    ensures
        pair_view(r) == surreal_address(raw@),
{
    let v = chars_of(raw);
    let t = trim_chars(&v);
    if t.len() == 0 {
        return None;
    }
    let sep = chars_of("://");
    let (scheme, rest) = match find_seq(&t, &sep) {
        Some(i) => {
            proof {
                lemma_first_at_unique(t@, sep@, i as int);
            }
            let scheme = crate::text::slice_chars(&t, 0, i);
            let rest = crate::text::slice_chars(&t, i + sep.len(), t.len());
            assert(scheme@ =~= t@.take(i as int));
            assert(rest@ =~= t@.skip(i + sep@.len()));
            (scheme, rest)
        },
        None => (chars_of("http"), t),
    };
    let host_part = prefix_before(&rest, '/');
    let host = trim_chars(&host_part);
    if host.len() == 0 {
        return None;
    }
    let https = chars_of("https");
    let scheme_out = if chars_eq(&lowered(&scheme), &https) {
        owned("https")
    } else {
        owned("http")
    };
    Some((scheme_out, string_from(&host)))
}

// ---------------------------------------------------------------------------
// Connection settings
// ---------------------------------------------------------------------------

/// Where and how to connect to the database.
pub struct ConnectionSettings {
    /// `http` or `https`.
    pub protocol: String,
    /// Host and port.
    pub host: String,
    /// Root user and password, when both are set and non-empty.
    pub root_credentials: Option<(String, String)>,
    /// Namespace user and password, when the user is set and the password non-empty.
    pub namespace_credentials: Option<(String, String)>,
    /// Database user and password, when the user is set and the password non-empty.
    pub database_credentials: Option<(String, String)>,
    /// Namespace to use.
    pub namespace: String,
    /// Database to use.
    pub database: String,
}

pub open spec fn or_default(o: Option<Seq<char>>, d: Seq<char>) -> Seq<char> {
    match o {
        Some(v) => v,
        None => d,
    }
}

pub open spec fn non_empty(o: Option<Seq<char>>) -> Option<Seq<char>> {
    match o {
        Some(v) => if v.len() > 0 {
            Some(v)
        } else {
            None
        },
        None => None,
    }
}

pub open spec fn first_set(a: Option<Seq<char>>, b: Option<Seq<char>>) -> Option<Seq<char>> {
    match a {
        Some(v) => Some(v),
        None => b,
    }
}

pub open spec fn default_protocol(env: Seq<(Seq<char>, Seq<char>)>) -> Seq<char> {
    or_default(lookup(env, "SURREAL_PROTOCOL"@), "http"@)
}

pub open spec fn default_host(env: Seq<(Seq<char>, Seq<char>)>) -> Seq<char> {
    or_default(lookup(env, "SURREAL_HOST"@), "127.0.0.1:8000"@)
}

/// `SURREAL_ADDRESS`, else `SURREAL_URL`, when not blank.
pub open spec fn configured_address(env: Seq<(Seq<char>, Seq<char>)>) -> Option<Seq<char>> {
    match first_set(lookup(env, "SURREAL_ADDRESS"@), lookup(env, "SURREAL_URL"@)) {
        Some(a) => if trim(a).len() > 0 {
            Some(a)
        } else {
            None
        },
        None => None,
    }
}

/// The (protocol, host) to connect to.
pub open spec fn endpoint(env: Seq<(Seq<char>, Seq<char>)>) -> (Seq<char>, Seq<char>) {
    let fallback = (default_protocol(env), default_host(env));
    match configured_address(env) {
        Some(a) => match surreal_address(a) {
            Some(p) => p,
            None => fallback,
        },
        None => if contains_seq(default_host(env), "://"@) {
            match surreal_address(default_host(env)) {
                Some(p) => p,
                None => fallback,
            }
        } else {
            fallback
        },
    }
}

pub open spec fn root_credentials(env: Seq<(Seq<char>, Seq<char>)>) -> Option<(Seq<char>, Seq<char>)> {
    let u = or_default(lookup(env, "SURREAL_ROOT_USER"@), Seq::empty());
    let p = or_default(lookup(env, "SURREAL_ROOT_PASS"@), Seq::empty());
    if u.len() > 0 && p.len() > 0 {
        Some((u, p))
    } else {
        None
    }
}

pub open spec fn user_credentials(user: Option<Seq<char>>, pass: Option<Seq<char>>) -> Option<(Seq<char>, Seq<char>)> {
    match (non_empty(user), pass) {
        (Some(u), Some(p)) => if p.len() > 0 {
            Some((u, p))
        } else {
            None
        },
        _ => None,
    }
}

pub open spec fn namespace_credentials(env: Seq<(Seq<char>, Seq<char>)>) -> Option<(Seq<char>, Seq<char>)> {
    user_credentials(lookup(env, "SURREAL_NAMESPACE_USER"@), lookup(env, "SURREAL_NAMESPACE_PASS"@))
}

pub open spec fn database_credentials(env: Seq<(Seq<char>, Seq<char>)>) -> Option<(Seq<char>, Seq<char>)> {
    user_credentials(
        first_set(lookup(env, "SURREAL_USERNAME"@), lookup(env, "SURREAL_USER"@)),
        first_set(lookup(env, "SURREAL_PASSWORD"@), lookup(env, "SURREAL_PASS"@)),
    )
}

fn get_or(env: &Environment, name: &str, default: &str) -> (r: String)
    ensures
        r@ == or_default(lookup(env@, name@), default@),
{
    match env.get(name) {
        Some(v) => v,
        None => owned(default),
    }
}

fn get_first(env: &Environment, a: &str, b: &str) -> (r: Option<String>)
    ensures
        match r {
            Some(v) => first_set(lookup(env@, a@), lookup(env@, b@)) == Some(v@),
            None => first_set(lookup(env@, a@), lookup(env@, b@)) is None,
        },
{
    match env.get(a) {
        Some(v) => Some(v),
        None => env.get(b),
    }
}

fn credentials_from(user: Option<String>, pass: Option<String>) -> (r: Option<(String, String)>)
    ensures
        pair_view(r) == user_credentials(
            match user {
                Some(u) => Some(u@),
                None => None,
            },
            match pass {
                Some(p) => Some(p@),
                None => None,
            },
        ),
{
    match (user, pass) {
        (Some(u), Some(p)) => {
            if !u.as_str().is_empty() && !p.as_str().is_empty() {
                Some((u, p))
            } else {
                None
            }
        },
        _ => None,
    }
}

impl ConnectionSettings {
    /// Reads the connection settings: the address from `SURREAL_ADDRESS` or
    /// `SURREAL_URL` (else `SURREAL_PROTOCOL`/`SURREAL_HOST`), the three credential
    /// sets, and the namespace and database (default `rustblog`).
    pub fn from_env(env: &Environment) -> (s: Self)
        ensures
            (s.protocol@, s.host@) == endpoint(env@),
            pair_view(s.root_credentials) == root_credentials(env@),
            pair_view(s.namespace_credentials) == namespace_credentials(env@),
            pair_view(s.database_credentials) == database_credentials(env@),
            s.namespace@ == or_default(lookup(env@, "SURREAL_NS"@), "rustblog"@),
            s.database@ == or_default(lookup(env@, "SURREAL_DB"@), "rustblog"@),
    {
        let default_protocol = get_or(env, "SURREAL_PROTOCOL", "http");
        let default_host = get_or(env, "SURREAL_HOST", "127.0.0.1:8000");
        let address = match get_first(env, "SURREAL_ADDRESS", "SURREAL_URL") {
            Some(a) => {
                let av = chars_of(a.as_str());
                if trim_chars(&av).len() > 0 {
                    Some(a)
                } else {
                    None
                }
            },
            None => None,
        };
        let (protocol, host) = match address {
            Some(a) => match parse_surreal_address(a.as_str()) {
                Some(p) => p,
                None => (default_protocol, default_host),
            },
            None => {
                let hv = chars_of(default_host.as_str());
                let sep = chars_of("://");
                if find_seq(&hv, &sep).is_some() {
                    match parse_surreal_address(default_host.as_str()) {
                        Some(p) => p,
                        None => (default_protocol, default_host),
                    }
                } else {
                    (default_protocol, default_host)
                }
            },
        };
        let username = get_or(env, "SURREAL_ROOT_USER", "");
        let password = get_or(env, "SURREAL_ROOT_PASS", "");
        proof {
            reveal_strlit("");
        }
        let root = if !username.as_str().is_empty() && !password.as_str().is_empty() {
            Some((username, password))
        } else {
            None
        };
        let namespace_credentials = credentials_from(
            env.get("SURREAL_NAMESPACE_USER"),
            env.get("SURREAL_NAMESPACE_PASS"),
        );
        let database_credentials = credentials_from(
            get_first(env, "SURREAL_USERNAME", "SURREAL_USER"),
            get_first(env, "SURREAL_PASSWORD", "SURREAL_PASS"),
        );
        let namespace = get_or(env, "SURREAL_NS", "rustblog");
        let database = get_or(env, "SURREAL_DB", "rustblog");
        ConnectionSettings {
            protocol,
            host,
            root_credentials: root,
            namespace_credentials,
            database_credentials,
            namespace,
            database,
        }
    }
}

/// One way of signing in to the database.
pub enum SignIn {
    /// Database-level user.
    Database { namespace: String, database: String, username: String, password: String },
    /// Namespace-level user.
    Namespace { namespace: String, username: String, password: String },
    /// Root user.
    Root { username: String, password: String },
}

pub open spec fn sign_in_view(s: SignIn) -> Seq<Seq<char>> {
    match s {
        SignIn::Database { namespace, database, username, password } => seq![
            "database"@,
            namespace@,
            database@,
            username@,
            password@,
        ],
        SignIn::Namespace { namespace, username, password } => seq![
            "namespace"@,
            namespace@,
            username@,
            password@,
        ],
        SignIn::Root { username, password } => seq!["root"@, username@, password@],
    }
}

/// The sign-in attempts, in the order they are tried: database, namespace, root;
/// each only when its credentials are present.
pub open spec fn sign_in_order(
    ns: Seq<char>,
    db: Seq<char>,
    database: Option<(Seq<char>, Seq<char>)>,
    namespace: Option<(Seq<char>, Seq<char>)>,
    root: Option<(Seq<char>, Seq<char>)>,
) -> Seq<Seq<Seq<char>>> {
    (match database {
        Some(c) => seq![seq!["database"@, ns, db, c.0, c.1]],
        None => seq![],
    }) + (match namespace {
        Some(c) => seq![seq!["namespace"@, ns, c.0, c.1]],
        None => seq![],
    }) + (match root {
        Some(c) => seq![seq!["root"@, c.0, c.1]],
        None => seq![],
    })
}

impl ConnectionSettings {
    /// The sign-in attempts to make, most specific first.
    pub fn sign_in_attempts(&self) -> (r: Vec<SignIn>)
        ensures
            r@.map_values(|s: SignIn| sign_in_view(s)) == sign_in_order(
                self.namespace@,
                self.database@,
                pair_view(self.database_credentials),
                pair_view(self.namespace_credentials),
                pair_view(self.root_credentials),
            ),
    {
        let mut r: Vec<SignIn> = Vec::new();
        match &self.database_credentials {
            Some((u, p)) => {
                r.push(
                    SignIn::Database {
                        namespace: self.namespace.clone(),
                        database: self.database.clone(),
                        username: u.clone(),
                        password: p.clone(),
                    },
                );
            },
            None => {},
        }
        let ghost r1 = r@;
        match &self.namespace_credentials {
            Some((u, p)) => {
                r.push(
                    SignIn::Namespace {
                        namespace: self.namespace.clone(),
                        username: u.clone(),
                        password: p.clone(),
                    },
                );
            },
            None => {},
        }
        let ghost r2 = r@;
        match &self.root_credentials {
            Some((u, p)) => {
                r.push(SignIn::Root { username: u.clone(), password: p.clone() });
            },
            None => {},
        }
        assert(r@.map_values(|s: SignIn| sign_in_view(s)) =~= sign_in_order(
            self.namespace@,
            self.database@,
            pair_view(self.database_credentials),
            pair_view(self.namespace_credentials),
            pair_view(self.root_credentials),
        ));
        r
    }

    /// Whether the connection uses plain HTTP (any other protocol means HTTPS).
    pub fn uses_plain_http(&self) -> (b: bool)
        ensures
            b == (self.protocol@ == "http"@),
    {
        crate::text::str_eq(self.protocol.as_str(), "http")
    }
}

// ---------------------------------------------------------------------------
// Sitemap
// ---------------------------------------------------------------------------

/// A published post as the sitemap needs it.
pub struct SitemapPost {
    /// The post's slug; posts without one are left out.
    pub slug: Option<String>,
    /// The creation date, written as the last modification.
    pub created_at: String,
}

pub open spec fn url_entry(loc: Seq<char>, freq: Seq<char>, priority: Seq<char>) -> Seq<char> {
    "<url>\n"@ + "<loc>"@ + loc + "</loc>\n"@ + "<changefreq>"@ + freq + "</changefreq>\n"@
        + "<priority>"@ + priority + "</priority>\n"@ + "</url>\n"@
}

pub open spec fn sitemap_head() -> Seq<char> {
    "<?xml version=\"1.0\" encoding=\"UTF-8\"?>\n"@
        + "<urlset xmlns=\"http://www.sitemaps.org/schemas/sitemap/0.9\">\n"@
}

pub open spec fn static_entries() -> Seq<char> {
    url_entry("https://alexthola.com/"@, "daily"@, "0.9"@) + url_entry(
        "https://alexthola.com/contact"@,
        "weekly"@,
        "1.0"@,
    ) + url_entry("https://alexthola.com/references"@, "weekly"@, "0.6"@) + url_entry(
        "https://alexthola.com/rss.xml"@,
        "daily"@,
        "0.5"@,
    ) + url_entry("https://alexthola.com/sitemap.xml"@, "monthly"@, "0.5"@)
}

pub open spec fn post_entry(slug: Seq<char>, created_at: Seq<char>) -> Seq<char> {
    "<url>\n"@ + "<loc>https://alexthola.com/post/"@ + slug + "</loc>\n"@
        + "<changefreq>monthly</changefreq>\n"@ + "<priority>1.0</priority>\n"@ + "<lastmod>"@
        + created_at + "</lastmod>\n"@ + "</url>\n"@
}

/// The entries for `posts`, skipping those without a slug.
pub open spec fn post_entries(posts: Seq<SitemapPost>) -> Seq<char>
    decreases posts.len(),
{
    if posts.len() == 0 {
        Seq::empty()
    } else {
        post_entries(posts.drop_last()) + match posts.last().slug {
            Some(slug) => post_entry(slug@, posts.last().created_at@),
            None => Seq::empty(),
        }
    }
}

/// The sitemap document for `posts`.
pub open spec fn sitemap(posts: Seq<SitemapPost>) -> Seq<char> {
    sitemap_head() + static_entries() + post_entries(posts) + "</urlset>"@
}

/// The entry of one post: its URL and creation date, or nothing without a slug.
pub open spec fn entry_of(p: SitemapPost) -> Seq<char> {
    match p.slug {
        Some(slug) => post_entry(slug@, p.created_at@),
        None => Seq::empty(),
    }
}

/// Without posts the sitemap lists the five fixed pages only. Each further post
/// adds its own entry (none without a slug) just before the closing tag, and
/// leaves everything before it as it was; so every post with a slug is listed,
/// once, in the order given.
pub proof fn law_sitemap_lists_every_post(posts: Seq<SitemapPost>, p: SitemapPost)
    ensures
        sitemap(Seq::empty()) == sitemap_head() + static_entries() + "</urlset>"@,
        ({
            let before = sitemap(posts);
            &&& before.len() >= 9
            &&& before.subrange(before.len() - 9, before.len() as int) == "</urlset>"@
            &&& sitemap(posts.push(p)) == before.subrange(0, before.len() - 9) + entry_of(p) + "</urlset>"@
        }),
{
    reveal_strlit("</urlset>");
    assert(sitemap_head() + static_entries() + Seq::<char>::empty() =~= sitemap_head() + static_entries());
    assert(posts.push(p).drop_last() =~= posts);
    let body = sitemap_head() + static_entries() + post_entries(posts);
    let before = sitemap(posts);
    assert(before == body + "</urlset>"@);
    assert(before.subrange(0, before.len() - 9) =~= body);
    assert(before.subrange(before.len() - 9, before.len() as int) =~= "</urlset>"@);
    assert(sitemap(posts.push(p)) =~= body + entry_of(p) + "</urlset>"@);
}

fn push_url_entry(s: &mut String, loc: &str, freq: &str, priority: &str)
    ensures
        final(s)@ == old(s)@ + url_entry(loc@, freq@, priority@),
{
    s.push_str("<url>\n");
    s.push_str("<loc>");
    s.push_str(loc);
    s.push_str("</loc>\n");
    s.push_str("<changefreq>");
    s.push_str(freq);
    s.push_str("</changefreq>\n");
    s.push_str("<priority>");
    s.push_str(priority);
    s.push_str("</priority>\n");
    s.push_str("</url>\n");
    assert(final(s)@ =~= old(s)@ + url_entry(loc@, freq@, priority@));
}

fn push_post_entry(s: &mut String, slug: &str, created_at: &str)
    ensures
        final(s)@ == old(s)@ + post_entry(slug@, created_at@),
{
    s.push_str("<url>\n");
    s.push_str("<loc>https://alexthola.com/post/");
    s.push_str(slug);
    s.push_str("</loc>\n");
    s.push_str("<changefreq>monthly</changefreq>\n");
    s.push_str("<priority>1.0</priority>\n");
    s.push_str("<lastmod>");
    s.push_str(created_at);
    s.push_str("</lastmod>\n");
    s.push_str("</url>\n");
    assert(final(s)@ =~= old(s)@ + post_entry(slug@, created_at@));
}

/// Builds the XML sitemap: the fixed pages, then one entry per post with a slug.
pub fn build_sitemap(posts: &Vec<SitemapPost>) -> (s: String)
    ensures
        s@ == sitemap(posts@),
{
    let mut s = String::new();
    s.push_str("<?xml version=\"1.0\" encoding=\"UTF-8\"?>\n");
    s.push_str("<urlset xmlns=\"http://www.sitemaps.org/schemas/sitemap/0.9\">\n");
    assert(s@ =~= sitemap_head());
    push_url_entry(&mut s, "https://alexthola.com/", "daily", "0.9");
    push_url_entry(&mut s, "https://alexthola.com/contact", "weekly", "1.0");
    push_url_entry(&mut s, "https://alexthola.com/references", "weekly", "0.6");
    push_url_entry(&mut s, "https://alexthola.com/rss.xml", "daily", "0.5");
    push_url_entry(&mut s, "https://alexthola.com/sitemap.xml", "monthly", "0.5");
    assert(s@ =~= sitemap_head() + static_entries());
    let ghost base = s@;
    let mut i: usize = 0;
    while i < posts.len()
        invariant
            i <= posts.len(),
            base == sitemap_head() + static_entries(),
            s@ == base + post_entries(posts@.take(i as int)),
        decreases posts.len() - i,
    {
        let ghost before = s@;
        match &posts[i].slug {
            Some(slug) => {
                push_post_entry(&mut s, slug.as_str(), posts[i].created_at.as_str());
            },
            None => {},
        }
        assert(posts@.take(i + 1).drop_last() =~= posts@.take(i as int));
        assert(s@ =~= base + post_entries(posts@.take(i + 1)));
        i = i + 1;
    }
    assert(posts@.take(i as int) =~= posts@);
    s.push_str("</urlset>");
    s
}

/// The reply to a request for the sitemap, given the published posts, or `None`
/// when they could not be read: the sitemap as `application/xml`, or a
/// plain-text server error.
pub fn sitemap_reply(posts: Option<&Vec<SitemapPost>>) -> (r: Reply)
    ensures
        match posts {
            Some(p) => reply_is(r, 200, "application/xml"@, sitemap(p@)),
            None => reply_is(r, 500, plain_text_type(), "Failed to build sitemap"@),
        },
{
    match posts {
        Some(p) => reply(200, "application/xml", build_sitemap(p)),
        None => reply(500, "text/plain; charset=utf-8", owned("Failed to build sitemap")),
    }
}

} // verus!
