//! Security configuration: the HTTP security headers per environment, rate-limit
//! categories, and the checks run on the environment before the server starts.

use vstd::prelude::*;

use crate::env::{lookup, Environment};
use crate::text::{chars_of, contains_char, has_char, owned, str_eq, trim, trim_chars, utf8_len};

verus! {

broadcast use vstd::string::group_string_axioms;

// ---------------------------------------------------------------------------
// Security configuration and headers
// ---------------------------------------------------------------------------

/// Configuration for security headers based on environment.
#[derive(Clone, Copy, Debug)]
pub struct SecurityConfig {
    /// Whether the application is running in production mode.
    pub is_production: bool,
}

/// `RUST_ENV` (defaulting to `development`) equals `production`.
pub open spec fn production_mode(env: Seq<(Seq<char>, Seq<char>)>) -> bool {
    lookup(env, "RUST_ENV"@) == Some("production"@)
}

/// Whether `RUST_ENV` says `production`.
pub fn is_production_env(env: &Environment) -> (b: bool)
    ensures
        b == production_mode(env@),
{
    match env.get("RUST_ENV") {
        Some(v) => str_eq(v.as_str(), "production"),
        None => false,
    }
}

impl SecurityConfig {
    /// Creates a new `SecurityConfig` instance.
    pub fn new(is_production: bool) -> (c: Self)
        ensures
            c.is_production == is_production,
    {
        Self { is_production }
    }

    /// The configuration for the environment: production exactly when
    /// `RUST_ENV=production`.
    pub fn from_env(env: &Environment) -> (c: Self)
        ensures
            c.is_production == production_mode(env@),
    {
        Self::new(is_production_env(env))
    }
}

/// Creates the security configuration for the given mode.
pub fn create_security_config(is_production: bool) -> (c: SecurityConfig)
    ensures
        c.is_production == is_production,
{
    SecurityConfig::new(is_production)
}

pub open spec fn hsts_value(is_production: bool) -> Seq<char> {
    if is_production {
        "max-age=31536000; includeSubDomains"@
    } else {
        "max-age=86400"@
    }
}

pub open spec fn csp_value(is_production: bool) -> Seq<char> {
    if is_production {
        "default-src 'self'"@ + "; "@ + "script-src 'self' 'wasm-unsafe-eval' 'unsafe-inline'"@
            + "; "@ + "style-src 'self' 'unsafe-inline'"@ + "; "@ + "img-src 'self' data: https:"@
            + "; "@ + "font-src 'self' data:"@ + "; "@ + "connect-src 'self'"@ + "; "@
            + "frame-ancestors 'none'"@ + "; "@ + "base-uri 'self'"@ + "; "@ + "form-action 'self'"@
            + "; "@ + "upgrade-insecure-requests"@
    } else {
        "default-src 'self'"@ + "; "@
            + "script-src 'self' 'wasm-unsafe-eval' 'unsafe-inline' 'unsafe-eval'"@ + "; "@
            + "style-src 'self' 'unsafe-inline'"@ + "; "@ + "img-src 'self' data: https: http:"@
            + "; "@ + "font-src 'self' data:"@ + "; "@
            + "connect-src 'self' ws://localhost:* ws://127.0.0.1:* http://localhost:* http://127.0.0.1:*"@
            + "; "@ + "frame-ancestors 'none'"@ + "; "@ + "base-uri 'self'"@ + "; "@
            + "form-action 'self'"@
    }
}

pub open spec fn permissions_policy_value() -> Seq<char> {
    "accelerometer=(), ambient-light-sensor=(), autoplay=(), battery=(), camera=(), cross-origin-isolated=(), display-capture=(), document-domain=(), encrypted-media=(), execution-while-not-rendered=(), execution-while-out-of-viewport=(), fullscreen=(), geolocation=(), gyroscope=(), keyboard-map=(), magnetometer=(), microphone=(), midi=(), navigation-override=(), payment=(), picture-in-picture=(), publickey-credentials-get=(), screen-wake-lock=(), sync-xhr=(), usb=(), web-share=(), xr-spatial-tracking=()"@
}

/// The headers added to every response, in the order they are set.
pub open spec fn security_headers_spec(is_production: bool) -> Seq<(Seq<char>, Seq<char>)> {
    seq![
        ("x-frame-options"@, "DENY"@),
        ("x-content-type-options"@, "nosniff"@),
        ("x-xss-protection"@, "1; mode=block"@),
        ("referrer-policy"@, "strict-origin-when-cross-origin"@),
        ("strict-transport-security"@, hsts_value(is_production)),
        ("content-security-policy"@, csp_value(is_production)),
        ("permissions-policy"@, permissions_policy_value()),
        ("cross-origin-opener-policy"@, "same-origin"@),
        ("cross-origin-resource-policy"@, "same-origin"@),
    ]
}

pub open spec fn header_pairs_view(v: Seq<(String, String)>) -> Seq<(Seq<char>, Seq<char>)> {
    v.map_values(|p: (String, String)| (p.0@, p.1@))
}

fn csp_for(is_production: bool) -> (s: String)
    ensures
        s@ == csp_value(is_production),
{
    if is_production {
        let mut s = owned("default-src 'self'");
        s.push_str("; ");
        s.push_str("script-src 'self' 'wasm-unsafe-eval' 'unsafe-inline'");
        s.push_str("; ");
        s.push_str("style-src 'self' 'unsafe-inline'");
        s.push_str("; ");
        s.push_str("img-src 'self' data: https:");
        s.push_str("; ");
        s.push_str("font-src 'self' data:");
        s.push_str("; ");
        s.push_str("connect-src 'self'");
        s.push_str("; ");
        s.push_str("frame-ancestors 'none'");
        s.push_str("; ");
        s.push_str("base-uri 'self'");
        s.push_str("; ");
        s.push_str("form-action 'self'");
        s.push_str("; ");
        s.push_str("upgrade-insecure-requests");
        s
    } else {
        let mut s = owned("default-src 'self'");
        s.push_str("; ");
        s.push_str("script-src 'self' 'wasm-unsafe-eval' 'unsafe-inline' 'unsafe-eval'");
        s.push_str("; ");
        s.push_str("style-src 'self' 'unsafe-inline'");
        s.push_str("; ");
        s.push_str("img-src 'self' data: https: http:");
        s.push_str("; ");
        s.push_str("font-src 'self' data:");
        s.push_str("; ");
        s.push_str(
            "connect-src 'self' ws://localhost:* ws://127.0.0.1:* http://localhost:* http://127.0.0.1:*",
        );
        s.push_str("; ");
        s.push_str("frame-ancestors 'none'");
        s.push_str("; ");
        s.push_str("base-uri 'self'");
        s.push_str("; ");
        s.push_str("form-action 'self'");
        s
    }
}

fn push_header(v: &mut Vec<(String, String)>, name: &str, value: String)
    ensures
        header_pairs_view(final(v)@) == header_pairs_view(old(v)@).push((name@, value@)),
{
    let ghost before = v@;
    v.push((owned(name), value));
    assert(header_pairs_view(v@) =~= header_pairs_view(before).push((name@, value@)));
}

/// The security headers (name, value) that every response receives under `config`:
/// strict HSTS and CSP in production, relaxed ones in development.
pub fn security_headers(config: SecurityConfig) -> (h: Vec<(String, String)>)
    ensures
        header_pairs_view(h@) == security_headers_spec(config.is_production),
{
    let mut h: Vec<(String, String)> = Vec::new();
    assert(header_pairs_view(h@) =~= Seq::empty());
    push_header(&mut h, "x-frame-options", owned("DENY"));
    push_header(&mut h, "x-content-type-options", owned("nosniff"));
    push_header(&mut h, "x-xss-protection", owned("1; mode=block"));
    push_header(&mut h, "referrer-policy", owned("strict-origin-when-cross-origin"));
    let hsts = if config.is_production {
        owned("max-age=31536000; includeSubDomains")
    } else {
        owned("max-age=86400")
    };
    push_header(&mut h, "strict-transport-security", hsts);
    push_header(&mut h, "content-security-policy", csp_for(config.is_production));
    push_header(
        &mut h,
        "permissions-policy",
        owned(
            "accelerometer=(), ambient-light-sensor=(), autoplay=(), battery=(), camera=(), cross-origin-isolated=(), display-capture=(), document-domain=(), encrypted-media=(), execution-while-not-rendered=(), execution-while-out-of-viewport=(), fullscreen=(), geolocation=(), gyroscope=(), keyboard-map=(), magnetometer=(), microphone=(), midi=(), navigation-override=(), payment=(), picture-in-picture=(), publickey-credentials-get=(), screen-wake-lock=(), sync-xhr=(), usb=(), web-share=(), xr-spatial-tracking=()",
        ),
    );
    push_header(&mut h, "cross-origin-opener-policy", owned("same-origin"));
    push_header(&mut h, "cross-origin-resource-policy", owned("same-origin"));
    assert(header_pairs_view(h@) =~= security_headers_spec(config.is_production));
    h
}

/// Production and development set the same headers in the same order; they differ
/// only in the HSTS and CSP values, and the production HSTS covers subdomains.
pub proof fn law_modes_differ_only_in_hsts_and_csp()
    ensures
        security_headers_spec(true).len() == security_headers_spec(false).len(),
        forall|i: int|
            0 <= i < security_headers_spec(true).len() ==> #[trigger] security_headers_spec(true)[i].0
                == security_headers_spec(false)[i].0,
        forall|i: int|
            0 <= i < security_headers_spec(true).len() && i != 4 && i != 5
                ==> #[trigger] security_headers_spec(true)[i].1 == security_headers_spec(false)[i].1,
        security_headers_spec(true)[4].1 == "max-age=31536000; includeSubDomains"@,
{
}

// ---------------------------------------------------------------------------
// Rate-limit categories
// ---------------------------------------------------------------------------

/// Categorizes endpoints for rate limiting purposes.
#[derive(Debug, Clone, Copy, PartialEq, Eq, Hash, Structural)]
pub enum EndpointCategory {
    /// API endpoints: 100 requests/minute (default)
    Api,
    /// Contact form: 10 requests/minute (stricter to prevent spam)
    Contact,
    /// Static assets: 1000 requests/minute (relaxed)
    Static,
    /// Health check: Unlimited (for monitoring)
    Health,
}

pub open spec fn category_limit(c: EndpointCategory) -> Option<(usize, u64)> {
    match c {
        EndpointCategory::Api => Some((100usize, 60u64)),
        EndpointCategory::Contact => Some((10usize, 60u64)),
        EndpointCategory::Static => Some((1000usize, 60u64)),
        EndpointCategory::Health => None,
    }
}

pub open spec fn category_name(c: EndpointCategory) -> Seq<char> {
    match c {
        EndpointCategory::Api => "api"@,
        EndpointCategory::Contact => "contact"@,
        EndpointCategory::Static => "static"@,
        EndpointCategory::Health => "health"@,
    }
}

impl EndpointCategory {
    /// The (requests, window in seconds) limit of this category; `None` for unlimited.
    pub fn rate_limit(&self) -> (r: Option<(usize, u64)>)
        ensures
            r == category_limit(*self),
    {
        match self {
            EndpointCategory::Api => Some((100, 60)),
            EndpointCategory::Contact => Some((10, 60)),
            EndpointCategory::Static => Some((1000, 60)),
            EndpointCategory::Health => None,
        }
    }

    /// Returns a human-readable name for this category.
    pub fn as_str(&self) -> (s: &'static str)
        ensures
            s@ == category_name(*self),
    {
        match self {
            EndpointCategory::Api => "api",
            EndpointCategory::Contact => "contact",
            EndpointCategory::Static => "static",
            EndpointCategory::Health => "health",
        }
    }
}

/// Status information about rate limiting for a specific IP and category.
#[derive(Debug, Clone)]
pub struct RateLimitStatus {
    /// Number of requests remaining in the current window.
    pub remaining: usize,
    /// Seconds until the rate limit window resets.
    pub reset_in_seconds: u64,
    /// Whether the client is currently rate limited.
    pub is_limited: bool,
}

/// Error returned when a request is rate limited.
#[derive(Debug, Clone)]
pub struct RateLimitError {
    /// Error message.
    pub error: String,
    /// Seconds until the client can retry.
    pub retry_after: u64,
    /// Number of requests remaining (always 0 when limited).
    pub remaining: usize,
    /// The endpoint category that was rate limited.
    pub category: String,
}

impl RateLimitError {
    /// Creates a new rate limit error.
    pub fn new(category: EndpointCategory, retry_after: u64) -> (e: Self)
        ensures
            e.error@ == "Rate limit exceeded"@,
            e.retry_after == retry_after,
            e.remaining == 0,
            e.category@ == category_name(category),
    {
        Self {
            error: owned("Rate limit exceeded"),
            retry_after,
            remaining: 0,
            category: owned(category.as_str()),
        }
    }
}

// ---------------------------------------------------------------------------
// SMTP configuration check
// ---------------------------------------------------------------------------

/// SMTP configuration validation result.
#[derive(Debug, Clone)]
pub struct SmtpValidation {
    /// Whether all SMTP credentials are configured.
    pub is_configured: bool,
    /// Any validation errors encountered.
    pub errors: Vec<String>,
    /// Any warnings (non-fatal issues).
    pub warnings: Vec<String>,
}

pub open spec fn strings_view(v: Seq<String>) -> Seq<Seq<char>> {
    v.map_values(|s: String| s@)
}

impl SmtpValidation {
    /// Returns `true` if SMTP is properly configured with no errors.
    pub fn is_valid(&self) -> (b: bool)
        ensures
            b == (self.is_configured && self.errors@.len() == 0),
    {
        self.is_configured && self.errors.len() == 0
    }
}

pub open spec fn smtp_host_errors(h: Option<Seq<char>>) -> Seq<Seq<char>> {
    match h {
        None => seq!["Missing required environment variable: SMTP_HOST"@],
        Some(v) => if trim(v).len() == 0 {
            seq!["SMTP_HOST is empty"@]
        } else {
            seq![]
        },
    }
}

pub open spec fn smtp_host_warnings(h: Option<Seq<char>>) -> Seq<Seq<char>> {
    match h {
        Some(v) => if trim(v).len() != 0 && !has_char(v, '.') && v != "localhost"@ {
            seq!["SMTP_HOST '"@ + v + "' may be invalid (no domain suffix)"@]
        } else {
            seq![]
        },
        None => seq![],
    }
}

pub open spec fn smtp_user_errors(u: Option<Seq<char>>) -> Seq<Seq<char>> {
    match u {
        None => seq!["Missing required environment variable: SMTP_USER"@],
        Some(v) => if trim(v).len() == 0 {
            seq!["SMTP_USER is empty"@]
        } else {
            seq![]
        },
    }
}

pub open spec fn smtp_user_warnings(u: Option<Seq<char>>) -> Seq<Seq<char>> {
    match u {
        Some(v) => if trim(v).len() != 0 && !has_char(v, '@') {
            seq!["SMTP_USER '"@ + v + "' does not appear to be an email address"@]
        } else {
            seq![]
        },
        None => seq![],
    }
}

pub open spec fn smtp_password_errors(p: Option<Seq<char>>) -> Seq<Seq<char>> {
    match p {
        None => seq!["Missing required environment variable: SMTP_PASSWORD"@],
        Some(v) => if v.len() == 0 {
            seq!["SMTP_PASSWORD is empty"@]
        } else {
            seq![]
        },
    }
}

pub open spec fn smtp_password_warnings(p: Option<Seq<char>>) -> Seq<Seq<char>> {
    match p {
        Some(v) => if v.len() != 0 && utf8_len(v) < 8 {
            seq!["SMTP_PASSWORD is short (less than 8 characters)"@]
        } else {
            seq![]
        },
        None => seq![],
    }
}

pub open spec fn smtp_errors(env: Seq<(Seq<char>, Seq<char>)>) -> Seq<Seq<char>> {
    smtp_host_errors(lookup(env, "SMTP_HOST"@)) + smtp_user_errors(lookup(env, "SMTP_USER"@))
        + smtp_password_errors(lookup(env, "SMTP_PASSWORD"@))
}

pub open spec fn smtp_warnings(env: Seq<(Seq<char>, Seq<char>)>) -> Seq<Seq<char>> {
    smtp_host_warnings(lookup(env, "SMTP_HOST"@)) + smtp_user_warnings(lookup(env, "SMTP_USER"@))
        + smtp_password_warnings(lookup(env, "SMTP_PASSWORD"@))
}

pub open spec fn smtp_configured(env: Seq<(Seq<char>, Seq<char>)>) -> bool {
    lookup(env, "SMTP_HOST"@) is Some && lookup(env, "SMTP_USER"@) is Some && lookup(
        env,
        "SMTP_PASSWORD"@,
    ) is Some
}

fn push_message(v: &mut Vec<String>, m: String)
    ensures
        strings_view(final(v)@) == strings_view(old(v)@).push(m@),
{
    let ghost before = v@;
    v.push(m);
    assert(strings_view(v@) =~= strings_view(before).push(m@));
}

fn quoted_message(prefix: &str, value: &String, suffix: &str) -> (m: String)
    ensures
        m@ == prefix@ + value@ + suffix@,
{
    let mut m = owned(prefix);
    m.push_str(value.as_str());
    m.push_str(suffix);
    m
}

/// Validates the SMTP settings (`SMTP_HOST`, `SMTP_USER`, `SMTP_PASSWORD`) that the
/// contact form needs: missing or empty values are errors, suspicious ones warnings.
pub fn validate_smtp_config(env: &Environment) -> (r: SmtpValidation)
    ensures
        r.is_configured == smtp_configured(env@),
        strings_view(r.errors@) == smtp_errors(env@),
        strings_view(r.warnings@) == smtp_warnings(env@),
{
    let mut errors: Vec<String> = Vec::new();
    let mut warnings: Vec<String> = Vec::new();
    let host = env.get("SMTP_HOST");
    let user = env.get("SMTP_USER");
    let password = env.get("SMTP_PASSWORD");
    let is_configured = host.is_some() && user.is_some() && password.is_some();
    let ghost e0 = strings_view(errors@);
    let ghost w0 = strings_view(warnings@);
    assert(e0 =~= Seq::empty());
    assert(w0 =~= Seq::empty());
    match &host {
        Some(h) => {
            let hv = chars_of(h.as_str());
            let t = trim_chars(&hv);
            if t.len() == 0 {
                push_message(&mut errors, owned("SMTP_HOST is empty"));
            } else if !contains_char(&hv, '.') && !str_eq(h.as_str(), "localhost") {
                push_message(
                    &mut warnings,
                    quoted_message("SMTP_HOST '", h, "' may be invalid (no domain suffix)"),
                );
            }
        },
        None => {
            push_message(&mut errors, owned("Missing required environment variable: SMTP_HOST"));
        },
    }
    let ghost e1 = strings_view(errors@);
    let ghost w1 = strings_view(warnings@);
    assert(e1 =~= smtp_host_errors(lookup(env@, "SMTP_HOST"@)));
    assert(w1 =~= smtp_host_warnings(lookup(env@, "SMTP_HOST"@)));
    match &user {
        Some(u) => {
            let uv = chars_of(u.as_str());
            let t = trim_chars(&uv);
            if t.len() == 0 {
                push_message(&mut errors, owned("SMTP_USER is empty"));
            } else if !contains_char(&uv, '@') {
                push_message(
                    &mut warnings,
                    quoted_message("SMTP_USER '", u, "' does not appear to be an email address"),
                );
            }
        },
        None => {
            push_message(&mut errors, owned("Missing required environment variable: SMTP_USER"));
        },
    }
    let ghost e2 = strings_view(errors@);
    let ghost w2 = strings_view(warnings@);
    assert(e2 =~= e1 + smtp_user_errors(lookup(env@, "SMTP_USER"@)));
    assert(w2 =~= w1 + smtp_user_warnings(lookup(env@, "SMTP_USER"@)));
    match &password {
        Some(p) => {
            let pv = chars_of(p.as_str());
            if pv.len() == 0 {
                push_message(&mut errors, owned("SMTP_PASSWORD is empty"));
            } else if p.as_str().as_bytes().len() < 8 {
                push_message(&mut warnings, owned("SMTP_PASSWORD is short (less than 8 characters)"));
            }
        },
        None => {
            push_message(
                &mut errors,
                owned("Missing required environment variable: SMTP_PASSWORD"),
            );
        },
    }
    assert(strings_view(errors@) =~= e2 + smtp_password_errors(lookup(env@, "SMTP_PASSWORD"@)));
    assert(strings_view(warnings@) =~= w2 + smtp_password_warnings(lookup(env@, "SMTP_PASSWORD"@)));
    SmtpValidation { is_configured, errors, warnings }
}

// ---------------------------------------------------------------------------
// Production environment check
// ---------------------------------------------------------------------------

pub open spec fn missing_var_errors(env: Seq<(Seq<char>, Seq<char>)>, name: Seq<char>) -> Seq<Seq<char>> {
    if lookup(env, name) is None {
        seq!["Missing required environment variable: "@ + name]
    } else {
        seq![]
    }
}

pub open spec fn both_set(env: Seq<(Seq<char>, Seq<char>)>, a: Seq<char>, b: Seq<char>) -> bool {
    lookup(env, a) is Some && lookup(env, b) is Some
}

pub open spec fn credential_errors(env: Seq<(Seq<char>, Seq<char>)>) -> Seq<Seq<char>> {
    if !both_set(env, "SURREAL_ROOT_USER"@, "SURREAL_ROOT_PASS"@) && !both_set(
        env,
        "SURREAL_NAMESPACE_USER"@,
        "SURREAL_NAMESPACE_PASS"@,
    ) && !both_set(env, "SURREAL_USERNAME"@, "SURREAL_PASSWORD"@) {
        seq![
            "No database credentials found. Set one of: SURREAL_ROOT_USER/PASS, SURREAL_NAMESPACE_USER/PASS, or SURREAL_USERNAME/PASSWORD"@,
        ]
    } else {
        seq![]
    }
}

pub open spec fn weak_password_errors(env: Seq<(Seq<char>, Seq<char>)>) -> Seq<Seq<char>> {
    match lookup(env, "SURREAL_PASSWORD"@) {
        Some(p) => if utf8_len(p) < 8 {
            seq!["SURREAL_PASSWORD is too weak (minimum 8 characters required)"@]
        } else {
            seq![]
        },
        None => seq![],
    }
}

/// All problems with the environment of a deployment, in the order they are checked;
/// none outside production.
pub open spec fn production_env_errors(env: Seq<(Seq<char>, Seq<char>)>) -> Seq<Seq<char>> {
    if production_mode(env) {
        missing_var_errors(env, "SURREAL_NS"@) + missing_var_errors(env, "SURREAL_DB"@)
            + missing_var_errors(env, "LEPTOS_SITE_ADDR"@) + credential_errors(env)
            + weak_password_errors(env) + smtp_errors(env)
    } else {
        seq![]
    }
}

fn check_required(env: &Environment, name: &str, errors: &mut Vec<String>)
    ensures
        strings_view(final(errors)@) == strings_view(old(errors)@) + missing_var_errors(env@, name@),
{
    let ghost before = strings_view(errors@);
    if env.get(name).is_none() {
        let mut m = owned("Missing required environment variable: ");
        m.push_str(name);
        push_message(errors, m);
    }
    assert(strings_view(errors@) =~= before + missing_var_errors(env@, name@));
}

fn has_both(env: &Environment, a: &str, b: &str) -> (r: bool)
    ensures
        r == both_set(env@, a@, b@),
{
    env.get(a).is_some() && env.get(b).is_some()
}

/// Checks that a production deployment has the variables it needs: namespace,
/// database, site address, one set of database credentials, a strong database
/// password, and a usable SMTP configuration. Outside production nothing is checked.
pub fn validate_production_env(env: &Environment) -> (r: Result<(), Vec<String>>)
    ensures
        match r {
            Ok(()) => production_env_errors(env@).len() == 0,
            Err(errors) => strings_view(errors@) == production_env_errors(env@)
                && errors@.len() > 0,
        },
{
    let mut errors: Vec<String> = Vec::new();
    assert(strings_view(errors@) =~= Seq::empty());
    if is_production_env(env) {
        check_required(env, "SURREAL_NS", &mut errors);
        check_required(env, "SURREAL_DB", &mut errors);
        check_required(env, "LEPTOS_SITE_ADDR", &mut errors);
        let has_root = has_both(env, "SURREAL_ROOT_USER", "SURREAL_ROOT_PASS");
        let has_ns = has_both(env, "SURREAL_NAMESPACE_USER", "SURREAL_NAMESPACE_PASS");
        let has_db = has_both(env, "SURREAL_USERNAME", "SURREAL_PASSWORD");
        let ghost e3 = strings_view(errors@);
        if !has_root && !has_ns && !has_db {
            push_message(
                &mut errors,
                owned(
                    "No database credentials found. Set one of: SURREAL_ROOT_USER/PASS, SURREAL_NAMESPACE_USER/PASS, or SURREAL_USERNAME/PASSWORD",
                ),
            );
        }
        assert(strings_view(errors@) =~= e3 + credential_errors(env@));
        let ghost e4 = strings_view(errors@);
        match env.get("SURREAL_PASSWORD") {
            Some(p) => {
                if p.as_str().as_bytes().len() < 8 {
                    push_message(
                        &mut errors,
                        owned("SURREAL_PASSWORD is too weak (minimum 8 characters required)"),
                    );
                }
            },
            None => {},
        }
        assert(strings_view(errors@) =~= e4 + weak_password_errors(env@));
        let ghost e5 = strings_view(errors@);
        let smtp = validate_smtp_config(env);
        let mut i: usize = 0;
        while i < smtp.errors.len()
            invariant
                i <= smtp.errors.len(),
                strings_view(errors@) == e5 + strings_view(smtp.errors@).take(i as int),
            decreases smtp.errors.len() - i,
        {
            push_message(&mut errors, smtp.errors[i].clone());
            assert(strings_view(smtp.errors@).take(i + 1) =~= strings_view(smtp.errors@).take(
                i as int,
            ).push(smtp.errors@[i as int]@));
            i = i + 1;
        }
        assert(strings_view(smtp.errors@).take(i as int) =~= strings_view(smtp.errors@));
        assert(strings_view(errors@) =~= production_env_errors(env@));
    }
    if errors.len() == 0 {
        Ok(())
    } else {
        Err(errors)
    }
}

} // verus!
