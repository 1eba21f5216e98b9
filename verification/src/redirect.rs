//! Where the server redirects to: `www.` hosts to the bare host, plain HTTP to
//! HTTPS, and which port it listens on.

use vstd::prelude::*;

use crate::text::{
    chars_of, decimal, is_whitespace, matches_at, occurs_at, push_decimal, string_from, trim,
    trim_chars,
};

verus! {

broadcast use vstd::string::group_string_axioms;

/// `host` without all its leading `www.` prefixes, as
/// `trim_start_matches("www.")`.
pub open spec fn without_www(host: Seq<char>) -> Seq<char>
    decreases host.len(),
{
    if host.len() >= 4 && host.take(4) == "www."@ {
        without_www(host.skip(4))
    } else {
        host
    }
}

/// Where a request for `host` and `path_query` is sent permanently: for a
/// `www.` host, the same path on the host without `www.` over HTTPS.
pub open spec fn www_redirect(host: Seq<char>, path_query: Seq<char>) -> Option<Seq<char>> {
    if host.len() >= 4 && host.take(4) == "www."@ {
        Some("https://"@ + without_www(host) + path_query)
    } else {
        None
    }
}

/// The redirect target of a request for `host` with this path and query, or
/// `None` when the host has no `www.` prefix.
pub fn www_redirect_target(host: &str, path_query: &str) -> (target: Option<String>)
    ensures
        target.deep_view() == www_redirect(host@, path_query@),
{
    let v = chars_of(host);
    let www = chars_of("www.");
    proof {
        reveal_strlit("www.");
    }
    if !matches_at(&v, &www, 0) {
        assert(!(v@.len() >= 4 && v@.take(4) == "www."@)) by {
            if v@.len() >= 4 && v@.take(4) == "www."@ {
                assert(v@.subrange(0, 4) =~= v@.take(4));
            }
        }
        return None;
    }
    assert(v@.take(4) =~= v@.subrange(0, 4));
    let mut start: usize = 0;
    assert(v@.skip(0) =~= v@);
    while matches_at(&v, &www, start)
        invariant
            start <= v.len(),
            www@ == "www."@,
            www@ == seq!['w', 'w', 'w', '.'],
            without_www(v@.skip(start as int)) == without_www(v@),
        decreases v.len() - start,
    {
        assert(v@.skip(start as int).take(4) =~= v@.subrange(start as int, start + 4));
        assert(v@.skip(start as int).skip(4) =~= v@.skip(start + 4));
        start = start + 4;
    }
    proof {
        let rest = v@.skip(start as int);
        if rest.len() >= 4 && rest.take(4) == "www."@ {
            assert(rest.take(4) =~= v@.subrange(start as int, start + 4));
        }
    }
    let mut target = String::new();
    target.push_str("https://");
    let rest = string_from(&crate::text::slice_chars(&v, start, v.len()));
    assert(rest@ =~= v@.skip(start as int));
    target.push_str(rest.as_str());
    target.push_str(path_query);
    Some(target)
}

/// `s` with every occurrence of the non-empty `from` replaced by `to`, found
/// left to right without overlap, as `str::replace` does.
pub open spec fn replaced(s: Seq<char>, from: Seq<char>, to: Seq<char>) -> Seq<char>
    decreases s.len(),
{
    if s.len() == 0 || from.len() == 0 {
        s
    } else if occurs_at(s, from, 0) {
        to + replaced(s.skip(from.len() as int), from, to)
    } else {
        seq![s[0]] + replaced(s.drop_first(), from, to)
    }
}

/// `v` with every occurrence of `from` replaced by `to`.
pub fn replace_chars(v: &Vec<char>, from: &Vec<char>, to: &Vec<char>) -> (r: Vec<char>)
    requires
        from.len() > 0,
    ensures
        r@ == replaced(v@, from@, to@),
{
    let mut r: Vec<char> = Vec::new();
    let mut i: usize = 0;
    assert(v@.skip(0) =~= v@);
    while i < v.len()
        invariant
            i <= v.len(),
            from@.len() > 0,
            r@ + replaced(v@.skip(i as int), from@, to@) == replaced(v@, from@, to@),
        decreases v.len() - i,
    {
        let ghost rest = v@.skip(i as int);
        let ghost before = r@;
        if matches_at(v, from, i) {
            assert(rest.subrange(0, from@.len() as int) =~= v@.subrange(i as int, i + from@.len()));
            let mut k: usize = 0;
            while k < to.len()
                invariant
                    k <= to.len(),
                    r@ == before + to@.take(k as int),
                decreases to.len() - k,
            {
                r.push(to[k]);
                assert(before + to@.take(k + 1) =~= (before + to@.take(k as int)).push(to@[k as int]));
                k = k + 1;
            }
            assert(to@.take(k as int) =~= to@);
            assert(rest.skip(from@.len() as int) =~= v@.skip(i + from@.len()));
            assert(r@ + replaced(v@.skip(i + from@.len()), from@, to@) =~= before + replaced(
                rest,
                from@,
                to@,
            ));
            i = i + from.len();
        } else {
            assert(!occurs_at(rest, from@, 0)) by {
                if occurs_at(rest, from@, 0) {
                    assert(rest.subrange(0, from@.len() as int) =~= v@.subrange(
                        i as int,
                        i + from@.len(),
                    ));
                }
            }
            r.push(v[i]);
            assert(rest.drop_first() =~= v@.skip(i + 1));
            assert(r@ + replaced(v@.skip(i + 1), from@, to@) =~= before + replaced(rest, from@, to@));
            i = i + 1;
        }
    }
    assert(v@.skip(i as int) =~= Seq::<char>::empty());
    assert(r@ + Seq::<char>::empty() =~= r@);
    r
}

/// The host of the HTTPS address that a plain-HTTP request for `host` is sent
/// to: every occurrence of the HTTP port number replaced by the HTTPS one.
pub open spec fn https_host_of(host: Seq<char>, http_port: u16, https_port: u16) -> Seq<char> {
    replaced(host, decimal(http_port as nat), decimal(https_port as nat))
}

/// The decimal digits of `n`.
fn decimal_chars(n: u16) -> (v: Vec<char>)
    ensures
        v@ == decimal(n as nat),
        v@.len() > 0,
{
    let mut s = String::new();
    push_decimal(&mut s, n as u64);
    assert(s@ =~= decimal(n as nat));
    chars_of(s.as_str())
}

/// The HTTPS host for a request that came in on `host` over plain HTTP.
pub fn https_host(host: &str, http_port: u16, https_port: u16) -> (r: String)
    ensures
        r@ == https_host_of(host@, http_port, https_port),
{
    let v = chars_of(host);
    let from = decimal_chars(http_port);
    let to = decimal_chars(https_port);
    string_from(&replace_chars(&v, &from, &to))
}

/// The value of a run of decimal digits.
pub open spec fn digits_value(s: Seq<char>) -> nat
    decreases s.len(),
{
    if s.len() == 0 {
        0
    } else {
        digits_value(s.drop_last()) * 10 + (s.last() as nat - '0' as nat) as nat
    }
}

/// The port named by an environment value, as `u16::from_str` reads its
/// trimmed text: an optional `+` and then one or more decimal digits whose
/// value is at most 65535.
pub open spec fn port_of(raw: Seq<char>) -> Option<u16> {
    let t = trim(raw);
    let digits = if t.len() > 0 && t[0] == '+' {
        t.drop_first()
    } else {
        t
    };
    if t.len() > 0 && digits.len() > 0 && crate::text::all_chars(
        digits,
        |c: char| crate::text::is_ascii_digit(c),
    ) && digits_value(digits) <= 65535 {
        Some(digits_value(digits) as u16)
    } else {
        None
    }
}

/// The port given by the `PORT` environment value, when it names one.
pub fn port_from_env(raw: Option<&str>) -> (port: Option<u16>)
    ensures
        port == match raw {
            Some(r) => port_of(r@),
            None => None,
        },
{
    let text = match raw {
        Some(r) => r,
        None => {
            return None;
        },
    };
    let t = trim_chars(&chars_of(text));
    if t.len() == 0 {
        return None;
    }
    let start: usize = if t[0] == '+' {
        1
    } else {
        0
    };
    let ghost digits = t@.skip(start as int);
    assert(digits =~= if t@[0] == '+' {
        t@.drop_first()
    } else {
        t@
    });
    if start == t.len() {
        return None;
    }
    let mut value: u32 = 0;
    let mut i: usize = start;
    while i < t.len()
        invariant
            start <= i <= t.len(),
            digits == t@.skip(start as int),
            raw == Some(text),
            t@ == trim(text@),
            t@.len() > 0,
            digits == if t@[0] == '+' {
                t@.drop_first()
            } else {
                t@
            },
            value == digits_value(digits.take(i - start)),
            value <= 65535,
            forall|k: int| start <= k < i ==> crate::text::is_ascii_digit(#[trigger] t@[k]),
        decreases t.len() - i,
    {
        let c = t[i];
        if !crate::text::ascii_digit(c) {
            assert(!(|c: char| crate::text::is_ascii_digit(c))(digits[i - start]));
            return None;
        }
        assert(digits.take(i - start + 1).drop_last() =~= digits.take(i - start));
        assert(digits[i - start] == c);
        let d = (c as u32) - ('0' as u32);
        let next = value * 10 + d;
        if next > 65535 {
            proof {
                if crate::text::all_chars(digits, |c: char| crate::text::is_ascii_digit(c)) {
                    assert forall|j: int| 0 <= j < digits.len() implies crate::text::is_ascii_digit(
                        #[trigger] digits[j],
                    ) by {
                        assert((|c: char| crate::text::is_ascii_digit(c))(digits[j]));
                    }
                    lemma_digits_value_grows(digits, (i - start + 1) as nat);
                }
            }
            return None;
        }
        value = next;
        i = i + 1;
    }
    assert(digits.take(i - start) =~= digits);
    assert(crate::text::all_chars(digits, |c: char| crate::text::is_ascii_digit(c))) by {
        assert forall|k: int| 0 <= k < digits.len() implies (|c: char| crate::text::is_ascii_digit(c))(digits[k]) by {
            assert(digits[k] == t@[start + k]);
        }
    }
    Some(value as u16)
}

/// Which address the server listens on.
#[derive(Debug, Clone, Copy, PartialEq, Eq, Structural)]
pub enum ListenChoice {
    /// The address given by `LEPTOS_SITE_ADDR`.
    SiteAddr,
    /// All interfaces, on the port given by `PORT`.
    AnyInterface(u16),
    /// The address of the configuration file.
    Configured,
}

/// Chooses the listening address: `LEPTOS_SITE_ADDR` when it is set to a
/// socket address (`site_addr_ok`), else the port in `PORT` on all interfaces
/// when it names one, else the configured address.
pub fn choose_site_addr(site_addr_ok: bool, port_env: Option<&str>) -> (choice: ListenChoice)
    ensures
        choice == if site_addr_ok {
            ListenChoice::SiteAddr
        } else {
            match (match port_env {
                Some(r) => port_of(r@),
                None => None,
            }) {
                Some(p) => ListenChoice::AnyInterface(p),
                None => ListenChoice::Configured,
            }
        },
{
    if site_addr_ok {
        return ListenChoice::SiteAddr;
    }
    match port_from_env(port_env) {
        Some(p) => ListenChoice::AnyInterface(p),
        None => ListenChoice::Configured,
    }
}

proof fn lemma_digits_value_grows(s: Seq<char>, k: nat)
    requires
        k <= s.len(),
        forall|j: int| 0 <= j < s.len() ==> crate::text::is_ascii_digit(#[trigger] s[j]),
    ensures
        digits_value(s.take(k as int)) <= digits_value(s),
    decreases s.len() - k,
{
    if k < s.len() {
        lemma_digits_value_grows(s, k + 1);
        assert(s.take(k + 1 as int).drop_last() =~= s.take(k as int));
    } else {
        assert(s.take(k as int) =~= s);
    }
}

/// A `www.` host is redirected to a host that itself has no `www.` prefix, so
/// following the redirect never redirects again.
pub proof fn law_www_redirect_is_final(host: Seq<char>, path_query: Seq<char>)
    ensures
        www_redirect(without_www(host), path_query) is None,
    decreases host.len(),
{
    if host.len() >= 4 && host.take(4) == "www."@ {
        law_www_redirect_is_final(host.skip(4), path_query);
    }
}

/// A host that does not mention the HTTP port is kept as it is.
pub proof fn law_host_without_the_port_is_kept(host: Seq<char>, http_port: u16, https_port: u16)
    requires
        !crate::text::contains_seq(host, decimal(http_port as nat)),
    ensures
        https_host_of(host, http_port, https_port) == host,
{
    lemma_replaced_absent(host, decimal(http_port as nat), decimal(https_port as nat));
}

proof fn lemma_replaced_absent(s: Seq<char>, from: Seq<char>, to: Seq<char>)
    requires
        !crate::text::contains_seq(s, from),
    ensures
        replaced(s, from, to) == s,
    decreases s.len(),
{
    if s.len() > 0 && from.len() > 0 {
        assert(!occurs_at(s, from, 0));
        let t = s.drop_first();
        assert(!crate::text::contains_seq(t, from)) by {
            if crate::text::contains_seq(t, from) {
                let i = choose|i: int| #[trigger] occurs_at(t, from, i);
                assert(s.subrange(i + 1, i + 1 + from.len()) =~= t.subrange(i, i + from.len()));
                assert(occurs_at(s, from, i + 1));
            }
        }
        lemma_replaced_absent(t, from, to);
        assert(seq![s[0]] + t =~= s);
    }
}

} // verus!
