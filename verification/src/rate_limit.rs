//! IP-based rate limiting: each client may make a bounded number of requests
//! within a sliding time window.
//!
//! Time is passed in by the caller as a `u64` count of nanoseconds on a monotonic
//! clock, so every decision here is a function of the limiter's state, the client
//! and the time of the request.

use vstd::prelude::*;

use vstd::hash_map::StringHashMap;

use crate::text::{before_first, chars_of, owned, prefix_before, string_from, trim, trim_chars};

verus! {

broadcast use vstd::string::group_string_axioms;

pub const NANOS_PER_SEC: u128 = 1_000_000_000;

/// Implements a simple IP-based rate limiting mechanism.
///
/// Tracks requests per client key within a sliding time window and refuses
/// requests exceeding the configured limit.
pub struct RateLimiter {
    requests: StringHashMap<Vec<u64>>,
    max_requests: usize,
    window_secs: u64,
}

/// The abstract state of a limiter: each tracked client's request times.
pub struct RateLimiterView {
    pub history: Map<Seq<char>, Seq<u64>>,
    pub max_requests: nat,
    pub window_secs: nat,
}

/// Nanoseconds from `t` to `now`, zero when `t` is later (as `Instant::duration_since`).
pub open spec fn elapsed(now: u64, t: u64) -> nat {
    if now >= t {
        (now - t) as nat
    } else {
        0
    }
}

/// The request at `t` still counts at `now`.
pub open spec fn is_recent(now: u64, t: u64, window_secs: nat) -> bool {
    elapsed(now, t) < window_secs * (NANOS_PER_SEC as nat)
}

/// The requests of `h` that still count at `now`, in their order.
pub open spec fn recent_requests(h: Seq<u64>, now: u64, window_secs: nat) -> Seq<u64>
    decreases h.len(),
{
    if h.len() == 0 {
        h
    } else if is_recent(now, h.last(), window_secs) {
        recent_requests(h.drop_last(), now, window_secs).push(h.last())
    } else {
        recent_requests(h.drop_last(), now, window_secs)
    }
}

/// A client's history after a request at `now`, and whether the request is allowed:
/// expired requests are dropped; with none left the request is recorded and allowed;
/// below the limit it is recorded and allowed; at the limit it is refused.
pub open spec fn after_request(h: Seq<u64>, now: u64, max_requests: nat, window_secs: nat) -> (Seq<u64>, bool) {
    let r = recent_requests(h, now, window_secs);
    if r.len() == 0 {
        (seq![now], true)
    } else if r.len() < max_requests {
        (r.push(now), true)
    } else {
        (r, false)
    }
}

/// The recorded requests of `key` (none when the client is not tracked).
pub open spec fn history_of(history: Map<Seq<char>, Seq<u64>>, key: Seq<char>) -> Seq<u64> {
    if history.dom().contains(key) {
        history[key]
    } else {
        Seq::empty()
    }
}

/// The most requests a client can have on record.
pub open spec fn history_cap(max_requests: nat) -> nat {
    if max_requests == 0 {
        1
    } else {
        max_requests
    }
}

impl View for RateLimiter {
    type V = RateLimiterView;

    closed spec fn view(&self) -> RateLimiterView {
        RateLimiterView {
            history: self.requests@.map_values(|v: Vec<u64>| v@),
            max_requests: self.max_requests as nat,
            window_secs: self.window_secs as nat,
        }
    }
}

pub proof fn lemma_recent_requests_shrinks(h: Seq<u64>, now: u64, window_secs: nat)
    ensures
        recent_requests(h, now, window_secs).len() <= h.len(),
        forall|i: int|
            0 <= i < recent_requests(h, now, window_secs).len() ==> is_recent(
                now,
                #[trigger] recent_requests(h, now, window_secs)[i],
                window_secs,
            ),
    decreases h.len(),
{
    if h.len() > 0 {
        lemma_recent_requests_shrinks(h.drop_last(), now, window_secs);
    }
}

impl RateLimiter {
    /// No client has more requests on record than the limit allows.
    pub closed spec fn wf(&self) -> bool {
        forall|k: Seq<char>|
            #[trigger] self.requests@.contains_key(k) ==> self.requests@[k]@.len() <= history_cap(
                self.max_requests as nat,
            )
    }

    /// Creates a limiter allowing `max_requests` requests per client within
    /// `window_secs` seconds.
    pub fn new(max_requests: usize, window_secs: u64) -> (r: Self)
        ensures
            r.wf(),
            r@.history == Map::<Seq<char>, Seq<u64>>::empty(),
            r@.max_requests == max_requests,
            r@.window_secs == window_secs,
    {
        let r = RateLimiter { requests: StringHashMap::new(), max_requests, window_secs };
        assert(r@.history =~= Map::<Seq<char>, Seq<u64>>::empty());
        r
    }

    /// Number of clients currently tracked.
    pub fn tracked_clients(&self) -> (n: usize)
        ensures
            n == self@.history.dom().len(),
    {
        assert(self@.history.dom() =~= self.requests@.dom());
        self.requests.len()
    }

    /// Number of requests on record for `key`, if the client is tracked.
    pub fn requests_on_record(&self, key: &str) -> (r: Option<usize>)
        ensures
            match r {
                Some(n) => self@.history.dom().contains(key@) && n == self@.history[key@].len(),
                None => !self@.history.dom().contains(key@),
            },
    {
        match self.requests.get(key) {
            Some(times) => Some(times.len()),
            None => None,
        }
    }

    /// Decides whether a request from `key` at time `now` (nanoseconds) is allowed,
    /// and records it: expired requests of that client are forgotten first; the
    /// request is allowed when none remain or fewer than the limit remain.
    pub fn check_rate_limit(&mut self, key: &str, now: u64) -> (allowed: bool)
        requires
            old(self).wf(),
        ensures
            final(self).wf(),
            final(self)@.max_requests == old(self)@.max_requests,
            final(self)@.window_secs == old(self)@.window_secs,
            ({
                let next = after_request(
                    history_of(old(self)@.history, key@),
                    now,
                    old(self)@.max_requests,
                    old(self)@.window_secs,
                );
                &&& allowed == next.1
                &&& final(self)@.history == old(self)@.history.insert(key@, next.0)
            }),
    {
        let window: u128 = (self.window_secs as u128) * NANOS_PER_SEC;
        let ghost old_h = history_of(self@.history, key@);
        let mut kept: Vec<u64> = Vec::new();
        match self.requests.get(key) {
            Some(times) => {
                let mut i: usize = 0;
                while i < times.len()
                    invariant
                        i <= times@.len(),
                        times@ == old_h,
                        window == self.window_secs * NANOS_PER_SEC,
                        kept@ == recent_requests(old_h.take(i as int), now, self.window_secs as nat),
                    decreases times.len() - i,
                {
                    let t = times[i];
                    let d: u128 = if now >= t {
                        (now - t) as u128
                    } else {
                        0
                    };
                    assert(old_h.take(i + 1).drop_last() =~= old_h.take(i as int));
                    if d < window {
                        kept.push(t);
                    }
                    i = i + 1;
                }
                assert(old_h.take(i as int) =~= old_h);
            },
            None => {
                assert(old_h =~= Seq::<u64>::empty());
            },
        }
        proof {
            lemma_recent_requests_shrinks(old_h, now, self.window_secs as nat);
        }
        let (new_times, allowed) = if kept.len() == 0 {
            let mut v: Vec<u64> = Vec::new();
            v.push(now);
            assert(v@ =~= seq![now]);
            (v, true)
        } else if kept.len() < self.max_requests {
            kept.push(now);
            (kept, true)
        } else {
            (kept, false)
        };
        let ghost new_view = new_times@;
        let ghost old_history = self@.history;
        proof {
            let cap = history_cap(self.max_requests as nat);
            assert(new_view.len() <= cap) by {
                if self.requests@.contains_key(key@) {
                    assert(old_h.len() <= cap);
                }
            }
        }
        self.requests.insert(owned(key), new_times);
        assert(self@.history =~= old_history.insert(key@, new_view));
        allowed
    }
}

// ---------------------------------------------------------------------------
// Laws
// ---------------------------------------------------------------------------

/// A request only touches its own client's history.
pub proof fn law_clients_are_independent(
    history: Map<Seq<char>, Seq<u64>>,
    key: Seq<char>,
    other: Seq<char>,
    now: u64,
    max_requests: nat,
    window_secs: nat,
)
    requires
        other != key,
    ensures
        history_of(
            history.insert(key, after_request(history_of(history, key), now, max_requests, window_secs).0),
            other,
        ) == history_of(history, other),
{
}

/// A client with fewer than the limit of requests in the window is always let
/// through, and one at the limit is turned away.
pub proof fn law_limit_is_enforced(h: Seq<u64>, now: u64, max_requests: nat, window_secs: nat)
    ensures
        recent_requests(h, now, window_secs).len() < max_requests ==> after_request(
            h,
            now,
            max_requests,
            window_secs,
        ).1,
        recent_requests(h, now, window_secs).len() >= max_requests && recent_requests(
            h,
            now,
            window_secs,
        ).len() > 0 ==> !after_request(h, now, max_requests, window_secs).1,
{
}

/// After a request the client's record holds only requests still inside the window,
/// besides the one just made, and never more than the limit (or one).
pub proof fn law_record_stays_bounded(h: Seq<u64>, now: u64, max_requests: nat, window_secs: nat)
    requires
        h.len() <= history_cap(max_requests),
    ensures
        after_request(h, now, max_requests, window_secs).0.len() <= history_cap(max_requests),
        forall|i: int|
            0 <= i < after_request(h, now, max_requests, window_secs).0.len() ==> #[trigger] after_request(
                h,
                now,
                max_requests,
                window_secs,
            ).0[i] == now || is_recent(now, after_request(h, now, max_requests, window_secs).0[i], window_secs),
{
    lemma_recent_requests_shrinks(h, now, window_secs);
    let r = recent_requests(h, now, window_secs);
    let a = after_request(h, now, max_requests, window_secs).0;
    assert forall|i: int| 0 <= i < a.len() implies #[trigger] a[i] == now || is_recent(now, a[i], window_secs) by {
        if r.len() != 0 && i < r.len() {
            assert(a[i] == r[i]);
        }
    }
}

/// The requests that still count are those of the record inside the window, in
/// their order.
pub proof fn law_recent_requests_are_the_window(h: Seq<u64>, now: u64, window_secs: nat)
    ensures
        recent_requests(h, now, window_secs) == h.filter(|t: u64| is_recent(now, t, window_secs)),
    decreases h.len(),
{
    reveal_with_fuel(Seq::filter, 1);
    if h.len() > 0 {
        law_recent_requests_are_the_window(h.drop_last(), now, window_secs);
    }
}

/// A request is allowed exactly when fewer requests than the limit (at least one)
/// remain in the window. An allowed request is added to what remains; a refused
/// one leaves the record as the requests still in the window, without adding or
/// dropping any other.
pub proof fn law_request_outcome(h: Seq<u64>, now: u64, max_requests: nat, window_secs: nat)
    ensures
        ({
            let r = h.filter(|t: u64| is_recent(now, t, window_secs));
            let (record, allowed) = after_request(h, now, max_requests, window_secs);
            &&& allowed == (r.len() < history_cap(max_requests))
            &&& allowed ==> record == r.push(now)
            &&& !allowed ==> record == r
        }),
{
    law_recent_requests_are_the_window(h, now, window_secs);
    let r = recent_requests(h, now, window_secs);
    if r.len() == 0 {
        assert(r.push(now) =~= seq![now]);
    }
}

/// What a request records for its client is what the client's next request
/// finds; the records of other clients are untouched; an untracked client has
/// no requests on record.
pub proof fn law_record_is_read_back(
    history: Map<Seq<char>, Seq<u64>>,
    key: Seq<char>,
    other: Seq<char>,
    record: Seq<u64>,
)
    ensures
        history_of(history.insert(key, record), key) == record,
        other != key ==> history_of(history.insert(key, record), other) == history_of(history, other),
        !history.dom().contains(key) ==> history_of(history, key).len() == 0,
{
}

/// Where a run of requests of one client leaves its record, and how many of them
/// were allowed.
pub open spec fn request_run(h: Seq<u64>, times: Seq<u64>, max_requests: nat, window_secs: nat) -> (
    Seq<u64>,
    nat,
)
    decreases times.len(),
{
    if times.len() == 0 {
        (h, 0)
    } else {
        let (record, n) = request_run(h, times.drop_last(), max_requests, window_secs);
        let (next, allowed) = after_request(record, times.last(), max_requests, window_secs);
        (next, if allowed { n + 1 } else { n })
    }
}

/// Times in order, all within one window of the first.
pub open spec fn within_one_window(times: Seq<u64>, window_secs: nat) -> bool {
    &&& forall|i: int, j: int| 0 <= i <= j < times.len() ==> times[i] <= times[j]
    &&& times.len() > 0 ==> times.last() - times[0] < window_secs * (NANOS_PER_SEC as nat)
}

proof fn lemma_all_recent_kept(h: Seq<u64>, now: u64, window_secs: nat)
    requires
        forall|i: int| 0 <= i < h.len() ==> is_recent(now, #[trigger] h[i], window_secs),
    ensures
        recent_requests(h, now, window_secs) == h,
    decreases h.len(),
{
    if h.len() > 0 {
        lemma_all_recent_kept(h.drop_last(), now, window_secs);
        assert(h.drop_last().push(h.last()) =~= h);
    }
}

proof fn lemma_run_within_window(times: Seq<u64>, max_requests: nat, window_secs: nat)
    requires
        within_one_window(times, window_secs),
    ensures
        ({
            let (record, n) = request_run(Seq::empty(), times, max_requests, window_secs);
            &&& record.len() == n
            &&& n <= history_cap(max_requests)
            &&& forall|i: int| 0 <= i < record.len() ==> times[0] <= #[trigger] record[i] <= times.last()
        }),
    decreases times.len(),
{
    if times.len() > 0 {
        let prev = times.drop_last();
        assert(within_one_window(prev, window_secs)) by {
            if prev.len() > 0 {
                assert(prev.last() <= times.last());
            }
        }
        lemma_run_within_window(prev, max_requests, window_secs);
        let (record, n) = request_run(Seq::empty(), prev, max_requests, window_secs);
        let now = times.last();
        assert forall|i: int| 0 <= i < record.len() implies is_recent(now, #[trigger] record[i], window_secs) by {
            assert(prev[0] == times[0]);
            assert(prev.last() == times[prev.len() - 1]);
            assert(times[prev.len() - 1] <= now);
        }
        lemma_all_recent_kept(record, now, window_secs);
        law_record_stays_bounded(record, now, max_requests, window_secs);
        let (next, allowed) = after_request(record, now, max_requests, window_secs);
        if allowed && record.len() != 0 {
            assert forall|i: int| 0 <= i < next.len() implies times[0] <= #[trigger] next[i] <= times.last() by {
                if i < record.len() {
                    assert(next[i] == record[i]);
                    assert(prev[0] == times[0]);
                    assert(times[prev.len() - 1] <= now);
                }
            }
        } else if !allowed {
            assert(prev[0] == times[0]);
            assert(times[prev.len() - 1] <= now);
        }
    }
}

/// Within one window a client is let through at most as many times as the limit
/// allows (once when the limit is zero), however many requests it makes.
pub proof fn law_at_most_limit_per_window(times: Seq<u64>, max_requests: nat, window_secs: nat)
    requires
        within_one_window(times, window_secs),
    ensures
        request_run(Seq::empty(), times, max_requests, window_secs).1 <= history_cap(max_requests),
{
    lemma_run_within_window(times, max_requests, window_secs);
}

// ---------------------------------------------------------------------------
// Client identification
// ---------------------------------------------------------------------------

/// The address a request is attributed to, from the value of its `X-Forwarded-For`
/// header (if any): the first listed entry, trimmed. Whether it is a valid IP address
/// is decided by the caller, which counts the request under `unknown` otherwise.
pub fn forwarded_address(forwarded_for: Option<&str>) -> (r: Option<String>)
    ensures
        match forwarded_for {
            Some(h) => r matches Some(a) && a@ == trim(before_first(h@, ',')),
            None => r is None,
        },
{
    match forwarded_for {
        Some(h) => {
            let v = chars_of(h);
            let first = prefix_before(&v, ',');
            let t = trim_chars(&first);
            Some(string_from(&t))
        },
        None => None,
    }
}

} // verus!
