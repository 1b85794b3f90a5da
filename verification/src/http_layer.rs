//! Server-wide HTTP layers: request rate limiting, request metrics,
//! security headers and cross-origin settings.
use vstd::prelude::*;
use crate::text::{ostr_view, strings_view};
use dashmap::DashMap;
use crate::text::{
    chars_of, eq_ignore_ascii_case, eq_ignore_case_spec, is_lit, lit, seq_eq, slice_range,
    split_trimmed, split_trimmed_exec, starts_with, starts_with_spec, string_from_chars, trim,
    trim_spec, views, int_decimal, u64_decimal,
};
use crate::headers::{RequestHeaders, header_str};
use crate::trusted::{
    bucket_fresh, bucket_table, bucket_table_get, bucket_table_insert, bucket_table_new,
    bucket_table_retain_fresh, utc_now_timestamp,
};

verus! {

/// `i64::saturating_sub`.
pub open spec fn sat_sub(a: i64, b: i64) -> i64 {
    if a - b > i64::MAX {
        i64::MAX
    } else if a - b < i64::MIN {
        i64::MIN
    } else {
        (a - b) as i64
    }
}

pub fn saturating_sub_i64(a: i64, b: i64) -> (r: i64)
    ensures
        r == sat_sub(a, b),
{
    let d: i128 = a as i128 - b as i128;
    if d > i64::MAX as i128 {
        i64::MAX
    } else if d < i64::MIN as i128 {
        i64::MIN
    } else {
        d as i64
    }
}

/// Whether a bucket whose window started at `window_start` is still kept at `now`.
pub fn is_fresh(window_start: i64, now: i64, max_age: i64) -> (r: bool)
    ensures
        r == bucket_fresh(window_start, now, max_age),
{
    saturating_sub_i64(now, window_start) <= max_age
}


/// `u32::saturating_add(1)`.
pub open spec fn sat_inc(c: u32) -> u32 {
    if c == u32::MAX {
        c
    } else {
        (c + 1) as u32
    }
}

/// The bucket a key holds after one check at `now`: a missing bucket starts
/// at `now`, a bucket whose window is over restarts at `now`, and the count
/// grows by one.
pub open spec fn bucket_after(prev: Option<(u32, i64)>, now: i64, window: i64) -> (u32, i64) {
    let b = match prev {
        Some(b) => b,
        None => (0u32, now),
    };
    let b2 = if sat_sub(now, b.1) >= window {
        (0u32, now)
    } else {
        b
    };
    (sat_inc(b2.0), b2.1)
}

pub open spec fn lookup(m: Map<Seq<char>, (u32, i64)>, k: Seq<char>) -> Option<(u32, i64)> {
    if m.contains_key(k) {
        Some(m[k])
    } else {
        None
    }
}

/// The buckets kept by a cleanup at `now`.
pub open spec fn fresh_buckets(m: Map<Seq<char>, (u32, i64)>, now: i64, max_age: i64) -> Map<Seq<char>, (u32, i64)> {
    Map::new(
        |k: Seq<char>| m.contains_key(k) && bucket_fresh(m[k].1, now, max_age),
        |k: Seq<char>| m[k],
    )
}

/// Fixed-window request counters, one per key.
pub struct HttpRateLimiter {
    buckets: DashMap<String, (u32, i64)>,
}

impl View for HttpRateLimiter {
    type V = Map<Seq<char>, (u32, i64)>;

    closed spec fn view(&self) -> Map<Seq<char>, (u32, i64)> {
        bucket_table(self.buckets)
    }
}

impl HttpRateLimiter {
    fn new() -> (r: Self)
        ensures
            r@ == Map::<Seq<char>, (u32, i64)>::empty(),
    {
        HttpRateLimiter { buckets: bucket_table_new() }
    }

    /// Counts one request for `key` at time `now`; the request is allowed
    /// while its window holds at most `max_count` requests.
    pub fn check_rate_limit_at(&mut self, key: &str, window_seconds: i64, max_count: u32, now: i64) -> (allowed: bool)
        ensures
            final(self)@ == old(self)@.insert(key@, bucket_after(lookup(old(self)@, key@), now, window_seconds)),
            allowed == (bucket_after(lookup(old(self)@, key@), now, window_seconds).0 <= max_count),
    {
        let prev = bucket_table_get(&self.buckets, key);
        let (mut count, mut start) = match prev {
            Some(b) => b,
            None => (0u32, now),
        };
        if saturating_sub_i64(now, start) >= window_seconds {
            start = now;
            count = 0;
        }
        count = if count == u32::MAX {
            count
        } else {
            count + 1
        };
        bucket_table_insert(&mut self.buckets, String::from_str(key), (count, start));
        count <= max_count
    }

    /// `check_rate_limit_at` at the current time, whatever the clock reads.
    pub fn check_rate_limit(&mut self, key: &str, window_seconds: i64, max_count: u32) -> (allowed: bool)
        ensures
            exists|now: i64|
                final(self)@ == old(self)@.insert(key@, bucket_after(lookup(old(self)@, key@), now, window_seconds))
                && allowed == (bucket_after(lookup(old(self)@, key@), now, window_seconds).0 <= max_count),
    {
        let now = utc_now_timestamp();
        self.check_rate_limit_at(key, window_seconds, max_count, now)
    }

    /// Drops the buckets whose window began more than `max_age_seconds` before `now`.
    pub fn cleanup_stale_at(&mut self, max_age_seconds: i64, now: i64)
        ensures
            final(self)@ == fresh_buckets(old(self)@, now, max_age_seconds),
    {
        bucket_table_retain_fresh(&mut self.buckets, now, max_age_seconds);
    }

    /// `cleanup_stale_at` at the current time, whatever the clock reads.
    pub fn cleanup_stale(&mut self, max_age_seconds: i64)
        ensures
            exists|now: i64| final(self)@ == #[trigger] fresh_buckets(old(self)@, now, max_age_seconds),
    {
        let now = utc_now_timestamp();
        self.cleanup_stale_at(max_age_seconds, now);
    }
}

/// Installs the server-wide rate limiter once: an empty slot receives a new,
/// empty limiter; a filled slot is left as it is.
pub fn install_http_rate_limiter(slot: &mut Option<HttpRateLimiter>)
    ensures
        (*old(slot)) is Some ==> *final(slot) == *old(slot),
        (*old(slot)) is None ==> (*final(slot) matches Some(l) && l@ == Map::<
            Seq<char>,
            (u32, i64),
        >::empty()),
{
    if slot.is_none() {
        *slot = Some(HttpRateLimiter::new());
    }
}

/// The bucket after a sequence of checks of one key, at the given times.
pub open spec fn run_checks(prev: Option<(u32, i64)>, times: Seq<i64>, window: i64) -> Option<(u32, i64)>
    decreases times.len(),
{
    if times.len() == 0 {
        prev
    } else {
        run_checks(Some(bucket_after(prev, times[0], window)), times.drop_first(), window)
    }
}

proof fn lemma_run_checks_in_window(c: u32, t0: i64, times: Seq<i64>, window: i64)
    requires
        c + times.len() <= u32::MAX,
        forall|i: int| 0 <= i < times.len() ==> t0 <= #[trigger] times[i] < t0 + window,
    ensures
        run_checks(Some((c, t0)), times, window) == Some(((c + times.len()) as u32, t0)),
    decreases times.len(),
{
    if times.len() > 0 {
        let t = times[0];
        assert(sat_sub(t, t0) == t - t0);
        assert(bucket_after(Some((c, t0)), t, window) == ((c + 1) as u32, t0));
        assert forall|i: int| 0 <= i < times.drop_first().len() implies t0 <= #[trigger] times.drop_first()[i] < t0 + window by {
            assert(times.drop_first()[i] == times[i + 1]);
        }
        lemma_run_checks_in_window((c + 1) as u32, t0, times.drop_first(), window);
    }
}

/// Within one window, a key's count is the number of checks made since the
/// window opened: starting from no bucket, after `n` checks whose times lie
/// in the window opened by the first, the bucket holds `n`, so the `n`-th
/// check is allowed exactly when `n <= max_count`.
pub proof fn law_window_counts_checks(times: Seq<i64>, window: i64, max_count: u32)
    requires
        1 <= times.len() < u32::MAX,
        window > 0,
        forall|i: int| 0 <= i < times.len() ==> times[0] <= #[trigger] times[i] < times[0] + window,
    ensures
        run_checks(None, times, window) == Some((times.len() as u32, times[0])),
        run_checks(None, times, window) matches Some(b) && ((b.0 <= max_count) == (times.len()
            <= max_count)),
{
    let t0 = times[0];
    assert(sat_sub(t0, t0) == 0);
    assert(bucket_after(None, t0, window) == (1u32, t0));
    assert forall|i: int| 0 <= i < times.drop_first().len() implies t0 <= #[trigger] times.drop_first()[i] < t0 + window by {
        assert(times.drop_first()[i] == times[i + 1]);
    }
    lemma_run_checks_in_window(1u32, t0, times.drop_first(), window);
}

/// The limiter's buckets after one check of `key` at `now`.
pub open spec fn rate_step(m: Map<Seq<char>, (u32, i64)>, key: Seq<char>, now: i64, window: i64) -> Map<Seq<char>, (u32, i64)> {
    m.insert(key, bucket_after(lookup(m, key), now, window))
}

/// The limiter's buckets after a run of checks `(key, now)`, all with the
/// same window, made in order.
pub open spec fn limiter_after(m: Map<Seq<char>, (u32, i64)>, calls: Seq<(Seq<char>, i64)>, window: i64) -> Map<Seq<char>, (u32, i64)>
    decreases calls.len(),
{
    if calls.len() == 0 {
        m
    } else {
        limiter_after(rate_step(m, calls[0].0, calls[0].1, window), calls.drop_first(), window)
    }
}

/// The times of the checks of one key in a run of checks, in order.
pub open spec fn times_of(calls: Seq<(Seq<char>, i64)>, key: Seq<char>) -> Seq<i64>
    decreases calls.len(),
{
    if calls.len() == 0 {
        Seq::empty()
    } else {
        let rest = times_of(calls.drop_first(), key);
        if calls[0].0 == key {
            seq![calls[0].1] + rest
        } else {
            rest
        }
    }
}

/// The answer of the `i`-th check of a run (`check_rate_limit_at` on the
/// buckets the earlier checks left).
pub open spec fn answer_at(m: Map<Seq<char>, (u32, i64)>, calls: Seq<(Seq<char>, i64)>, i: int, window: i64, max_count: u32) -> bool {
    bucket_after(lookup(limiter_after(m, calls.take(i), window), calls[i].0), calls[i].1, window).0 <= max_count
}

proof fn lemma_run_checks_push(prev: Option<(u32, i64)>, times: Seq<i64>, t: i64, window: i64)
    ensures
        run_checks(prev, times.push(t), window) == Some(bucket_after(run_checks(prev, times, window), t, window)),
    decreases times.len(),
{
    if times.len() == 0 {
        assert(times.push(t).drop_first() =~= Seq::<i64>::empty());
        assert(times.push(t)[0] == t);
        let b = bucket_after(prev, t, window);
        assert(run_checks(Some(b), Seq::<i64>::empty(), window) == Some(b));
    } else {
        assert(times.push(t)[0] == times[0]);
        assert(times.push(t).drop_first() =~= times.drop_first().push(t));
        lemma_run_checks_push(Some(bucket_after(prev, times[0], window)), times.drop_first(), t, window);
    }
}

proof fn lemma_times_of_concat(a: Seq<(Seq<char>, i64)>, b: Seq<(Seq<char>, i64)>, key: Seq<char>)
    ensures
        times_of(a + b, key) == times_of(a, key) + times_of(b, key),
    decreases a.len(),
{
    if a.len() == 0 {
        assert(a + b =~= b);
        assert(times_of(a, key) + times_of(b, key) =~= times_of(b, key));
    } else {
        assert((a + b).drop_first() =~= a.drop_first() + b);
        lemma_times_of_concat(a.drop_first(), b, key);
        if a[0].0 == key {
            assert(seq![a[0].1] + (times_of(a.drop_first(), key) + times_of(b, key))
                =~= (seq![a[0].1] + times_of(a.drop_first(), key)) + times_of(b, key));
        }
    }
}

/// Checks of one key answer as if no other key were checked: after any run
/// of checks, a key's bucket is what the checks of that key alone, at
/// their times, make of its starting bucket.
pub proof fn law_rate_limit_keys_isolated(
    m: Map<Seq<char>, (u32, i64)>,
    calls: Seq<(Seq<char>, i64)>,
    window: i64,
    key: Seq<char>,
)
    ensures
        lookup(limiter_after(m, calls, window), key) == run_checks(lookup(m, key), times_of(calls, key), window),
    decreases calls.len(),
{
    if calls.len() > 0 {
        let m1 = rate_step(m, calls[0].0, calls[0].1, window);
        law_rate_limit_keys_isolated(m1, calls.drop_first(), window, key);
        if calls[0].0 == key {
            let ts = seq![calls[0].1] + times_of(calls.drop_first(), key);
            assert(ts.drop_first() =~= times_of(calls.drop_first(), key));
            assert(lookup(m1, key) == Some(bucket_after(lookup(m, key), calls[0].1, window)));
        } else {
            assert(lookup(m1, key) == lookup(m, key));
        }
    }
}

/// A fixed window over interleaved keys: starting from no bucket for a
/// key, when all its checks in a run fall in the window its first check
/// opens, its `j`-th check is allowed exactly when `j <= max_count`,
/// whatever checks of other keys come between.
pub proof fn law_rate_limit_interleaved(
    m: Map<Seq<char>, (u32, i64)>,
    calls: Seq<(Seq<char>, i64)>,
    window: i64,
    max_count: u32,
    key: Seq<char>,
)
    requires
        !m.contains_key(key),
        window > 0,
        times_of(calls, key).len() < u32::MAX,
        forall|j: int| 0 <= j < times_of(calls, key).len() ==> times_of(calls, key)[0]
            <= #[trigger] times_of(calls, key)[j] < times_of(calls, key)[0] + window,
    ensures
        forall|i: int| 0 <= i < calls.len() && calls[i].0 == key ==> answer_at(m, calls, i, window, max_count)
            == (times_of(#[trigger] calls.take(i + 1), key).len() <= max_count),
{
    let all = times_of(calls, key);
    assert forall|i: int| 0 <= i < calls.len() && calls[i].0 == key implies answer_at(m, calls, i, window, max_count)
        == (times_of(#[trigger] calls.take(i + 1), key).len() <= max_count) by {
        let t = calls[i].1;
        let pre = times_of(calls.take(i), key);
        law_rate_limit_keys_isolated(m, calls.take(i), window, key);
        assert(lookup(m, key) is None);
        lemma_run_checks_push(None, pre, t, window);
        let single = seq![calls[i]];
        assert(calls.take(i + 1) =~= calls.take(i) + single);
        lemma_times_of_concat(calls.take(i), single, key);
        assert(single.drop_first() =~= Seq::<(Seq<char>, i64)>::empty());
        assert(times_of(Seq::<(Seq<char>, i64)>::empty(), key) == Seq::<i64>::empty());
        assert(single[0] == calls[i]);
        assert(seq![t] + Seq::<i64>::empty() =~= seq![t]);
        assert(times_of(single, key) =~= seq![t]);
        let u = times_of(calls.take(i + 1), key);
        assert(u =~= pre.push(t));
        assert(calls =~= calls.take(i + 1) + calls.skip(i + 1));
        lemma_times_of_concat(calls.take(i + 1), calls.skip(i + 1), key);
        assert forall|j: int| 0 <= j < u.len() implies u[0] <= #[trigger] u[j] < u[0] + window by {
            assert(u[j] == all[j]);
            assert(u[0] == all[0]);
        }
        law_window_counts_checks(u, window, max_count);
    }
}

/// A check made once a key's window is over starts a new window with a
/// count of one: it is allowed whenever `max_count` is at least one.
pub proof fn law_window_restarts(b: (u32, i64), now: i64, window: i64, max_count: u32)
    requires
        sat_sub(now, b.1) >= window,
    ensures
        bucket_after(Some(b), now, window) == (1u32, now),
        (bucket_after(Some(b), now, window).0 <= max_count) == (1 <= max_count),
{
}

/// The three checks a request passes, in order: the client's global
/// per-second budget, a bot token's per-minute budget, and the client's
/// per-minute budget on sign-in routes. A failed check ends the sequence.
pub open spec fn request_checks(
    m: Map<Seq<char>, (u32, i64)>,
    client_key: Seq<char>,
    bot_key: Option<Seq<char>>,
    is_auth_path: bool,
    t1: i64,
    t2: i64,
    t3: i64,
) -> (Map<Seq<char>, (u32, i64)>, bool) {
    let gk = "http:global:"@ + client_key;
    let g = bucket_after(lookup(m, gk), t1, 1);
    let m1 = m.insert(gk, g);
    if g.0 > 120 {
        (m1, false)
    } else {
        let (m2, ok2) = match bot_key {
            Some(b) => {
                let bk = "http:bot:"@ + b;
                let bb = bucket_after(lookup(m1, bk), t2, 60);
                (m1.insert(bk, bb), bb.0 <= 300)
            },
            None => (m1, true),
        };
        if !ok2 {
            (m2, false)
        } else if is_auth_path {
            let ak = "http:auth:"@ + client_key;
            let ab = bucket_after(lookup(m2, ak), t3, 60);
            (m2.insert(ak, ab), ab.0 <= 60)
        } else {
            (m2, true)
        }
    }
}

fn prefixed_key(prefix: &str, rest: &str) -> (r: String)
    ensures
        r@ == prefix@ + rest@,
{
    let mut s = String::from_str(prefix);
    s.append(rest);
    s
}

impl HttpRateLimiter {
    /// Runs the request checks for a client (and a bot token's key, when
    /// the request carries one); true when the request may proceed.
    pub fn check_request_rate(&mut self, client_key: &str, bot_key: Option<&str>, is_auth_path: bool) -> (allowed: bool)
        ensures
            exists|t1: i64, t2: i64, t3: i64|
                (final(self)@, allowed) == #[trigger] request_checks(
                    old(self)@,
                    client_key@,
                    ostr_view(bot_key),
                    is_auth_path,
                    t1,
                    t2,
                    t3,
                ),
    {
        let ghost bk = ostr_view(bot_key);
        let t1 = utc_now_timestamp();
        let gk = prefixed_key("http:global:", client_key);
        if !self.check_rate_limit_at(gk.as_str(), 1, 120, t1) {
            assert((self@, false) == request_checks(old(self)@, client_key@, bk, is_auth_path, t1, t1, t1));
            return false;
        }
        let t2 = utc_now_timestamp();
        if let Some(b) = bot_key {
            let k = prefixed_key("http:bot:", b);
            if !self.check_rate_limit_at(k.as_str(), 60, 300, t2) {
                assert((self@, false) == request_checks(old(self)@, client_key@, bk, is_auth_path, t1, t2, t2));
                return false;
            }
        }
        let t3 = utc_now_timestamp();
        if is_auth_path {
            let k = prefixed_key("http:auth:", client_key);
            let ok = self.check_rate_limit_at(k.as_str(), 60, 60, t3);
            assert((self@, ok) == request_checks(old(self)@, client_key@, bk, is_auth_path, t1, t2, t3));
            return ok;
        }
        assert((self@, true) == request_checks(old(self)@, client_key@, bk, is_auth_path, t1, t2, t3));
        true
    }
}

/// Requests left out of rate limiting: `OPTIONS`, and LiveKit signalling
/// (`/livekit` and below), which carries its own token.
pub fn rate_limit_exempt(method: &str, path: &str) -> (r: bool)
    ensures
        r == (method@ == "OPTIONS"@ || path@ == "/livekit"@ || starts_with_spec(path@, "/livekit/"@)),
{
    let p = chars_of(path);
    is_lit(&chars_of(method), "OPTIONS") || is_lit(&p, "/livekit") || starts_with(&p, &lit("/livekit/"))
}

/// Sign-in routes, which have their own per-minute budget.
pub fn is_auth_path(path: &str) -> (r: bool)
    ensures
        r == starts_with_spec(path@, "/api/v1/auth/"@),
{
    starts_with(&chars_of(path), &lit("/api/v1/auth/"))
}

/// The bot token of `Authorization: Bot <token>`, trimmed, when not blank.
pub open spec fn bot_token_spec(h: Seq<(Seq<char>, Seq<char>)>) -> Option<Seq<char>> {
    match header_str(h, "authorization"@) {
        Some(v) => if starts_with_spec(v, "Bot "@) && trim_spec(v.skip(4)).len() > 0 {
            Some(trim_spec(v.skip(4)))
        } else {
            None
        },
        None => None,
    }
}

pub fn bot_token(headers: &RequestHeaders) -> (r: Option<String>)
    ensures
        match r {
            Some(t) => bot_token_spec(headers@) == Some(t@),
            None => bot_token_spec(headers@) is None,
        },
{
    proof {
        reveal_strlit("Bot ");
    }
    let v = match headers.get_str("authorization") {
        Some(v) => v,
        None => return None,
    };
    if !starts_with(&v, &lit("Bot ")) {
        return None;
    }
    let t = trim(&slice_range(&v, 4, v.len()));
    if t.len() == 0 {
        return None;
    }
    Some(string_from_chars(&t))
}

// ---------------------------------------------------------------------------
// Metrics
// ---------------------------------------------------------------------------

/// A character of a Prometheus label value, escaped: `\`, `"` and newline
/// get a backslash.
pub open spec fn escape_char(c: char) -> Seq<char> {
    if c == '\\' {
        seq!['\\', '\\']
    } else if c == '"' {
        seq!['\\', '"']
    } else if c == '\n' {
        seq!['\\', 'n']
    } else {
        seq![c]
    }
}

pub open spec fn escape_label(s: Seq<char>) -> Seq<char>
    decreases s.len(),
{
    if s.len() == 0 {
        Seq::empty()
    } else {
        escape_label(s.drop_last()) + escape_char(s.last())
    }
}

/// An escaped label value stays on one line: it holds no newline.
pub proof fn law_escaped_label_single_line(s: Seq<char>)
    ensures
        !escape_label(s).contains('\n'),
    decreases s.len(),
{
    if s.len() > 0 {
        law_escaped_label_single_line(s.drop_last());
        let a = escape_label(s.drop_last());
        let b = escape_char(s.last());
        assert(!b.contains('\n'));
        if (a + b).contains('\n') {
            let k = choose|k: int| 0 <= k < (a + b).len() && (a + b)[k] == '\n';
            if k < a.len() {
                assert(a[k] == '\n');
            } else {
                assert(b[k - a.len()] == '\n');
            }
        }
    }
}

pub fn prometheus_escape_label_value(value: &str) -> (r: String)
    ensures
        r@ == escape_label(value@),
{
    let v = chars_of(value);
    let mut out: Vec<char> = Vec::new();
    let mut i: usize = 0;
    while i < v.len()
        invariant
            i <= v@.len(),
            out@ == escape_label(v@.take(i as int)),
        decreases v.len() - i,
    {
        let c = v[i];
        assert(v@.take(i as int + 1).drop_last() == v@.take(i as int));
        assert(v@.take(i as int + 1).last() == c);
        let ghost prev = out@;
        if c == '\\' {
            out.push('\\');
            out.push('\\');
        } else if c == '"' {
            out.push('\\');
            out.push('"');
        } else if c == '\n' {
            out.push('\\');
            out.push('n');
        } else {
            out.push(c);
        }
        assert(out@ =~= prev + escape_char(c));
        i = i + 1;
    }
    assert(v@.take(i as int) == v@);
    string_from_chars(&out)
}

/// Request counters: a cumulative duration histogram (milliseconds, upper
/// bounds 5 to 1000 and unbounded), the total duration in microseconds,
/// the number of timed requests, and responses by status class.
pub struct HttpMetrics {
    pub le_5: u64,
    pub le_10: u64,
    pub le_25: u64,
    pub le_50: u64,
    pub le_100: u64,
    pub le_250: u64,
    pub le_500: u64,
    pub le_1000: u64,
    pub le_inf: u64,
    pub sum_us: u64,
    pub count: u64,
    pub status_2xx: u64,
    pub status_4xx: u64,
    pub status_5xx: u64,
}

/// One more, wrapping at 2^64 as an atomic counter does, when `hit`.
pub open spec fn bump(x: u64, hit: bool) -> u64 {
    if !hit {
        x
    } else if x == u64::MAX {
        0
    } else {
        (x + 1) as u64
    }
}

/// `u64::saturating_mul(1000)`.
pub open spec fn micros(ms: u64) -> u64 {
    if ms * 1000 > u64::MAX {
        u64::MAX
    } else {
        (ms * 1000) as u64
    }
}

/// The counters after one request that took `ms` milliseconds.
pub open spec fn after_duration(m: HttpMetrics, ms: u64) -> HttpMetrics {
    HttpMetrics {
        le_5: bump(m.le_5, ms <= 5),
        le_10: bump(m.le_10, ms <= 10),
        le_25: bump(m.le_25, ms <= 25),
        le_50: bump(m.le_50, ms <= 50),
        le_100: bump(m.le_100, ms <= 100),
        le_250: bump(m.le_250, ms <= 250),
        le_500: bump(m.le_500, ms <= 500),
        le_1000: bump(m.le_1000, ms <= 1000),
        le_inf: bump(m.le_inf, true),
        sum_us: ((m.sum_us + micros(ms)) % 0x1_0000_0000_0000_0000) as u64,
        count: bump(m.count, true),
        ..m
    }
}

/// The counters after one response with status `status`.
pub open spec fn after_status(m: HttpMetrics, status: u16) -> HttpMetrics {
    HttpMetrics {
        status_2xx: bump(m.status_2xx, 200 <= status <= 299),
        status_4xx: bump(m.status_4xx, 400 <= status <= 499),
        status_5xx: bump(m.status_5xx, 500 <= status <= 599),
        ..m
    }
}

fn bump_exec(x: u64, hit: bool) -> (r: u64)
    ensures
        r == bump(x, hit),
{
    if !hit {
        x
    } else if x == u64::MAX {
        0
    } else {
        x + 1
    }
}

impl HttpMetrics {
    /// All counters at zero.
    pub fn new() -> (r: Self)
        ensures
            r == zero_metrics(),
    {
        HttpMetrics {
            le_5: 0,
            le_10: 0,
            le_25: 0,
            le_50: 0,
            le_100: 0,
            le_250: 0,
            le_500: 0,
            le_1000: 0,
            le_inf: 0,
            sum_us: 0,
            count: 0,
            status_2xx: 0,
            status_4xx: 0,
            status_5xx: 0,
        }
    }

    /// Counts a request that took `elapsed_ms` milliseconds.
    pub fn record_request_duration(&mut self, elapsed_ms: u64)
        ensures
            *final(self) == after_duration(*old(self), elapsed_ms),
    {
        self.le_5 = bump_exec(self.le_5, elapsed_ms <= 5);
        self.le_10 = bump_exec(self.le_10, elapsed_ms <= 10);
        self.le_25 = bump_exec(self.le_25, elapsed_ms <= 25);
        self.le_50 = bump_exec(self.le_50, elapsed_ms <= 50);
        self.le_100 = bump_exec(self.le_100, elapsed_ms <= 100);
        self.le_250 = bump_exec(self.le_250, elapsed_ms <= 250);
        self.le_500 = bump_exec(self.le_500, elapsed_ms <= 500);
        self.le_1000 = bump_exec(self.le_1000, elapsed_ms <= 1000);
        self.le_inf = bump_exec(self.le_inf, true);
        let us: u64 = if elapsed_ms > u64::MAX / 1000 {
            u64::MAX
        } else {
            elapsed_ms * 1000
        };
        let total: u128 = self.sum_us as u128 + us as u128;
        self.sum_us = (total % 0x1_0000_0000_0000_0000u128) as u64;
        self.count = bump_exec(self.count, true);
    }

    /// Counts a response by its status class (2xx, 4xx, 5xx; others not).
    pub fn record_status_code(&mut self, status: u16)
        ensures
            *final(self) == after_status(*old(self), status),
    {
        self.status_2xx = bump_exec(self.status_2xx, 200 <= status && status <= 299);
        self.status_4xx = bump_exec(self.status_4xx, 400 <= status && status <= 499);
        self.status_5xx = bump_exec(self.status_5xx, 500 <= status && status <= 599);
    }
}

pub open spec fn zero_metrics() -> HttpMetrics {
    HttpMetrics {
        le_5: 0,
        le_10: 0,
        le_25: 0,
        le_50: 0,
        le_100: 0,
        le_250: 0,
        le_500: 0,
        le_1000: 0,
        le_inf: 0,
        sum_us: 0,
        count: 0,
        status_2xx: 0,
        status_4xx: 0,
        status_5xx: 0,
    }
}

/// The counters after recording the durations in order.
pub open spec fn after_durations(m: HttpMetrics, durations: Seq<u64>) -> HttpMetrics
    decreases durations.len(),
{
    if durations.len() == 0 {
        m
    } else {
        after_duration(after_durations(m, durations.drop_last()), durations.last())
    }
}

/// How many of the durations are at most `bound`.
pub open spec fn count_at_most(durations: Seq<u64>, bound: u64) -> nat
    decreases durations.len(),
{
    if durations.len() == 0 {
        0
    } else {
        count_at_most(durations.drop_last(), bound) + if durations.last() <= bound {
            1nat
        } else {
            0nat
        }
    }
}

proof fn lemma_count_bounds(durations: Seq<u64>, a: u64, b: u64)
    requires
        a <= b,
    ensures
        count_at_most(durations, a) <= count_at_most(durations, b) <= durations.len(),
    decreases durations.len(),
{
    if durations.len() > 0 {
        lemma_count_bounds(durations.drop_last(), a, b);
    }
}

proof fn lemma_histogram_counts(durations: Seq<u64>)
    requires
        durations.len() < u64::MAX,
    ensures
        ({
            let m = after_durations(zero_metrics(), durations);
            &&& m.le_5 == count_at_most(durations, 5)
            &&& m.le_10 == count_at_most(durations, 10)
            &&& m.le_25 == count_at_most(durations, 25)
            &&& m.le_50 == count_at_most(durations, 50)
            &&& m.le_100 == count_at_most(durations, 100)
            &&& m.le_250 == count_at_most(durations, 250)
            &&& m.le_500 == count_at_most(durations, 500)
            &&& m.le_1000 == count_at_most(durations, 1000)
            &&& m.le_inf == durations.len()
            &&& m.count == durations.len()
        }),
    decreases durations.len(),
{
    if durations.len() > 0 {
        let d = durations.drop_last();
        lemma_histogram_counts(d);
        lemma_count_bounds(d, 5, u64::MAX);
        lemma_count_bounds(d, 10, u64::MAX);
        lemma_count_bounds(d, 25, u64::MAX);
        lemma_count_bounds(d, 50, u64::MAX);
        lemma_count_bounds(d, 100, u64::MAX);
        lemma_count_bounds(d, 250, u64::MAX);
        lemma_count_bounds(d, 500, u64::MAX);
        lemma_count_bounds(d, 1000, u64::MAX);
    }
}

/// The duration histogram is cumulative: from zero, after any run of fewer
/// than 2^64 recorded durations, each bucket counts the durations up to its
/// bound, so every bucket holds at most the next one, and the unbounded
/// bucket equals the number of requests timed.
pub proof fn law_histogram_cumulative(durations: Seq<u64>)
    requires
        durations.len() < u64::MAX,
    ensures
        ({
            let m = after_durations(zero_metrics(), durations);
            &&& m.le_5 <= m.le_10 <= m.le_25 <= m.le_50 <= m.le_100 <= m.le_250 <= m.le_500
                <= m.le_1000 <= m.le_inf
            &&& m.le_inf == m.count
            &&& m.count == durations.len()
            &&& m.le_5 == count_at_most(durations, 5)
            &&& m.le_100 == count_at_most(durations, 100)
            &&& m.le_1000 == count_at_most(durations, 1000)
        }),
{
    lemma_histogram_counts(durations);
    lemma_count_bounds(durations, 5, 10);
    lemma_count_bounds(durations, 10, 25);
    lemma_count_bounds(durations, 25, 50);
    lemma_count_bounds(durations, 50, 100);
    lemma_count_bounds(durations, 100, 250);
    lemma_count_bounds(durations, 250, 500);
    lemma_count_bounds(durations, 500, 1000);
    lemma_count_bounds(durations, 1000, u64::MAX);
}

// ---------------------------------------------------------------------------
// Security headers, cross-origin requests, metrics access
// ---------------------------------------------------------------------------

/// Routes served as API (health, metrics, API, federation, well-known),
/// which get the strictest content security policy.
pub open spec fn is_api_route(path: Seq<char>) -> bool {
    path == "/health"@ || path == "/metrics"@ || starts_with_spec(path, "/api/"@)
        || starts_with_spec(path, "/_paracord/"@) || starts_with_spec(path, "/.well-known/"@)
}

/// The content security policy of API routes.
pub open spec fn api_csp() -> Seq<char> {
    "default-src 'none'; frame-ancestors 'none'; base-uri 'none'"@
}

/// The content security policy of the web client's routes.
pub open spec fn client_csp() -> Seq<char> {
    "default-src 'self'; base-uri 'self'; frame-ancestors 'none'; object-src 'none'; script-src 'self'; style-src 'self' 'unsafe-inline' https://fonts.googleapis.com; font-src 'self' data: https://fonts.gstatic.com; img-src 'self' data: blob: https: http:; connect-src 'self' ws: wss: http: https:; media-src 'self' data: blob: https: http:"@
}

pub fn content_security_policy(path: &str) -> (r: &'static str)
    ensures
        r@ == (if is_api_route(path@) {
            api_csp()
        } else {
            client_csp()
        }),
{
    let p = chars_of(path);
    if is_lit(&p, "/health") || is_lit(&p, "/metrics") || starts_with(&p, &lit("/api/"))
        || starts_with(&p, &lit("/_paracord/")) || starts_with(&p, &lit("/.well-known/")) {
        "default-src 'none'; frame-ancestors 'none'; base-uri 'none'"
    } else {
        "default-src 'self'; base-uri 'self'; frame-ancestors 'none'; object-src 'none'; script-src 'self'; style-src 'self' 'unsafe-inline' https://fonts.googleapis.com; font-src 'self' data: https://fonts.gstatic.com; img-src 'self' data: blob: https: http:; connect-src 'self' ws: wss: http: https:; media-src 'self' data: blob: https: http:"
    }
}

/// A request forwarded over HTTPS, which gets a `Strict-Transport-Security` header.
pub fn forwarded_https(headers: &RequestHeaders) -> (r: bool)
    ensures
        r == (header_str(headers@, "x-forwarded-proto"@) matches Some(v) && eq_ignore_case_spec(
            v,
            "https"@,
        )),
{
    match headers.get_str("x-forwarded-proto") {
        Some(v) => eq_ignore_ascii_case(&v, &lit("https")),
        None => false,
    }
}

/// The headers every response gets, in order, as `(name, value)`: no MIME
/// sniffing, no framing, no referrer, no camera, microphone or location,
/// same-origin isolation, the content security policy of the path, and
/// HSTS for requests forwarded over HTTPS.
pub open spec fn security_headers_spec(path: Seq<char>, https: bool) -> Seq<(Seq<char>, Seq<char>)> {
    seq![
        ("x-content-type-options"@, "nosniff"@),
        ("x-frame-options"@, "DENY"@),
        ("referrer-policy"@, "no-referrer"@),
        ("permissions-policy"@, "camera=(), microphone=(), geolocation=()"@),
        ("cross-origin-opener-policy"@, "same-origin"@),
        ("cross-origin-resource-policy"@, "same-origin"@),
        ("content-security-policy"@, if is_api_route(path) { api_csp() } else { client_csp() }),
    ] + (if https {
        seq![("strict-transport-security"@, "max-age=31536000; includeSubDomains"@)]
    } else {
        Seq::empty()
    })
}

pub fn security_headers(path: &str, headers: &RequestHeaders) -> (r: Vec<(&'static str, &'static str)>)
    ensures
        r@.map_values(|h: (&'static str, &'static str)| (h.0@, h.1@)) == security_headers_spec(
            path@,
            header_str(headers@, "x-forwarded-proto"@) matches Some(v) && eq_ignore_case_spec(v, "https"@),
        ),
{
    let mut r: Vec<(&'static str, &'static str)> = Vec::new();
    r.push(("x-content-type-options", "nosniff"));
    r.push(("x-frame-options", "DENY"));
    r.push(("referrer-policy", "no-referrer"));
    r.push(("permissions-policy", "camera=(), microphone=(), geolocation=()"));
    r.push(("cross-origin-opener-policy", "same-origin"));
    r.push(("cross-origin-resource-policy", "same-origin"));
    r.push(("content-security-policy", content_security_policy(path)));
    let https = forwarded_https(headers);
    if https {
        r.push(("strict-transport-security", "max-age=31536000; includeSubDomains"));
    }
    proof {
        assert(r@.map_values(|h: (&'static str, &'static str)| (h.0@, h.1@)) =~= security_headers_spec(
            path@,
            https,
        ));
    }
    r
}

/// The origins always allowed: the desktop client and local development servers.
pub open spec fn default_origins() -> Seq<Seq<char>> {
    seq![
        "tauri://localhost"@,
        "http://tauri.localhost"@,
        "https://tauri.localhost"@,
        "http://localhost:1420"@,
        "http://127.0.0.1:1420"@,
        "http://localhost:5173"@,
        "http://127.0.0.1:5173"@,
    ]
}

/// The allowed origins: the defaults, the public URL (trimmed, when not
/// blank) and each listed origin (comma-separated, trimmed, not blank).
pub open spec fn cors_origins_spec(public_url: Option<Seq<char>>, listed: Option<Seq<char>>) -> Set<Seq<char>> {
    let base = default_origins().to_set();
    let with_public = match public_url {
        Some(u) => if trim_spec(u).len() > 0 {
            base.insert(trim_spec(u))
        } else {
            base
        },
        None => base,
    };
    match listed {
        Some(l) => with_public.union(split_trimmed(l, ',').to_set()),
        None => with_public,
    }
}

fn push_new(list: &mut Vec<String>, item: Vec<char>)
    requires
        strings_view(old(list)@).no_duplicates(),
    ensures
        strings_view(final(list)@).no_duplicates(),
        strings_view(final(list)@).to_set() == strings_view(old(list)@).to_set().insert(item@),
{
    let ghost before = strings_view(list@);
    let mut i: usize = 0;
    while i < list.len()
        invariant
            i <= list@.len(),
            list@ == old(list)@,
            before == strings_view(list@),
            before.no_duplicates(),
            forall|j: int| 0 <= j < i ==> before[j] != item@,
        decreases list.len() - i,
    {
        if seq_eq(&chars_of(list[i].as_str()), &item) {
            assert(before[i as int] == item@);
            assert(before.to_set() =~= before.to_set().insert(item@));
            return;
        }
        i = i + 1;
    }
    list.push(string_from_chars(&item));
    let ghost after = strings_view(list@);
    assert(after =~= before.push(item@));
    proof {
        before.lemma_push_to_set_commute(item@);
    }
    assert forall|a: int, b: int| 0 <= a < after.len() && 0 <= b < after.len() && a != b implies after[a] != after[b] by {
        if a < before.len() && b < before.len() {
            assert(after[a] == before[a] && after[b] == before[b]);
        } else if a < before.len() {
            assert(after[a] == before[a]);
        } else if b < before.len() {
            assert(after[b] == before[b]);
        }
    }
}

/// The allowed origins, each once. `public_url` and `listed` are the raw
/// values of `PARACORD_PUBLIC_URL` and `PARACORD_CORS_ALLOWED_ORIGINS`.
pub fn cors_allowed_origins(public_url: Option<&str>, listed: Option<&str>) -> (r: Vec<String>)
    ensures
        strings_view(r@).no_duplicates(),
        strings_view(r@).to_set() == cors_origins_spec(
            ostr_view(public_url),
            ostr_view(listed),
        ),
{
    let mut out: Vec<String> = Vec::new();
    assert(strings_view(out@) =~= Seq::<Seq<char>>::empty());
    assert(strings_view(out@).to_set() =~= Set::<Seq<char>>::empty());
    push_new(&mut out, lit("tauri://localhost"));
    push_new(&mut out, lit("http://tauri.localhost"));
    push_new(&mut out, lit("https://tauri.localhost"));
    push_new(&mut out, lit("http://localhost:1420"));
    push_new(&mut out, lit("http://127.0.0.1:1420"));
    push_new(&mut out, lit("http://localhost:5173"));
    push_new(&mut out, lit("http://127.0.0.1:5173"));
    let ghost base = default_origins().to_set();
    assert(strings_view(out@).to_set() =~= base);
    if let Some(u) = public_url {
        let t = trim(&chars_of(u));
        if t.len() > 0 {
            push_new(&mut out, t);
        }
    }
    let ghost with_public = strings_view(out@).to_set();
    if let Some(l) = listed {
        let parts = split_trimmed_exec(&chars_of(l), ',');
        let ghost ps = views(parts@);
        let mut i: usize = 0;
        while i < parts.len()
            invariant
                i <= parts@.len(),
                ps == views(parts@),
                strings_view(out@).no_duplicates(),
                strings_view(out@).to_set() == with_public.union(ps.take(i as int).to_set()),
            decreases parts.len() - i,
        {
            let ghost before = strings_view(out@).to_set();
            push_new(&mut out, slice_range(&parts[i], 0, parts[i].len()));
            assert(parts@[i as int]@.subrange(0, parts@[i as int]@.len() as int) == parts@[i as int]@);
            assert(ps.take(i as int + 1) == ps.take(i as int).push(ps[i as int]));
            proof {
                ps.take(i as int).lemma_push_to_set_commute(ps[i as int]);
            }
            assert(strings_view(out@).to_set() =~= with_public.union(ps.take(i as int + 1).to_set()));
            i = i + 1;
        }
        assert(ps.take(i as int) == ps);
    } else {
        assert(with_public =~= with_public);
    }
    out
}

/// Whether the list allows any origin (`*`), which turns credentials off.
pub fn cors_allow_any(origins: &Vec<String>) -> (r: bool)
    ensures
        r == strings_view(origins@).contains("*"@),
{
    let mut i: usize = 0;
    while i < origins.len()
        invariant
            i <= origins@.len(),
            forall|j: int| 0 <= j < i ==> strings_view(origins@)[j] != "*"@,
        decreases origins.len() - i,
    {
        if is_lit(&chars_of(origins[i].as_str()), "*") {
            assert(strings_view(origins@)[i as int] == "*"@);
            return true;
        }
        i = i + 1;
    }
    false
}

/// Who may read the metrics: anyone when they are public (`true` in any
/// case, or `1`); else a bearer of the configured token (trimmed), with
/// 403 when none is configured and 401 for a wrong or missing token.
pub open spec fn metrics_access_spec(
    public_flag: Option<Seq<char>>,
    token: Option<Seq<char>>,
    h: Seq<(Seq<char>, Seq<char>)>,
) -> Result<(), (u16, Seq<char>)> {
    if public_flag matches Some(v) && (eq_ignore_case_spec(v, "true"@) || v == "1"@) {
        Ok(())
    } else {
        match token {
            Some(t) if trim_spec(t).len() > 0 => {
                let presented = match header_str(h, "authorization"@) {
                    Some(v) => if starts_with_spec(v, "Bearer "@) {
                        Some(trim_spec(v.skip(7)))
                    } else {
                        None
                    },
                    None => None,
                };
                if presented == Some(trim_spec(t)) {
                    Ok(())
                } else {
                    Err((401, "unauthorized"@))
                }
            },
            _ => Err((403, "metrics disabled"@)),
        }
    }
}

/// `public_flag` and `token` are the raw values of
/// `PARACORD_ENABLE_PUBLIC_METRICS` and `PARACORD_METRICS_TOKEN`.
pub fn metrics_access(public_flag: Option<&str>, token: Option<&str>, headers: &RequestHeaders) -> (r:
    Result<(), (u16, &'static str)>)
    ensures
        match r {
            Ok(()) => metrics_access_spec(
                ostr_view(public_flag),
                ostr_view(token),
                headers@,
            ) is Ok,
            Err((code, msg)) => metrics_access_spec(
                ostr_view(public_flag),
                ostr_view(token),
                headers@,
            ) == Err::<(), (u16, Seq<char>)>((code, msg@)),
        },
{
    proof {
        reveal_strlit("Bearer ");
    }
    if let Some(v) = public_flag {
        let c = chars_of(v);
        if eq_ignore_ascii_case(&c, &lit("true")) || is_lit(&c, "1") {
            return Ok(());
        }
    }
    let expected = match token {
        Some(t) => trim(&chars_of(t)),
        None => return Err((403, "metrics disabled")),
    };
    if expected.len() == 0 {
        return Err((403, "metrics disabled"));
    }
    let presented = match headers.get_str("authorization") {
        Some(v) => if starts_with(&v, &lit("Bearer ")) {
            Some(trim(&slice_range(&v, 7, v.len())))
        } else {
            None
        },
        None => None,
    };
    match presented {
        Some(p) => if seq_eq(&p, &expected) {
            Ok(())
        } else {
            Err((401, "unauthorized"))
        },
        None => Err((401, "unauthorized")),
    }
}

// ---------------------------------------------------------------------------
// Metrics exposition
// ---------------------------------------------------------------------------

/// `<prefix><n>\n`.
pub open spec fn num_line(prefix: Seq<char>, n: u64) -> Seq<char> {
    prefix + int_decimal(n as int) + "\n"@
}

fn push_num_line(out: &mut String, prefix: &str, n: u64)
    ensures
        final(out)@ == old(out)@ + num_line(prefix@, n),
{
    out.append(prefix);
    out.append(string_from_chars(&u64_decimal(n)).as_str());
    out.append("\n");
}

/// One line per WebSocket event type, its name escaped as a label value.
pub open spec fn events_by_type_lines(by_type: Seq<(Seq<char>, u64)>) -> Seq<char>
    decreases by_type.len(),
{
    if by_type.len() == 0 {
        Seq::empty()
    } else {
        let last = by_type.last();
        events_by_type_lines(by_type.drop_last()) + "paracord_ws_events_by_type_total{event_type=\""@
            + escape_label(last.0) + "\"} "@ + int_decimal(last.1 as int) + "\n"@
    }
}

pub open spec fn metrics_body_spec(
    requests: u64,
    rate_limited: u64,
    m: HttpMetrics,
    duration_sum_seconds: Seq<char>,
    ws_active: u64,
    ws_events: u64,
    by_type: Seq<(Seq<char>, u64)>,
) -> Seq<char> {
    "# HELP paracord_up Whether the server is up.\n# TYPE paracord_up gauge\nparacord_up 1\n# HELP paracord_http_requests_total Total HTTP requests.\n# TYPE paracord_http_requests_total counter\n"@
        + num_line("paracord_http_requests_total "@, requests)
        + "# HELP paracord_http_rate_limited_total Requests rejected by rate limiter.\n# TYPE paracord_http_rate_limited_total counter\n"@
        + num_line("paracord_http_rate_limited_total "@, rate_limited)
        + "# HELP paracord_http_responses_total HTTP responses by status class.\n# TYPE paracord_http_responses_total counter\n"@
        + num_line("paracord_http_responses_total{status_class=\"2xx\"} "@, m.status_2xx)
        + num_line("paracord_http_responses_total{status_class=\"4xx\"} "@, m.status_4xx)
        + num_line("paracord_http_responses_total{status_class=\"5xx\"} "@, m.status_5xx)
        + "# HELP paracord_http_request_duration_seconds HTTP request duration histogram.\n# TYPE paracord_http_request_duration_seconds histogram\n"@
        + num_line("paracord_http_request_duration_seconds_bucket{le=\"0.005\"} "@, m.le_5)
        + num_line("paracord_http_request_duration_seconds_bucket{le=\"0.01\"} "@, m.le_10)
        + num_line("paracord_http_request_duration_seconds_bucket{le=\"0.025\"} "@, m.le_25)
        + num_line("paracord_http_request_duration_seconds_bucket{le=\"0.05\"} "@, m.le_50)
        + num_line("paracord_http_request_duration_seconds_bucket{le=\"0.1\"} "@, m.le_100)
        + num_line("paracord_http_request_duration_seconds_bucket{le=\"0.25\"} "@, m.le_250)
        + num_line("paracord_http_request_duration_seconds_bucket{le=\"0.5\"} "@, m.le_500)
        + num_line("paracord_http_request_duration_seconds_bucket{le=\"1.0\"} "@, m.le_1000)
        + num_line("paracord_http_request_duration_seconds_bucket{le=\"+Inf\"} "@, m.le_inf)
        + "paracord_http_request_duration_seconds_sum "@ + duration_sum_seconds + "\n"@
        + num_line("paracord_http_request_duration_seconds_count "@, m.count)
        + "# HELP paracord_ws_connections_active Active WebSocket gateway connections.\n# TYPE paracord_ws_connections_active gauge\n"@
        + num_line("paracord_ws_connections_active "@, ws_active)
        + "# HELP paracord_ws_events_total Total WebSocket events dispatched.\n# TYPE paracord_ws_events_total counter\n"@
        + num_line("paracord_ws_events_total "@, ws_events)
        + "# HELP paracord_ws_events_by_type_total Total WebSocket events dispatched by event type.\n# TYPE paracord_ws_events_by_type_total counter\n"@
        + events_by_type_lines(by_type)
}

pub open spec fn by_type_view(v: Seq<(String, u64)>) -> Seq<(Seq<char>, u64)> {
    v.map_values(|e: (String, u64)| (e.0@, e.1))
}

/// The Prometheus text exposition of the counters. `duration_sum_seconds`
/// is the total request time in seconds as already formatted (a float).
pub fn render_metrics(
    requests: u64,
    rate_limited: u64,
    m: &HttpMetrics,
    duration_sum_seconds: &str,
    ws_active: u64,
    ws_events: u64,
    events_by_type: &Vec<(String, u64)>,
) -> (r: String)
    ensures
        r@ == metrics_body_spec(
            requests,
            rate_limited,
            *m,
            duration_sum_seconds@,
            ws_active,
            ws_events,
            by_type_view(events_by_type@),
        ),
{
    let mut out = String::from_str(
        "# HELP paracord_up Whether the server is up.\n# TYPE paracord_up gauge\nparacord_up 1\n# HELP paracord_http_requests_total Total HTTP requests.\n# TYPE paracord_http_requests_total counter\n",
    );
    push_num_line(&mut out, "paracord_http_requests_total ", requests);
    out.append(
        "# HELP paracord_http_rate_limited_total Requests rejected by rate limiter.\n# TYPE paracord_http_rate_limited_total counter\n",
    );
    push_num_line(&mut out, "paracord_http_rate_limited_total ", rate_limited);
    out.append(
        "# HELP paracord_http_responses_total HTTP responses by status class.\n# TYPE paracord_http_responses_total counter\n",
    );
    push_num_line(&mut out, "paracord_http_responses_total{status_class=\"2xx\"} ", m.status_2xx);
    push_num_line(&mut out, "paracord_http_responses_total{status_class=\"4xx\"} ", m.status_4xx);
    push_num_line(&mut out, "paracord_http_responses_total{status_class=\"5xx\"} ", m.status_5xx);
    out.append(
        "# HELP paracord_http_request_duration_seconds HTTP request duration histogram.\n# TYPE paracord_http_request_duration_seconds histogram\n",
    );
    push_num_line(&mut out, "paracord_http_request_duration_seconds_bucket{le=\"0.005\"} ", m.le_5);
    push_num_line(&mut out, "paracord_http_request_duration_seconds_bucket{le=\"0.01\"} ", m.le_10);
    push_num_line(&mut out, "paracord_http_request_duration_seconds_bucket{le=\"0.025\"} ", m.le_25);
    push_num_line(&mut out, "paracord_http_request_duration_seconds_bucket{le=\"0.05\"} ", m.le_50);
    push_num_line(&mut out, "paracord_http_request_duration_seconds_bucket{le=\"0.1\"} ", m.le_100);
    push_num_line(&mut out, "paracord_http_request_duration_seconds_bucket{le=\"0.25\"} ", m.le_250);
    push_num_line(&mut out, "paracord_http_request_duration_seconds_bucket{le=\"0.5\"} ", m.le_500);
    push_num_line(&mut out, "paracord_http_request_duration_seconds_bucket{le=\"1.0\"} ", m.le_1000);
    push_num_line(&mut out, "paracord_http_request_duration_seconds_bucket{le=\"+Inf\"} ", m.le_inf);
    out.append("paracord_http_request_duration_seconds_sum ");
    out.append(duration_sum_seconds);
    out.append("\n");
    push_num_line(&mut out, "paracord_http_request_duration_seconds_count ", m.count);
    out.append(
        "# HELP paracord_ws_connections_active Active WebSocket gateway connections.\n# TYPE paracord_ws_connections_active gauge\n",
    );
    push_num_line(&mut out, "paracord_ws_connections_active ", ws_active);
    out.append(
        "# HELP paracord_ws_events_total Total WebSocket events dispatched.\n# TYPE paracord_ws_events_total counter\n",
    );
    push_num_line(&mut out, "paracord_ws_events_total ", ws_events);
    out.append(
        "# HELP paracord_ws_events_by_type_total Total WebSocket events dispatched by event type.\n# TYPE paracord_ws_events_by_type_total counter\n",
    );
    let ghost head = out@;
    let ghost bv = by_type_view(events_by_type@);
    let mut k: usize = 0;
    while k < events_by_type.len()
        invariant
            k <= events_by_type@.len(),
            bv == by_type_view(events_by_type@),
            out@ == head + events_by_type_lines(bv.take(k as int)),
        decreases events_by_type.len() - k,
    {
        out.append("paracord_ws_events_by_type_total{event_type=\"");
        out.append(prometheus_escape_label_value(events_by_type[k].0.as_str()).as_str());
        out.append("\"} ");
        push_num_line(&mut out, "", events_by_type[k].1);
        proof {
            assert(bv.take(k as int + 1).drop_last() == bv.take(k as int));
            assert(bv.take(k as int + 1).last() == bv[k as int]);
            assert(""@ + int_decimal(bv[k as int].1 as int) =~= int_decimal(bv[k as int].1 as int)) by {
                reveal_strlit("");
            }
            assert(out@ =~= head + events_by_type_lines(bv.take(k as int + 1)));
        }
        k = k + 1;
    }
    proof {
        assert(bv.take(bv.len() as int) == bv);
        assert(out@ =~= metrics_body_spec(
            requests,
            rate_limited,
            *m,
            duration_sum_seconds@,
            ws_active,
            ws_events,
            bv,
        ));
    }
    out
}


/// Largest request body accepted, in bytes.
pub const DEFAULT_REQUEST_BODY_LIMIT_BYTES: usize = 2097152;

/// Largest body accepted by an attachment upload, in bytes.
pub const ATTACHMENT_REQUEST_BODY_LIMIT_BYTES: usize = 67108864;

/// `POST /api/v1/channels/{channel_id}/attachments`: one non-empty path
/// segment between the fixed parts.
pub open spec fn attachment_upload_spec(method: Seq<char>, path: Seq<char>) -> bool {
    &&& method == "POST"@
    &&& crate::text::starts_with_spec(path, "/api/v1/channels/"@)
    &&& crate::text::ends_with_spec(path.skip(17), "/attachments"@)
    &&& path.len() > 17 + 12
    &&& !path.subrange(17, path.len() - 12).contains('/')
}

/// The body limit of a request: attachment uploads may carry 64 MiB,
/// every other request 2 MiB.
pub fn request_body_limit(method: &str, path: &str) -> (r: usize)
    ensures
        r == (if attachment_upload_spec(method@, path@) {
            ATTACHMENT_REQUEST_BODY_LIMIT_BYTES
        } else {
            DEFAULT_REQUEST_BODY_LIMIT_BYTES
        }),
{
    proof {
        reveal_strlit("/api/v1/channels/");
        reveal_strlit("/attachments");
    }
    let m = crate::text::chars_of(method);
    let p = crate::text::chars_of(path);
    if !crate::text::is_lit(&m, "POST") || !crate::text::starts_with(&p, &crate::text::lit("/api/v1/channels/")) {
        return DEFAULT_REQUEST_BODY_LIMIT_BYTES;
    }
    if p.len() <= 29 {
        return DEFAULT_REQUEST_BODY_LIMIT_BYTES;
    }
    let rest = crate::text::slice_range(&p, 17, p.len());
    assert(rest@ == p@.skip(17));
    if !crate::text::ends_with(&rest, &crate::text::lit("/attachments")) {
        return DEFAULT_REQUEST_BODY_LIMIT_BYTES;
    }
    let seg = crate::text::slice_range(&p, 17, p.len() - 12);
    if crate::text::contains_char(&seg, '/') {
        return DEFAULT_REQUEST_BODY_LIMIT_BYTES;
    }
    ATTACHMENT_REQUEST_BODY_LIMIT_BYTES
}

} // verus!
