//! Forwarding of LiveKit signalling through the main port: which requests
//! may pass, where they go, what is logged of them, and the first field of
//! a signalling frame.
use vstd::prelude::*;
use crate::text::{ostr_view, ostring_view};
use crate::text::{
    before_char, before_char_exec, chars_of, concat, eq_ignore_ascii_case, eq_ignore_case_spec,
    ends_with, ends_with_spec, is_lit, lit, slice_range, split_exec, split_once_exec,
    split_once_spec, split_spec, starts_with, starts_with_spec, string_from_chars, trim, trim_spec,
    replace_all, replace_spec, lemma_find_char,
};
use crate::headers::{RequestHeaders, header_raw, header_str};
use crate::json::{Json, get_spec, opt_as_str};
use crate::trusted::{jwt_hs256_decode, jwt_hs256_payload_spec};
use crate::routes::voice::{is_optional_text_claim, optional_text_claim};

verus! {

/// Largest signalling message forwarded, in bytes.
pub const LIVEKIT_PROXY_MAX_MESSAGE_SIZE: usize = 67108864;

/// Largest signalling frame forwarded, in bytes.
pub const LIVEKIT_PROXY_MAX_FRAME_SIZE: usize = 16777216;

// ---------------------------------------------------------------------------
// Query strings
// ---------------------------------------------------------------------------

/// The name and value of one `name=value` item (`splitn(2, '=')`): the
/// value is empty when there is no `=`.
pub open spec fn pair_parts(pair: Seq<char>) -> (Seq<char>, Seq<char>) {
    match split_once_spec(pair, '=') {
        Some((k, v)) => (k, v),
        None => (pair, Seq::empty()),
    }
}

/// The first non-empty value given to `key` among the `&`-separated items.
pub open spec fn param_in(pairs: Seq<Seq<char>>, key: Seq<char>) -> Option<Seq<char>>
    decreases pairs.len(),
{
    if pairs.len() == 0 {
        None
    } else {
        let (k, v) = pair_parts(pairs[0]);
        if k == key && v.len() > 0 {
            Some(v)
        } else {
            param_in(pairs.drop_first(), key)
        }
    }
}

/// The value of a query parameter, if given a non-empty one.
pub open spec fn query_param_spec(query: Option<Seq<char>>, key: Seq<char>) -> Option<Seq<char>> {
    match query {
        Some(q) => param_in(split_spec(q, '&'), key),
        None => None,
    }
}

pub fn query_param(query: Option<&str>, key: &str) -> (r: Option<String>)
    ensures
        ostring_view(r) == query_param_spec(ostr_view(query), key@),
{
    let q = match query {
        Some(q) => q,
        None => return None,
    };
    let pairs = split_exec(&chars_of(q), '&');
    let ghost ps = split_spec(q@, '&');
    let want = chars_of(key);
    let mut i: usize = 0;
    assert(ps.skip(0) == ps);
    while i < pairs.len()
        invariant
            i <= pairs@.len(),
            pairs@.len() == ps.len(),
            forall|j: int| 0 <= j < pairs@.len() ==> (#[trigger] pairs@[j])@ == ps[j],
            want@ == key@,
            query_param_spec(ostr_view(query), key@) == param_in(ps, key@),
            param_in(ps, key@) == param_in(ps.skip(i as int), key@),
        decreases pairs.len() - i,
    {
        assert(ps.skip(i as int)[0] == ps[i as int]);
        assert(ps.skip(i as int).drop_first() == ps.skip(i as int + 1));
        let (k, v) = match split_once_exec(&pairs[i], '=') {
            Some(p) => p,
            None => (slice_range(&pairs[i], 0, pairs[i].len()), Vec::new()),
        };
        assert(pairs@[i as int]@.subrange(0, pairs@[i as int]@.len() as int) == pairs@[i as int]@);
        assert((k@, v@) == pair_parts(ps[i as int]));
        if crate::text::seq_eq(&k, &want) && v.len() > 0 {
            return Some(string_from_chars(&v));
        }
        i = i + 1;
    }
    None
}

/// The access token a signalling request carries: `access_token`, else
/// `token`.
pub fn livekit_access_token(query: Option<&str>) -> (r: Option<String>)
    ensures
        ostring_view(r) == (match query_param_spec(ostr_view(query), "access_token"@) {
            Some(t) => Some(t),
            None => query_param_spec(ostr_view(query), "token"@),
        }),
{
    match query_param(query, "access_token") {
        Some(t) => Some(t),
        None => query_param(query, "token"),
    }
}

/// The access token a signalling request carries, as text.
pub open spec fn access_token_spec(query: Option<Seq<char>>) -> Option<Seq<char>> {
    match query_param_spec(query, "access_token"@) {
        Some(t) => Some(t),
        None => query_param_spec(query, "token"@),
    }
}

/// A claim read as an optional unsigned number: absent, `null` or a
/// non-negative integer.
pub open spec fn optional_count_claim(v: Option<Json>) -> bool {
    match v {
        None => true,
        Some(Json::Null) => true,
        Some(Json::Number(Some(n))) => n >= 0,
        Some(_) => false,
    }
}

/// Claims an access token must carry: an object whose `iss` is an optional
/// string and whose `exp` is an optional unsigned number.
pub open spec fn proxy_claims_spec(c: Json) -> bool {
    &&& c is Object
    &&& optional_text_claim(get_spec(c, "iss"@))
    &&& optional_count_claim(get_spec(c, "exp"@))
}

/// Whether decoded token claims (`None` when the token was refused) are
/// accepted for the LiveKit proxy.
pub fn livekit_claims_accepted(claims: &Option<Json>) -> (r: bool)
    ensures
        r == (*claims matches Some(c) && proxy_claims_spec(c)),
{
    match claims {
        Some(c) => {
            let exp_ok = match c.get("exp") {
                None => true,
                Some(Json::Null) => true,
                Some(Json::Number(Some(n))) => *n >= 0,
                Some(_) => false,
            };
            c.is_object() && is_optional_text_claim(c.get("iss")) && exp_ok
        },
        None => false,
    }
}

/// Whether a LiveKit proxy request carries an access token signed with the
/// API secret, issued by the API key and unexpired, whose claims are
/// accepted. False without a token; true only when the token's payload
/// passes `livekit_claims_accepted`.
pub fn is_livekit_access_token_valid(query: Option<&str>, api_key: &str, api_secret: &str) -> (r: bool)
    ensures
        access_token_spec(ostr_view(query)) is None ==> !r,
        r ==> (access_token_spec(ostr_view(query)) matches Some(t)
            && jwt_hs256_payload_spec(t, api_secret@, api_key@, false) matches Some(c) && proxy_claims_spec(c)
            && (opt_as_str(get_spec(c, "iss"@)) is Some ==> opt_as_str(get_spec(c, "iss"@)) == Some(api_key@))),
{
    let token = match livekit_access_token(query) {
        Some(t) => t,
        None => return false,
    };
    let claims = jwt_hs256_decode(token.as_str(), api_secret, api_key, false);
    livekit_claims_accepted(&claims)
}

// ---------------------------------------------------------------------------
// Which requests pass
// ---------------------------------------------------------------------------

/// Whether `value` lists `upgrade` among its comma-separated tokens.
pub open spec fn lists_upgrade(parts: Seq<Seq<char>>) -> bool {
    exists|i: int| 0 <= i < parts.len() && eq_ignore_case_spec(trim_spec(#[trigger] parts[i]), "upgrade"@)
}

/// A request means to open a WebSocket: `Upgrade: websocket`, a WebSocket
/// key or version header, or `upgrade` among the `Connection` tokens.
pub open spec fn ws_intent_spec(h: Seq<(Seq<char>, Seq<char>)>) -> bool {
    ||| header_str(h, "upgrade"@) matches Some(v) && eq_ignore_case_spec(v, "websocket"@)
    ||| header_raw(h, "sec-websocket-key"@) is Some
    ||| header_raw(h, "sec-websocket-version"@) is Some
    ||| header_str(h, "connection"@) matches Some(v) && lists_upgrade(split_spec(v, ','))
}

pub fn has_ws_upgrade_intent(headers: &RequestHeaders) -> (r: bool)
    ensures
        r == ws_intent_spec(headers@),
{
    if let Some(v) = headers.get_str("upgrade") {
        if eq_ignore_ascii_case(&v, &lit("websocket")) {
            return true;
        }
    }
    if headers.contains("sec-websocket-key") || headers.contains("sec-websocket-version") {
        return true;
    }
    let v = match headers.get_str("connection") {
        Some(v) => v,
        None => return false,
    };
    let parts = split_exec(&v, ',');
    let ghost ps = split_spec(v@, ',');
    let want = lit("upgrade");
    let mut i: usize = 0;
    while i < parts.len()
        invariant
            i <= parts@.len(),
            parts@.len() == ps.len(),
            forall|j: int| 0 <= j < parts@.len() ==> (#[trigger] parts@[j])@ == ps[j],
            want@ == "upgrade"@,
            ps == split_spec(v@, ','),
            header_str(headers@, "connection"@) == Some(v@),
            forall|j: int| 0 <= j < i ==> !eq_ignore_case_spec(trim_spec(#[trigger] ps[j]), "upgrade"@),
        decreases parts.len() - i,
    {
        if eq_ignore_ascii_case(&trim(&parts[i]), &want) {
            assert(eq_ignore_case_spec(trim_spec(ps[i as int]), "upgrade"@));
            return true;
        }
        i = i + 1;
    }
    false
}

/// The path below `/livekit`, without leading slashes.
pub open spec fn livekit_subpath(path: Seq<char>) -> Seq<char> {
    crate::routes::auth::strip_prefixes(
        if starts_with_spec(path, "/livekit"@) {
            path.skip(8)
        } else {
            path
        },
        "/"@,
    )
}

/// A WebSocket may open the signalling endpoint (`/livekit`, `/livekit/rtc...`);
/// plain requests may only `GET` or `OPTIONS` a `rtc/.../validate` path.
pub open spec fn livekit_allowed_spec(path: Seq<char>, method: Seq<char>, is_ws_upgrade: bool) -> bool {
    let s = livekit_subpath(path);
    if is_ws_upgrade {
        s.len() == 0 || starts_with_spec(s, "rtc"@)
    } else {
        (method == "GET"@ || method == "OPTIONS"@) && starts_with_spec(s, "rtc/"@)
            && ends_with_spec(s, "/validate"@)
    }
}

/// The signalling WebSocket is proxied at `/livekit` and at `/livekit/rtc`
/// followed by anything, whatever the method; a plain `GET` or `OPTIONS`
/// of `/livekit/rtc/<anything>/validate` is proxied; a plain request with
/// any other method never is.
pub proof fn law_livekit_signalling_paths(suffix: Seq<char>, method: Seq<char>)
    ensures
        livekit_allowed_spec("/livekit/rtc"@ + suffix, method, true),
        livekit_allowed_spec("/livekit"@, method, true),
        (method == "GET"@ || method == "OPTIONS"@) ==> livekit_allowed_spec(
            "/livekit/rtc/"@ + suffix + "/validate"@,
            method,
            false,
        ),
        !(method == "GET"@ || method == "OPTIONS"@) ==> !livekit_allowed_spec("/livekit/rtc/"@ + suffix + "/validate"@, method, false),
        !livekit_allowed_spec("/livekit/twirp"@ + suffix, method, true),
        !livekit_allowed_spec("/livekit/twirp"@ + suffix, method, false),
{
    reveal_strlit("/livekit/rtc");
    reveal_strlit("/livekit/rtc/");
    reveal_strlit("/livekit");
    reveal_strlit("/");
    reveal_strlit("rtc");
    reveal_strlit("rtc/");
    reveal_strlit("/validate");
    let p = "/livekit/rtc"@ + suffix;
    assert(p.take(8) =~= "/livekit"@);
    let a = p.skip(8);
    assert(a =~= seq!['/'] + ("rtc"@ + suffix));
    assert(a.take(1) =~= "/"@);
    assert(a.skip(1) =~= "rtc"@ + suffix);
    let b = "rtc"@ + suffix;
    assert(b[0] == 'r');
    assert(b.take(1)[0] != "/"@[0]);
    assert(!starts_with_spec(b, "/"@));
    assert(crate::routes::auth::strip_prefixes(b, "/"@) == b);
    assert(livekit_subpath(p) == b);
    assert(b.take(3) =~= "rtc"@);
    let q = "/livekit"@;
    assert(q.take(8) =~= q);
    assert(q.skip(8) =~= Seq::<char>::empty());
    assert(crate::routes::auth::strip_prefixes(Seq::<char>::empty(), "/"@) == Seq::<char>::empty());
    let r = "/livekit/rtc/"@ + suffix + "/validate"@;
    assert(r.take(8) =~= "/livekit"@);
    let ra = r.skip(8);
    assert(ra =~= seq!['/'] + ("rtc/"@ + suffix + "/validate"@));
    assert(ra.take(1) =~= "/"@);
    assert(ra.skip(1) =~= "rtc/"@ + suffix + "/validate"@);
    let rb = "rtc/"@ + suffix + "/validate"@;
    assert(rb[0] == 'r');
    assert(rb.take(1)[0] != "/"@[0]);
    assert(!starts_with_spec(rb, "/"@));
    assert(crate::routes::auth::strip_prefixes(rb, "/"@) == rb);
    assert(livekit_subpath(r) == rb);
    assert(rb.take(4) =~= "rtc/"@);
    assert(rb.skip(rb.len() - 9) =~= "/validate"@);
    reveal_strlit("/livekit/twirp");
    let t = "/livekit/twirp"@ + suffix;
    assert(t.take(8) =~= "/livekit"@);
    let ta = t.skip(8);
    assert(ta.take(1) =~= "/"@);
    let tb = ta.skip(1);
    assert(tb =~= seq!['t', 'w', 'i', 'r', 'p'] + suffix);
    assert(tb.take(1)[0] != "/"@[0]);
    assert(crate::routes::auth::strip_prefixes(tb, "/"@) == tb);
    assert(livekit_subpath(t) == tb);
    assert(tb.take(3)[0] != "rtc"@[0]);
    assert(tb.take(4)[0] != "rtc/"@[0]);
}

fn livekit_subpath_exec(path: &str) -> (r: Vec<char>)
    ensures
        r@ == livekit_subpath(path@),
{
    proof {
        reveal_strlit("/livekit");
    }
    let p = chars_of(path);
    let rest = if starts_with(&p, &lit("/livekit")) {
        slice_range(&p, 8, p.len())
    } else {
        slice_range(&p, 0, p.len())
    };
    assert(p@.subrange(0, p@.len() as int) == p@);
    crate::routes::auth::strip_prefixes_exec(&rest, &lit("/"))
}

/// `method` is the request method's name (`GET`, `POST`, ...).
pub fn is_allowed_livekit_request(path: &str, method: &str, is_ws_upgrade: bool) -> (r: bool)
    ensures
        r == livekit_allowed_spec(path@, method@, is_ws_upgrade),
{
    let s = livekit_subpath_exec(path);
    if is_ws_upgrade {
        s.len() == 0 || starts_with(&s, &lit("rtc"))
    } else {
        let m = chars_of(method);
        (is_lit(&m, "GET") || is_lit(&m, "OPTIONS")) && starts_with(&s, &lit("rtc/")) && ends_with(
            &s,
            &lit("/validate"),
        )
    }
}

/// Request headers that are not forwarded to the LiveKit server.
pub fn is_hop_request_header(name: &str) -> (r: bool)
    ensures
        r == (name@ == "host"@ || name@ == "connection"@ || name@ == "upgrade"@),
{
    let n = chars_of(name);
    is_lit(&n, "host") || is_lit(&n, "connection") || is_lit(&n, "upgrade")
}

/// Response headers that are not passed back to the client.
pub fn is_hop_response_header(name: &str) -> (r: bool)
    ensures
        r == (name@ == "transfer-encoding"@ || name@ == "connection"@),
{
    let n = chars_of(name);
    is_lit(&n, "transfer-encoding") || is_lit(&n, "connection")
}

// ---------------------------------------------------------------------------
// Forwarding targets and logs
// ---------------------------------------------------------------------------

/// `path.strip_prefix("/livekit").unwrap_or(path)`.
pub open spec fn below_livekit(path: Seq<char>) -> Seq<char> {
    if starts_with_spec(path, "/livekit"@) {
        path.skip(8)
    } else {
        path
    }
}

/// The LiveKit URL a request is forwarded to: the server URL (with `ws://`
/// or `wss://` for a WebSocket), the path below `/livekit`, the query.
pub open spec fn target_spec(livekit_http_url: Seq<char>, path: Seq<char>, query: Option<Seq<char>>, ws: bool) -> Seq<char> {
    let base = if ws {
        replace_spec(replace_spec(livekit_http_url, "http://"@, "ws://"@), "https://"@, "wss://"@)
    } else {
        livekit_http_url
    };
    base + below_livekit(path) + match query {
        Some(q) => seq!['?'] + q,
        None => Seq::empty(),
    }
}

pub fn build_target(livekit_http_url: &str, path: &str, query: Option<&str>, ws: bool) -> (r: String)
    ensures
        r@ == target_spec(livekit_http_url@, path@, ostr_view(query), ws),
{
    proof {
        reveal_strlit("/livekit");
        reveal_strlit("http://");
        reveal_strlit("https://");
    }
    let url = chars_of(livekit_http_url);
    let base = if ws {
        let a = replace_all(&url, &lit("http://"), &lit("ws://"));
        replace_all(&a, &lit("https://"), &lit("wss://"))
    } else {
        url
    };
    let p = chars_of(path);
    let below = if starts_with(&p, &lit("/livekit")) {
        slice_range(&p, 8, p.len())
    } else {
        slice_range(&p, 0, p.len())
    };
    assert(p@.subrange(0, p@.len() as int) == p@);
    let mut out = concat(&base, &below);
    if let Some(q) = query {
        out.push('?');
        out = concat(&out, &chars_of(q));
    }
    assert(out@ =~= target_spec(livekit_http_url@, path@, ostr_view(query), ws));
    string_from_chars(&out)
}

/// The URL the WebSocket forwarder dials: `localhost` replaced by the IPv4
/// loopback address.
pub fn backend_ws_target(target: &str) -> (r: String)
    ensures
        r@ == replace_spec(target@, "://localhost:"@, "://127.0.0.1:"@),
{
    proof {
        reveal_strlit("://localhost:");
    }
    string_from_chars(&replace_all(&chars_of(target), &lit("://localhost:"), &lit("://127.0.0.1:")))
}

/// A forwarding target as logged: without its query.
pub fn sanitize_target_for_log(target: &str) -> (r: String)
    ensures
        r@ == before_char(target@, '?'),
{
    string_from_chars(&before_char_exec(&chars_of(target), '?'))
}

/// A logged forwarding target never carries a query string.
pub proof fn law_logged_target_has_no_query(target: Seq<char>)
    ensures
        !before_char(target, '?').contains('?'),
{
    lemma_find_char(target, '?');
    if before_char(target, '?').contains('?') {
        let k = choose|k: int| 0 <= k < before_char(target, '?').len() && before_char(target, '?')[k] == '?';
        assert(target[k] == '?');
    }
}

/// `key=REDACTED` for each query item with a non-blank key (the part
/// before `=`, trimmed), in order.
pub open spec fn redacted_items(pairs: Seq<Seq<char>>) -> Seq<Seq<char>>
    decreases pairs.len(),
{
    if pairs.len() == 0 {
        Seq::empty()
    } else {
        let rest = redacted_items(pairs.drop_last());
        let key = trim_spec(before_char(pairs.last(), '='));
        if key.len() == 0 {
            rest
        } else {
            rest.push(key + "=REDACTED"@)
        }
    }
}

/// Items joined with `sep` between them.
pub open spec fn join_spec(items: Seq<Seq<char>>, sep: char) -> Seq<char>
    decreases items.len(),
{
    if items.len() == 0 {
        Seq::empty()
    } else if items.len() == 1 {
        items[0]
    } else {
        join_spec(items.drop_last(), sep) + seq![sep] + items.last()
    }
}

/// A request URI as logged: the path, and the query's keys with every
/// value replaced by `REDACTED`.
pub open spec fn uri_for_log_spec(path: Seq<char>, query: Option<Seq<char>>) -> Seq<char> {
    match query {
        None => path,
        Some(q) => {
            let items = redacted_items(split_spec(q, '&'));
            if items.len() == 0 {
                path
            } else {
                path + seq!['?'] + join_spec(items, '&')
            }
        },
    }
}

pub fn sanitize_request_uri_for_log(path: &str, query: Option<&str>) -> (r: String)
    ensures
        r@ == uri_for_log_spec(path@, ostr_view(query)),
{
    let q = match query {
        Some(q) => q,
        None => return String::from_str(path),
    };
    let pairs = split_exec(&chars_of(q), '&');
    let ghost ps = split_spec(q@, '&');
    let mut joined: Vec<char> = Vec::new();
    let mut count: usize = 0;
    let mut i: usize = 0;
    while i < pairs.len()
        invariant
            i <= pairs@.len(),
            pairs@.len() == ps.len(),
            ps == split_spec(q@, '&'),
            forall|j: int| 0 <= j < pairs@.len() ==> (#[trigger] pairs@[j])@ == ps[j],
            count as nat == redacted_items(ps.take(i as int)).len(),
            joined@ == join_spec(redacted_items(ps.take(i as int)), '&'),
            count <= i,
        decreases pairs.len() - i,
    {
        assert(ps.take(i as int + 1).drop_last() == ps.take(i as int));
        assert(ps.take(i as int + 1).last() == ps[i as int]);
        let key = trim(&before_char_exec(&pairs[i], '='));
        if key.len() > 0 {
            let item = concat(&key, &lit("=REDACTED"));
            let ghost items = redacted_items(ps.take(i as int + 1));
            assert(items.drop_last() == redacted_items(ps.take(i as int)));
            assert(items.last() == item@);
            if count > 0 {
                joined.push('&');
                joined = concat(&joined, &item);
            } else {
                joined = item;
            }
            count = count + 1;
        }
        i = i + 1;
    }
    assert(ps.take(i as int) == ps);
    if count == 0 {
        return String::from_str(path);
    }
    let mut out = chars_of(path);
    out.push('?');
    out = concat(&out, &joined);
    string_from_chars(&out)
}

// ---------------------------------------------------------------------------
// Signalling frames
// ---------------------------------------------------------------------------

pub open spec fn pow128(k: nat) -> nat
    decreases k,
{
    if k == 0 {
        1
    } else {
        128 * pow128((k - 1) as nat)
    }
}

/// The number the first `n` bytes of a varint spell: seven low bits a
/// byte, least significant group first.
pub open spec fn varint_value(b: Seq<u8>, n: nat) -> nat
    decreases n,
{
    if n == 0 {
        0
    } else {
        varint_value(b, (n - 1) as nat) + ((b[n - 1] % 128) as nat) * pow128((n - 1) as nat)
    }
}

/// Index of the last byte of a leading varint: the first byte without its
/// high bit, within the first ten bytes.
pub open spec fn varint_end(b: Seq<u8>) -> Option<nat> {
    if exists|j: int| 0 <= j < 10 && j < b.len() && b[j] < 128 {
        Some(choose|j: nat| j < 10 && j < b.len() && b[j as int] < 128 && forall|k: int|
            0 <= k < j ==> b[k] >= 128)
    } else {
        None
    }
}

/// The field number and wire type of the first protobuf tag of a frame:
/// the leading varint read as a 64-bit number, field number its bits above
/// the third (cut to 32 bits), wire type its low three bits. `None` for an
/// unterminated varint, a zero tag or field number 0.
pub open spec fn first_tag_spec(b: Seq<u8>) -> Option<(u32, u8)> {
    match varint_end(b) {
        None => None,
        Some(j) => {
            let v = varint_value(b, j + 1) % 0x1_0000_0000_0000_0000;
            let field = (v / 8) % 0x1_0000_0000;
            if v == 0 || field == 0 {
                None
            } else {
                Some((field as u32, (v % 8) as u8))
            }
        },
    }
}

proof fn lemma_pow128_bounds(k: nat)
    ensures
        pow128(k) >= 1,
        k <= 9 ==> pow128(k) <= 0x8000_0000_0000_0000,
    decreases k,
{
    if k > 0 {
        lemma_pow128_bounds((k - 1) as nat);
        if k <= 9 {
            assert(pow128(k) <= 0x8000_0000_0000_0000) by {
                reveal_with_fuel(pow128, 10);
            }
        }
    }
}

proof fn lemma_varint_bound(b: Seq<u8>, n: nat)
    requires
        n <= b.len(),
    ensures
        varint_value(b, n) < pow128(n),
    decreases n,
{
    if n > 0 {
        lemma_varint_bound(b, (n - 1) as nat);
        let p = pow128((n - 1) as nat);
        let x = (b[n - 1] % 128) as nat;
        assert(varint_value(b, (n - 1) as nat) + x * p < 128 * p) by (nonlinear_arith)
            requires
                varint_value(b, (n - 1) as nat) < p,
                x <= 127,
        ;
    }
}

pub fn decode_first_protobuf_tag(bytes: &[u8]) -> (r: Option<(u32, u8)>)
    ensures
        r == first_tag_spec(bytes@),
{
    let mut value: u128 = 0;
    let mut mult: u128 = 1;
    let mut idx: usize = 0;
    while idx < bytes.len() && idx < 10
        invariant
            idx <= 10,
            idx <= bytes@.len(),
            value as nat == varint_value(bytes@, idx as nat),
            idx < 10 ==> mult as nat == pow128(idx as nat),
            forall|k: int| 0 <= k < idx ==> bytes@[k] >= 128,
        decreases 10 - idx,
    {
        let byte = bytes[idx];
        proof {
            lemma_pow128_bounds(idx as nat);
            lemma_varint_bound(bytes@, idx as nat);
            assert((byte % 128) as nat * (mult as nat) <= 127 * 0x8000_0000_0000_0000) by (nonlinear_arith)
                requires
                    (byte % 128) as nat <= 127,
                    mult as nat <= 0x8000_0000_0000_0000,
            ;
        }
        value = value + ((byte % 128) as u128) * mult;
        if byte < 128 {
            proof {
                assert(forall|k: int| 0 <= k < idx ==> bytes@[k] >= 128);
                let j = idx as nat;
                assert(exists|t: int| 0 <= t < 10 && t < bytes@.len() && bytes@[t] < 128) by {
                    assert(bytes@[idx as int] < 128);
                }
                let c = choose|t: nat| t < 10 && t < bytes@.len() && bytes@[t as int] < 128 && forall|k: int|
                    0 <= k < t ==> bytes@[k] >= 128;
                assert(c == j) by {
                    if c < j {
                        assert(bytes@[c as int] >= 128);
                    } else if c > j {
                        assert(bytes@[j as int] >= 128);
                    }
                }
            }
            let v: u64 = (value % 0x1_0000_0000_0000_0000u128) as u64;
            if v == 0 {
                return None;
            }
            let wire_type: u8 = (v % 8) as u8;
            let field_no: u32 = ((v / 8) % 0x1_0000_0000u64) as u32;
            if field_no == 0 {
                return None;
            }
            return Some((field_no, wire_type));
        }
        if idx < 9 {
            proof {
                lemma_pow128_bounds(idx as nat);
            }
            mult = mult * 128;
        }
        idx = idx + 1;
    }
    proof {
        assert(!exists|t: int| 0 <= t < 10 && t < bytes@.len() && bytes@[t] < 128) by {
            if exists|t: int| 0 <= t < 10 && t < bytes@.len() && bytes@[t] < 128 {
                let t = choose|t: int| 0 <= t < 10 && t < bytes@.len() && bytes@[t] < 128;
                assert(bytes@[t] >= 128);
            }
        }
    }
    None
}

// ---------------------------------------------------------------------------
// The proxy's answer to a request
// ---------------------------------------------------------------------------

/// What the proxy does with a request.
#[derive(PartialEq, Eq, Structural, Clone, Copy, Debug)]
pub enum ProxyDecision {
    /// 404: not a signalling request the proxy forwards.
    NotFound,
    /// 401: no valid access token.
    Unauthorized,
    /// Accept the WebSocket upgrade and relay.
    RelayWebSocket,
    /// 426: the request means to open a WebSocket but cannot be upgraded.
    UpgradeRequired,
    /// Forward it as a plain HTTP request.
    ForwardHttp,
}

/// The decision once the path check and the token check are made:
/// refused paths get 404; other than `OPTIONS`, a request without a valid
/// token gets 401; otherwise an upgradable request is relayed, one that
/// means to open a WebSocket but cannot be upgraded gets 426, and the rest
/// is forwarded over HTTP.
pub open spec fn proxy_route_spec(
    allowed: bool,
    is_options: bool,
    token_valid: bool,
    upgrade_available: bool,
    ws_intent: bool,
) -> ProxyDecision {
    if !allowed {
        ProxyDecision::NotFound
    } else if !is_options && !token_valid {
        ProxyDecision::Unauthorized
    } else if upgrade_available {
        ProxyDecision::RelayWebSocket
    } else if ws_intent {
        ProxyDecision::UpgradeRequired
    } else {
        ProxyDecision::ForwardHttp
    }
}

pub fn livekit_proxy_route(
    allowed: bool,
    is_options: bool,
    token_valid: bool,
    upgrade_available: bool,
    ws_intent: bool,
) -> (r: ProxyDecision)
    ensures
        r == proxy_route_spec(allowed, is_options, token_valid, upgrade_available, ws_intent),
{
    if !allowed {
        ProxyDecision::NotFound
    } else if !is_options && !token_valid {
        ProxyDecision::Unauthorized
    } else if upgrade_available {
        ProxyDecision::RelayWebSocket
    } else if ws_intent {
        ProxyDecision::UpgradeRequired
    } else {
        ProxyDecision::ForwardHttp
    }
}

pub open spec fn is_options_method(method: Seq<char>) -> bool {
    method == "OPTIONS"@
}

/// The proxy's decision on a request: its path, method, headers and query;
/// `upgrade_available` says whether the request can be upgraded to a
/// WebSocket. The token is checked only for methods other than `OPTIONS`;
/// as that check reads the clock, a request with a token may be refused,
/// but only one whose token decodes to accepted claims passes it.
pub fn livekit_proxy_decision(
    path: &str,
    method: &str,
    headers: &RequestHeaders,
    query: Option<&str>,
    api_key: &str,
    api_secret: &str,
    upgrade_available: bool,
) -> (r: ProxyDecision)
    ensures
        exists|token_valid: bool| {
            &&& r == #[trigger] proxy_route_spec(
                livekit_allowed_spec(path@, method@, ws_intent_spec(headers@)),
                is_options_method(method@),
                token_valid,
                upgrade_available,
                ws_intent_spec(headers@),
            )
            &&& access_token_spec(ostr_view(query)) is None ==> !token_valid
            &&& token_valid ==> (access_token_spec(ostr_view(query)) matches Some(t)
                && jwt_hs256_payload_spec(t, api_secret@, api_key@, false) matches Some(c)
                && proxy_claims_spec(c))
        },
{
    let intent = has_ws_upgrade_intent(headers);
    let allowed = is_allowed_livekit_request(path, method, intent);
    let is_options = is_lit(&chars_of(method), "OPTIONS");
    let token_valid = if allowed && !is_options {
        is_livekit_access_token_valid(query, api_key, api_secret)
    } else {
        false
    };
    let r = livekit_proxy_route(allowed, is_options, token_valid, upgrade_available, intent);
    assert(r == proxy_route_spec(
        livekit_allowed_spec(path@, method@, ws_intent_spec(headers@)),
        is_options_method(method@),
        token_valid,
        upgrade_available,
        ws_intent_spec(headers@),
    ));
    r
}

// ---------------------------------------------------------------------------
// WebSocket forwarding
// ---------------------------------------------------------------------------

/// Connection attempts made to the LiveKit backend.
pub const MAX_BACKEND_RETRIES: u32 = 2;

/// Seconds one backend connection attempt may take.
pub const BACKEND_CONNECT_TIMEOUT_SECS: u64 = 2;

/// Close code sent to the client when the backend cannot be reached
/// ("try again later").
pub const BACKEND_UNAVAILABLE_CLOSE_CODE: u16 = 1013;

/// The pause, in milliseconds, after failed attempt `attempt` (from 0):
/// 250 ms times the attempt's number, and none after the last attempt.
pub fn backend_retry_delay_ms(attempt: u32) -> (r: Option<u64>)
    ensures
        r == (if attempt + 1 < MAX_BACKEND_RETRIES {
            Some((250 * (attempt + 1)) as u64)
        } else {
            None::<u64>
        }),
{
    if attempt < MAX_BACKEND_RETRIES - 1 {
        Some(250 * (attempt as u64 + 1))
    } else {
        None
    }
}

/// What the proxy does after a backend connection attempt.
#[derive(PartialEq, Eq, Structural, Clone, Copy, Debug)]
pub enum ConnectStep {
    /// Connected: start relaying.
    Relay,
    /// Failed: wait this many milliseconds, then make the next attempt.
    RetryAfter(u64),
    /// Failed for the last time: close the client with "try again later".
    GiveUp,
}

pub open spec fn connect_step_spec(attempt: u32, connected: bool) -> ConnectStep {
    if connected {
        ConnectStep::Relay
    } else if attempt + 1 < MAX_BACKEND_RETRIES {
        ConnectStep::RetryAfter((250 * (attempt + 1)) as u64)
    } else {
        ConnectStep::GiveUp
    }
}

/// The step after attempt `attempt` (from 0) connected or failed.
pub fn backend_connect_step(attempt: u32, connected: bool) -> (r: ConnectStep)
    requires
        attempt < MAX_BACKEND_RETRIES,
    ensures
        r == connect_step_spec(attempt, connected),
{
    if connected {
        return ConnectStep::Relay;
    }
    match backend_retry_delay_ms(attempt) {
        Some(ms) => ConnectStep::RetryAfter(ms),
        None => ConnectStep::GiveUp,
    }
}

/// The steps taken over a run of attempts that all failed, up to and
/// including the one that gives up.
pub open spec fn failed_run(attempt: u32, remaining: nat) -> Seq<ConnectStep>
    decreases remaining,
{
    if remaining == 0 {
        Seq::empty()
    } else {
        seq![connect_step_spec(attempt, false)] + failed_run((attempt + 1) as u32, (remaining - 1) as nat)
    }
}

/// When every attempt fails, the proxy waits 250 ms once, then gives up
/// after the second attempt and closes the client with "try again later";
/// it never relays.
pub proof fn law_backend_gives_up_after_retries()
    ensures
        failed_run(0, MAX_BACKEND_RETRIES as nat) == seq![ConnectStep::RetryAfter(250), ConnectStep::GiveUp],
{
    reveal_with_fuel(failed_run, 3);
    assert(failed_run(2, 0) == Seq::<ConnectStep>::empty());
    assert(failed_run(0, 2) =~= seq![ConnectStep::RetryAfter(250), ConnectStep::GiveUp]);
}

/// The kinds of WebSocket message a forwarding direction reads. `RawFrame`
/// is a low-level frame that only the backend library can hand out.
#[derive(PartialEq, Eq, Structural, Clone, Copy, Debug)]
pub enum WsKind {
    Text,
    Binary,
    Ping,
    Pong,
    Close,
    RawFrame,
}

/// What a forwarding direction observed.
#[derive(PartialEq, Eq, Structural, Clone, Copy, Debug)]
pub enum RelayEvent {
    Received(WsKind),
    ReadFailed,
    EndOfStream,
    Cancelled,
    SendFailed,
}

/// What the direction does next.
#[derive(PartialEq, Eq, Structural, Clone, Copy, Debug)]
pub enum RelayAction {
    /// Pass the message on and keep reading.
    Forward,
    /// Pass the message on, then stop (a close frame).
    ForwardAndFinish,
    /// Drop the message and keep reading.
    Skip,
    /// Stop, cancel the other direction and close the write side.
    Finish,
}

/// One step of either forwarding direction: close frames end it after
/// being passed on, raw frames are dropped, every other message is passed
/// on; a read error, the end of the stream, cancellation by the other
/// direction or a failed send end it.
pub open spec fn relay_step_spec(event: RelayEvent) -> RelayAction {
    match event {
        RelayEvent::Received(WsKind::Close) => RelayAction::ForwardAndFinish,
        RelayEvent::Received(WsKind::RawFrame) => RelayAction::Skip,
        RelayEvent::Received(_) => RelayAction::Forward,
        _ => RelayAction::Finish,
    }
}

pub fn relay_next(event: RelayEvent) -> (r: RelayAction)
    ensures
        r == relay_step_spec(event),
{
    match event {
        RelayEvent::Received(kind) => match kind {
            WsKind::Close => RelayAction::ForwardAndFinish,
            WsKind::RawFrame => RelayAction::Skip,
            _ => RelayAction::Forward,
        },
        _ => RelayAction::Finish,
    }
}


/// The messages one forwarding direction passes on, in order, when it
/// reads `msgs` in turn and every send succeeds: `relay_next` applied to
/// each message read until it says to stop.
pub open spec fn relay_run(msgs: Seq<WsKind>) -> Seq<WsKind>
    decreases msgs.len(),
{
    if msgs.len() == 0 {
        Seq::empty()
    } else {
        match relay_step_spec(RelayEvent::Received(msgs[0])) {
            RelayAction::Forward => seq![msgs[0]] + relay_run(msgs.drop_first()),
            RelayAction::ForwardAndFinish => seq![msgs[0]],
            RelayAction::Skip => relay_run(msgs.drop_first()),
            RelayAction::Finish => Seq::empty(),
        }
    }
}

/// How many messages a direction reads: up to and including the first
/// close frame, else all of them.
pub open spec fn read_through_close(msgs: Seq<WsKind>) -> nat
    decreases msgs.len(),
{
    if msgs.len() == 0 {
        0
    } else if msgs[0] == WsKind::Close {
        1
    } else {
        1 + read_through_close(msgs.drop_first())
    }
}

pub open spec fn not_raw_frame(k: WsKind) -> bool {
    k != WsKind::RawFrame
}

/// Relay order over a connection: each direction passes on exactly the
/// messages it reads up to and including the first close frame, in the
/// order it read them, raw frames left out.
pub proof fn law_relay_keeps_order(msgs: Seq<WsKind>)
    ensures
        read_through_close(msgs) <= msgs.len(),
        relay_run(msgs) == msgs.take(read_through_close(msgs) as int).filter(|k: WsKind| not_raw_frame(k)),
    decreases msgs.len(),
{
    let pred = |k: WsKind| not_raw_frame(k);
    if msgs.len() == 0 {
        assert(msgs.take(0) =~= Seq::<WsKind>::empty());
        reveal_with_fuel(Seq::<_>::filter, 1);
    } else {
        let head = seq![msgs[0]];
        reveal_with_fuel(Seq::<_>::filter, 2);
        assert(head.drop_last() =~= Seq::<WsKind>::empty());
        if msgs[0] == WsKind::Close {
            assert(msgs.take(1) =~= head);
        } else {
            let rest = msgs.drop_first();
            law_relay_keeps_order(rest);
            let n = read_through_close(rest) as int;
            assert(msgs.take(n + 1) =~= head + rest.take(n));
            Seq::filter_distributes_over_add(head, rest.take(n), pred);
        }
    }
}

} // verus!
