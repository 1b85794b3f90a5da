//! Voice: which LiveKit URLs a client is offered, the native media
//! endpoint, and the checks on LiveKit webhook calls.
use vstd::prelude::*;
use crate::text::{ostr_view, ostring_view, strings_view};
use crate::text::{
    before_char, before_char_exec, chars_of, concat, i64_decimal, int_decimal, is_lit, lit,
    lower_spec, rsplit_once_exec, rsplit_once_spec, seq_eq, slice_range, string_from_chars,
    to_ascii_lower, trim, trim_spec, u64_decimal, hex_lower, hex_lower_spec,
};
use crate::headers::{RequestHeaders, first_forwarded_value, forwarded_first, header_str};
use crate::trusted::{jwt_hs256_decode, jwt_hs256_encode, jwt_hs256_encode_spec, jwt_hs256_payload_spec, utc_now_timestamp, sha256, sha256_spec, url_parse, url_parse_spec};
use crate::error::{ApiError, is_bad_request, is_unavailable};
use crate::json::{Json, get_spec, member, obj_push, object_keys, opt_as_str, str_or_null, text_or_null};

verus! {

/// The port of `host:port`, when the text has a `:`.
pub open spec fn host_port(host: Seq<char>) -> Option<Seq<char>> {
    match rsplit_once_spec(host, ':') {
        Some((_, port)) => Some(port),
        None => None,
    }
}

/// A host on the port of a frontend development server (1420 or 5173).
pub open spec fn dev_proxy_host_spec(host: Seq<char>) -> bool {
    host_port(host) matches Some(p) && (p == "1420"@ || p == "5173"@)
}

pub fn is_frontend_dev_proxy_host(host: &str) -> (r: bool)
    ensures
        r == dev_proxy_host_spec(host@),
{
    match rsplit_once_exec(&chars_of(host), ':') {
        Some((_, port)) => is_lit(&port, "1420") || is_lit(&port, "5173"),
        None => false,
    }
}

/// An on/off setting: on for `1`, `true`, `yes` or `on` (trimmed, any case).
pub open spec fn switch_on(raw: Option<Seq<char>>) -> bool {
    match raw {
        Some(r) => {
            let l = lower_spec(trim_spec(r));
            l == "1"@ || l == "true"@ || l == "yes"@ || l == "on"@
        },
        None => false,
    }
}

/// Reads an on/off setting from its raw value.
pub fn env_bool(raw: Option<&str>) -> (r: bool)
    ensures
        r == switch_on(ostr_view(raw)),
{
    match raw {
        Some(s) => {
            let l = to_ascii_lower(&trim(&chars_of(s)));
            is_lit(&l, "1") || is_lit(&l, "true") || is_lit(&l, "yes") || is_lit(&l, "on")
        },
        None => false,
    }
}

/// A text setting, trimmed; absent when blank.
pub open spec fn trimmed_setting(raw: Option<Seq<char>>) -> Option<Seq<char>> {
    match raw {
        Some(r) => if trim_spec(r).len() > 0 {
            Some(trim_spec(r))
        } else {
            None
        },
        None => None,
    }
}

pub fn env_trimmed(raw: Option<&str>) -> (r: Option<String>)
    ensures
        ostring_view(r) == trimmed_setting(ostr_view(raw)),
{
    match raw {
        Some(s) => {
            let t = trim(&chars_of(s));
            if t.len() > 0 {
                Some(string_from_chars(&t))
            } else {
                None
            }
        },
        None => None,
    }
}

/// `s.trim_end_matches(c)`.
pub open spec fn trim_end_char(s: Seq<char>, c: char) -> Seq<char>
    decreases s.len(),
{
    if s.len() > 0 && s.last() == c {
        trim_end_char(s.drop_last(), c)
    } else {
        s
    }
}

fn trim_end_char_exec(v: &[char], c: char) -> (r: Vec<char>)
    ensures
        r@ == trim_end_char(v@, c),
{
    let mut n: usize = v.len();
    assert(v@.take(n as int) == v@);
    while n > 0 && v[n - 1] == c
        invariant
            n <= v@.len(),
            trim_end_char(v@, c) == trim_end_char(v@.take(n as int), c),
        decreases n,
    {
        assert(v@.take(n as int).drop_last() == v@.take(n as int - 1));
        n = n - 1;
    }
    assert(v@.subrange(0, n as int) == v@.take(n as int));
    slice_range(v, 0, n)
}

/// The configured LiveKit URL is used as given when forced, or when it
/// names a path other than the `/livekit` proxy path.
pub open spec fn use_configured_url_spec(force: Option<Seq<char>>, fallback: Seq<char>) -> bool {
    switch_on(force) || match url_parse_spec(fallback) {
        Some(parts) => {
            let path = trim_end_char(parts.6, '/');
            path.len() > 0 && path != "/livekit"@
        },
        None => false,
    }
}

/// `force` is the raw value of `PARACORD_FORCE_LIVEKIT_PUBLIC_URL`.
pub fn should_use_configured_livekit_url(force: Option<&str>, fallback: &str) -> (r: bool)
    ensures
        r == use_configured_url_spec(ostr_view(force), fallback@),
{
    if env_bool(force) {
        return true;
    }
    match url_parse(fallback) {
        Some(parts) => {
            let path = trim_end_char_exec(&chars_of(parts.path.as_str()), '/');
            path.len() > 0 && !is_lit(&path, "/livekit")
        },
        None => false,
    }
}

pub open spec fn first_of(a: Option<Seq<char>>, b: Option<Seq<char>>) -> Option<Seq<char>> {
    match a {
        Some(x) => Some(x),
        None => b,
    }
}

/// The LiveKit URL a client is told to use: the configured one when it
/// must be kept, else `ws[s]://<forwarded host>/livekit` (secure when the
/// forwarded protocol is `https` or `wss`), unless the host is a frontend
/// development server or unknown.
pub open spec fn client_url_spec(
    h: Seq<(Seq<char>, Seq<char>)>,
    fallback: Seq<char>,
    force: Option<Seq<char>>,
) -> Seq<char> {
    if use_configured_url_spec(force, fallback) {
        fallback
    } else {
        let host = first_of(forwarded_first(h, "x-forwarded-host"@), forwarded_first(h, "host"@));
        let proto = first_of(
            forwarded_first(h, "x-forwarded-proto"@),
            first_of(
                forwarded_first(h, "x-forwarded-scheme"@),
                forwarded_first(h, "x-forwarded-protocol"@),
            ),
        );
        match host {
            Some(hv) => if dev_proxy_host_spec(hv) {
                fallback
            } else {
                let scheme = if proto == Some("https"@) || proto == Some("wss"@) {
                    "wss"@
                } else {
                    "ws"@
                };
                scheme + "://"@ + hv + "/livekit"@
            },
            None => fallback,
        }
    }
}

/// Behind a proxy the client is sent to the host it reached: when the
/// configured URL is not kept and the first `X-Forwarded-Host` value is
/// there and is not a frontend development server, the URL is
/// `ws://` or `wss://` then that host then `/livekit`, whatever the `Host`
/// header holds; and it is `wss://` exactly when the first forwarded
/// protocol is `https` or `wss`.
pub proof fn law_client_url_follows_forwarded_host(
    h: Seq<(Seq<char>, Seq<char>)>,
    fallback: Seq<char>,
    force: Option<Seq<char>>,
)
    requires
        !use_configured_url_spec(force, fallback),
        forwarded_first(h, "x-forwarded-host"@) matches Some(x) && !dev_proxy_host_spec(x),
    ensures
        ({
            let x = forwarded_first(h, "x-forwarded-host"@)->0;
            ||| client_url_spec(h, fallback, force) == "wss://"@ + x + "/livekit"@
            ||| client_url_spec(h, fallback, force) == "ws://"@ + x + "/livekit"@
        }),
        forwarded_first(h, "x-forwarded-proto"@) == Some("https"@) ==> client_url_spec(h, fallback, force)
            == "wss://"@ + forwarded_first(h, "x-forwarded-host"@)->0 + "/livekit"@,
{
    reveal_strlit("wss");
    reveal_strlit("ws");
    reveal_strlit("://");
    reveal_strlit("wss://");
    reveal_strlit("ws://");
    let x = forwarded_first(h, "x-forwarded-host"@)->0;
    assert("wss"@ + "://"@ + x + "/livekit"@ =~= "wss://"@ + x + "/livekit"@);
    assert("ws"@ + "://"@ + x + "/livekit"@ =~= "ws://"@ + x + "/livekit"@);
}

fn first_of_exec(a: Option<Vec<char>>, b: Option<Vec<char>>) -> (r: Option<Vec<char>>)
    ensures
        match r {
            Some(v) => first_of(
                match a {
                    Some(x) => Some(x@),
                    None => None,
                },
                match b {
                    Some(x) => Some(x@),
                    None => None,
                },
            ) == Some(v@),
            None => a is None && b is None,
        },
{
    match a {
        Some(x) => Some(x),
        None => b,
    }
}

pub fn resolve_livekit_client_url(headers: &RequestHeaders, fallback: &str, force: Option<&str>) -> (r:
    String)
    ensures
        r@ == client_url_spec(headers@, fallback@, ostr_view(force)),
{
    if should_use_configured_livekit_url(force, fallback) {
        return String::from_str(fallback);
    }
    let host = first_of_exec(
        first_forwarded_value(headers, "x-forwarded-host"),
        first_forwarded_value(headers, "host"),
    );
    let proto = first_of_exec(
        first_forwarded_value(headers, "x-forwarded-proto"),
        first_of_exec(
            first_forwarded_value(headers, "x-forwarded-scheme"),
            first_forwarded_value(headers, "x-forwarded-protocol"),
        ),
    );
    match host {
        Some(hv) => {
            let hs = string_from_chars(&hv);
            if is_frontend_dev_proxy_host(hs.as_str()) {
                return String::from_str(fallback);
            }
            let secure = match &proto {
                Some(p) => is_lit(p, "https") || is_lit(p, "wss"),
                None => false,
            };
            let mut s = if secure {
                String::from_str("wss")
            } else {
                String::from_str("ws")
            };
            s.append("://");
            s.append(hs.as_str());
            s.append("/livekit");
            s
        },
        None => String::from_str(fallback),
    }
}

/// Appends a URL, trimmed, unless it is blank or already listed.
pub open spec fn push_unique_spec(list: Seq<Seq<char>>, raw: Seq<char>) -> Seq<Seq<char>> {
    let t = trim_spec(raw);
    if t.len() == 0 || list.contains(t) {
        list
    } else {
        list.push(t)
    }
}

/// A list of URL candidates with no repeats, no empty entries and no
/// entry with surrounding whitespace.
pub open spec fn clean_url_list(list: Seq<Seq<char>>) -> bool {
    &&& list.no_duplicates()
    &&& forall|i: int| 0 <= i < list.len() ==> (#[trigger] list[i]).len() > 0 && trim_spec(list[i]) == list[i]
}

/// Adding a candidate keeps a candidate list clean.
pub proof fn law_push_unique_keeps_list_clean(list: Seq<Seq<char>>, raw: Seq<char>)
    requires
        clean_url_list(list),
    ensures
        clean_url_list(push_unique_spec(list, raw)),
{
    let t = trim_spec(raw);
    crate::text::lemma_trim_idempotent(raw);
    if !(t.len() == 0 || list.contains(t)) {
        let l2 = list.push(t);
        assert forall|i: int, j: int| 0 <= i < l2.len() && 0 <= j < l2.len() && i != j implies l2[i] != l2[j] by {
            if i == list.len() as int {
                assert(list[j] == l2[j]);
            } else if j == list.len() as int {
                assert(list[i] == l2[i]);
            }
        }
        assert forall|i: int| 0 <= i < l2.len() implies (#[trigger] l2[i]).len() > 0 && trim_spec(l2[i]) == l2[i] by {
            if i < list.len() {
                assert(l2[i] == list[i]);
            }
        }
    }
}

pub fn push_unique_url(candidates: &mut Vec<String>, raw: String)
    ensures
        strings_view(final(candidates)@) == push_unique_spec(strings_view(old(candidates)@), raw@),
{
    let ghost old_list = strings_view(candidates@);
    let t = trim(&chars_of(raw.as_str()));
    if t.len() == 0 {
        return;
    }
    let mut i: usize = 0;
    while i < candidates.len()
        invariant
            i <= candidates@.len(),
            candidates@ == old(candidates)@,
            old_list == strings_view(candidates@),
            t@ == trim_spec(raw@),
            t@.len() > 0,
            forall|j: int| 0 <= j < i ==> old_list[j] != t@,
        decreases candidates.len() - i,
    {
        if seq_eq(&chars_of(candidates[i].as_str()), &t) {
            assert(old_list[i as int] == t@);
            return;
        }
        i = i + 1;
    }
    candidates.push(string_from_chars(&t));
    assert(strings_view(candidates@) =~= old_list.push(t@));
}

/// A list with distinct entries keeps them distinct when a URL is pushed.
pub proof fn law_push_unique_keeps_distinct(list: Seq<Seq<char>>, raw: Seq<char>)
    requires
        list.no_duplicates(),
    ensures
        push_unique_spec(list, raw).no_duplicates(),
        trim_spec(raw).len() > 0 ==> push_unique_spec(list, raw).contains(trim_spec(raw)),
{
    let t = trim_spec(raw);
    if t.len() > 0 && !list.contains(t) {
        let l2 = list.push(t);
        assert(l2[list.len() as int] == t);
        assert forall|i: int, j: int|
            0 <= i < l2.len() && 0 <= j < l2.len() && i != j implies l2[i] != l2[j] by {
            if i < list.len() && j < list.len() {
                assert(l2[i] == list[i] && l2[j] == list[j]);
            } else if i < list.len() {
                assert(l2[i] == list[i]);
            } else if j < list.len() {
                assert(l2[j] == list[j]);
            }
        }
    } else if t.len() > 0 {
        let k = choose|k: int| 0 <= k < list.len() && list[k] == t;
        assert(push_unique_spec(list, raw)[k] == t);
    }
}

/// The URLs offered to a client, in order of preference: a direct override,
/// a LAN candidate, the resolved client URL, the configured URL; each once.
pub open spec fn url_candidates_spec(
    h: Seq<(Seq<char>, Seq<char>)>,
    fallback: Seq<char>,
    direct: Option<Seq<char>>,
    local: Option<Seq<char>>,
    force: Option<Seq<char>>,
) -> Seq<Seq<char>> {
    let l0 = Seq::<Seq<char>>::empty();
    let l1 = match trimmed_setting(direct) {
        Some(d) => push_unique_spec(l0, d),
        None => l0,
    };
    let l2 = match trimmed_setting(local) {
        Some(c) => push_unique_spec(l1, c),
        None => l1,
    };
    push_unique_spec(push_unique_spec(l2, client_url_spec(h, fallback, force)), fallback)
}

/// `direct`, `local` and `force` are the raw values of
/// `PARACORD_LIVEKIT_DIRECT_PUBLIC_URL`,
/// `PARACORD_LIVEKIT_LOCAL_CANDIDATE_URL` and
/// `PARACORD_FORCE_LIVEKIT_PUBLIC_URL`.
pub fn livekit_url_candidates(
    headers: &RequestHeaders,
    fallback: &str,
    direct: Option<&str>,
    local: Option<&str>,
    force: Option<&str>,
) -> (r: Vec<String>)
    ensures
        strings_view(r@) == url_candidates_spec(
            headers@,
            fallback@,
            ostr_view(direct),
            ostr_view(local),
            ostr_view(force),
        ),
{
    let mut candidates: Vec<String> = Vec::new();
    assert(strings_view(candidates@) =~= Seq::<Seq<char>>::empty());
    if let Some(d) = env_trimmed(direct) {
        push_unique_url(&mut candidates, d);
    }
    if let Some(c) = env_trimmed(local) {
        push_unique_url(&mut candidates, c);
    }
    push_unique_url(&mut candidates, resolve_livekit_client_url(headers, fallback, force));
    push_unique_url(&mut candidates, String::from_str(fallback));
    candidates
}

/// The candidate list never names a URL twice.
pub proof fn law_url_candidates_distinct(
    h: Seq<(Seq<char>, Seq<char>)>,
    fallback: Seq<char>,
    direct: Option<Seq<char>>,
    local: Option<Seq<char>>,
    force: Option<Seq<char>>,
)
    ensures
        url_candidates_spec(h, fallback, direct, local, force).no_duplicates(),
{
    let l0 = Seq::<Seq<char>>::empty();
    let l1 = match trimmed_setting(direct) {
        Some(d) => push_unique_spec(l0, d),
        None => l0,
    };
    let l2 = match trimmed_setting(local) {
        Some(c) => push_unique_spec(l1, c),
        None => l1,
    };
    if let Some(d) = trimmed_setting(direct) {
        law_push_unique_keeps_distinct(l0, d);
    }
    if let Some(c) = trimmed_setting(local) {
        law_push_unique_keeps_distinct(l1, c);
    }
    let l3 = push_unique_spec(l2, client_url_spec(h, fallback, force));
    law_push_unique_keeps_distinct(l2, client_url_spec(h, fallback, force));
    law_push_unique_keeps_distinct(l3, fallback);
}

// ---------------------------------------------------------------------------
// Native media
// ---------------------------------------------------------------------------

/// Whether the client asked for LiveKit rather than native media.
pub fn requesting_livekit_fallback(query: &VoiceJoinQuery) -> (r: bool)
    ensures
        r == (query.fallback matches Some(f) && f@ == "livekit"@),
{
    match &query.fallback {
        Some(f) => is_lit(&chars_of(f.as_str()), "livekit"),
        None => false,
    }
}

/// `<proto>://<host without port>:<media port>/media`, from the forwarded
/// host and protocol (default `localhost:<port>` and `https`).
pub open spec fn media_endpoint_spec(h: Seq<(Seq<char>, Seq<char>)>, media_port: u16) -> Seq<char> {
    let host = match first_of(forwarded_first(h, "x-forwarded-host"@), forwarded_first(h, "host"@)) {
        Some(x) => x,
        None => "localhost:"@ + int_decimal(media_port as int),
    };
    let proto = match forwarded_first(h, "x-forwarded-proto"@) {
        Some(p) => p,
        None => "https"@,
    };
    proto + "://"@ + before_char(host, ':') + seq![':'] + int_decimal(media_port as int) + "/media"@
}

pub fn native_media_endpoint(headers: &RequestHeaders, media_port: u16) -> (r: String)
    ensures
        r@ == media_endpoint_spec(headers@, media_port),
{
    let port = u64_decimal(media_port as u64);
    let host = match first_of_exec(
        first_forwarded_value(headers, "x-forwarded-host"),
        first_forwarded_value(headers, "host"),
    ) {
        Some(x) => x,
        None => concat(&lit("localhost:"), &port),
    };
    let proto = match first_forwarded_value(headers, "x-forwarded-proto") {
        Some(p) => p,
        None => lit("https"),
    };
    let mut out = concat(&proto, &lit("://"));
    out = concat(&out, &before_char_exec(&host, ':'));
    out.push(':');
    out = concat(&out, &port);
    out = concat(&out, &lit("/media"));
    assert(out@ =~= media_endpoint_spec(headers@, media_port));
    string_from_chars(&out)
}

/// The native media room of a channel: `<guild id>:<channel id>`.
pub fn media_room_name(guild_id: i64, channel_id: i64) -> (r: String)
    ensures
        r@ == int_decimal(guild_id as int) + seq![':'] + int_decimal(channel_id as int),
{
    let mut v = i64_decimal(guild_id);
    v.push(':');
    v = concat(&v, &i64_decimal(channel_id));
    string_from_chars(&v)
}

// ---------------------------------------------------------------------------
// LiveKit webhooks
// ---------------------------------------------------------------------------

/// The token of a webhook call's `Authorization: Bearer ...` header.
pub open spec fn webhook_token_spec(h: Seq<(Seq<char>, Seq<char>)>) -> Option<Seq<char>> {
    match header_str(h, "authorization"@) {
        Some(v) => if crate::text::starts_with_spec(v, "Bearer "@) {
            Some(v.skip(7))
        } else {
            None
        },
        None => None,
    }
}

pub fn webhook_bearer_token(headers: &RequestHeaders) -> (r: Result<String, ApiError>)
    ensures
        match r {
            Ok(t) => webhook_token_spec(headers@) == Some(t@),
            Err(e) => webhook_token_spec(headers@) is None && e is Unauthorized,
        },
{
    proof {
        reveal_strlit("Bearer ");
    }
    let v = match headers.get_str("authorization") {
        Some(v) => v,
        None => return Err(ApiError::Unauthorized),
    };
    if !crate::text::starts_with(&v, &lit("Bearer ")) {
        return Err(ApiError::Unauthorized);
    }
    Ok(string_from_chars(&slice_range(&v, 7, v.len())))
}

/// A webhook body must hash (SHA-256, lowercase hexadecimal) to the digest
/// its token names, when it names one.
pub fn check_webhook_body_hash(expected_hash: Option<&str>, body: &[u8]) -> (r: Result<(), ApiError>)
    ensures
        r is Ok <==> (expected_hash matches Some(h) ==> hex_lower_spec(sha256_spec(body@)) == h@),
        r matches Err(e) ==> e is Unauthorized,
{
    match expected_hash {
        Some(h) => {
            let actual = hex_lower(&sha256(body));
            if !seq_eq(&actual, &chars_of(h)) {
                return Err(ApiError::Unauthorized);
            }
            Ok(())
        },
        None => Ok(()),
    }
}

/// A claim read as an optional string: absent, `null` or a string.
pub open spec fn optional_text_claim(v: Option<Json>) -> bool {
    match v {
        None => true,
        Some(Json::Null) => true,
        Some(Json::Str(_)) => true,
        Some(_) => false,
    }
}

pub fn is_optional_text_claim(v: Option<&Json>) -> (r: bool)
    ensures
        r == optional_text_claim(match v { Some(j) => Some(*j), None => None }),
{
    match v {
        None => true,
        Some(Json::Null) => true,
        Some(Json::Str(_)) => true,
        Some(_) => false,
    }
}

/// What a webhook call's decoded token claims give: refused unless they are
/// an object whose `_iss` and `sha256` claims are optional strings; then
/// the body must hash to the `sha256` claim, where there is one.
pub open spec fn webhook_claims_spec(claims: Option<Json>, body: Seq<u8>) -> Result<(), ApiError> {
    match claims {
        Some(c) => if c is Object && optional_text_claim(get_spec(c, "_iss"@))
            && optional_text_claim(get_spec(c, "sha256"@)) {
            match opt_as_str(get_spec(c, "sha256"@)) {
                Some(h) => if hex_lower_spec(sha256_spec(body)) == h {
                    Ok(())
                } else {
                    Err(ApiError::Unauthorized)
                },
                None => Ok(()),
            }
        } else {
            Err(ApiError::Unauthorized)
        },
        None => Err(ApiError::Unauthorized),
    }
}

/// Checks the claims of a webhook call's token (`None` when the token was
/// refused) against the body.
pub fn check_webhook_claims(claims: Option<Json>, body: &[u8]) -> (r: Result<(), ApiError>)
    ensures
        r == webhook_claims_spec(claims, body@),
{
    let c = match claims {
        Some(c) => c,
        None => return Err(ApiError::Unauthorized),
    };
    if !c.is_object() || !is_optional_text_claim(c.get("_iss"))
        || !is_optional_text_claim(c.get("sha256")) {
        return Err(ApiError::Unauthorized);
    }
    let expected = match c.get("sha256") {
        Some(j) => j.as_str(),
        None => None,
    };
    assert(ostr_view(expected) == opt_as_str(get_spec(c, "sha256"@)));
    let r = check_webhook_body_hash(expected, body);
    match r {
        Ok(()) => Ok(()),
        Err(_) => Err(ApiError::Unauthorized),
    }
}

/// Checks a LiveKit webhook call: a bearer token signed with the API
/// secret, issued by the API key and unexpired, whose claims then pass
/// `check_webhook_claims`. Refused without a bearer token or when the token
/// is refused; otherwise the result is that of the claims check on the
/// token's payload.
pub fn verify_livekit_webhook_auth(
    headers: &RequestHeaders,
    body: &[u8],
    api_key: &str,
    api_secret: &str,
) -> (r: Result<(), ApiError>)
    ensures
        webhook_token_spec(headers@) is None ==> r == Err::<(), ApiError>(ApiError::Unauthorized),
        webhook_token_spec(headers@) matches Some(t) ==> {
            ||| r == Err::<(), ApiError>(ApiError::Unauthorized)
            ||| jwt_hs256_payload_spec(t, api_secret@, api_key@, true) matches Some(c)
                && r == webhook_claims_spec(Some(c), body@)
                && (opt_as_str(get_spec(c, "iss"@)) is Some ==> opt_as_str(get_spec(c, "iss"@)) == Some(api_key@))
                && get_spec(c, "iss"@) is Some
        },
{
    let token = webhook_bearer_token(headers)?;
    let claims = jwt_hs256_decode(token.as_str(), api_secret, api_key, true);
    if claims.is_none() {
        return Err(ApiError::Unauthorized);
    }
    check_webhook_claims(claims, body)
}

// ---------------------------------------------------------------------------
// Joining and streaming
// ---------------------------------------------------------------------------

pub open spec fn join_unavailable_early() -> Seq<char> {
    "Voice chat is not available \u{2014} LiveKit server binary not found. Place livekit-server next to the Paracord server executable."@
}

pub open spec fn join_unavailable_late() -> Seq<char> {
    "Voice chat is not available - LiveKit server binary not found. Place livekit-server next to the Paracord server executable."@
}

pub open spec fn stream_unavailable_early() -> Seq<char> {
    "Streaming is not available \u{2014} LiveKit server binary not found."@
}

pub open spec fn stream_unavailable_late() -> Seq<char> {
    "Streaming is not available - LiveKit server binary not found."@
}

/// Voice (or, with `streaming`, a stream) is offered at all only through
/// LiveKit, native media or federation.
pub fn check_voice_service(
    livekit_available: bool,
    native_media_enabled: bool,
    federation_enabled: bool,
    streaming: bool,
) -> (r: Result<(), ApiError>)
    ensures
        r is Ok <==> (livekit_available || native_media_enabled || federation_enabled),
        r matches Err(e) ==> is_unavailable(
            e,
            if streaming { stream_unavailable_early() } else { join_unavailable_early() },
        ),
{
    if !livekit_available && !native_media_enabled && !federation_enabled {
        if streaming {
            return Err(ApiError::ServiceUnavailable(
                String::from_str("Streaming is not available \u{2014} LiveKit server binary not found."),
            ));
        }
        return Err(ApiError::ServiceUnavailable(
            String::from_str(
                "Voice chat is not available \u{2014} LiveKit server binary not found. Place livekit-server next to the Paracord server executable.",
            ),
        ));
    }
    Ok(())
}

/// The guild of a channel that voice can be joined (or streamed) in: it must
/// be a voice channel (type 2) of a guild.
pub fn voice_channel_guild(channel_type: i16, guild_id: Option<i64>, streaming: bool) -> (r: Result<
    i64,
    ApiError,
>)
    ensures
        channel_type != 2 ==> (r matches Err(e) && is_bad_request(e, "Not a voice channel"@)),
        channel_type == 2 && guild_id is None ==> (r matches Err(e) && is_bad_request(
            e,
            if streaming {
                "Streaming is only supported in guild channels"@
            } else {
                "Voice is only supported in guild channels"@
            },
        )),
        channel_type == 2 && guild_id is Some ==> r == Ok::<i64, ApiError>(guild_id->0),
{
    if channel_type != 2 {
        return Err(ApiError::BadRequest(String::from_str("Not a voice channel")));
    }
    match guild_id {
        Some(g) => Ok(g),
        None => {
            if streaming {
                Err(ApiError::BadRequest(String::from_str("Streaming is only supported in guild channels")))
            } else {
                Err(ApiError::BadRequest(String::from_str("Voice is only supported in guild channels")))
            }
        },
    }
}

/// How a join or stream is served on this server when no federated peer
/// serves it.
#[derive(PartialEq, Eq, Structural, Clone, Copy, Debug)]
pub enum LocalVoicePath {
    Native,
    LiveKit,
}

/// Native media unless it is off or the client asked for LiveKit; then
/// LiveKit, when the server has it.
pub fn local_voice_path(
    native_media_enabled: bool,
    livekit_available: bool,
    query: &VoiceJoinQuery,
    streaming: bool,
) -> (r: Result<LocalVoicePath, ApiError>)
    ensures
        native_media_enabled && !(query.fallback matches Some(f) && f@ == "livekit"@) ==> r
            == Ok::<LocalVoicePath, ApiError>(LocalVoicePath::Native),
        !(native_media_enabled && !(query.fallback matches Some(f) && f@ == "livekit"@))
            && livekit_available ==> r == Ok::<LocalVoicePath, ApiError>(LocalVoicePath::LiveKit),
        !(native_media_enabled && !(query.fallback matches Some(f) && f@ == "livekit"@))
            && !livekit_available ==> (r matches Err(e) && is_unavailable(
            e,
            if streaming { stream_unavailable_late() } else { join_unavailable_late() },
        )),
{
    if native_media_enabled && !requesting_livekit_fallback(query) {
        return Ok(LocalVoicePath::Native);
    }
    if !livekit_available {
        if streaming {
            return Err(ApiError::ServiceUnavailable(
                String::from_str("Streaming is not available - LiveKit server binary not found."),
            ));
        }
        return Err(ApiError::ServiceUnavailable(
            String::from_str(
                "Voice chat is not available - LiveKit server binary not found. Place livekit-server next to the Paracord server executable.",
            ),
        ));
    }
    Ok(LocalVoicePath::LiveKit)
}

/// `items` pushed one after another, each trimmed and only if new.
pub open spec fn push_all_spec(list: Seq<Seq<char>>, items: Seq<Seq<char>>) -> Seq<Seq<char>>
    decreases items.len(),
{
    if items.len() == 0 {
        list
    } else {
        push_unique_spec(push_all_spec(list, items.drop_last()), items.last())
    }
}

pub proof fn lemma_push_all_distinct(list: Seq<Seq<char>>, items: Seq<Seq<char>>)
    requires
        list.no_duplicates(),
    ensures
        push_all_spec(list, items).no_duplicates(),
    decreases items.len(),
{
    if items.len() > 0 {
        lemma_push_all_distinct(list, items.drop_last());
        law_push_unique_keeps_distinct(push_all_spec(list, items.drop_last()), items.last());
    }
}

/// The URLs offered for a room served by a federated peer: the peer's URL
/// first, then this server's candidates, each once; and the URL to use, the
/// first of them or else `fallback`.
pub fn relayed_url_candidates(remote_url: Option<String>, local_candidates: &Vec<String>, fallback: &str) -> (r: (
    Vec<String>,
    String,
))
    ensures
        strings_view(r.0@) == push_all_spec(
            match remote_url {
                Some(u) => push_unique_spec(Seq::empty(), u@),
                None => Seq::empty(),
            },
            strings_view(local_candidates@),
        ),
        strings_view(r.0@).no_duplicates(),
        r.1@ == (if r.0@.len() > 0 { r.0@[0]@ } else { fallback@ }),
{
    let mut out: Vec<String> = Vec::new();
    assert(strings_view(out@) =~= Seq::<Seq<char>>::empty());
    let ghost remote = remote_url;
    if let Some(u) = remote_url {
        push_unique_url(&mut out, u);
    }
    let ghost start = strings_view(out@);
    proof {
        law_push_unique_keeps_distinct(Seq::empty(), match remote {
            Some(u) => u@,
            None => Seq::empty(),
        });
        assert(Seq::<Seq<char>>::empty().no_duplicates());
    }
    let ghost lv = strings_view(local_candidates@);
    let mut k: usize = 0;
    while k < local_candidates.len()
        invariant
            k <= local_candidates@.len(),
            lv == strings_view(local_candidates@),
            start.no_duplicates(),
            strings_view(out@) == push_all_spec(start, lv.take(k as int)),
        decreases local_candidates.len() - k,
    {
        push_unique_url(&mut out, local_candidates[k].clone());
        proof {
            assert(lv.take(k as int + 1).drop_last() == lv.take(k as int));
            assert(lv.take(k as int + 1).last() == lv[k as int]);
        }
        k = k + 1;
    }
    proof {
        assert(lv.take(lv.len() as int) == lv);
        lemma_push_all_distinct(start, lv);
    }
    let url = if out.len() > 0 { out[0].clone() } else { String::from_str(fallback) };
    (out, url)
}

pub open spec fn id_text(o: Option<i64>) -> Option<Seq<char>> {
    match o {
        Some(n) => Some(int_decimal(n as int)),
        None => None,
    }
}

fn id_or_null(o: Option<i64>) -> (r: Json)
    ensures
        text_or_null(Some(r), id_text(o)),
{
    match o {
        Some(n) => Json::Str(string_from_chars(&i64_decimal(n))),
        None => Json::Null,
    }
}

/// The claims of a native media token: the user as text, the session, the
/// room and the expiry.
pub open spec fn media_claims_spec(c: Json, user_id: i64, session_id: Seq<char>, room: Seq<char>, exp: i64) -> bool {
    &&& object_keys(c) == seq!["sub"@, "session_id"@, "room"@, "exp"@]
    &&& opt_as_str(get_spec(c, "sub"@)) == Some(int_decimal(user_id as int))
    &&& opt_as_str(get_spec(c, "session_id"@)) == Some(session_id)
    &&& opt_as_str(get_spec(c, "room"@)) == Some(room)
    &&& get_spec(c, "exp"@) == Some(Json::Number(Some(exp)))
}

proof fn lemma_media_claim_keys_differ()
    ensures
        "sub"@.len() == 3 && "sub"@[0] == 's',
        "session_id"@.len() == 10,
        "room"@.len() == 4,
        "exp"@.len() == 3 && "exp"@[0] == 'e',
{
    reveal_strlit("sub");
    reveal_strlit("session_id");
    reveal_strlit("room");
    reveal_strlit("exp");
}

/// The claims object of a native media token.
pub fn native_media_claims(user_id: i64, session_id: &str, room: &str, exp: i64) -> (r: Json)
    ensures
        media_claims_spec(r, user_id, session_id@, room@, exp),
{
    proof {
        lemma_media_claim_keys_differ();
    }
    let mut fields: Vec<(String, Json)> = Vec::new();
    obj_push(&mut fields, "sub", Json::Str(string_from_chars(&i64_decimal(user_id))));
    obj_push(&mut fields, "session_id", Json::Str(String::from_str(session_id)));
    obj_push(&mut fields, "room", Json::Str(String::from_str(room)));
    obj_push(&mut fields, "exp", Json::Number(Some(exp)));
    let r = Json::Object(fields);
    assert(object_keys(r) =~= seq!["sub"@, "session_id"@, "room"@, "exp"@]);
    r
}

/// Seconds a native media token stays valid.
pub const NATIVE_MEDIA_TOKEN_TTL_SECS: i64 = 86400;

/// The native media token issued at Unix time `now`: the claims signed
/// with the JWT secret, expiring a day later; empty where no token is
/// written.
pub fn native_media_token_at(jwt_secret: &str, user_id: i64, session_id: &str, room: &str, now: i64) -> (r: String)
    requires
        now <= i64::MAX - NATIVE_MEDIA_TOKEN_TTL_SECS,
    ensures
        exists|c: Json| #[trigger] media_claims_spec(c, user_id, session_id@, room@, (now + NATIVE_MEDIA_TOKEN_TTL_SECS) as i64)
            && r@ == (match jwt_hs256_encode_spec(c, jwt_secret@) {
                Some(t) => t,
                None => Seq::empty(),
            }),
{
    let claims = native_media_claims(user_id, session_id, room, now + NATIVE_MEDIA_TOKEN_TTL_SECS);
    match jwt_hs256_encode(&claims, jwt_secret) {
        Some(t) => t,
        None => String::new(),
    }
}

/// The native media token issued now (see `native_media_token_at`); empty
/// when the clock reads so late that the expiry does not fit an `i64`.
pub fn native_media_token(jwt_secret: &str, user_id: i64, session_id: &str, room: &str) -> (r: String)
    ensures
        r@.len() == 0 || exists|exp: i64, c: Json| #[trigger] media_claims_spec(c, user_id, session_id@, room@, exp)
            && jwt_hs256_encode_spec(c, jwt_secret@) == Some(r@),
{
    let now = utc_now_timestamp();
    if now > i64::MAX - NATIVE_MEDIA_TOKEN_TTL_SECS {
        return String::new();
    }
    native_media_token_at(jwt_secret, user_id, session_id, room, now)
}

/// The keys of a voice state event, in order; `session_id` only when the
/// event carries one.
pub open spec fn voice_state_keys(with_session: bool) -> Seq<Seq<char>> {
    seq!["user_id"@, "channel_id"@, "guild_id"@] + (if with_session {
        seq!["session_id"@]
    } else {
        Seq::empty()
    }) + seq![
        "self_mute"@,
        "self_deaf"@,
        "self_stream"@,
        "self_video"@,
        "suppress"@,
        "mute"@,
        "deaf"@,
        "username"@,
        "avatar_hash"@,
    ]
}

/// What tells the keys of a voice state event apart: their lengths, and a
/// character where two have the same length.
proof fn lemma_voice_state_keys_differ()
    ensures
        "user_id"@.len() == 7,
        "channel_id"@.len() == 10 && "channel_id"@[0] == 'c',
        "guild_id"@.len() == 8 && "guild_id"@[0] == 'g',
        "session_id"@.len() == 10 && "session_id"@[0] == 's' && "session_id"@[2] == 's',
        "self_mute"@.len() == 9 && "self_mute"@[5] == 'm',
        "self_deaf"@.len() == 9 && "self_deaf"@[5] == 'd',
        "self_stream"@.len() == 11 && "self_stream"@[0] == 's',
        "self_video"@.len() == 10 && "self_video"@[0] == 's' && "self_video"@[2] == 'l',
        "suppress"@.len() == 8 && "suppress"@[0] == 's',
        "mute"@.len() == 4 && "mute"@[0] == 'm',
        "deaf"@.len() == 4 && "deaf"@[0] == 'd',
        "username"@.len() == 8 && "username"@[0] == 'u',
        "avatar_hash"@.len() == 11 && "avatar_hash"@[0] == 'a',
{
    reveal_strlit("user_id");
    reveal_strlit("channel_id");
    reveal_strlit("guild_id");
    reveal_strlit("session_id");
    reveal_strlit("self_mute");
    reveal_strlit("self_deaf");
    reveal_strlit("self_stream");
    reveal_strlit("self_video");
    reveal_strlit("suppress");
    reveal_strlit("mute");
    reveal_strlit("deaf");
    reveal_strlit("username");
    reveal_strlit("avatar_hash");
}

/// The `VOICE_STATE_UPDATE` event of a join, a stream start or a state
/// change: who, where (null channel when leaving), the session where there
/// is one, and the self mute, deaf and stream flags; video, suppression and
/// server mute and deaf are always off.
pub fn voice_state_event(
    user_id: i64,
    channel_id: Option<i64>,
    guild_id: Option<i64>,
    session_id: Option<&str>,
    self_mute: bool,
    self_deaf: bool,
    self_stream: bool,
    username: Option<&str>,
    avatar_hash: Option<&str>,
) -> (r: Json)
    ensures
        object_keys(r) == voice_state_keys(session_id is Some),
        opt_as_str(get_spec(r, "user_id"@)) == Some(int_decimal(user_id as int)),
        text_or_null(get_spec(r, "channel_id"@), id_text(channel_id)),
        text_or_null(get_spec(r, "guild_id"@), id_text(guild_id)),
        match session_id {
            Some(sid) => opt_as_str(get_spec(r, "session_id"@)) == Some(sid@),
            None => get_spec(r, "session_id"@) is None,
        },
        get_spec(r, "self_mute"@) == Some(Json::Bool(self_mute)),
        get_spec(r, "self_deaf"@) == Some(Json::Bool(self_deaf)),
        get_spec(r, "self_stream"@) == Some(Json::Bool(self_stream)),
        get_spec(r, "self_video"@) == Some(Json::Bool(false)),
        get_spec(r, "suppress"@) == Some(Json::Bool(false)),
        get_spec(r, "mute"@) == Some(Json::Bool(false)),
        get_spec(r, "deaf"@) == Some(Json::Bool(false)),
        text_or_null(get_spec(r, "username"@), ostr_view(username)),
        text_or_null(get_spec(r, "avatar_hash"@), ostr_view(avatar_hash)),
{
    proof {
        lemma_voice_state_keys_differ();
    }
    let mut f: Vec<(String, Json)> = Vec::new();
    proof {
        assert forall|k: Seq<char>| #[trigger] member(f@, k) is None by {}
    }
    obj_push(&mut f, "user_id", Json::Str(string_from_chars(&i64_decimal(user_id))));
    obj_push(&mut f, "channel_id", id_or_null(channel_id));
    obj_push(&mut f, "guild_id", id_or_null(guild_id));
    if let Some(sid) = session_id {
        obj_push(&mut f, "session_id", Json::Str(String::from_str(sid)));
    }
    obj_push(&mut f, "self_mute", Json::Bool(self_mute));
    obj_push(&mut f, "self_deaf", Json::Bool(self_deaf));
    obj_push(&mut f, "self_stream", Json::Bool(self_stream));
    obj_push(&mut f, "self_video", Json::Bool(false));
    obj_push(&mut f, "suppress", Json::Bool(false));
    obj_push(&mut f, "mute", Json::Bool(false));
    obj_push(&mut f, "deaf", Json::Bool(false));
    obj_push(&mut f, "username", str_or_null(username));
    obj_push(&mut f, "avatar_hash", str_or_null(avatar_hash));
    let r = Json::Object(f);
    proof {
        assert(object_keys(r) =~= voice_state_keys(session_id is Some));
    }
    r
}

// ---------------------------------------------------------------------------
// Requests
// ---------------------------------------------------------------------------

pub struct VoiceJoinQuery {
    pub fallback: Option<String>,
}

pub struct StartStreamRequest {
    pub title: Option<String>,
    pub quality_preset: Option<String>,
}

pub struct LiveKitRoom {
    pub name: String,
}

pub struct LiveKitParticipant {
    pub identity: String,
}

pub struct LiveKitWebhookPayload {
    pub event: String,
    pub room: Option<LiveKitRoom>,
    pub participant: Option<LiveKitParticipant>,
}

} // verus!
