//! Federation between servers: room identifiers, peer identities, inbound
//! content limits, transport headers and file-sharing tokens.
use vstd::prelude::*;
use crate::text::{ostring_view};
use crate::text::{
    chars_of, concat, eq_ignore_ascii_case, eq_ignore_case_spec, i64_decimal, int_decimal, is_digit,
    is_ws, lemma_find_char_unique, lemma_int_decimal_chars, lemma_int_decimal_parses, lit,
    parse_i64, parse_in_range, parse_int_spec, slice_range, split_once_exec, split_once_spec,
    string_from_chars, trim, trim_spec, split_trimmed, split_trimmed_exec, views,
};
use crate::error::{ApiError, bad_request, is_bad_request};
use crate::headers::{RequestHeaders, header_str, header_trimmed, trimmed_header};
use crate::json::{Json, as_str_spec, get_spec, member, obj_push, object_keys, opt_as_str, text_or_null};
use crate::text::{
    hex_lower, hex_lower_spec, is_lower_hex, lemma_hex_lower_chars, lemma_rfind_char_unique,
    rsplit_once_exec, rsplit_once_spec, seq_eq, is_lit,
};
use crate::trusted::{sha256, sha256_spec, ed25519_sign, ed25519_signature_spec, utc_now_timestamp, str_to_uppercase, to_uppercase_spec};
use vstd::utf8::encode_utf8;
use vstd::string::StringSliceAdditionalSpecFns;

verus! {

// ---------------------------------------------------------------------------
// Room identifiers: `!<guild id>:<domain>`
// ---------------------------------------------------------------------------

/// The guild id and domain of a room id `!<guild id>:<domain>`: the id is a
/// decimal `i64`, the domain is trimmed and not empty.
pub open spec fn room_parts_spec(room_id: Seq<char>) -> Option<(i64, Seq<char>)> {
    if room_id.len() > 0 && room_id[0] == '!' {
        match split_once_spec(room_id.drop_first(), ':') {
            Some((id_part, domain)) => match parse_in_range(
                id_part,
                true,
                i64::MIN as int,
                i64::MAX as int,
            ) {
                Some(g) => if trim_spec(domain).len() == 0 {
                    None
                } else {
                    Some((g as i64, trim_spec(domain)))
                },
                None => None,
            },
            None => None,
        }
    } else {
        None
    }
}

pub fn parse_room_parts(room_id: &str) -> (r: Option<(i64, String)>)
    ensures
        match r {
            Some((g, d)) => room_parts_spec(room_id@) == Some((g, d@)),
            None => room_parts_spec(room_id@) is None,
        },
{
    let v = chars_of(room_id);
    if v.len() == 0 || v[0] != '!' {
        return None;
    }
    let raw = slice_range(&v, 1, v.len());
    assert(raw@ == room_id@.drop_first());
    let (id_part, domain) = match split_once_exec(&raw, ':') {
        Some(p) => p,
        None => return None,
    };
    let g = match parse_i64(&id_part) {
        Some(g) => g,
        None => return None,
    };
    let d = trim(&domain);
    if d.len() == 0 {
        return None;
    }
    Some((g, string_from_chars(&d)))
}

/// The guild of a room id naming this server, by its domain or its server
/// name (compared case-insensitively).
pub open spec fn local_room_guild_spec(
    local_domain: Seq<char>,
    local_server_name: Seq<char>,
    room_id: Seq<char>,
) -> Option<i64> {
    match room_parts_spec(room_id) {
        Some((g, d)) => if eq_ignore_case_spec(d, local_domain) || eq_ignore_case_spec(
            d,
            local_server_name,
        ) {
            Some(g)
        } else {
            None
        },
        None => None,
    }
}

pub fn parse_local_room_guild_id(local_domain: &str, local_server_name: &str, room_id: &str) -> (r:
    Option<i64>)
    ensures
        r == local_room_guild_spec(local_domain@, local_server_name@, room_id@),
{
    let (g, d) = match parse_room_parts(room_id) {
        Some(p) => p,
        None => return None,
    };
    let dv = chars_of(d.as_str());
    if !eq_ignore_ascii_case(&dv, &chars_of(local_domain)) && !eq_ignore_ascii_case(
        &dv,
        &chars_of(local_server_name),
    ) {
        return None;
    }
    Some(g)
}

/// `!<id>:<domain>`.
pub open spec fn room_id_spec(id: Seq<char>, domain: Seq<char>) -> Seq<char> {
    seq!['!'] + id + seq![':'] + domain
}

fn room_id_text(id: &[char], domain: &str) -> (r: String)
    ensures
        r@ == room_id_spec(id@, domain@),
{
    let mut s = String::from_str("!");
    s.append(string_from_chars(id).as_str());
    s.append(":");
    s.append(domain);
    proof {
        reveal_strlit("!");
        reveal_strlit(":");
    }
    assert(s@ =~= room_id_spec(id@, domain@));
    s
}

/// The room id of a local guild.
pub fn canonical_local_room_id(local_domain: &str, guild_id: i64) -> (r: String)
    ensures
        r@ == room_id_spec(int_decimal(guild_id as int), local_domain@),
{
    room_id_text(&i64_decimal(guild_id), local_domain)
}

/// The room id of a space mirrored from another server.
pub fn remote_room_id(remote_space_id: &str, remote_domain: &str) -> (r: String)
    ensures
        r@ == room_id_spec(remote_space_id@, remote_domain@),
{
    room_id_text(&chars_of(remote_space_id), remote_domain)
}

/// Where an inbound federated message goes, read from its envelope before
/// any lookup: the namespace its remote ids are mapped in, the remote
/// channel and guild, and the remote message id.
pub struct FederatedMessageTarget {
    pub mapping_namespace: String,
    pub remote_channel_id: Option<i64>,
    pub remote_guild_id: Option<i64>,
    pub remote_message_id: Option<String>,
}

/// The namespace is the room's domain (else the origin server); the guild
/// is the content's `guild_id`, else the guild of a local-form room id; the
/// message id is the content's trimmed, non-empty `message_id`.
pub fn federated_message_target(room_id: &str, origin_server: &str, content: &Json) -> (r:
    FederatedMessageTarget)
    ensures
        r.mapping_namespace@ == (match room_parts_spec(room_id@) {
            Some((_, d)) => d,
            None => origin_server@,
        }),
        r.remote_channel_id == content_i64_spec(*content, "channel_id"@),
        r.remote_guild_id == (match content_i64_spec(*content, "guild_id"@) {
            Some(g) => Some(g),
            None => match room_parts_spec(room_id@) {
                Some((g, _)) => Some(g),
                None => None,
            },
        }),
        match r.remote_message_id {
            Some(m) => content_str_spec(*content, "message_id"@) == Some(m@),
            None => content_str_spec(*content, "message_id"@) is None,
        },
{
    let remote_guild_id = match content_i64(content, "guild_id") {
        Some(g) => Some(g),
        None => match parse_room_parts(room_id) {
            Some((g, _)) => Some(g),
            None => None,
        },
    };
    FederatedMessageTarget {
        mapping_namespace: mapping_namespace_from_room(room_id, origin_server),
        remote_channel_id: content_i64(content, "channel_id"),
        remote_guild_id,
        remote_message_id: content_str(content, "message_id"),
    }
}

/// A signed request is accepted only when its timestamp is within
/// `max_skew_ms` of this server's clock.
pub fn check_transport_clock(now_ms: i64, timestamp_ms: i64, max_skew_ms: i64) -> (r: Result<(), ApiError>)
    ensures
        r is Ok <==> (if now_ms >= timestamp_ms {
            now_ms - timestamp_ms
        } else {
            timestamp_ms - now_ms
        }) <= max_skew_ms,
        r matches Err(e) ==> e is Unauthorized,
{
    let diff: i128 = now_ms as i128 - timestamp_ms as i128;
    let abs: i128 = if diff < 0 { -diff } else { diff };
    if abs > max_skew_ms as i128 {
        Err(ApiError::Unauthorized)
    } else {
        Ok(())
    }
}

/// The first of a peer's keys, given as `(key_id, valid_until_ms)`, with the
/// id the request was signed with and still valid at `now_ms`; forbidden
/// when there is none.
pub fn select_trusted_key(keys: &Vec<(String, i64)>, key_id: &str, now_ms: i64) -> (r: Result<
    usize,
    ApiError,
>)
    ensures
        match r {
            Ok(i) => i < keys@.len() && keys@[i as int].0@ == key_id@ && keys@[i as int].1 >= now_ms
                && forall|j: int| 0 <= j < i ==> !(keys@[j].0@ == key_id@ && keys@[j].1 >= now_ms),
            Err(e) => e is Forbidden && forall|j: int|
                0 <= j < keys@.len() ==> !(keys@[j].0@ == key_id@ && keys@[j].1 >= now_ms),
        },
{
    let wanted = chars_of(key_id);
    let mut i: usize = 0;
    while i < keys.len()
        invariant
            i <= keys@.len(),
            wanted@ == key_id@,
            forall|j: int| 0 <= j < i ==> !(keys@[j].0@ == key_id@ && keys@[j].1 >= now_ms),
        decreases keys.len() - i,
    {
        if seq_eq(&chars_of(keys[i].0.as_str()), &wanted) && keys[i].1 >= now_ms {
            return Ok(i);
        }
        i = i + 1;
    }
    Err(ApiError::Forbidden)
}

/// `@<username>:<domain>`: how a local user is named to other servers.
pub open spec fn federated_user_id_spec(username: Seq<char>, domain: Seq<char>) -> Seq<char> {
    seq!['@'] + username + seq![':'] + domain
}

/// The federated id of a local user, from the user's name and this
/// server's federation domain.
pub fn local_federated_user_id(username: &str, domain: &str) -> (r: String)
    ensures
        r@ == federated_user_id_spec(username@, domain@),
{
    let mut s = String::from_str("@");
    s.append(username);
    s.append(":");
    s.append(domain);
    proof {
        reveal_strlit("@");
        reveal_strlit(":");
    }
    assert(s@ =~= federated_user_id_spec(username@, domain@));
    s
}

/// A local room id parses back to its guild and the domain it was made
/// with, for a domain that is not blank and not padded with whitespace.
pub proof fn law_room_id_roundtrip(guild_id: i64, domain: Seq<char>)
    requires
        trim_spec(domain).len() > 0,
    ensures
        room_parts_spec(room_id_spec(int_decimal(guild_id as int), domain)) == Some(
            (guild_id, trim_spec(domain)),
        ),
{
    let d = int_decimal(guild_id as int);
    let s = room_id_spec(d, domain);
    lemma_int_decimal_chars(guild_id as int);
    lemma_int_decimal_parses(guild_id as int);
    let raw = s.drop_first();
    assert(raw == d + seq![':'] + domain);
    assert forall|k: int| 0 <= k < d.len() implies raw[k] != ':' by {
        assert(raw[k] == d[k]);
    }
    assert(raw[d.len() as int] == ':');
    lemma_find_char_unique(raw, ':', d.len() as int);
    assert(raw.take(d.len() as int) == d);
    assert(raw.skip(d.len() as int + 1) == domain);
}

/// The namespace of the room, or the fallback origin when the room id does
/// not parse.
pub fn mapping_namespace_from_room(room_id: &str, fallback_origin: &str) -> (r: String)
    ensures
        r@ == (match room_parts_spec(room_id@) {
            Some((_, d)) => d,
            None => fallback_origin@,
        }),
{
    match parse_room_parts(room_id) {
        Some((_, d)) => d,
        None => String::from_str(fallback_origin),
    }
}

// ---------------------------------------------------------------------------
// Peers
// ---------------------------------------------------------------------------

/// A remote identity must belong to the server that sent the request.
pub fn ensure_identity_matches_origin(identity_server: &str, origin_server: &str) -> (r: Result<
    (),
    ApiError,
>)
    ensures
        r is Ok <==> eq_ignore_case_spec(identity_server@, origin_server@),
        r matches Err(e) ==> e is Forbidden,
{
    if eq_ignore_ascii_case(&chars_of(identity_server), &chars_of(origin_server)) {
        return Ok(());
    }
    Err(ApiError::Forbidden)
}

/// A trusted peer: its server name and its domain.
pub open spec fn peer_view(p: (String, String)) -> (Seq<char>, Seq<char>) {
    (p.0@, p.1@)
}

/// `a` names the peer `p`, by server name or domain.
pub open spec fn names_peer(a: Seq<char>, p: (Seq<char>, Seq<char>)) -> bool {
    eq_ignore_case_spec(a, p.0) || eq_ignore_case_spec(a, p.1)
}

/// The identity's server and the origin are two names of one trusted peer,
/// or the same name.
pub open spec fn identity_alias_spec(
    identity_server: Seq<char>,
    origin_server: Seq<char>,
    peers: Seq<(Seq<char>, Seq<char>)>,
) -> bool {
    eq_ignore_case_spec(identity_server, origin_server) || exists|i: int|
        0 <= i < peers.len() && names_peer(origin_server, #[trigger] peers[i]) && names_peer(
            identity_server,
            peers[i],
        )
}

fn names_peer_exec(a: &[char], p: &(String, String)) -> (r: bool)
    ensures
        r == names_peer(a@, peer_view(*p)),
{
    eq_ignore_ascii_case(a, &chars_of(p.0.as_str())) || eq_ignore_ascii_case(
        a,
        &chars_of(p.1.as_str()),
    )
}

/// Accepts an identity from the origin server itself or from another name
/// of the same trusted peer.
pub fn ensure_identity_matches_origin_or_alias(
    identity_server: &str,
    origin_server: &str,
    peers: &Vec<(String, String)>,
) -> (r: Result<(), ApiError>)
    ensures
        r is Ok <==> identity_alias_spec(
            identity_server@,
            origin_server@,
            peers@.map_values(|p: (String, String)| peer_view(p)),
        ),
        r matches Err(e) ==> e is Forbidden,
{
    let ghost ps = peers@.map_values(|p: (String, String)| peer_view(p));
    if ensure_identity_matches_origin(identity_server, origin_server).is_ok() {
        return Ok(());
    }
    let id = chars_of(identity_server);
    let origin = chars_of(origin_server);
    let mut i: usize = 0;
    while i < peers.len()
        invariant
            i <= peers@.len(),
            id@ == identity_server@,
            origin@ == origin_server@,
            ps == peers@.map_values(|p: (String, String)| peer_view(p)),
            forall|j: int|
                0 <= j < i ==> !(names_peer(origin@, #[trigger] ps[j]) && names_peer(id@, ps[j])),
        decreases peers.len() - i,
    {
        assert(ps[i as int] == peer_view(peers@[i as int]));
        if names_peer_exec(&origin, &peers[i]) && names_peer_exec(&id, &peers[i]) {
            return Ok(());
        }
        i = i + 1;
    }
    Err(ApiError::Forbidden)
}

/// The guild ids listed in the allowlist setting: comma-separated,
/// trimmed, blanks and non-numbers skipped.
pub open spec fn allowed_ids_of(parts: Seq<Seq<char>>) -> Seq<i64>
    decreases parts.len(),
{
    if parts.len() == 0 {
        Seq::empty()
    } else {
        let rest = allowed_ids_of(parts.drop_last());
        match parse_in_range(parts.last(), true, i64::MIN as int, i64::MAX as int) {
            Some(n) => rest.push(n as i64),
            None => rest,
        }
    }
}

pub open spec fn allowed_guild_ids_spec(raw: Option<Seq<char>>) -> Seq<i64> {
    match raw {
        Some(r) => allowed_ids_of(split_trimmed(r, ',')),
        None => Seq::empty(),
    }
}

/// The guilds open to federation, from the allowlist setting (absent: none).
pub fn parse_federation_allowed_guild_ids(raw: Option<&str>) -> (r: Vec<i64>)
    ensures
        r@ == allowed_guild_ids_spec(match raw {
            Some(s) => Some(s@),
            None => None,
        }),
{
    let s = match raw {
        Some(s) => s,
        None => return Vec::new(),
    };
    let parts = split_trimmed_exec(&chars_of(s), ',');
    let ghost ps = views(parts@);
    let mut out: Vec<i64> = Vec::new();
    let mut i: usize = 0;
    while i < parts.len()
        invariant
            i <= parts@.len(),
            ps == views(parts@),
            ps == split_trimmed(s@, ','),
            out@ == allowed_ids_of(ps.take(i as int)),
        decreases parts.len() - i,
    {
        assert(ps.take(i as int + 1).drop_last() == ps.take(i as int));
        assert(ps.take(i as int + 1).last() == parts@[i as int]@);
        if let Some(n) = parse_i64(&parts[i]) {
            out.push(n);
        }
        i = i + 1;
    }
    assert(ps.take(i as int) == ps);
    out
}

/// Federation reaches only the guilds of the allowlist.
pub fn ensure_federation_guild_allowed(raw_allowlist: Option<&str>, guild_id: i64) -> (r: Result<
    (),
    ApiError,
>)
    ensures
        r is Ok <==> allowed_guild_ids_spec(
            match raw_allowlist {
                Some(s) => Some(s@),
                None => None,
            },
        ).contains(guild_id),
        r matches Err(e) ==> e is Forbidden,
{
    let ids = parse_federation_allowed_guild_ids(raw_allowlist);
    let mut i: usize = 0;
    while i < ids.len()
        invariant
            i <= ids@.len(),
            ids@ == allowed_guild_ids_spec(
                match raw_allowlist {
                    Some(s) => Some(s@),
                    None => None,
                },
            ),
            forall|j: int| 0 <= j < i ==> ids@[j] != guild_id,
        decreases ids.len() - i,
    {
        if ids[i] == guild_id {
            assert(ids@[i as int] == guild_id);
            return Ok(());
        }
        i = i + 1;
    }
    Err(ApiError::Forbidden)
}

/// The read token of the federation API, trimmed; absent when blank.
pub fn optional_federation_read_token(raw: Option<&str>) -> (r: Option<String>)
    ensures
        match r {
            Some(t) => raw matches Some(s) && t@ == trim_spec(s@) && t@.len() > 0,
            None => raw matches Some(s) ==> trim_spec(s@).len() == 0,
        },
{
    match raw {
        Some(s) => {
            let t = trim(&chars_of(s));
            if t.len() == 0 {
                None
            } else {
                Some(string_from_chars(&t))
            }
        },
        None => None,
    }
}

/// A read request presenting the configured read token, in the
/// `x-paracord-federation-token` header, needs no signature.
pub fn read_token_matches(expected: &Option<String>, headers: &RequestHeaders) -> (r: bool)
    ensures
        r == (expected matches Some(t) && header_str(headers@, "x-paracord-federation-token"@)
            matches Some(v) && trim_spec(v) == t@),
{
    match expected {
        Some(t) => match headers.get_str("x-paracord-federation-token") {
            Some(v) => crate::text::seq_eq(&trim(&v), &chars_of(t.as_str())),
            None => false,
        },
        None => false,
    }
}

// ---------------------------------------------------------------------------
// Remote users
// ---------------------------------------------------------------------------

pub open spec fn is_username_char(c: char) -> bool {
    ('a' <= c && c <= 'z') || ('A' <= c && c <= 'Z') || ('0' <= c && c <= '9') || c == '_' || c
        == '-'
}

/// The characters of `s` allowed in a username, in order.
pub open spec fn username_chars(s: Seq<char>) -> Seq<char>
    decreases s.len(),
{
    if s.len() == 0 {
        Seq::empty()
    } else if is_username_char(s.last()) {
        username_chars(s.drop_last()).push(s.last())
    } else {
        username_chars(s.drop_last())
    }
}

/// The longest prefix of `s` whose UTF-8 encoding takes at most `n` bytes.
pub open spec fn utf8_prefix(s: Seq<char>, n: nat) -> Seq<char>
    decreases s.len(),
{
    if s.len() == 0 || crate::text::char_utf8_len(s[0]) > n {
        Seq::empty()
    } else {
        seq![s[0]] + utf8_prefix(s.drop_first(), (n - crate::text::char_utf8_len(s[0])) as nat)
    }
}

/// `s` has a character boundary at byte `n`, or is shorter.
pub open spec fn boundary_at(s: Seq<char>, n: nat) -> bool {
    crate::text::utf8_len(s) <= n || exists|k: int|
        0 <= k <= s.len() && crate::text::utf8_len(#[trigger] s.take(k)) == n
}

/// A username for a remote user: the letters, digits, `_` and `-` of the
/// remote localpart, else the fallback, cut to 24 bytes.
pub open spec fn remote_username_spec(localpart: Seq<char>, fallback: Seq<char>) -> Seq<char> {
    let kept = username_chars(localpart);
    utf8_prefix(if kept.len() == 0 { fallback } else { kept }, 24)
}

/// The longest prefix of `v` that fits in `n` bytes of UTF-8.
pub fn utf8_truncate(v: &[char], n: usize) -> (r: Vec<char>)
    ensures
        r@ == utf8_prefix(v@, n as nat),
{
    let mut out: Vec<char> = Vec::new();
    let mut budget: usize = n;
    let mut i: usize = 0;
    assert(v@.skip(0) == v@);
    while i < v.len()
        invariant
            i <= v@.len(),
            budget <= n,
            out@ + utf8_prefix(v@.skip(i as int), budget as nat) == utf8_prefix(v@, n as nat),
        decreases v.len() - i,
    {
        let c = v[i];
        let w: usize = if (c as u32) < 0x80 {
            1
        } else if (c as u32) < 0x800 {
            2
        } else if (c as u32) < 0x10000 {
            3
        } else {
            4
        };
        assert(v@.skip(i as int)[0] == c);
        assert(w == crate::text::char_utf8_len(c));
        if w > budget {
            assert(utf8_prefix(v@.skip(i as int), budget as nat) == Seq::<char>::empty());
            assert(out@ + Seq::<char>::empty() == out@);
            return out;
        }
        assert(v@.skip(i as int).drop_first() == v@.skip(i as int + 1));
        let ghost prev = out@;
        out.push(c);
        budget = budget - w;
        i = i + 1;
        assert(out@ + utf8_prefix(v@.skip(i as int), budget as nat) =~= prev + (seq![c]
            + utf8_prefix(v@.skip(i as int), budget as nat)));
    }
    assert(v@.skip(i as int).len() == 0);
    assert(out@ + Seq::<char>::empty() == out@);
    out
}

pub fn sanitize_remote_username(localpart: &str, fallback: &str) -> (r: String)
    requires
        username_chars(localpart@).len() == 0 ==> boundary_at(fallback@, 24),
    ensures
        r@ == remote_username_spec(localpart@, fallback@),
{
    let v = chars_of(localpart);
    let mut kept: Vec<char> = Vec::new();
    let mut i: usize = 0;
    while i < v.len()
        invariant
            i <= v@.len(),
            kept@ == username_chars(v@.take(i as int)),
        decreases v.len() - i,
    {
        let c = v[i];
        assert(v@.take(i as int + 1).drop_last() == v@.take(i as int));
        assert(v@.take(i as int + 1).last() == c);
        if ('a' <= c && c <= 'z') || ('A' <= c && c <= 'Z') || ('0' <= c && c <= '9') || c == '_'
            || c == '-' {
            kept.push(c);
        }
        i = i + 1;
    }
    assert(v@.take(i as int) == v@);
    let base = if kept.len() == 0 {
        chars_of(fallback)
    } else {
        kept
    };
    string_from_chars(&utf8_truncate(&base, 24))
}

// ---------------------------------------------------------------------------
// Inbound event content
// ---------------------------------------------------------------------------

/// Largest serialized content of an inbound event, in bytes.
pub const MAX_CONTENT_SIZE_BYTES: usize = 1048576;

/// Deepest nesting of an inbound event's content.
pub const MAX_CONTENT_DEPTH: usize = 32;

/// Most elements or keys in one array or object of an inbound event.
pub const MAX_COLLECTION_LENGTH: usize = 10000;

pub open spec fn larger(a: nat, b: nat) -> nat {
    if a < b {
        b
    } else {
        a
    }
}

/// The nesting depth of a value (a scalar is 0, a collection one more than
/// its deepest element), or the first oversized collection met, depth
/// first and in order.
pub open spec fn structure_spec(v: Json) -> Result<nat, Seq<char>>
    decreases v,
{
    match v {
        Json::Array(a) => if a@.len() > 10000 {
            Err("federation event content array exceeds maximum element count"@)
        } else {
            match items_spec(a@) {
                Ok(d) => Ok(1 + d),
                Err(e) => Err(e),
            }
        },
        Json::Object(f) => if f@.len() > 10000 {
            Err("federation event content object exceeds maximum key count"@)
        } else {
            match members_spec(f@) {
                Ok(d) => Ok(1 + d),
                Err(e) => Err(e),
            }
        },
        _ => Ok(0),
    }
}

/// The deepest of a list of values, or the first error among them.
pub open spec fn items_spec(s: Seq<Json>) -> Result<nat, Seq<char>>
    decreases s,
{
    if s.len() == 0 {
        Ok(0)
    } else {
        match items_spec(s.drop_last()) {
            Err(e) => Err(e),
            Ok(r) => match structure_spec(s[s.len() - 1]) {
                Err(e) => Err(e),
                Ok(d) => Ok(larger(r, d)),
            },
        }
    }
}

/// The deepest of the values of a list of members, or the first error.
pub open spec fn members_spec(s: Seq<(String, Json)>) -> Result<nat, Seq<char>>
    decreases s,
{
    if s.len() == 0 {
        Ok(0)
    } else {
        match members_spec(s.drop_last()) {
            Err(e) => Err(e),
            Ok(r) => match structure_spec(s[s.len() - 1].1) {
                Err(e) => Err(e),
                Ok(d) => Ok(larger(r, d)),
            },
        }
    }
}

pub open spec fn cap_usize(n: nat) -> usize {
    if n < usize::MAX {
        n as usize
    } else {
        usize::MAX
    }
}

fn larger_usize(a: usize, b: usize) -> (r: usize)
    ensures
        r as nat == larger(a as nat, b as nat),
{
    if a < b {
        b
    } else {
        a
    }
}

fn one_more(d: usize) -> (r: usize)
    ensures
        forall|n: nat| d == #[trigger] cap_usize(n) ==> r == cap_usize(n + 1),
{
    if d == usize::MAX {
        usize::MAX
    } else {
        d + 1
    }
}

proof fn lemma_items_prefix_err(s: Seq<Json>, k: int)
    requires
        0 <= k <= s.len(),
        items_spec(s.take(k)) is Err,
    ensures
        items_spec(s) == items_spec(s.take(k)),
    decreases s.len() - k,
{
    if k < s.len() {
        assert(s.take(k + 1).drop_last() == s.take(k));
        lemma_items_prefix_err(s, k + 1);
    } else {
        assert(s.take(k) == s);
    }
}

proof fn lemma_members_prefix_err(s: Seq<(String, Json)>, k: int)
    requires
        0 <= k <= s.len(),
        members_spec(s.take(k)) is Err,
    ensures
        members_spec(s) == members_spec(s.take(k)),
    decreases s.len() - k,
{
    if k < s.len() {
        assert(s.take(k + 1).drop_last() == s.take(k));
        lemma_members_prefix_err(s, k + 1);
    } else {
        assert(s.take(k) == s);
    }
}

/// Walks a value: its depth (capped at `usize::MAX`), or why it is refused.
pub fn validate_json_structure(value: &Json) -> (r: Result<usize, &'static str>)
    ensures
        match r {
            Ok(d) => structure_spec(*value) matches Ok(n) && d == cap_usize(n),
            Err(e) => structure_spec(*value) == Err::<nat, Seq<char>>(e@),
        },
    decreases *value,
{
    match value {
        Json::Array(arr) => {
            if arr.len() > MAX_COLLECTION_LENGTH {
                return Err("federation event content array exceeds maximum element count");
            }
            let mut max_child: usize = 0;
            let mut i: usize = 0;
            assert(arr@.take(0) =~= Seq::<Json>::empty());
            while i < arr.len()
                invariant
                    i <= arr@.len() <= 10000,
                    *value == Json::Array(*arr),
                    items_spec(arr@.take(i as int)) matches Ok(n) && max_child == cap_usize(n),
                decreases arr.len() - i,
            {
                let ghost t = arr@.take(i as int + 1);
                assert(t.drop_last() == arr@.take(i as int));
                assert(t[t.len() - 1] == arr@[i as int]);
                proof {
                    assert(decreases_to!(*value => *arr));
                    assert(decreases_to!(*arr => arr@));
                    assert(decreases_to!(arr@ => arr@[i as int]));
                }
                match validate_json_structure(&arr[i]) {
                    Ok(d) => {
                        max_child = larger_usize(max_child, d);
                    },
                    Err(e) => {
                        proof {
                            lemma_items_prefix_err(arr@, i as int + 1);
                        }
                        return Err(e);
                    },
                }
                i = i + 1;
            }
            assert(arr@.take(i as int) == arr@);
            Ok(one_more(max_child))
        },
        Json::Object(fields) => {
            if fields.len() > MAX_COLLECTION_LENGTH {
                return Err("federation event content object exceeds maximum key count");
            }
            let mut max_child: usize = 0;
            let mut i: usize = 0;
            assert(fields@.take(0) =~= Seq::<(String, Json)>::empty());
            while i < fields.len()
                invariant
                    i <= fields@.len() <= 10000,
                    *value == Json::Object(*fields),
                    members_spec(fields@.take(i as int)) matches Ok(n) && max_child == cap_usize(n),
                decreases fields.len() - i,
            {
                let ghost t = fields@.take(i as int + 1);
                assert(t.drop_last() == fields@.take(i as int));
                assert(t[t.len() - 1] == fields@[i as int]);
                proof {
                    assert(decreases_to!(*value => *fields));
                    assert(decreases_to!(*fields => fields@));
                    assert(decreases_to!(fields@ => fields@[i as int]));
                    assert(decreases_to!(fields@[i as int] => fields@[i as int].1));
                }
                match validate_json_structure(&fields[i].1) {
                    Ok(d) => {
                        max_child = larger_usize(max_child, d);
                    },
                    Err(e) => {
                        proof {
                            lemma_members_prefix_err(fields@, i as int + 1);
                        }
                        return Err(e);
                    },
                }
                i = i + 1;
            }
            assert(fields@.take(i as int) == fields@);
            Ok(one_more(max_child))
        },
        _ => Ok(0),
    }
}

/// Why inbound event content is refused, if it is: by the size of its
/// serialized form, then by its structure.
pub open spec fn content_error(content: Json, serialized_len: nat) -> Option<Seq<char>> {
    if serialized_len > 1048576 {
        Some("federation event content exceeds maximum size of 1048576 bytes"@)
    } else {
        match structure_spec(content) {
            Err(reason) => Some(reason),
            Ok(depth) => if depth > 32 {
                Some("federation event content exceeds maximum nesting depth of 32"@)
            } else {
                None
            },
        }
    }
}

/// Checks inbound event content, given the length of its serialized form.
pub fn validate_federation_content(content: &Json, serialized_len: usize) -> (r: Result<
    (),
    ApiError,
>)
    ensures
        match r {
            Ok(()) => content_error(*content, serialized_len as nat) is None,
            Err(e) => content_error(*content, serialized_len as nat) matches Some(m)
                && is_bad_request(e, m),
        },
{
    if serialized_len > MAX_CONTENT_SIZE_BYTES {
        return Err(bad_request("federation event content exceeds maximum size of 1048576 bytes"));
    }
    match validate_json_structure(content) {
        Err(reason) => Err(bad_request(reason)),
        Ok(depth) => {
            if depth > MAX_CONTENT_DEPTH {
                return Err(bad_request("federation event content exceeds maximum nesting depth of 32"));
            }
            Ok(())
        },
    }
}

/// A text member of event content, trimmed; absent when blank.
pub open spec fn content_str_spec(content: Json, key: Seq<char>) -> Option<Seq<char>> {
    match get_spec(content, key) {
        Some(Json::Str(s)) => if trim_spec(s@).len() > 0 {
            Some(trim_spec(s@))
        } else {
            None
        },
        _ => None,
    }
}

pub fn content_str(content: &Json, key: &str) -> (r: Option<String>)
    ensures
        match r {
            Some(s) => content_str_spec(*content, key@) == Some(s@),
            None => content_str_spec(*content, key@) is None,
        },
{
    match content.get(key) {
        Some(Json::Str(s)) => {
            let t = trim(&chars_of(s.as_str()));
            if t.len() > 0 {
                Some(string_from_chars(&t))
            } else {
                None
            }
        },
        _ => None,
    }
}

/// An integer member of event content: a number that is an `i64`, or text
/// holding one (trimmed).
pub open spec fn content_i64_spec(content: Json, key: Seq<char>) -> Option<i64> {
    match get_spec(content, key) {
        Some(Json::Number(n)) => n,
        Some(Json::Str(s)) => match parse_in_range(
            trim_spec(s@),
            true,
            i64::MIN as int,
            i64::MAX as int,
        ) {
            Some(v) => Some(v as i64),
            None => None,
        },
        _ => None,
    }
}

pub fn content_i64(content: &Json, key: &str) -> (r: Option<i64>)
    ensures
        r == content_i64_spec(*content, key@),
{
    match content.get(key) {
        Some(Json::Number(n)) => *n,
        Some(Json::Str(s)) => parse_i64(&trim(&chars_of(s.as_str()))),
        _ => None,
    }
}

// ---------------------------------------------------------------------------
// Signed requests between servers
// ---------------------------------------------------------------------------

/// The signature headers of a request from another server.
pub struct FederationTransportHeaders {
    pub origin: String,
    pub key_id: String,
    pub timestamp_ms: i64,
    pub signature_hex: String,
}

/// The four signature headers, each present and not blank (trimmed), the
/// timestamp a decimal `i64`.
pub open spec fn transport_headers_spec(h: Seq<(Seq<char>, Seq<char>)>) -> Option<
    (Seq<char>, Seq<char>, i64, Seq<char>),
> {
    match (
        header_trimmed(h, "x-paracord-origin"@),
        header_trimmed(h, "x-paracord-key-id"@),
        header_str(h, "x-paracord-timestamp"@),
        header_trimmed(h, "x-paracord-signature"@),
    ) {
        (Some(o), Some(k), Some(t), Some(sig)) => match parse_in_range(
            trim_spec(t),
            true,
            i64::MIN as int,
            i64::MAX as int,
        ) {
            Some(ts) => Some((o, k, ts as i64, sig)),
            None => None,
        },
        _ => None,
    }
}

/// The signature headers are read each from its own header: a parse that
/// succeeds gives as origin the trimmed `X-Paracord-Origin`, as key id the
/// trimmed `X-Paracord-Key-Id`, as signature the trimmed
/// `X-Paracord-Signature`, and as timestamp the decimal value of the
/// trimmed `X-Paracord-Timestamp`; and a request whose four headers are all
/// there and not blank, with a decimal timestamp, parses.
pub proof fn law_transport_headers_read_their_own_header(h: Seq<(Seq<char>, Seq<char>)>)
    ensures
        transport_headers_spec(h) matches Some((o, k, ts, sig)) ==> {
            &&& header_str(h, "x-paracord-origin"@) matches Some(v) && o == trim_spec(v) && o.len() > 0
            &&& header_str(h, "x-paracord-key-id"@) matches Some(v) && k == trim_spec(v) && k.len() > 0
            &&& header_str(h, "x-paracord-signature"@) matches Some(v) && sig == trim_spec(v) && sig.len() > 0
            &&& header_str(h, "x-paracord-timestamp"@) matches Some(v)
                && parse_in_range(trim_spec(v), true, i64::MIN as int, i64::MAX as int) == Some(ts as int)
        },
        ({
            &&& header_str(h, "x-paracord-origin"@) matches Some(v) && trim_spec(v).len() > 0
            &&& header_str(h, "x-paracord-key-id"@) matches Some(v) && trim_spec(v).len() > 0
            &&& header_str(h, "x-paracord-signature"@) matches Some(v) && trim_spec(v).len() > 0
            &&& header_str(h, "x-paracord-timestamp"@) matches Some(v)
                && parse_in_range(trim_spec(v), true, i64::MIN as int, i64::MAX as int) is Some
        }) ==> transport_headers_spec(h) is Some,
{
}

pub fn parse_transport_headers(headers: &RequestHeaders) -> (r: Result<
    FederationTransportHeaders,
    ApiError,
>)
    ensures
        match r {
            Ok(t) => transport_headers_spec(headers@) == Some(
                (t.origin@, t.key_id@, t.timestamp_ms, t.signature_hex@),
            ),
            Err(e) => transport_headers_spec(headers@) is None && e is Unauthorized,
        },
{
    let origin = match trimmed_header(headers, "x-paracord-origin") {
        Some(v) => v,
        None => return Err(ApiError::Unauthorized),
    };
    let key_id = match trimmed_header(headers, "x-paracord-key-id") {
        Some(v) => v,
        None => return Err(ApiError::Unauthorized),
    };
    let timestamp_ms = match headers.get_str("x-paracord-timestamp") {
        Some(v) => match parse_i64(&trim(&v)) {
            Some(t) => t,
            None => return Err(ApiError::Unauthorized),
        },
        None => return Err(ApiError::Unauthorized),
    };
    let signature_hex = match trimmed_header(headers, "x-paracord-signature") {
        Some(v) => v,
        None => return Err(ApiError::Unauthorized),
    };
    Ok(FederationTransportHeaders {
        origin: string_from_chars(&origin),
        key_id: string_from_chars(&key_id),
        timestamp_ms,
        signature_hex: string_from_chars(&signature_hex),
    })
}

/// The text a transport signature's replay key is derived from.
pub fn replay_material(transport: &FederationTransportHeaders, path: &str) -> (r: String)
    ensures
        r@ == transport.origin@ + seq!['\n'] + transport.key_id@ + seq!['\n'] + int_decimal(
            transport.timestamp_ms as int,
        ) + seq!['\n'] + path@ + seq!['\n'] + transport.signature_hex@,
{
    proof {
        reveal_strlit("\n");
    }
    let mut s = String::new();
    s.append(transport.origin.as_str());
    s.append("\n");
    s.append(transport.key_id.as_str());
    s.append("\n");
    s.append(string_from_chars(&i64_decimal(transport.timestamp_ms)).as_str());
    s.append("\n");
    s.append(path);
    s.append("\n");
    s.append(transport.signature_hex.as_str());
    assert(s@ =~= transport.origin@ + seq!['\n'] + transport.key_id@ + seq!['\n'] + int_decimal(
        transport.timestamp_ms as int,
    ) + seq!['\n'] + path@ + seq!['\n'] + transport.signature_hex@);
    s
}

/// The first member of an object whose value is text: its key and text.
pub open spec fn first_text_member(fields: Seq<(String, Json)>) -> Option<(Seq<char>, Seq<char>)>
    decreases fields.len(),
{
    if fields.len() == 0 {
        None
    } else {
        match fields[0].1 {
            Json::Str(s) => Some((fields[0].0@, s@)),
            _ => first_text_member(fields.drop_first()),
        }
    }
}

/// The key id and signature of an event for its origin: first from
/// `{ origin: { key_id: signature } }`, else from a flat `{ key_id: signature }`.
pub open spec fn signature_for_origin_spec(signatures: Json, origin: Seq<char>) -> Option<
    (Seq<char>, Seq<char>),
> {
    let preferred = match get_spec(signatures, origin) {
        Some(Json::Object(f)) => first_text_member(f@),
        _ => None,
    };
    match preferred {
        Some(p) => Some(p),
        None => match signatures {
            Json::Object(f) => first_text_member(f@),
            _ => None,
        },
    }
}

fn first_text_member_exec(fields: &Vec<(String, Json)>) -> (r: Option<(String, String)>)
    ensures
        match r {
            Some((k, v)) => first_text_member(fields@) == Some((k@, v@)),
            None => first_text_member(fields@) is None,
        },
{
    let mut i: usize = 0;
    assert(fields@.skip(0) == fields@);
    while i < fields.len()
        invariant
            i <= fields@.len(),
            first_text_member(fields@) == first_text_member(fields@.skip(i as int)),
        decreases fields.len() - i,
    {
        assert(fields@.skip(i as int)[0] == fields@[i as int]);
        assert(fields@.skip(i as int).drop_first() == fields@.skip(i as int + 1));
        if let Json::Str(sig) = &fields[i].1 {
            return Some((fields[i].0.clone(), sig.clone()));
        }
        i = i + 1;
    }
    assert(fields@.skip(i as int).len() == 0);
    None
}

pub fn extract_signature_for_origin(signatures: &Json, origin_server: &str) -> (r: Option<
    (String, String),
>)
    ensures
        match r {
            Some((k, v)) => signature_for_origin_spec(*signatures, origin_server@) == Some(
                (k@, v@),
            ),
            None => signature_for_origin_spec(*signatures, origin_server@) is None,
        },
{
    if let Some(Json::Object(by_origin)) = signatures.get(origin_server) {
        if let Some(p) = first_text_member_exec(by_origin) {
            return Some(p);
        }
    }
    if let Json::Object(flat) = signatures {
        return first_text_member_exec(flat);
    }
    None
}

// ---------------------------------------------------------------------------
// File-sharing tokens
// ---------------------------------------------------------------------------

/// How long a file token is valid, in seconds.
pub const FILE_TOKEN_TTL_SECONDS: i64 = 300;

/// The keyed hash of a file token: SHA-256 of `key`, `:` and `message`
/// (their UTF-8 bytes), in lowercase hexadecimal.
pub open spec fn file_hmac_spec(key: Seq<char>, message: Seq<char>) -> Seq<char> {
    hex_lower_spec(sha256_spec(encode_utf8(key) + seq![58u8] + encode_utf8(message)))
}

fn push_bytes(out: &mut Vec<u8>, b: &[u8])
    ensures
        final(out)@ == old(out)@ + b@,
{
    let mut i: usize = 0;
    while i < b.len()
        invariant
            i <= b@.len(),
            out@ == old(out)@ + b@.take(i as int),
        decreases b.len() - i,
    {
        out.push(b[i]);
        assert(b@.take(i as int + 1) == b@.take(i as int).push(b@[i as int]));
        assert(old(out)@ + b@.take(i as int + 1) == (old(out)@ + b@.take(i as int)).push(
            b@[i as int],
        ));
        i = i + 1;
    }
    assert(b@.take(i as int) == b@);
}

pub fn federation_file_hmac(key: &str, message: &str) -> (r: String)
    ensures
        r@ == file_hmac_spec(key@, message@),
        r@.len() == 64,
        forall|i: int| 0 <= i < r@.len() ==> is_lower_hex(#[trigger] r@[i]),
{
    let mut bytes: Vec<u8> = Vec::new();
    push_bytes(&mut bytes, key.as_bytes());
    bytes.push(58u8);
    push_bytes(&mut bytes, message.as_bytes());
    assert(bytes@ =~= encode_utf8(key@) + seq![58u8] + encode_utf8(message@));
    let digest = sha256(&bytes);
    proof {
        lemma_hex_lower_chars(digest@);
    }
    string_from_chars(&hex_lower(&digest))
}

/// `attachment:server:expiry`, the signed part of a file token.
pub open spec fn file_token_payload(attachment_id: i64, server: Seq<char>, exp: i64) -> Seq<char> {
    int_decimal(attachment_id as int) + seq![':'] + server + seq![':'] + int_decimal(exp as int)
}

/// A file token: its payload, `.`, and the keyed hash of the payload.
pub open spec fn file_token_spec(secret: Seq<char>, attachment_id: i64, server: Seq<char>, exp: i64) -> Seq<char> {
    let p = file_token_payload(attachment_id, server, exp);
    p + seq!['.'] + file_hmac_spec(secret, p)
}

/// The expiry of a token minted at `now`.
pub open spec fn file_token_expiry(now: i64) -> i64 {
    if now <= i64::MAX - 300 {
        (now + 300) as i64
    } else {
        i64::MAX
    }
}

/// Mints a token for `requester_server` to fetch an attachment, valid for
/// five minutes from `now`; returns it with its expiry.
pub fn mint_federation_file_token_at(
    jwt_secret: &str,
    attachment_id: i64,
    requester_server: &str,
    now: i64,
) -> (r: (String, i64))
    ensures
        r.1 == file_token_expiry(now),
        r.0@ == file_token_spec(jwt_secret@, attachment_id, requester_server@, r.1),
{
    let exp = if now <= i64::MAX - FILE_TOKEN_TTL_SECONDS {
        now + FILE_TOKEN_TTL_SECONDS
    } else {
        i64::MAX
    };
    let mut payload = string_from_chars(&i64_decimal(attachment_id));
    payload.append(":");
    payload.append(requester_server);
    payload.append(":");
    payload.append(string_from_chars(&i64_decimal(exp)).as_str());
    proof {
        reveal_strlit(":");
        reveal_strlit(".");
    }
    assert(payload@ =~= file_token_payload(attachment_id, requester_server@, exp));
    let mac = federation_file_hmac(jwt_secret, payload.as_str());
    let mut token = payload;
    token.append(".");
    token.append(mac.as_str());
    assert(token@ =~= file_token_spec(jwt_secret@, attachment_id, requester_server@, exp));
    (token, exp)
}

/// Mints a file token valid for five minutes from now, by the system clock.
pub fn mint_federation_file_token(jwt_secret: &str, attachment_id: i64, requester_server: &str) -> (r: (
    String,
    i64,
))
    ensures
        exists|now: i64| r.1 == #[trigger] file_token_expiry(now),
        r.0@ == file_token_spec(jwt_secret@, attachment_id, requester_server@, r.1),
{
    let now = utc_now_timestamp();
    mint_federation_file_token_at(jwt_secret, attachment_id, requester_server, now)
}

/// The three `:`-separated parts of a payload, the last taking the rest
/// (`splitn(3, ':')`); `None` with fewer than two `:`.
pub open spec fn three_parts(p: Seq<char>) -> Option<(Seq<char>, Seq<char>, Seq<char>)> {
    match split_once_spec(p, ':') {
        Some((a, rest)) => match split_once_spec(rest, ':') {
            Some((b, c)) => Some((a, b, c)),
            None => None,
        },
        None => None,
    }
}

/// A file token is accepted at `now` for `expected_id` when its hash
/// matches its payload, the payload names the attachment, and it has not
/// expired.
pub open spec fn file_token_ok(secret: Seq<char>, token: Seq<char>, expected_id: i64, now: i64) -> bool {
    match rsplit_once_spec(token, '.') {
        None => false,
        Some((payload, mac)) => mac == file_hmac_spec(secret, payload) && match three_parts(
            payload,
        ) {
            None => false,
            Some((a, _b, c)) => match (
                parse_in_range(a, true, i64::MIN as int, i64::MAX as int),
                parse_in_range(c, true, i64::MIN as int, i64::MAX as int),
            ) {
                (Some(id), Some(exp)) => id == expected_id && now <= exp,
                _ => false,
            },
        },
    }
}

/// Checks a file token at `now`: every refusal is `Unauthorized`.
pub fn validate_federation_file_token_at(
    jwt_secret: &str,
    token: &str,
    expected_attachment_id: i64,
    now: i64,
) -> (r: Result<(), ApiError>)
    ensures
        r is Ok <==> file_token_ok(jwt_secret@, token@, expected_attachment_id, now),
        r matches Err(e) ==> e is Unauthorized,
{
    let t = chars_of(token);
    let (payload, mac) = match rsplit_once_exec(&t, '.') {
        Some(p) => p,
        None => return Err(ApiError::Unauthorized),
    };
    let payload_s = string_from_chars(&payload);
    let expected_mac = federation_file_hmac(jwt_secret, payload_s.as_str());
    if !seq_eq(&mac, &chars_of(expected_mac.as_str())) {
        return Err(ApiError::Unauthorized);
    }
    let (a, rest) = match split_once_exec(&payload, ':') {
        Some(p) => p,
        None => return Err(ApiError::Unauthorized),
    };
    let (_b, c) = match split_once_exec(&rest, ':') {
        Some(p) => p,
        None => return Err(ApiError::Unauthorized),
    };
    let attachment_id = match parse_i64(&a) {
        Some(x) => x,
        None => return Err(ApiError::Unauthorized),
    };
    let exp = match parse_i64(&c) {
        Some(x) => x,
        None => return Err(ApiError::Unauthorized),
    };
    if attachment_id != expected_attachment_id {
        return Err(ApiError::Unauthorized);
    }
    if now > exp {
        return Err(ApiError::Unauthorized);
    }
    Ok(())
}

/// Checks a file token against the system clock.
pub fn validate_federation_file_token(jwt_secret: &str, token: &str, expected_attachment_id: i64) -> (r:
    Result<(), ApiError>)
    ensures
        exists|now: i64|
            (r is Ok <==> #[trigger] file_token_ok(jwt_secret@, token@, expected_attachment_id, now)),
        r matches Err(e) ==> e is Unauthorized,
{
    let now = utc_now_timestamp();
    validate_federation_file_token_at(jwt_secret, token, expected_attachment_id, now)
}

/// A minted token is accepted for its attachment until it expires, never
/// for another attachment, and never under a secret whose keyed hash of
/// the token's payload differs, when the requesting server's name holds no
/// `:`.
pub proof fn law_file_token_roundtrip(
    secret: Seq<char>,
    attachment_id: i64,
    server: Seq<char>,
    exp: i64,
    now: i64,
)
    requires
        !server.contains(':'),
    ensures
        file_token_ok(secret, file_token_spec(secret, attachment_id, server, exp), attachment_id, now)
            == (now <= exp),
        forall|other: i64|
            other != attachment_id ==> !#[trigger] file_token_ok(
                secret,
                file_token_spec(secret, attachment_id, server, exp),
                other,
                now,
            ),
        forall|secret2: Seq<char>|
            #[trigger] file_hmac_spec(secret2, file_token_payload(attachment_id, server, exp))
                != file_hmac_spec(secret, file_token_payload(attachment_id, server, exp))
            ==> !file_token_ok(secret2, file_token_spec(secret, attachment_id, server, exp), attachment_id, now),
{
    let p = file_token_payload(attachment_id, server, exp);
    let h = file_hmac_spec(secret, p);
    let token = file_token_spec(secret, attachment_id, server, exp);
    assert(token == p + seq!['.'] + h);
    lemma_hex_lower_chars(sha256_spec(encode_utf8(secret) + seq![58u8] + encode_utf8(p)));
    assert forall|k: int| p.len() < k < token.len() implies token[k] != '.' by {
        assert(token[k] == h[k - p.len() - 1]);
        assert(is_lower_hex(h[k - p.len() - 1]));
    }
    assert(token[p.len() as int] == '.');
    lemma_rfind_char_unique(token, '.', p.len() as int);
    assert(token.take(p.len() as int) == p);
    assert(token.skip(p.len() as int + 1) == h);
    let da = int_decimal(attachment_id as int);
    let de = int_decimal(exp as int);
    lemma_int_decimal_chars(attachment_id as int);
    lemma_int_decimal_chars(exp as int);
    lemma_int_decimal_parses(attachment_id as int);
    lemma_int_decimal_parses(exp as int);
    assert forall|k: int| 0 <= k < da.len() implies p[k] != ':' by {
        assert(p[k] == da[k]);
    }
    assert(p[da.len() as int] == ':');
    lemma_find_char_unique(p, ':', da.len() as int);
    let rest = p.skip(da.len() as int + 1);
    assert(rest == server + seq![':'] + de);
    assert(p.take(da.len() as int) == da);
    assert forall|k: int| 0 <= k < server.len() implies rest[k] != ':' by {
        assert(rest[k] == server[k]);
        if server[k] == ':' {
            assert(server.contains(':'));
        }
    }
    assert(rest[server.len() as int] == ':');
    lemma_find_char_unique(rest, ':', server.len() as int);
    assert(rest.take(server.len() as int) == server);
    assert(rest.skip(server.len() as int + 1) == de);
    assert(three_parts(p) == Some((da, server, de)));
}

/// The filename of a download with `"`, `\`, CR and LF removed.
pub open spec fn safe_filename_spec(name: Seq<char>) -> Seq<char>
    decreases name.len(),
{
    if name.len() == 0 {
        Seq::empty()
    } else {
        let c = name.last();
        let rest = safe_filename_spec(name.drop_last());
        if c == '"' || c == '\\' || c == '\r' || c == '\n' {
            rest
        } else {
            rest.push(c)
        }
    }
}

/// The `Content-Disposition` of a file served to another server.
pub fn file_content_disposition(filename: &str) -> (r: String)
    ensures
        r@ == "attachment; filename=\""@ + safe_filename_spec(filename@) + "\""@,
{
    let v = chars_of(filename);
    let mut kept: Vec<char> = Vec::new();
    let mut i: usize = 0;
    while i < v.len()
        invariant
            i <= v@.len(),
            kept@ == safe_filename_spec(v@.take(i as int)),
        decreases v.len() - i,
    {
        let c = v[i];
        assert(v@.take(i as int + 1).drop_last() == v@.take(i as int));
        assert(v@.take(i as int + 1).last() == c);
        if !(c == '"' || c == '\\' || c == '\r' || c == '\n') {
            kept.push(c);
        }
        i = i + 1;
    }
    assert(v@.take(i as int) == v@);
    let mut s = String::from_str("attachment; filename=\"");
    s.append(string_from_chars(&kept).as_str());
    s.append("\"");
    s
}

// ---------------------------------------------------------------------------
// Event listing
// ---------------------------------------------------------------------------

pub struct ListEventsQuery {
    pub room_id: String,
    pub since_depth: Option<i64>,
    pub limit: Option<i64>,
}

/// The depth to list events after (0 unless asked, never negative) and the
/// page size (100 unless asked, between 1 and 1000).
pub fn list_events_window(query: &ListEventsQuery) -> (r: (i64, i64))
    ensures
        r.0 == (match query.since_depth {
            Some(d) => if d < 0 {
                0
            } else {
                d
            },
            None => 0,
        }),
        r.1 == (match query.limit {
            Some(l) => if l < 1 {
                1
            } else if l > 1000 {
                1000
            } else {
                l
            },
            None => 100,
        }),
{
    let since = match query.since_depth {
        Some(d) => if d < 0 {
            0
        } else {
            d
        },
        None => 0,
    };
    let limit = match query.limit {
        Some(l) => if l < 1 {
            1
        } else if l > 1000 {
            1000
        } else {
            l
        },
        None => 100,
    };
    (since, limit)
}

// ---------------------------------------------------------------------------
// Requests between servers
// ---------------------------------------------------------------------------

pub struct FederationInviteRequest {
    pub origin_server: String,
    pub room_id: String,
    pub sender: String,
    pub max_age_seconds: Option<i64>,
}

pub struct FederationJoinRequest {
    pub origin_server: String,
    pub room_id: String,
    pub user_id: String,
}

pub struct FederationLeaveRequest {
    pub origin_server: String,
    pub room_id: String,
    pub user_id: String,
}

pub struct FederationMediaTokenRequest {
    pub origin_server: String,
    pub channel_id: String,
    pub user_id: String,
}

pub struct FederationMediaRelayRequest {
    pub origin_server: String,
    pub channel_id: String,
    pub user_id: String,
    pub action: String,
    pub title: Option<String>,
}

pub struct AddServerRequest {
    pub server_name: String,
    pub domain: String,
    pub federation_endpoint: String,
    pub public_key_hex: Option<String>,
    pub key_id: Option<String>,
    pub trusted: bool,
    pub discover: bool,
}

pub struct FederationFileTokenRequest {
    pub origin_server: String,
    pub attachment_id: String,
    pub room_id: String,
    pub user_id: String,
}

pub struct FileDownloadQuery {
    pub token: String,
}

// ---------------------------------------------------------------------------
// Outbound events
// ---------------------------------------------------------------------------

/// Where an outbound event of a local guild goes: its room, the guild and
/// channel ids the payload names, and the origin namespace when the guild
/// mirrors another server's space.
pub struct FederationOutboundContext {
    pub room_id: String,
    pub payload_guild_id: String,
    pub payload_channel_id: Option<String>,
    pub uses_remote_mapping: bool,
    pub origin_server: Option<String>,
}

/// A peer to deliver to: its names and endpoint.
pub struct FederationRemoteTarget {
    pub server_name: String,
    pub domain: String,
    pub federation_endpoint: String,
}

/// A local guild's mirror of a remote space: the remote space id and the
/// origin server.
pub struct SpaceMapping {
    pub remote_space_id: String,
    pub origin_server: String,
}

/// A local channel's mirror of a remote channel: the local guild, the
/// origin server and the remote channel id.
pub struct ChannelMapping {
    pub local_guild_id: i64,
    pub origin_server: String,
    pub remote_channel_id: String,
}

pub open spec fn opt_i64_text(o: Option<i64>) -> Option<Seq<char>> {
    match o {
        Some(n) => Some(int_decimal(n as int)),
        None => None,
    }
}

/// The context as text: room, guild, channel, remote flag, origin.
pub open spec fn context_view(c: FederationOutboundContext) -> (
    Seq<char>,
    Seq<char>,
    Option<Seq<char>>,
    bool,
    Option<Seq<char>>,
) {
    (
        c.room_id@,
        c.payload_guild_id@,
        ostring_view(c.payload_channel_id),
        c.uses_remote_mapping,
        ostring_view(c.origin_server),
    )
}

/// The outbound context of a guild: its own room unless it mirrors a space
/// of another namespace, in which case the remote room and ids are used
/// (the channel's remote id only when its mapping agrees on guild and origin).
pub open spec fn outbound_context_spec(
    local_domain: Seq<char>,
    local_server_name: Seq<char>,
    guild_id: i64,
    channel_id: Option<i64>,
    space: Option<(Seq<char>, Seq<char>)>,
    channel: Option<(i64, Seq<char>, Seq<char>)>,
) -> (Seq<char>, Seq<char>, Option<Seq<char>>, bool, Option<Seq<char>>) {
    let local = (
        room_id_spec(int_decimal(guild_id as int), local_domain),
        int_decimal(guild_id as int),
        opt_i64_text(channel_id),
        false,
        None::<Seq<char>>,
    );
    match space {
        None => local,
        Some((remote_space_id, origin)) => if eq_ignore_case_spec(origin, local_domain)
            || eq_ignore_case_spec(origin, local_server_name) {
            local
        } else {
            let chan = match (channel_id, channel) {
                (Some(_), Some((g, o, remote_channel))) => if g == guild_id && eq_ignore_case_spec(
                    o,
                    origin,
                ) {
                    Some(remote_channel)
                } else {
                    opt_i64_text(channel_id)
                },
                _ => opt_i64_text(channel_id),
            };
            (room_id_spec(remote_space_id, origin), remote_space_id, chan, true, Some(origin))
        },
    }
}

pub open spec fn space_view(m: Option<SpaceMapping>) -> Option<(Seq<char>, Seq<char>)> {
    match m {
        Some(s) => Some((s.remote_space_id@, s.origin_server@)),
        None => None,
    }
}

pub open spec fn channel_view(m: Option<ChannelMapping>) -> Option<(i64, Seq<char>, Seq<char>)> {
    match m {
        Some(c) => Some((c.local_guild_id, c.origin_server@, c.remote_channel_id@)),
        None => None,
    }
}

fn opt_i64_string(o: Option<i64>) -> (r: Option<String>)
    ensures
        ostring_view(r) == opt_i64_text(o),
{
    match o {
        Some(n) => Some(string_from_chars(&i64_decimal(n))),
        None => None,
    }
}

/// Resolves the outbound context of a guild from its mappings, as looked up.
pub fn resolve_outbound_context(
    local_domain: &str,
    local_server_name: &str,
    guild_id: i64,
    channel_id: Option<i64>,
    space_mapping: Option<SpaceMapping>,
    channel_mapping: Option<ChannelMapping>,
) -> (r: FederationOutboundContext)
    ensures
        context_view(r) == outbound_context_spec(
            local_domain@,
            local_server_name@,
            guild_id,
            channel_id,
            space_view(space_mapping),
            channel_view(channel_mapping),
        ),
{
    let local = FederationOutboundContext {
        room_id: canonical_local_room_id(local_domain, guild_id),
        payload_guild_id: string_from_chars(&i64_decimal(guild_id)),
        payload_channel_id: opt_i64_string(channel_id),
        uses_remote_mapping: false,
        origin_server: None,
    };
    let space = match space_mapping {
        None => return local,
        Some(s) => s,
    };
    let origin = chars_of(space.origin_server.as_str());
    if eq_ignore_ascii_case(&origin, &chars_of(local_domain)) || eq_ignore_ascii_case(
        &origin,
        &chars_of(local_server_name),
    ) {
        return local;
    }
    let mut chan = opt_i64_string(channel_id);
    if channel_id.is_some() {
        if let Some(cm) = channel_mapping {
            if cm.local_guild_id == guild_id && eq_ignore_ascii_case(
                &chars_of(cm.origin_server.as_str()),
                &origin,
            ) {
                chan = Some(cm.remote_channel_id);
            }
        }
    }
    FederationOutboundContext {
        room_id: remote_room_id(space.remote_space_id.as_str(), space.origin_server.as_str()),
        payload_guild_id: space.remote_space_id.clone(),
        payload_channel_id: chan,
        uses_remote_mapping: true,
        origin_server: Some(space.origin_server),
    }
}

/// A trusted peer as listed: server name, domain, endpoint.
pub open spec fn peer_entry_view(p: (String, String, String)) -> (Seq<char>, Seq<char>, Seq<char>) {
    (p.0@, p.1@, p.2@)
}

/// The first peer named by `namespace`, by server name or domain.
pub open spec fn first_named_peer(peers: Seq<(Seq<char>, Seq<char>, Seq<char>)>, namespace: Seq<char>) -> Option<
    (Seq<char>, Seq<char>, Seq<char>),
>
    decreases peers.len(),
{
    if peers.len() == 0 {
        None
    } else if eq_ignore_case_spec(peers[0].0, namespace) || eq_ignore_case_spec(
        peers[0].1,
        namespace,
    ) {
        Some(peers[0])
    } else {
        first_named_peer(peers.drop_first(), namespace)
    }
}

/// The peer that receives an outbound event of a mirrored guild: found by
/// the origin namespace (or the room's domain) among the trusted peers.
pub open spec fn remote_target_spec(
    ctx: (Seq<char>, Seq<char>, Option<Seq<char>>, bool, Option<Seq<char>>),
    peers: Seq<(Seq<char>, Seq<char>, Seq<char>)>,
) -> Option<(Seq<char>, Seq<char>, Seq<char>)> {
    if !ctx.3 {
        None
    } else {
        let namespace = match ctx.4 {
            Some(o) => Some(o),
            None => match room_parts_spec(ctx.0) {
                Some((_, d)) => Some(d),
                None => None,
            },
        };
        match namespace {
            Some(ns) => first_named_peer(peers, ns),
            None => None,
        }
    }
}

pub fn resolve_remote_target_for_outbound_context(
    outbound: &FederationOutboundContext,
    peers: &Vec<(String, String, String)>,
) -> (r: Option<FederationRemoteTarget>)
    ensures
        match r {
            Some(t) => remote_target_spec(
                context_view(*outbound),
                peers@.map_values(|p: (String, String, String)| peer_entry_view(p)),
            ) == Some((t.server_name@, t.domain@, t.federation_endpoint@)),
            None => remote_target_spec(
                context_view(*outbound),
                peers@.map_values(|p: (String, String, String)| peer_entry_view(p)),
            ) is None,
        },
{
    let ghost ps = peers@.map_values(|p: (String, String, String)| peer_entry_view(p));
    if !outbound.uses_remote_mapping {
        return None;
    }
    let namespace = match &outbound.origin_server {
        Some(o) => o.clone(),
        None => match parse_room_parts(outbound.room_id.as_str()) {
            Some((_, d)) => d,
            None => return None,
        },
    };
    let ns = chars_of(namespace.as_str());
    let mut i: usize = 0;
    assert(ps.skip(0) == ps);
    while i < peers.len()
        invariant
            i <= peers@.len(),
            ps == peers@.map_values(|p: (String, String, String)| peer_entry_view(p)),
            remote_target_spec(context_view(*outbound), ps) == first_named_peer(ps, ns@),
            first_named_peer(ps, ns@) == first_named_peer(ps.skip(i as int), ns@),
        decreases peers.len() - i,
    {
        assert(ps[i as int] == peer_entry_view(peers@[i as int]));
        assert(ps.skip(i as int)[0] == ps[i as int]);
        assert(ps.skip(i as int).drop_first() == ps.skip(i as int + 1));
        if eq_ignore_ascii_case(&chars_of(peers[i].0.as_str()), &ns) || eq_ignore_ascii_case(
            &chars_of(peers[i].1.as_str()),
            &ns,
        ) {
            return Some(
                FederationRemoteTarget {
                    server_name: peers[i].0.clone(),
                    domain: peers[i].1.clone(),
                    federation_endpoint: peers[i].2.clone(),
                },
            );
        }
        i = i + 1;
    }
    assert(ps.skip(i as int).len() == 0);
    None
}

// ---------------------------------------------------------------------------
// The server's signing key
// ---------------------------------------------------------------------------

pub open spec fn hex_value(c: char) -> Option<nat> {
    if '0' <= c && c <= '9' {
        Some((c as nat - 48) as nat)
    } else if 'a' <= c && c <= 'f' {
        Some((c as nat - 87) as nat)
    } else if 'A' <= c && c <= 'F' {
        Some((c as nat - 55) as nat)
    } else {
        None
    }
}

/// `u8::from_str_radix(pair, 16)` on two characters: two hexadecimal digits,
/// or `+` and one.
pub open spec fn hex_pair(a: char, b: char) -> Option<u8> {
    match (a == '+', hex_value(a), hex_value(b)) {
        (true, _, Some(lo)) => Some(lo as u8),
        (false, Some(hi), Some(lo)) => Some((hi * 16 + lo) as u8),
        _ => None,
    }
}

/// The 32 secret-key bytes a 64-character hexadecimal text encodes, two
/// characters a byte.
pub open spec fn signing_key_bytes_spec(raw: Seq<char>) -> Option<Seq<u8>> {
    if raw.len() == 64 && forall|k: int| 0 <= k < 32 ==> #[trigger] hex_pair(raw[2 * k], raw[2 * k + 1]) is Some {
        Some(Seq::new(32, |k: int| hex_pair(raw[2 * k], raw[2 * k + 1])->0))
    } else {
        None
    }
}

fn hex_value_exec(c: char) -> (r: Option<u8>)
    ensures
        match r {
            Some(v) => hex_value(c) == Some(v as nat) && v < 16,
            None => hex_value(c) is None,
        },
{
    if '0' <= c && c <= '9' {
        Some(((c as u32) - 48) as u8)
    } else if 'a' <= c && c <= 'f' {
        Some(((c as u32) - 87) as u8)
    } else if 'A' <= c && c <= 'F' {
        Some(((c as u32) - 55) as u8)
    } else {
        None
    }
}

/// Decodes the signing-key setting into its secret-key bytes.
pub fn decode_signing_key_hex(raw: &str) -> (r: Option<Vec<u8>>)
    ensures
        match r {
            Some(b) => signing_key_bytes_spec(raw@) == Some(b@),
            None => signing_key_bytes_spec(raw@) is None,
        },
{
    let v = chars_of(raw);
    if v.len() != 64 {
        return None;
    }
    let mut out: Vec<u8> = Vec::new();
    let mut k: usize = 0;
    while k < 32
        invariant
            k <= 32,
            v@ == raw@,
            v@.len() == 64,
            out@.len() == k,
            forall|j: int| 0 <= j < k ==> #[trigger] hex_pair(v@[2 * j], v@[2 * j + 1]) == Some(out@[j]),
        decreases 32 - k,
    {
        let a = v[2 * k];
        let b = v[2 * k + 1];
        let lo = match hex_value_exec(b) {
            Some(x) => x,
            None => {
                assert(hex_pair(v@[2 * k as int], v@[2 * k as int + 1]) is None);
                return None;
            },
        };
        let byte = if a == '+' {
            lo
        } else {
            match hex_value_exec(a) {
                Some(hi) => hi * 16 + lo,
                None => {
                    assert(hex_pair(v@[2 * k as int], v@[2 * k as int + 1]) is None);
                    return None;
                },
            }
        };
        out.push(byte);
        k = k + 1;
    }
    assert(out@ =~= Seq::new(32, |j: int| hex_pair(v@[2 * j], v@[2 * j + 1])->0));
    Some(out)
}

/// The server's signing key, from the signing-key setting: its 32 secret
/// bytes.
pub fn parse_signing_key(raw: Option<&str>) -> (r: Option<Vec<u8>>)
    ensures
        match raw {
            Some(s) => match r {
                Some(k) => signing_key_bytes_spec(s@) == Some(k@),
                None => signing_key_bytes_spec(s@) is None,
            },
            None => r is None,
        },
{
    match raw {
        Some(s) => decode_signing_key_hex(s),
        None => None,
    }
}

/// The Ed25519 signature of a message under the server's signing key
/// (its 32 secret bytes); `None` for a key of another length.
pub fn sign_with_signing_key(key: &[u8], message: &[u8]) -> (r: Option<Vec<u8>>)
    ensures
        key@.len() == 32 ==> r is Some && r->0@ == ed25519_signature_spec(key@, message@),
        key@.len() != 32 ==> r is None,
{
    if key.len() != 32 {
        return None;
    }
    Some(ed25519_sign(key, message))
}

// ---------------------------------------------------------------------------
// Outbound message content
// ---------------------------------------------------------------------------

/// What a message's federated copy says of one of its attachments.
pub struct FederatedAttachmentMeta {
    pub id: i64,
    pub filename: String,
    pub size: i64,
    pub content_type: Option<String>,
    pub content_hash: Option<String>,
}

/// Where a peer fetches an attachment from this server.
pub open spec fn attachment_origin_url(id: i64) -> Seq<char> {
    "/_paracord/federation/v1/file/"@ + int_decimal(id as int)
}

pub open spec fn attachment_meta_ok(j: Json, a: FederatedAttachmentMeta) -> bool {
    &&& object_keys(j) == seq![
        "id"@,
        "filename"@,
        "size"@,
        "content_type"@,
        "content_hash"@,
        "origin_url"@,
    ]
    &&& opt_as_str(get_spec(j, "id"@)) == Some(int_decimal(a.id as int))
    &&& opt_as_str(get_spec(j, "filename"@)) == Some(a.filename@)
    &&& get_spec(j, "size"@) == Some(Json::Number(Some(a.size)))
    &&& text_or_null(get_spec(j, "content_type"@), ostring_view(a.content_type))
    &&& text_or_null(get_spec(j, "content_hash"@), ostring_view(a.content_hash))
    &&& opt_as_str(get_spec(j, "origin_url"@)) == Some(attachment_origin_url(a.id))
}

proof fn lemma_content_keys_differ()
    ensures
        "id"@.len() == 2,
        "filename"@.len() == 8,
        "size"@.len() == 4,
        "content_type"@.len() == 12 && "content_type"@[8] == 't',
        "content_hash"@.len() == 12 && "content_hash"@[8] == 'h',
        "origin_url"@.len() == 10,
        "body"@.len() == 4 && "body"@[0] == 'b',
        "msgtype"@.len() == 7,
        "guild_id"@.len() == 8 && "guild_id"@[0] == 'g',
        "channel_id"@.len() == 10 && "channel_id"@[0] == 'c',
        "message_id"@.len() == 10 && "message_id"@[0] == 'm',
        "channel_name"@.len() == 12 && "channel_name"@[8] == 'n',
        "channel_type"@.len() == 12 && "channel_type"@[8] == 't',
        "guild_name"@.len() == 10 && "guild_name"@[0] == 'g',
        "attachments"@.len() == 11,
{
    reveal_strlit("id");
    reveal_strlit("filename");
    reveal_strlit("size");
    reveal_strlit("content_type");
    reveal_strlit("content_hash");
    reveal_strlit("origin_url");
    reveal_strlit("body");
    reveal_strlit("msgtype");
    reveal_strlit("guild_id");
    reveal_strlit("channel_id");
    reveal_strlit("message_id");
    reveal_strlit("channel_name");
    reveal_strlit("channel_type");
    reveal_strlit("guild_name");
    reveal_strlit("attachments");
}

fn text_json(s: &str) -> (r: Json)
    ensures
        opt_as_str(Some(r)) == Some(s@),
{
    Json::Str(String::from_str(s))
}

fn opt_text_json(s: &Option<String>) -> (r: Json)
    ensures
        text_or_null(Some(r), ostring_view(*s)),
{
    match s {
        Some(t) => Json::Str(t.clone()),
        None => Json::Null,
    }
}

/// One attachment of an outgoing message, as peers are told of it.
pub fn federated_attachment_json(a: &FederatedAttachmentMeta) -> (r: Json)
    ensures
        attachment_meta_ok(r, *a),
{
    proof {
        lemma_content_keys_differ();
    }
    let mut url = String::from_str("/_paracord/federation/v1/file/");
    url.append(string_from_chars(&i64_decimal(a.id)).as_str());
    let mut f: Vec<(String, Json)> = Vec::new();
    proof {
        assert forall|k: Seq<char>| #[trigger] member(f@, k) is None by {}
    }
    obj_push(&mut f, "id", Json::Str(string_from_chars(&i64_decimal(a.id))));
    obj_push(&mut f, "filename", Json::Str(a.filename.clone()));
    obj_push(&mut f, "size", Json::Number(Some(a.size)));
    obj_push(&mut f, "content_type", opt_text_json(&a.content_type));
    obj_push(&mut f, "content_hash", opt_text_json(&a.content_hash));
    obj_push(&mut f, "origin_url", Json::Str(url));
    let r = Json::Object(f);
    proof {
        assert(object_keys(r) =~= seq![
            "id"@,
            "filename"@,
            "size"@,
            "content_type"@,
            "content_hash"@,
            "origin_url"@,
        ]);
    }
    r
}

/// All attachments of an outgoing message, in order.
pub fn federated_attachments_json(list: &Vec<FederatedAttachmentMeta>) -> (r: Json)
    ensures
        r matches Json::Array(items) && items@.len() == list@.len() && forall|i: int|
            0 <= i < list@.len() ==> attachment_meta_ok(#[trigger] items@[i], list@[i]),
{
    let mut items: Vec<Json> = Vec::new();
    let mut i: usize = 0;
    while i < list.len()
        invariant
            i <= list@.len(),
            items@.len() == i,
            forall|t: int| 0 <= t < i ==> attachment_meta_ok(#[trigger] items@[t], list@[t]),
        decreases list.len() - i,
    {
        items.push(federated_attachment_json(&list[i]));
        i = i + 1;
    }
    Json::Array(items)
}

/// The keys of a mapped message's content, in order: the fixed ones, then
/// those of the metadata that is known.
pub open spec fn mapped_content_keys(
    has_channel_name: bool,
    has_channel_type: bool,
    has_guild_name: bool,
    has_attachments: bool,
) -> Seq<Seq<char>> {
    seq!["body"@, "msgtype"@, "guild_id"@, "channel_id"@, "message_id"@]
        + (if has_channel_name { seq!["channel_name"@] } else { Seq::empty() })
        + (if has_channel_type { seq!["channel_type"@] } else { Seq::empty() })
        + (if has_guild_name { seq!["guild_name"@] } else { Seq::empty() })
        + (if has_attachments { seq!["attachments"@] } else { Seq::empty() })
}

/// The content of a message sent to a peer that mirrors the guild: the
/// message body as text content, the peer's guild and channel ids (this
/// channel's id when the peer's is not known), this server's message id,
/// and whatever is known of the channel's name and type, the guild's name
/// and the attachments.
pub fn mapped_message_content(
    body: Json,
    outbound: &FederationOutboundContext,
    channel_id: i64,
    message_id: i64,
    channel_name: Option<&str>,
    channel_type: Option<i16>,
    guild_name: Option<&str>,
    attachments: &Vec<FederatedAttachmentMeta>,
) -> (r: Json)
    ensures
        object_keys(r) == mapped_content_keys(
            channel_name is Some,
            channel_type is Some,
            guild_name is Some,
            attachments@.len() > 0,
        ),
        get_spec(r, "body"@) == Some(body),
        opt_as_str(get_spec(r, "msgtype"@)) == Some("m.text"@),
        opt_as_str(get_spec(r, "guild_id"@)) == Some(outbound.payload_guild_id@),
        opt_as_str(get_spec(r, "channel_id"@)) == Some(
            match outbound.payload_channel_id {
                Some(c) => c@,
                None => int_decimal(channel_id as int),
            },
        ),
        opt_as_str(get_spec(r, "message_id"@)) == Some(int_decimal(message_id as int)),
        match channel_name {
            Some(n) => opt_as_str(get_spec(r, "channel_name"@)) == Some(n@),
            None => get_spec(r, "channel_name"@) is None,
        },
        match channel_type {
            Some(t) => get_spec(r, "channel_type"@) == Some(Json::Number(Some(t as i64))),
            None => get_spec(r, "channel_type"@) is None,
        },
        match guild_name {
            Some(n) => opt_as_str(get_spec(r, "guild_name"@)) == Some(n@),
            None => get_spec(r, "guild_name"@) is None,
        },
        attachments@.len() > 0 ==> (get_spec(r, "attachments"@) matches Some(Json::Array(items))
            && items@.len() == attachments@.len() && forall|i: int|
            0 <= i < attachments@.len() ==> attachment_meta_ok(#[trigger] items@[i], attachments@[i])),
        attachments@.len() == 0 ==> get_spec(r, "attachments"@) is None,
{
    proof {
        lemma_content_keys_differ();
    }
    let channel_text = match &outbound.payload_channel_id {
        Some(c) => c.clone(),
        None => string_from_chars(&i64_decimal(channel_id)),
    };
    let mut f: Vec<(String, Json)> = Vec::new();
    proof {
        assert forall|k: Seq<char>| #[trigger] member(f@, k) is None by {}
    }
    obj_push(&mut f, "body", body);
    obj_push(&mut f, "msgtype", text_json("m.text"));
    obj_push(&mut f, "guild_id", Json::Str(outbound.payload_guild_id.clone()));
    obj_push(&mut f, "channel_id", Json::Str(channel_text));
    obj_push(&mut f, "message_id", Json::Str(string_from_chars(&i64_decimal(message_id))));
    if let Some(n) = channel_name {
        obj_push(&mut f, "channel_name", text_json(n));
    }
    if let Some(t) = channel_type {
        obj_push(&mut f, "channel_type", Json::Number(Some(t as i64)));
    }
    if let Some(n) = guild_name {
        obj_push(&mut f, "guild_name", text_json(n));
    }
    if attachments.len() > 0 {
        obj_push(&mut f, "attachments", federated_attachments_json(attachments));
    }
    let r = Json::Object(f);
    proof {
        assert(object_keys(r) =~= mapped_content_keys(
            channel_name is Some,
            channel_type is Some,
            guild_name is Some,
            attachments@.len() > 0,
        ));
    }
    r
}

// ---------------------------------------------------------------------------
// Inbound events
// ---------------------------------------------------------------------------

/// What an accepted inbound event is handed to.
#[derive(PartialEq, Eq, Structural, Clone, Copy, Debug)]
pub enum FederatedEventKind {
    Message,
    MessageEdit,
    MessageDelete,
    ReactionAdd,
    ReactionRemove,
    MemberJoin,
    MemberLeave,
    /// Any other type, announced to local clients as is.
    Other,
}

pub open spec fn event_kind_spec(t: Seq<char>) -> FederatedEventKind {
    if t == "m.message"@ {
        FederatedEventKind::Message
    } else if t == "m.message.edit"@ {
        FederatedEventKind::MessageEdit
    } else if t == "m.message.delete"@ {
        FederatedEventKind::MessageDelete
    } else if t == "m.reaction.add"@ {
        FederatedEventKind::ReactionAdd
    } else if t == "m.reaction.remove"@ {
        FederatedEventKind::ReactionRemove
    } else if t == "m.member.join"@ {
        FederatedEventKind::MemberJoin
    } else if t == "m.member.leave"@ {
        FederatedEventKind::MemberLeave
    } else {
        FederatedEventKind::Other
    }
}

pub fn federated_event_kind(event_type: &str) -> (r: FederatedEventKind)
    ensures
        r == event_kind_spec(event_type@),
{
    let t = chars_of(event_type);
    if is_lit(&t, "m.message") {
        FederatedEventKind::Message
    } else if is_lit(&t, "m.message.edit") {
        FederatedEventKind::MessageEdit
    } else if is_lit(&t, "m.message.delete") {
        FederatedEventKind::MessageDelete
    } else if is_lit(&t, "m.reaction.add") {
        FederatedEventKind::ReactionAdd
    } else if is_lit(&t, "m.reaction.remove") {
        FederatedEventKind::ReactionRemove
    } else if is_lit(&t, "m.member.join") {
        FederatedEventKind::MemberJoin
    } else if is_lit(&t, "m.member.leave") {
        FederatedEventKind::MemberLeave
    } else {
        FederatedEventKind::Other
    }
}

/// The local event name of an inbound event of another type:
/// `FEDERATION_` and the type in upper case.
pub fn other_event_name(event_type: &str) -> (r: String)
    ensures
        r@ == "FEDERATION_"@ + to_uppercase_spec(event_type@),
{
    let mut s = String::from_str("FEDERATION_");
    s.append(str_to_uppercase(event_type).as_str());
    s
}

/// An event's depth as stored: one that is not positive is replaced by its
/// origin time, at least 1.
pub fn normalized_event_depth(depth: i64, origin_ts: i64) -> (r: i64)
    ensures
        r == (if depth > 0 {
            depth
        } else if origin_ts > 1 {
            origin_ts
        } else {
            1
        }),
{
    if depth > 0 {
        depth
    } else if origin_ts > 1 {
        origin_ts
    } else {
        1
    }
}

/// The servers seen alive by an inbound event: its origin, and the server
/// that relayed it when that is another one.
pub fn servers_seen(origin_server: &str, transport_origin: Option<&str>) -> (r: Vec<String>)
    ensures
        r@.map_values(|s: String| s@) == (match transport_origin {
            Some(t) => if t@ != origin_server@ {
                seq![origin_server@, t@]
            } else {
                seq![origin_server@]
            },
            None => seq![origin_server@],
        }),
{
    let mut r: Vec<String> = Vec::new();
    r.push(String::from_str(origin_server));
    if let Some(t) = transport_origin {
        if !seq_eq(&chars_of(t), &chars_of(origin_server)) {
            r.push(String::from_str(t));
        }
    }
    proof {
        assert(r@.map_values(|s: String| s@) =~= (match transport_origin {
            Some(t) => if t@ != origin_server@ {
                seq![origin_server@, t@]
            } else {
                seq![origin_server@]
            },
            None => seq![origin_server@],
        }));
    }
    r
}

/// The per-peer ingestion counter an event counts against: the peer's key
/// and the current minute (time divided by 60, rounded toward zero).
pub fn ingest_rate_bucket(origin: &str, now_secs: i64) -> (r: (String, i64))
    ensures
        r.0@ == "fed:ingest:"@ + origin@,
        r.1 == (if now_secs >= 0 { now_secs / 60 } else { -((-now_secs) / 60) }),
{
    let mut key = String::from_str("fed:ingest:");
    key.append(origin);
    let minute: i64 = if now_secs >= 0 {
        now_secs / 60
    } else {
        let pos: i128 = -(now_secs as i128);
        -((pos / 60) as i64)
    };
    (key, minute)
}

/// With a positive per-peer limit configured, a peer over it in the current
/// minute is refused as rate limited.
pub fn check_ingest_rate(limit: Option<i64>, count: i64) -> (r: Result<(), ApiError>)
    ensures
        r is Err <==> (limit matches Some(l) && l > 0 && count > l),
        r matches Err(e) ==> e is RateLimited,
{
    match limit {
        Some(l) => if l > 0 && count > l {
            Err(ApiError::RateLimited)
        } else {
            Ok(())
        },
        None => Ok(()),
    }
}

} // verus!
