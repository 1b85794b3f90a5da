//! Authentication: identifier normalisation, login payload parsing, auth
//! guard keys, cookies and the server origin used in signed challenges.
use vstd::prelude::*;
use crate::text::{ostr_view, ostring_view, strings_view};
use vstd::string::StringSliceAdditionalSpecFns;
use crate::text::{
    chars_of, concat, ends_with_spec, i64_decimal, int_decimal, lit, list_contains, lower_spec,
    parse_i16, parse_i64, parse_in_range, rsplit_once_exec, rsplit_once_spec, seq_eq,
    split_trimmed, split_trimmed_exec, starts_with, starts_with_spec, string_from_chars,
    to_ascii_lower, trim, trim_spec, views, eq_ignore_ascii_case, eq_ignore_case_spec,
    before_char, before_char_exec, hex_lower, hex_lower_spec, split_exec, split_spec,
    split_once_exec, split_once_spec, slice_range, u64_decimal, ends_with,
};
use crate::headers::{
    RequestHeaders, first_forwarded_value, forwarded_first, header_str, header_trimmed,
    trimmed_header,
};
use crate::trusted::{sha256, sha256_spec, thread_rng_bytes, url_parse, url_parse_spec};
use crate::error::{ApiError, is_bad_request};
use crate::json::{Json, as_str_spec, get_spec, opt_as_str};
use crate::trusted::{form_pairs_spec, form_urlencoded_pairs};
use crate::text::{contains_sub, contains_sub_spec, contains_char};
use crate::text::{is_ws, lemma_find_char_unique, trim_end_spec, trim_start_spec};

verus! {

/// Compares two strings byte by byte without stopping at the first
/// difference; true exactly when they are equal.
pub fn constant_time_equal(a: &str, b: &str) -> (r: bool)
    ensures
        r == (a@ == b@),
{
    broadcast use vstd::utf8::encode_utf8_decode_utf8;

    let a_bytes = a.as_bytes();
    let b_bytes = b.as_bytes();
    if a_bytes.len() != b_bytes.len() {
        return false;
    }
    let mut diff: u8 = 0;
    let mut i: usize = 0;
    while i < a_bytes.len()
        invariant
            i <= a_bytes@.len() == b_bytes@.len(),
            (diff == 0) == (forall|k: int| 0 <= k < i ==> a_bytes@[k] == b_bytes@[k]),
        decreases a_bytes.len() - i,
    {
        let x = a_bytes[i];
        let y = b_bytes[i];
        let d = diff;
        assert((d | (x ^ y)) == 0 <==> (d == 0 && x == y)) by (bit_vector);
        diff = diff | (x ^ y);
        i = i + 1;
    }
    if diff == 0 {
        assert(a_bytes@ =~= b_bytes@);
        assert(a.spec_bytes() == b.spec_bytes());
        assert(vstd::utf8::decode_utf8(a.spec_bytes()) == a@);
        assert(vstd::utf8::decode_utf8(b.spec_bytes()) == b@);
    }
    diff == 0
}

/// Trimmed and ASCII-lowercased e-mail address.
pub open spec fn normalized(s: Seq<char>) -> Seq<char> {
    lower_spec(trim_spec(s))
}

pub fn normalize_email_for_auth(value: &str) -> (r: String)
    ensures
        r@ == normalized(value@),
{
    let t = trim(&chars_of(value));
    string_from_chars(&to_ascii_lower(&t))
}

pub fn normalize_login_identifier_for_auth(value: &str) -> (r: String)
    ensures
        r@ == normalized(value@),
{
    let t = trim(&chars_of(value));
    string_from_chars(&to_ascii_lower(&t))
}

/// Username login is in effect when enabled, or when e-mail is optional.
pub fn username_login_effective(allow_username_login: bool, require_email: bool) -> (r: bool)
    ensures
        r == (allow_username_login || !require_email),
{
    allow_username_login || !require_email
}

pub open spec fn is_blank_byte(b: u8) -> bool {
    b == 32 || b == 10 || b == 13 || b == 9
}

/// The first byte that is not a space, newline, carriage return or tab.
pub open spec fn first_non_blank(s: Seq<u8>) -> Option<u8>
    decreases s.len(),
{
    if s.len() == 0 {
        None
    } else if !is_blank_byte(s[0]) {
        Some(s[0])
    } else {
        first_non_blank(s.drop_first())
    }
}

pub fn first_non_whitespace_byte(bytes: &[u8]) -> (r: Option<u8>)
    ensures
        r == first_non_blank(bytes@),
{
    let mut i: usize = 0;
    assert(bytes@.skip(0) == bytes@);
    while i < bytes.len()
        invariant
            i <= bytes@.len(),
            first_non_blank(bytes@) == first_non_blank(bytes@.skip(i as int)),
        decreases bytes.len() - i,
    {
        let b = bytes[i];
        assert(bytes@.skip(i as int)[0] == b);
        assert(bytes@.skip(i as int).drop_first() == bytes@.skip(i as int + 1));
        if !(b == 32 || b == 10 || b == 13 || b == 9) {
            return Some(b);
        }
        i = i + 1;
    }
    assert(bytes@.skip(i as int).len() == 0);
    None
}

/// `username#discriminator`, split at the last `#`: the trimmed username
/// must not be empty and the trimmed discriminator must parse as an `i16`.
pub open spec fn username_discriminator_spec(s: Seq<char>) -> Option<(Seq<char>, i16)> {
    match rsplit_once_spec(s, '#') {
        Some((u, d)) => {
            let user = trim_spec(u);
            if user.len() == 0 {
                None
            } else {
                match parse_in_range(trim_spec(d), true, i16::MIN as int, i16::MAX as int) {
                    Some(n) => Some((user, n as i16)),
                    None => None,
                }
            }
        },
        None => None,
    }
}

pub fn parse_username_with_discriminator(identifier: &str) -> (r: Option<(String, i16)>)
    ensures
        match r {
            Some((u, d)) => username_discriminator_spec(identifier@) == Some((u@, d)),
            None => username_discriminator_spec(identifier@) is None,
        },
{
    let v = chars_of(identifier);
    match rsplit_once_exec(&v, '#') {
        Some((u, d)) => {
            let user = trim(&u);
            if user.len() == 0 {
                return None;
            }
            match parse_i16(&trim(&d)) {
                Some(n) => Some((string_from_chars(&user), n)),
                None => None,
            }
        },
        None => None,
    }
}

/// How a password login finds its account.
pub enum LoginLookup {
    /// By user name and discriminator (`name#1234`).
    UsernameDiscriminator(String, i16),
    /// By user name alone.
    Username(String),
    /// By e-mail address, which is validated before the lookup.
    Email(String),
}

/// Whether the normalized identifier is looked up as a user name.
pub open spec fn by_username(id: Seq<char>, allow_username_login: bool, require_email: bool) -> bool {
    (allow_username_login || !require_email) && !normalized(id).contains('@')
}

/// A login's identifier, trimmed and lowercased, decides the lookup: empty
/// identifiers are refused as unauthorized; with username login in effect,
/// one without `@` names a user (with a discriminator where it has one);
/// anything else is an e-mail address.
pub fn login_lookup(identifier: &str, allow_username_login: bool, require_email: bool) -> (r: Result<
    LoginLookup,
    ApiError,
>)
    ensures
        r is Err <==> normalized(identifier@).len() == 0,
        r matches Err(e) ==> e is Unauthorized,
        r matches Ok(l) ==> match l {
            LoginLookup::UsernameDiscriminator(u, d) => by_username(
                identifier@,
                allow_username_login,
                require_email,
            ) && username_discriminator_spec(normalized(identifier@)) == Some((u@, d)),
            LoginLookup::Username(u) => by_username(identifier@, allow_username_login, require_email)
                && username_discriminator_spec(normalized(identifier@)) is None && u@ == normalized(
                identifier@,
            ),
            LoginLookup::Email(e) => !by_username(identifier@, allow_username_login, require_email)
                && e@ == normalized(normalized(identifier@)),
        },
{
    let id = normalize_login_identifier_for_auth(identifier);
    if id.as_str().unicode_len() == 0 {
        return Err(ApiError::Unauthorized);
    }
    let has_at = contains_char(&chars_of(id.as_str()), '@');
    if username_login_effective(allow_username_login, require_email) && !has_at {
        match parse_username_with_discriminator(id.as_str()) {
            Some((u, d)) => Ok(LoginLookup::UsernameDiscriminator(u, d)),
            None => Ok(LoginLookup::Username(id)),
        }
    } else {
        Ok(LoginLookup::Email(normalize_email_for_auth(id.as_str())))
    }
}

/// The account name the auth guard keys a registration by: the normalized
/// e-mail, or the normalized user name when no e-mail is given.
pub fn registration_account_hint(email: &str, username: &str) -> (r: String)
    ensures
        r@ == (if normalized(email@).len() == 0 { normalized(username@) } else { normalized(email@) }),
{
    let e = normalize_email_for_auth(email);
    if e.as_str().unicode_len() == 0 {
        normalize_login_identifier_for_auth(username)
    } else {
        e
    }
}

/// Checks a registration in the order the server does, from the settings
/// and the validity of the user name, e-mail and password as the shared
/// validation rules judge them. The error comes with whether it counts as
/// a failed attempt for the auth guard (a bad password does not).
pub fn check_registration(
    email: &str,
    registration_enabled: bool,
    require_email: bool,
    allow_username_login: bool,
    username_valid: bool,
    email_valid: bool,
    password_valid: bool,
) -> (r: Result<(), (ApiError, bool)>)
    ensures
        ({
            let no_email = normalized(email@).len() == 0;
            if !registration_enabled {
                r matches Err((e, true)) && e is Forbidden
            } else if !username_valid {
                r matches Err((e, true)) && is_bad_request(
                    e,
                    "Username must be between 2 and 32 valid characters"@,
                )
            } else if require_email && no_email {
                r matches Err((e, true)) && is_bad_request(e, "Email is required"@)
            } else if !no_email && !email_valid {
                r matches Err((e, true)) && is_bad_request(e, "Invalid email address"@)
            } else if no_email && !(allow_username_login || !require_email) {
                r matches Err((e, true)) && is_bad_request(
                    e,
                    "Server requires email login or username login support"@,
                )
            } else if !password_valid {
                r matches Err((e, false)) && is_bad_request(
                    e,
                    "Password must be between 10 and 128 characters"@,
                )
            } else {
                r is Ok
            }
        }),
{
    let no_email = normalize_email_for_auth(email).as_str().unicode_len() == 0;
    if !registration_enabled {
        return Err((ApiError::Forbidden, true));
    }
    if !username_valid {
        return Err((ApiError::BadRequest(String::from_str("Username must be between 2 and 32 valid characters")), true));
    }
    if require_email && no_email {
        return Err((ApiError::BadRequest(String::from_str("Email is required")), true));
    }
    if !no_email && !email_valid {
        return Err((ApiError::BadRequest(String::from_str("Invalid email address")), true));
    }
    if no_email && !username_login_effective(allow_username_login, require_email) {
        return Err((ApiError::BadRequest(String::from_str("Server requires email login or username login support")), true));
    }
    if !password_valid {
        return Err((ApiError::BadRequest(String::from_str("Password must be between 10 and 128 characters")), false));
    }
    Ok(())
}

/// The address given to accounts registered without an e-mail.
pub fn synthesized_local_email(user_id: i64) -> (r: String)
    ensures
        r@ == seq!['u'] + int_decimal(user_id as int) + "@local.invalid"@,
{
    let mut s = String::from_str("u");
    s.append(string_from_chars(&i64_decimal(user_id)).as_str());
    s.append("@local.invalid");
    proof {
        reveal_strlit("u");
    }
    s
}

/// The e-mail stored for a new account: its normalized address, or the
/// synthesized local address when none was given.
pub fn resolved_registration_email(normalized_email: &str, user_id: i64) -> (r: String)
    ensures
        normalized_email@.len() > 0 ==> r@ == normalized_email@,
        normalized_email@.len() == 0 ==> r@ == seq!['u'] + int_decimal(user_id as int) + "@local.invalid"@,
{
    if normalized_email.unicode_len() == 0 {
        synthesized_local_email(user_id)
    } else {
        String::from_str(normalized_email)
    }
}

/// A boolean environment switch: `1`/`true` and `0`/`false` (trimmed,
/// any ASCII case); anything else decides nothing.
pub open spec fn env_switch(raw: Seq<char>) -> Option<bool> {
    let l = normalized(raw);
    if l == "1"@ || l == "true"@ {
        Some(true)
    } else if l == "0"@ || l == "false"@ {
        Some(false)
    } else {
        None
    }
}

pub open spec fn opt_env_switch(raw: Option<Seq<char>>) -> Option<bool> {
    match raw {
        Some(r) => env_switch(r),
        None => None,
    }
}

pub fn env_switch_exec(raw: Option<&str>) -> (r: Option<bool>)
    ensures
        r == opt_env_switch(ostr_view(raw)),
{
    match raw {
        Some(s) => {
            let l = to_ascii_lower(&trim(&chars_of(s)));
            if seq_eq(&l, &lit("1")) || seq_eq(&l, &lit("true")) {
                Some(true)
            } else if seq_eq(&l, &lit("0")) || seq_eq(&l, &lit("false")) {
                Some(false)
            } else {
                None
            }
        },
        None => None,
    }
}

/// Whether cookies get the `Secure` attribute: `PARACORD_COOKIE_SECURE`
/// decides first, then `PARACORD_TLS_ENABLED`, then whether the public URL
/// is an `https://` URL.
pub open spec fn secure_cookie_spec(
    cookie_secure: Option<Seq<char>>,
    tls_enabled: Option<Seq<char>>,
    public_url: Option<Seq<char>>,
) -> bool {
    match opt_env_switch(cookie_secure) {
        Some(b) => b,
        None => match opt_env_switch(tls_enabled) {
            Some(b) => b,
            None => match public_url {
                Some(u) => starts_with_spec(u, "https://"@),
                None => false,
            },
        },
    }
}

/// `cookie_secure` and `tls_enabled` are the values of the environment
/// variables `PARACORD_COOKIE_SECURE` and `PARACORD_TLS_ENABLED`.
pub fn should_use_secure_cookie_with_public_url(
    cookie_secure: Option<&str>,
    tls_enabled: Option<&str>,
    public_url: Option<&str>,
) -> (r: bool)
    ensures
        r == secure_cookie_spec(ostr_view(cookie_secure), ostr_view(tls_enabled), ostr_view(public_url)),
{
    match env_switch_exec(cookie_secure) {
        Some(b) => b,
        None => match env_switch_exec(tls_enabled) {
            Some(b) => b,
            None => match public_url {
                Some(u) => starts_with(&chars_of(u), &lit("https://")),
                None => false,
            },
        },
    }
}

/// `PARACORD_TRUST_PROXY` is on when it is `true` in any ASCII case, or `1`.
pub open spec fn trust_proxy_spec(raw: Option<Seq<char>>) -> bool {
    match raw {
        Some(v) => eq_ignore_case_spec(v, "true"@) || v == "1"@,
        None => false,
    }
}

pub fn trust_proxy_headers(raw: Option<&str>) -> (r: bool)
    ensures
        r == trust_proxy_spec(ostr_view(raw)),
{
    match raw {
        Some(v) => {
            let c = chars_of(v);
            eq_ignore_ascii_case(&c, &lit("true")) || seq_eq(&c, &lit("1"))
        },
        None => false,
    }
}

/// The comma-separated list of an optional environment value, trimmed,
/// without empty items.
pub open spec fn env_list(raw: Option<Seq<char>>) -> Seq<Seq<char>> {
    match raw {
        Some(v) => split_trimmed(v, ','),
        None => Seq::empty(),
    }
}

/// Forwarded headers are believed only when proxies are trusted and the
/// peer is one of the listed trusted proxy addresses.
pub open spec fn proxy_trusted_spec(
    trust_proxy: Option<Seq<char>>,
    trusted_ips: Option<Seq<char>>,
    peer_ip: Option<Seq<char>>,
) -> bool {
    &&& trust_proxy_spec(trust_proxy)
    &&& peer_ip is Some
    &&& env_list(trusted_ips).len() > 0
    &&& env_list(trusted_ips).contains(peer_ip->0)
}

/// `trust_proxy` and `trusted_ips` are the values of `PARACORD_TRUST_PROXY`
/// and `PARACORD_TRUSTED_PROXY_IPS`.
pub fn proxy_peer_is_trusted(
    trust_proxy: Option<&str>,
    trusted_ips: Option<&str>,
    peer_ip: Option<&str>,
) -> (r: bool)
    ensures
        r == proxy_trusted_spec(ostr_view(trust_proxy), ostr_view(trusted_ips), ostr_view(peer_ip)),
{
    if !trust_proxy_headers(trust_proxy) {
        return false;
    }
    let peer = match peer_ip {
        Some(p) => p,
        None => return false,
    };
    let list: Vec<Vec<char>> = match trusted_ips {
        Some(raw) => split_trimmed_exec(&chars_of(raw), ','),
        None => {
            let e: Vec<Vec<char>> = Vec::new();
            assert(views(e@) =~= Seq::<Seq<char>>::empty());
            e
        },
    };
    list.len() > 0 && list_contains(&list, &chars_of(peer))
}

/// `value.clamp(1, 365)` of the parsed `PARACORD_REFRESH_SESSION_TTL_DAYS`,
/// 30 when it is unset or not an integer.
pub open spec fn ttl_days_spec(raw: Option<Seq<char>>) -> i64 {
    match raw {
        Some(v) => match parse_in_range(v, true, i64::MIN as int, i64::MAX as int) {
            Some(n) => if n < 1 {
                1
            } else if n > 365 {
                365
            } else {
                n as i64
            },
            None => 30,
        },
        None => 30,
    }
}

pub fn refresh_session_ttl_days(raw: Option<&str>) -> (r: i64)
    ensures
        r == ttl_days_spec(ostr_view(raw)),
{
    match raw {
        Some(v) => match parse_i64(&chars_of(v)) {
            Some(n) => if n < 1 {
                1
            } else if n > 365 {
                365
            } else {
                n
            },
            None => 30,
        },
        None => 30,
    }
}


/// The client address: the first `X-Forwarded-For` item when forwarded
/// headers are trusted and it is present, else the peer address, else
/// `unknown`.
pub open spec fn client_ip_spec(
    h: Seq<(Seq<char>, Seq<char>)>,
    peer_ip: Option<Seq<char>>,
    proxy_trusted: bool,
) -> Seq<char> {
    if proxy_trusted && forwarded_first(h, "x-forwarded-for"@) is Some {
        forwarded_first(h, "x-forwarded-for"@)->0
    } else {
        match peer_ip {
            Some(p) => p,
            None => "unknown"@,
        }
    }
}

/// `proxy_trusted` is what `proxy_peer_is_trusted` answers for the peer.
pub fn resolve_client_ip(headers: &RequestHeaders, peer_ip: Option<&str>, proxy_trusted: bool) -> (r: String)
    ensures
        r@ == client_ip_spec(headers@, ostr_view(peer_ip), proxy_trusted),
{
    if proxy_trusted {
        if let Some(ip) = first_forwarded_value(headers, "x-forwarded-for") {
            return string_from_chars(&ip);
        }
    }
    match peer_ip {
        Some(p) => String::from_str(p),
        None => String::from_str("unknown"),
    }
}

/// The keys under which failed logins are counted: the client address,
/// then the device id or else the user agent, then the account.
pub open spec fn guard_keys_spec(
    h: Seq<(Seq<char>, Seq<char>)>,
    peer_ip: Option<Seq<char>>,
    account_hint: Option<Seq<char>>,
    proxy_trusted: bool,
) -> Seq<Seq<char>> {
    let ip = seq!["ip:"@ + client_ip_spec(h, peer_ip, proxy_trusted)];
    let dev = match header_trimmed(h, "x-device-id"@) {
        Some(d) => seq!["device:"@ + d],
        None => match header_trimmed(h, "user-agent"@) {
            Some(u) => seq!["ua:"@ + u],
            None => Seq::empty(),
        },
    };
    let acct = match account_hint {
        Some(a) => if trim_spec(a).len() > 0 {
            seq!["acct:"@ + normalized(a)]
        } else {
            Seq::empty()
        },
        None => Seq::empty(),
    };
    ip + dev + acct
}

fn prefixed(prefix: &str, rest: &[char]) -> (r: String)
    ensures
        r@ == prefix@ + rest@,
{
    string_from_chars(&concat(&lit(prefix), rest))
}

pub fn auth_guard_keys(
    headers: &RequestHeaders,
    peer_ip: Option<&str>,
    account_hint: Option<&str>,
    proxy_trusted: bool,
) -> (r: Vec<String>)
    ensures
        strings_view(r@) == guard_keys_spec(headers@, ostr_view(peer_ip), ostr_view(account_hint), proxy_trusted),
{
    let mut keys: Vec<String> = Vec::new();
    let ip = resolve_client_ip(headers, peer_ip, proxy_trusted);
    keys.push(prefixed("ip:", &chars_of(ip.as_str())));
    let ghost k1 = strings_view(keys@);
    if let Some(d) = trimmed_header(headers, "x-device-id") {
        keys.push(prefixed("device:", &d));
    } else if let Some(u) = trimmed_header(headers, "user-agent") {
        keys.push(prefixed("ua:", &u));
    }
    let ghost k2 = strings_view(keys@);
    if let Some(a) = account_hint {
        let t = trim(&chars_of(a));
        if t.len() > 0 {
            keys.push(prefixed("acct:", &to_ascii_lower(&t)));
        }
    }
    let ghost acct = match ostr_view(account_hint) {
        Some(a) => if trim_spec(a).len() > 0 {
            seq!["acct:"@ + normalized(a)]
        } else {
            Seq::<Seq<char>>::empty()
        },
        None => Seq::<Seq<char>>::empty(),
    };
    assert(strings_view(keys@) =~= k2 + acct);
    assert(strings_view(keys@) =~= guard_keys_spec(headers@, ostr_view(peer_ip), ostr_view(account_hint), proxy_trusted));
    keys
}

/// The login lockout is bypassed only with a configured, non-blank
/// challenge token that the `X-Paracord-Auth-Challenge` header matches.
pub open spec fn bypass_spec(secret: Option<Seq<char>>, h: Seq<(Seq<char>, Seq<char>)>) -> bool {
    match secret {
        Some(s) => trim_spec(s).len() > 0 && header_str(h, "x-paracord-auth-challenge"@) == Some(s),
        None => false,
    }
}

/// `secret` is the value of `PARACORD_AUTH_CHALLENGE_TOKEN`.
pub fn challenge_bypass_enabled_and_valid(secret: Option<&str>, headers: &RequestHeaders) -> (r: bool)
    ensures
        r == bypass_spec(ostr_view(secret), headers@),
{
    let secret = match secret {
        Some(s) => s,
        None => return false,
    };
    if trim(&chars_of(secret)).len() == 0 {
        return false;
    }
    match headers.get_str("x-paracord-auth-challenge") {
        Some(p) => {
            let provided = string_from_chars(&p);
            constant_time_equal(provided.as_str(), secret)
        },
        None => false,
    }
}

/// How long an auth-guard row is kept after its last update.
pub const AUTH_GUARD_TTL_SECONDS: i64 = 3600;

/// How many stale auth-guard rows one cleanup purges at most.
pub const AUTH_GUARD_CLEANUP_LIMIT: i64 = 512;

/// Some guard row of the request's keys is locked past `now`.
pub open spec fn any_locked(locked_until: Seq<i64>, now: i64) -> bool {
    exists|k: int| 0 <= k < locked_until.len() && locked_until[k] > now
}

/// The guard's verdict on an attempt, from the `locked_until` times of the
/// rows stored for its keys: refused as rate limited while one of them is
/// locked, unless the challenge bypass holds.
pub fn auth_guard_enforce(locked_until: &Vec<i64>, now: i64, bypass_valid: bool) -> (r: Result<
    (),
    ApiError,
>)
    ensures
        r is Ok <==> (!any_locked(locked_until@, now) || bypass_valid),
        r matches Err(e) ==> e is RateLimited,
{
    let mut k: usize = 0;
    while k < locked_until.len()
        invariant
            k <= locked_until@.len(),
            forall|t: int| 0 <= t < k ==> locked_until@[t] <= now,
        decreases locked_until.len() - k,
    {
        if locked_until[k] > now {
            if bypass_valid {
                return Ok(());
            }
            return Err(ApiError::RateLimited);
        }
        k = k + 1;
    }
    Ok(())
}

/// Given the operation count before this one, every 64th guard operation
/// purges rows older than the TTL: the result is then the cut-off time.
pub fn auth_guard_maybe_cleanup(previous_ops: u64, now: i64) -> (r: Option<i64>)
    ensures
        ({
            let op: int = if previous_ops == u64::MAX { previous_ops as int } else { previous_ops + 1 };
            let cutoff: int = if now - AUTH_GUARD_TTL_SECONDS < i64::MIN {
                i64::MIN as int
            } else {
                now - AUTH_GUARD_TTL_SECONDS
            };
            r == (if op % 64 == 0 { Some(cutoff as i64) } else { None::<i64> })
        }),
{
    let op: u64 = if previous_ops == u64::MAX { previous_ops } else { previous_ops + 1 };
    if op % 64 != 0 {
        return None;
    }
    let cutoff: i64 = if now < i64::MIN + AUTH_GUARD_TTL_SECONDS {
        i64::MIN
    } else {
        now - AUTH_GUARD_TTL_SECONDS
    };
    Some(cutoff)
}

/// Device id, user agent and client address recorded with a session; the
/// address is left out when it is unknown.
pub fn request_metadata(headers: &RequestHeaders, peer_ip: Option<&str>, proxy_trusted: bool) -> (r: (
    Option<String>,
    Option<String>,
    Option<String>,
))
    ensures
        ostring_view(r.0) == header_trimmed(headers@, "x-device-id"@),
        ostring_view(r.1) == header_trimmed(headers@, "user-agent"@),
        ostring_view(r.2) == (if client_ip_spec(headers@, ostr_view(peer_ip), proxy_trusted) == "unknown"@ {
            None
        } else {
            Some(client_ip_spec(headers@, ostr_view(peer_ip), proxy_trusted))
        }),
{
    let device_id = match trimmed_header(headers, "x-device-id") {
        Some(d) => Some(string_from_chars(&d)),
        None => None,
    };
    let user_agent = match trimmed_header(headers, "user-agent") {
        Some(u) => Some(string_from_chars(&u)),
        None => None,
    };
    let ip = resolve_client_ip(headers, peer_ip, proxy_trusted);
    let ip_address = if seq_eq(&chars_of(ip.as_str()), &lit("unknown")) {
        None
    } else {
        Some(ip)
    };
    (device_id, user_agent, ip_address)
}

// ---------------------------------------------------------------------------
// Cookies
// ---------------------------------------------------------------------------

/// `i64::saturating_mul`.
pub open spec fn sat_mul(a: i64, b: i64) -> i64 {
    if a * b > i64::MAX {
        i64::MAX
    } else if a * b < i64::MIN {
        i64::MIN
    } else {
        (a * b) as i64
    }
}

fn saturating_mul_i64(a: i64, b: i64) -> (r: i64)
    ensures
        r == sat_mul(a, b),
{
    let a2 = a as i128;
    let b2 = b as i128;
    assert(-0x8000_0000_0000_0000 * 0x8000_0000_0000_0000 <= a2 * b2 <= 0x8000_0000_0000_0000
        * 0x8000_0000_0000_0000) by (nonlinear_arith)
        requires
            -0x8000_0000_0000_0000 <= a2 <= 0x7fff_ffff_ffff_ffff,
            -0x8000_0000_0000_0000 <= b2 <= 0x7fff_ffff_ffff_ffff,
    ;
    let p: i128 = a2 * b2;
    if p > i64::MAX as i128 {
        i64::MAX
    } else if p < i64::MIN as i128 {
        i64::MIN
    } else {
        p as i64
    }
}

pub open spec fn secure_attr(secure: bool) -> Seq<char> {
    if secure {
        "; Secure"@
    } else {
        Seq::empty()
    }
}

/// The refresh-token cookie: `HttpOnly`, scoped to `/api/v1/auth`,
/// `SameSite=Lax`, kept for `ttl_days` days.
pub open spec fn refresh_cookie_spec(token: Seq<char>, ttl_days: i64, secure: bool) -> Seq<char> {
    "paracord_refresh="@ + token + "; HttpOnly; Path=/api/v1/auth; SameSite=Lax; Max-Age="@
        + int_decimal(sat_mul(ttl_days, 86400) as int) + secure_attr(secure)
}

/// The access-token cookie: `HttpOnly`, scoped to `/api/v1`, `SameSite=Lax`.
pub open spec fn access_cookie_spec(token: Seq<char>, ttl_seconds: u64, secure: bool) -> Seq<char> {
    "paracord_access="@ + token + "; HttpOnly; Path=/api/v1; SameSite=Lax; Max-Age="@ + int_decimal(
        ttl_seconds as int,
    ) + secure_attr(secure)
}

fn push_secure(s: &mut String, secure: bool)
    ensures
        final(s)@ == old(s)@ + secure_attr(secure),
{
    if secure {
        s.append("; Secure");
    } else {
        assert(old(s)@ + Seq::<char>::empty() == old(s)@);
    }
}

pub fn build_refresh_cookie(token: &str, ttl_days: i64, secure: bool) -> (r: String)
    ensures
        r@ == refresh_cookie_spec(token@, ttl_days, secure),
{
    let max_age = saturating_mul_i64(ttl_days, 24 * 60 * 60);
    let mut s = String::from_str("paracord_refresh=");
    s.append(token);
    s.append("; HttpOnly; Path=/api/v1/auth; SameSite=Lax; Max-Age=");
    s.append(string_from_chars(&i64_decimal(max_age)).as_str());
    push_secure(&mut s, secure);
    s
}

pub fn build_access_cookie(token: &str, ttl_seconds: u64, secure: bool) -> (r: String)
    ensures
        r@ == access_cookie_spec(token@, ttl_seconds, secure),
{
    let mut s = String::from_str("paracord_access=");
    s.append(token);
    s.append("; HttpOnly; Path=/api/v1; SameSite=Lax; Max-Age=");
    s.append(string_from_chars(&u64_decimal(ttl_seconds)).as_str());
    push_secure(&mut s, secure);
    s
}

/// The cookie that clears the refresh token: empty, expiring at once.
pub open spec fn refresh_cookie_clear_spec(secure: bool) -> Seq<char> {
    "paracord_refresh=; HttpOnly; Path=/api/v1/auth; SameSite=Lax; Max-Age=0"@ + secure_attr(secure)
}

/// The cookie that clears the access token: empty, expiring at once.
pub open spec fn access_cookie_clear_spec(secure: bool) -> Seq<char> {
    "paracord_access=; HttpOnly; Path=/api/v1; SameSite=Lax; Max-Age=0"@ + secure_attr(secure)
}

/// A cookie that clears the refresh token.
pub fn build_refresh_cookie_clear(secure: bool) -> (r: String)
    ensures
        r@ == refresh_cookie_clear_spec(secure),
{
    let mut s = String::from_str("paracord_refresh=; HttpOnly; Path=/api/v1/auth; SameSite=Lax; Max-Age=0");
    push_secure(&mut s, secure);
    s
}

/// A cookie that clears the access token.
pub fn build_access_cookie_clear(secure: bool) -> (r: String)
    ensures
        r@ == access_cookie_clear_spec(secure),
{
    let mut s = String::from_str("paracord_access=; HttpOnly; Path=/api/v1; SameSite=Lax; Max-Age=0");
    push_secure(&mut s, secure);
    s
}

/// The value of the first `name=value` item of a `;`-separated cookie list
/// whose name is `name`.
pub open spec fn cookie_in(parts: Seq<Seq<char>>, name: Seq<char>) -> Option<Seq<char>>
    decreases parts.len(),
{
    if parts.len() == 0 {
        None
    } else {
        match split_once_spec(trim_spec(parts[0]), '=') {
            Some((n, v)) => if n == name {
                Some(v)
            } else {
                cookie_in(parts.drop_first(), name)
            },
            None => cookie_in(parts.drop_first(), name),
        }
    }
}

/// The value of a cookie sent in the `Cookie` header.
pub open spec fn cookie_value_spec(h: Seq<(Seq<char>, Seq<char>)>, name: Seq<char>) -> Option<Seq<char>> {
    match header_str(h, "cookie"@) {
        Some(raw) => cookie_in(split_spec(raw, ';'), name),
        None => None,
    }
}

pub fn get_cookie_value(headers: &RequestHeaders, cookie_name: &str) -> (r: Option<String>)
    ensures
        ostring_view(r) == cookie_value_spec(headers@, cookie_name@),
{
    let raw = match headers.get_str("cookie") {
        Some(r) => r,
        None => return None,
    };
    let parts = split_exec(&raw, ';');
    let ghost ps = split_spec(raw@, ';');
    let want = chars_of(cookie_name);
    let mut i: usize = 0;
    assert(ps.skip(0) == ps);
    while i < parts.len()
        invariant
            i <= parts@.len(),
            parts@.len() == ps.len(),
            forall|j: int| 0 <= j < parts@.len() ==> (#[trigger] parts@[j])@ == ps[j],
            want@ == cookie_name@,
            cookie_value_spec(headers@, cookie_name@) == cookie_in(ps, want@),
            cookie_in(ps, want@) == cookie_in(ps.skip(i as int), want@),
        decreases parts.len() - i,
    {
        assert(ps.skip(i as int)[0] == ps[i as int]);
        assert(ps.skip(i as int).drop_first() == ps.skip(i as int + 1));
        let t = trim(&parts[i]);
        if let Some((n, v)) = split_once_exec(&t, '=') {
            if seq_eq(&n, &want) {
                return Some(string_from_chars(&v));
            }
        }
        i = i + 1;
    }
    None
}

/// `name=token;...`: the first item of the list is the cookie `name`,
/// whose value is `token`.
proof fn lemma_cookie_first_item(name: Seq<char>, token: Seq<char>, rest: Seq<char>)
    requires
        name.len() > 0,
        !is_ws(name[0]),
        forall|k: int| 0 <= k < name.len() ==> name[k] != ';' && name[k] != '=',
        forall|k: int| 0 <= k < token.len() ==> token[k] != ';',
        token.len() > 0 ==> !is_ws(token.last()),
        rest.len() > 0,
        rest[0] == ';',
    ensures
        cookie_in(split_spec(name + seq!['='] + token + rest, ';'), name) == Some(token),
{
    let a = name + seq!['='] + token;
    let s = a + rest;
    assert(s == name + seq!['='] + token + rest);
    assert forall|k: int| 0 <= k < a.len() implies s[k] != ';' by {
        if k < name.len() {
            assert(s[k] == name[k]);
        } else if k > name.len() {
            assert(s[k] == token[k - name.len() - 1]);
        }
    }
    assert(s[a.len() as int] == rest[0]);
    lemma_find_char_unique(s, ';', a.len() as int);
    assert(s.take(a.len() as int) == a);
    let parts = split_spec(s, ';');
    assert(parts[0] == a);
    // the item needs no trimming
    assert(!is_ws(a[0]));
    assert(a.last() == (if token.len() > 0 { token.last() } else { '=' }));
    assert(trim_start_spec(a) == a);
    assert(trim_end_spec(a) == a);
    lemma_find_char_unique(a, '=', name.len() as int);
    assert(a.take(name.len() as int) == name);
    assert(a.skip(name.len() as int + 1) == token);
}

/// A refresh cookie, sent back in a `Cookie` header, yields the token it
/// carries, for a token free of `;` that does not end in whitespace.
pub proof fn law_refresh_cookie_roundtrip(token: Seq<char>, ttl_days: i64, secure: bool)
    requires
        forall|k: int| 0 <= k < token.len() ==> token[k] != ';',
        token.len() > 0 ==> !is_ws(token.last()),
    ensures
        cookie_in(split_spec(refresh_cookie_spec(token, ttl_days, secure), ';'), "paracord_refresh"@)
            == Some(token),
{
    reveal_strlit("paracord_refresh");
    reveal_strlit("paracord_refresh=");
    reveal_strlit("; HttpOnly; Path=/api/v1/auth; SameSite=Lax; Max-Age=");
    let name = "paracord_refresh"@;
    let rest = "; HttpOnly; Path=/api/v1/auth; SameSite=Lax; Max-Age="@ + int_decimal(
        sat_mul(ttl_days, 86400) as int,
    ) + secure_attr(secure);
    assert("paracord_refresh="@ =~= name + seq!['=']);
    assert(refresh_cookie_spec(token, ttl_days, secure) =~= name + seq!['='] + token + rest);
    lemma_cookie_first_item(name, token, rest);
}

/// An access cookie, sent back in a `Cookie` header, yields the token it
/// carries, for a token free of `;` that does not end in whitespace.
pub proof fn law_access_cookie_roundtrip(token: Seq<char>, ttl_seconds: u64, secure: bool)
    requires
        forall|k: int| 0 <= k < token.len() ==> token[k] != ';',
        token.len() > 0 ==> !is_ws(token.last()),
    ensures
        cookie_in(split_spec(access_cookie_spec(token, ttl_seconds, secure), ';'), "paracord_access"@)
            == Some(token),
{
    reveal_strlit("paracord_access");
    reveal_strlit("paracord_access=");
    reveal_strlit("; HttpOnly; Path=/api/v1; SameSite=Lax; Max-Age=");
    let name = "paracord_access"@;
    let rest = "; HttpOnly; Path=/api/v1; SameSite=Lax; Max-Age="@ + int_decimal(ttl_seconds as int)
        + secure_attr(secure);
    assert("paracord_access="@ =~= name + seq!['=']);
    assert(access_cookie_spec(token, ttl_seconds, secure) =~= name + seq!['='] + token + rest);
    lemma_cookie_first_item(name, token, rest);
}

/// A cleared refresh cookie, sent back, yields an empty token; so does a
/// cleared access cookie.
pub proof fn law_cleared_cookies_read_empty(secure: bool)
    ensures
        cookie_in(split_spec(refresh_cookie_clear_spec(secure), ';'), "paracord_refresh"@)
            == Some(Seq::<char>::empty()),
        cookie_in(split_spec(access_cookie_clear_spec(secure), ';'), "paracord_access"@)
            == Some(Seq::<char>::empty()),
{
    reveal_strlit("paracord_refresh");
    reveal_strlit("paracord_refresh=; HttpOnly; Path=/api/v1/auth; SameSite=Lax; Max-Age=0");
    reveal_strlit("paracord_access");
    reveal_strlit("paracord_access=; HttpOnly; Path=/api/v1; SameSite=Lax; Max-Age=0");
    let e = Seq::<char>::empty();
    let name = "paracord_refresh"@;
    let full = refresh_cookie_clear_spec(secure);
    let rest = full.skip(name.len() as int + 1);
    assert(full =~= name + seq!['='] + e + rest);
    lemma_cookie_first_item(name, e, rest);
    let name2 = "paracord_access"@;
    let full2 = access_cookie_clear_spec(secure);
    let rest2 = full2.skip(name2.len() as int + 1);
    assert(full2 =~= name2 + seq!['='] + e + rest2);
    lemma_cookie_first_item(name2, e, rest2);
}

/// Whatever headers carry a refresh, access or cleared refresh cookie as
/// their (readable) `Cookie` header, the cookie lookup gives back the token
/// it carries (empty for the cleared one), for a token free of `;` that
/// does not end in whitespace.
pub proof fn law_cookie_header_roundtrip(
    h: Seq<(Seq<char>, Seq<char>)>,
    token: Seq<char>,
    ttl_days: i64,
    ttl_seconds: u64,
    secure: bool,
)
    requires
        forall|k: int| 0 <= k < token.len() ==> token[k] != ';',
        token.len() > 0 ==> !is_ws(token.last()),
    ensures
        header_str(h, "cookie"@) == Some(refresh_cookie_spec(token, ttl_days, secure))
            ==> cookie_value_spec(h, "paracord_refresh"@) == Some(token),
        header_str(h, "cookie"@) == Some(access_cookie_spec(token, ttl_seconds, secure))
            ==> cookie_value_spec(h, "paracord_access"@) == Some(token),
        header_str(h, "cookie"@) == Some(refresh_cookie_clear_spec(secure))
            ==> cookie_value_spec(h, "paracord_refresh"@) == Some(Seq::<char>::empty()),
{
    law_refresh_cookie_roundtrip(token, ttl_days, secure);
    law_access_cookie_roundtrip(token, ttl_seconds, secure);
    law_cleared_cookies_read_empty(secure);
}

// ---------------------------------------------------------------------------
// Tokens
// ---------------------------------------------------------------------------

/// `bytes` random bytes, in lowercase hexadecimal.
pub fn random_token_hex(bytes: usize) -> (r: String)
    ensures
        exists|b: Seq<u8>| b.len() == bytes && r@ == hex_lower_spec(b),
{
    let buf = thread_rng_bytes(bytes);
    string_from_chars(&hex_lower(&buf))
}

/// Lowercase hexadecimal SHA-256 of the UTF-8 bytes of a string.
pub fn sha256_hex(value: &str) -> (r: String)
    ensures
        r@ == hex_lower_spec(sha256_spec(value.spec_bytes())),
{
    let digest = sha256(value.as_bytes());
    string_from_chars(&hex_lower(&digest))
}


// ---------------------------------------------------------------------------
// Server origin
// ---------------------------------------------------------------------------

/// `scheme://host[:port]` of an `http` or `https` URL; `None` for a blank
/// value, a value that does not parse, another scheme, or no host.
pub open spec fn public_origin_spec(value: Seq<char>) -> Option<Seq<char>> {
    let t = trim_spec(value);
    if t.len() == 0 {
        None
    } else {
        match url_parse_spec(t) {
            Some(u) => if (u.0 == "http"@ || u.0 == "https"@) && u.1 is Some {
                Some(
                    u.0 + "://"@ + u.1->0 + match u.2 {
                        Some(p) => seq![':'] + int_decimal(p as int),
                        None => Seq::empty(),
                    },
                )
            } else {
                None
            },
            None => None,
        }
    }
}

pub fn normalize_public_origin(value: &str) -> (r: Option<String>)
    ensures
        ostring_view(r) == public_origin_spec(value@),
{
    let t = trim(&chars_of(value));
    if t.len() == 0 {
        return None;
    }
    let ts = string_from_chars(&t);
    let parsed = match url_parse(ts.as_str()) {
        Some(p) => p,
        None => return None,
    };
    let scheme = chars_of(parsed.scheme.as_str());
    if !seq_eq(&scheme, &lit("http")) && !seq_eq(&scheme, &lit("https")) {
        return None;
    }
    let host = match &parsed.host {
        Some(h) => h,
        None => return None,
    };
    let mut origin = string_from_chars(&scheme);
    origin.append("://");
    origin.append(host.as_str());
    match parsed.port {
        Some(port) => {
            origin.append(":");
            origin.append(string_from_chars(&u64_decimal(port as u64)).as_str());
            proof {
                reveal_strlit(":");
            }
        },
        None => {},
    }
    Some(origin)
}

/// `s.trim_start_matches(p)`: every leading copy of `p` removed.
pub open spec fn strip_prefixes(s: Seq<char>, p: Seq<char>) -> Seq<char>
    decreases s.len(),
{
    if p.len() > 0 && starts_with_spec(s, p) {
        strip_prefixes(s.skip(p.len() as int), p)
    } else {
        s
    }
}

pub fn strip_prefixes_exec(s: &[char], p: &[char]) -> (r: Vec<char>)
    ensures
        r@ == strip_prefixes(s@, p@),
{
    let mut cur = slice_range(s, 0, s.len());
    assert(s@.subrange(0, s@.len() as int) == s@);
    if p.len() == 0 {
        return cur;
    }
    while starts_with(&cur, p)
        invariant
            p@.len() > 0,
            strip_prefixes(cur@, p@) == strip_prefixes(s@, p@),
        decreases cur@.len(),
    {
        cur = slice_range(&cur, p.len(), cur.len());
    }
    cur
}

/// A `Host`-style header reduced to its host: first comma-separated item,
/// leading `http://` then `https://` prefixes removed, path dropped,
/// trimmed; `None` when a step leaves nothing.
pub open spec fn host_header_spec(value: Seq<char>) -> Option<Seq<char>> {
    let first = trim_spec(before_char(value, ','));
    if first.len() == 0 {
        None
    } else {
        let without_scheme = strip_prefixes(strip_prefixes(first, "http://"@), "https://"@);
        let host = trim_spec(before_char(without_scheme, '/'));
        if host.len() == 0 {
            None
        } else {
            Some(host)
        }
    }
}

pub fn normalize_host_header_value(value: &str) -> (r: Option<String>)
    ensures
        ostring_view(r) == host_header_spec(value@),
{
    let first = trim(&before_char_exec(&chars_of(value), ','));
    if first.len() == 0 {
        return None;
    }
    let ws = strip_prefixes_exec(&strip_prefixes_exec(&first, &lit("http://")), &lit("https://"));
    let host = trim(&before_char_exec(&ws, '/'));
    if host.len() == 0 {
        return None;
    }
    Some(string_from_chars(&host))
}

/// The scheme a forwarded protocol stands for: `https`/`wss` are `https`,
/// `http`/`ws` are `http` (first item, trimmed, any ASCII case).
pub open spec fn forwarded_proto_spec(value: Seq<char>) -> Option<Seq<char>> {
    let first = normalized(before_char(value, ','));
    if first == "https"@ || first == "wss"@ {
        Some("https"@)
    } else if first == "http"@ || first == "ws"@ {
        Some("http"@)
    } else {
        None
    }
}

pub fn parse_forwarded_proto(value: &str) -> (r: Option<&'static str>)
    ensures
        ostr_view(r) == forwarded_proto_spec(value@),
{
    let first = to_ascii_lower(&trim(&before_char_exec(&chars_of(value), ',')));
    if seq_eq(&first, &lit("https")) || seq_eq(&first, &lit("wss")) {
        Some("https")
    } else if seq_eq(&first, &lit("http")) || seq_eq(&first, &lit("ws")) {
        Some("http")
    } else {
        None
    }
}

/// `https` when `PARACORD_TLS_ENABLED` is switched on, else `http`.
pub open spec fn default_scheme_spec(tls_enabled: Option<Seq<char>>) -> Seq<char> {
    if opt_env_switch(tls_enabled) == Some(true) {
        "https"@
    } else {
        "http"@
    }
}

/// `tls_enabled` is the value of `PARACORD_TLS_ENABLED`.
pub fn default_server_scheme_from_env(tls_enabled: Option<&str>) -> (r: &'static str)
    ensures
        r@ == default_scheme_spec(ostr_view(tls_enabled)),
{
    match env_switch_exec(tls_enabled) {
        Some(true) => "https",
        _ => "http",
    }
}

pub open spec fn opt_or(a: Option<Seq<char>>, b: Option<Seq<char>>) -> Option<Seq<char>> {
    match a {
        Some(x) => Some(x),
        None => b,
    }
}

pub open spec fn opt_and_then_host(v: Option<Seq<char>>) -> Option<Seq<char>> {
    match v {
        Some(x) => host_header_spec(x),
        None => None,
    }
}

pub open spec fn opt_and_then_proto(v: Option<Seq<char>>) -> Option<Seq<char>> {
    match v {
        Some(x) => forwarded_proto_spec(x),
        None => None,
    }
}

/// The origin signed challenges are bound to: the configured public URL's
/// origin when it has one; otherwise scheme and host of the request, read
/// from forwarded headers only when the proxy is trusted.
pub open spec fn server_origin_spec(
    configured: Option<Seq<char>>,
    h: Seq<(Seq<char>, Seq<char>)>,
    proxy_trusted: bool,
    tls_enabled: Option<Seq<char>>,
) -> Seq<char> {
    let conf = match configured {
        Some(c) => public_origin_spec(c),
        None => None,
    };
    match conf {
        Some(o) => o,
        None => {
            let fwd_host = if proxy_trusted {
                opt_and_then_host(header_str(h, "x-forwarded-host"@))
            } else {
                None
            };
            let host = match opt_or(fwd_host, opt_and_then_host(header_str(h, "host"@))) {
                Some(x) => x,
                None => "localhost"@,
            };
            let fwd_proto = if proxy_trusted {
                opt_and_then_proto(header_str(h, "x-forwarded-proto"@))
            } else {
                None
            };
            let scheme = match fwd_proto {
                Some(p) => p,
                None => default_scheme_spec(tls_enabled),
            };
            scheme + "://"@ + host
        },
    }
}

fn host_from_header(headers: &RequestHeaders, name: &str) -> (r: Option<String>)
    ensures
        ostring_view(r) == opt_and_then_host(header_str(headers@, name@)),
{
    match headers.get_str(name) {
        Some(v) => normalize_host_header_value(string_from_chars(&v).as_str()),
        None => None,
    }
}

/// `proxy_trusted` is what `proxy_peer_is_trusted` answers for the peer;
/// `tls_enabled` is the value of `PARACORD_TLS_ENABLED`.
pub fn resolve_server_origin(
    configured_public_url: Option<&str>,
    headers: &RequestHeaders,
    proxy_trusted: bool,
    tls_enabled: Option<&str>,
) -> (r: String)
    ensures
        r@ == server_origin_spec(ostr_view(configured_public_url), headers@, proxy_trusted, ostr_view(tls_enabled)),
{
    if let Some(c) = configured_public_url {
        if let Some(origin) = normalize_public_origin(c) {
            return origin;
        }
    }
    let fwd_host = if proxy_trusted {
        host_from_header(headers, "x-forwarded-host")
    } else {
        None
    };
    let host = match fwd_host {
        Some(h) => h,
        None => match host_from_header(headers, "host") {
            Some(h) => h,
            None => String::from_str("localhost"),
        },
    };
    let fwd_proto = if proxy_trusted {
        match headers.get_str("x-forwarded-proto") {
            Some(v) => parse_forwarded_proto(string_from_chars(&v).as_str()),
            None => None,
        }
    } else {
        None
    };
    let scheme = match fwd_proto {
        Some(p) => p,
        None => default_server_scheme_from_env(tls_enabled),
    };
    let mut out = String::from_str(scheme);
    out.append("://");
    out.append(host.as_str());
    out
}


// ---------------------------------------------------------------------------
// Request and response bodies
// ---------------------------------------------------------------------------

pub struct RegisterRequest {
    pub email: String,
    pub username: String,
    pub password: String,
    pub display_name: Option<String>,
}

/// Login credentials; `email` holds whatever identifier was given.
pub struct LoginRequest {
    pub email: String,
    pub password: String,
}

impl LoginRequest {
    pub open spec fn view_pair(&self) -> (Seq<char>, Seq<char>) {
        (self.email@, self.password@)
    }
}

pub open spec fn login_view(o: Option<LoginRequest>) -> Option<(Seq<char>, Seq<char>)> {
    match o {
        Some(l) => Some(l.view_pair()),
        None => None,
    }
}

pub struct AuthSessionView {
    pub id: String,
    pub current: bool,
    pub device_id: Option<String>,
    pub user_agent: Option<String>,
    pub ip_address: Option<String>,
    pub issued_at: String,
    pub last_seen_at: String,
    pub expires_at: String,
}

pub struct AuthOptionsResponse {
    pub allow_username_login: bool,
    pub require_email: bool,
}

pub struct AttachPublicKeyRequest {
    pub public_key: String,
}

pub struct ChallengeResponse {
    pub nonce: String,
    pub timestamp: i64,
    pub server_origin: String,
}

pub struct VerifyRequest {
    pub public_key: String,
    pub nonce: String,
    pub timestamp: i64,
    pub signature: String,
    pub username: String,
    pub display_name: Option<String>,
}

/// The login options the server announces.
pub fn auth_options(allow_username_login: bool, require_email: bool) -> (r: AuthOptionsResponse)
    ensures
        r.allow_username_login == (allow_username_login || !require_email),
        r.require_email == require_email,
{
    AuthOptionsResponse {
        allow_username_login: username_login_effective(allow_username_login, require_email),
        require_email,
    }
}

// ---------------------------------------------------------------------------
// Login payloads
// ---------------------------------------------------------------------------

pub open spec fn first_some(a: Option<Json>, b: Option<Json>) -> Option<Json> {
    match a {
        Some(x) => Some(x),
        None => b,
    }
}

pub open spec fn object_only(o: Option<Json>) -> Option<Json> {
    match o {
        Some(j) => if j is Object {
            Some(j)
        } else {
            None
        },
        None => None,
    }
}

pub open spec fn or_empty(o: Option<Seq<char>>) -> Seq<char> {
    match o {
        Some(s) => s,
        None => Seq::empty(),
    }
}

/// Whether an object names credentials at its top level.
pub open spec fn has_credential_key(root: Json) -> bool {
    ||| get_spec(root, "identifier"@) is Some
    ||| get_spec(root, "email"@) is Some
    ||| get_spec(root, "username"@) is Some
    ||| get_spec(root, "login"@) is Some
    ||| get_spec(root, "password"@) is Some
}

/// The object credentials are read from: the root when it names them,
/// else its `data`, `payload` or `credentials` object, else the root.
pub open spec fn credential_source(root: Json) -> Json {
    if has_credential_key(root) {
        root
    } else {
        match object_only(get_spec(root, "data"@)) {
            Some(j) => j,
            None => match object_only(get_spec(root, "payload"@)) {
                Some(j) => j,
                None => match object_only(get_spec(root, "credentials"@)) {
                    Some(j) => j,
                    None => root,
                },
            },
        }
    }
}

/// Credentials of a JSON login body: the identifier is the first present of
/// `identifier`, `email`, `username`, `login`, the password the first
/// present of `password`, `passphrase`; a present member that is not a
/// string counts as empty. `None` when the body is not an object.
pub open spec fn login_json_spec(value: Json) -> Option<(Seq<char>, Seq<char>)> {
    if value is Object {
        let src = credential_source(value);
        let id = opt_as_str(
            first_some(
                get_spec(src, "identifier"@),
                first_some(
                    get_spec(src, "email"@),
                    first_some(get_spec(src, "username"@), get_spec(src, "login"@)),
                ),
            ),
        );
        let pw = opt_as_str(first_some(get_spec(src, "password"@), get_spec(src, "passphrase"@)));
        Some((or_empty(id), or_empty(pw)))
    } else {
        None
    }
}

proof fn lemma_login_keys_differ()
    ensures
        "identifier"@.len() == 10,
        "email"@.len() == 5,
        "username"@.len() == 8,
        "login"@.len() == 5 && "login"@[0] == 'l' && "email"@[0] == 'e',
        "password"@.len() == 8 && "password"@[0] == 'p' && "username"@[0] == 'u',
        "passphrase"@.len() == 10 && "passphrase"@[0] == 'p' && "identifier"@[0] == 'i',
{
    reveal_strlit("identifier");
    reveal_strlit("email");
    reveal_strlit("username");
    reveal_strlit("login");
    reveal_strlit("password");
    reveal_strlit("passphrase");
}

/// Where a JSON login body names its credentials at the top level, the
/// identifier is its `identifier` text, else its `email` text, else its
/// `username` text, else its `login` text; the password is its `password`
/// text, else its `passphrase` text.
pub proof fn law_login_json_reads_credentials(value: Json, s: Seq<char>)
    requires
        value is Object,
    ensures
        opt_as_str(get_spec(value, "identifier"@)) == Some(s) ==> (login_json_spec(value) matches Some((id, _)) && id == s),
        get_spec(value, "identifier"@) is None && opt_as_str(get_spec(value, "email"@)) == Some(s)
            ==> (login_json_spec(value) matches Some((id, _)) && id == s),
        get_spec(value, "identifier"@) is None && get_spec(value, "email"@) is None && opt_as_str(
            get_spec(value, "username"@),
        ) == Some(s) ==> (login_json_spec(value) matches Some((id, _)) && id == s),
        get_spec(value, "identifier"@) is None && get_spec(value, "email"@) is None && get_spec(
            value,
            "username"@,
        ) is None && opt_as_str(get_spec(value, "login"@)) == Some(s) ==> (login_json_spec(value) matches Some((id, _)) && id == s),
        opt_as_str(get_spec(value, "password"@)) == Some(s) ==> (login_json_spec(value) matches Some((_, pw)) && pw == s),
        get_spec(value, "password"@) is None && has_credential_key(value) && opt_as_str(
            get_spec(value, "passphrase"@),
        ) == Some(s) ==> (login_json_spec(value) matches Some((_, pw)) && pw == s),
{
    lemma_login_keys_differ();
}

fn object_member<'a>(v: &'a Json, key: &str) -> (r: Option<&'a Json>)
    ensures
        match r {
            Some(j) => object_only(get_spec(*v, key@)) == Some(*j),
            None => object_only(get_spec(*v, key@)) is None,
        },
{
    match v.get(key) {
        Some(j) => if j.is_object() {
            Some(j)
        } else {
            None
        },
        None => None,
    }
}

fn str_or_empty(o: Option<&Json>) -> (r: String)
    ensures
        r@ == or_empty(match o {
            Some(j) => as_str_spec(*j),
            None => None,
        }),
{
    match o {
        Some(j) => match j.as_str() {
            Some(s) => String::from_str(s),
            None => String::new(),
        },
        None => String::new(),
    }
}

fn get_first<'a>(v: &'a Json, a: &str, b: &str) -> (r: Option<&'a Json>)
    ensures
        match r {
            Some(j) => first_some(get_spec(*v, a@), get_spec(*v, b@)) == Some(*j),
            None => first_some(get_spec(*v, a@), get_spec(*v, b@)) is None,
        },
{
    match v.get(a) {
        Some(j) => Some(j),
        None => v.get(b),
    }
}

pub fn parse_login_json_value(value: &Json) -> (r: Option<LoginRequest>)
    ensures
        login_view(r) == login_json_spec(*value),
{
    if !value.is_object() {
        return None;
    }
    let root = value;
    let has_key = root.get("identifier").is_some() || root.get("email").is_some()
        || root.get("username").is_some() || root.get("login").is_some() || root.get(
        "password",
    ).is_some();
    let source: &Json = if has_key {
        root
    } else {
        match object_member(root, "data") {
            Some(j) => j,
            None => match object_member(root, "payload") {
                Some(j) => j,
                None => match object_member(root, "credentials") {
                    Some(j) => j,
                    None => root,
                },
            },
        }
    };
    assert(*source == credential_source(*value));
    let id_json = match source.get("identifier") {
        Some(j) => Some(j),
        None => match source.get("email") {
            Some(j) => Some(j),
            None => get_first(source, "username", "login"),
        },
    };
    let pw_json = get_first(source, "password", "passphrase");
    let email = str_or_empty(id_json);
    let password = str_or_empty(pw_json);
    Some(LoginRequest { email, password })
}

pub open spec fn is_identifier_key(k: Seq<char>) -> bool {
    k == "identifier"@ || k == "email"@ || k == "username"@ || k == "login"@
}

pub open spec fn is_password_key(k: Seq<char>) -> bool {
    k == "password"@ || k == "passphrase"@
}

/// Identifier and password gathered from form pairs: each takes the first
/// non-empty value given under one of its names.
pub open spec fn form_login_fold(pairs: Seq<(Seq<char>, Seq<char>)>) -> (Seq<char>, Seq<char>)
    decreases pairs.len(),
{
    if pairs.len() == 0 {
        (Seq::empty(), Seq::empty())
    } else {
        let prev = form_login_fold(pairs.drop_last());
        let k = pairs.last().0;
        let v = pairs.last().1;
        if is_identifier_key(k) && prev.0.len() == 0 {
            (v, prev.1)
        } else if is_password_key(k) && prev.1.len() == 0 {
            (prev.0, v)
        } else {
            prev
        }
    }
}

/// Credentials of a form-encoded login body; `None` when neither was given.
pub open spec fn login_form_spec(body: Seq<u8>) -> Option<(Seq<char>, Seq<char>)> {
    let r = form_login_fold(form_pairs_spec(body));
    if r.0.len() == 0 && r.1.len() == 0 {
        None
    } else {
        Some(r)
    }
}

fn key_in(k: &[char], a: &str, b: &str, c: &str, d: &str) -> (r: bool)
    ensures
        r == (k@ == a@ || k@ == b@ || k@ == c@ || k@ == d@),
{
    seq_eq(k, &lit(a)) || seq_eq(k, &lit(b)) || seq_eq(k, &lit(c)) || seq_eq(k, &lit(d))
}

pub fn parse_login_form_value(body: &[u8]) -> (r: Option<LoginRequest>)
    ensures
        login_view(r) == login_form_spec(body@),
{
    let pairs = form_urlencoded_pairs(body);
    let ghost ps = form_pairs_spec(body@);
    let mut identifier = String::new();
    let mut password = String::new();
    let mut i: usize = 0;
    while i < pairs.len()
        invariant
            i <= pairs@.len(),
            pairs@.len() == ps.len(),
            forall|j: int| 0 <= j < pairs@.len() ==> ((#[trigger] pairs@[j]).0@, pairs@[j].1@) == ps[j],
            (identifier@, password@) == form_login_fold(ps.take(i as int)),
        decreases pairs.len() - i,
    {
        assert(ps.take(i as int + 1).drop_last() == ps.take(i as int));
        assert(ps.take(i as int + 1).last() == ps[i as int]);
        let k = chars_of(pairs[i].0.as_str());
        let id_empty = chars_of(identifier.as_str()).len() == 0;
        let pw_empty = chars_of(password.as_str()).len() == 0;
        if key_in(&k, "identifier", "email", "username", "login") && id_empty {
            identifier = pairs[i].1.clone();
        } else if key_in(&k, "password", "passphrase", "password", "passphrase") && pw_empty {
            password = pairs[i].1.clone();
        }
        i = i + 1;
    }
    assert(ps.take(ps.len() as int) == ps);
    if chars_of(identifier.as_str()).len() == 0 && chars_of(password.as_str()).len() == 0 {
        return None;
    }
    Some(LoginRequest { email: identifier, password })
}

pub open spec fn opt_login_json(o: Option<Json>) -> Option<(Seq<char>, Seq<char>)> {
    match o {
        Some(v) => login_json_spec(v),
        None => None,
    }
}

/// A login body, read as JSON when the content type says so or it starts
/// like JSON, then as a form when the content type says so or it holds `=`,
/// and last as the plain credentials object. `json_body` is the body
/// parsed as any JSON value and `plain_body` the body parsed as a
/// `LoginRequest` (with its field aliases), each `None` when that parse fails.
pub open spec fn login_request_spec(
    h: Seq<(Seq<char>, Seq<char>)>,
    body: Seq<u8>,
    json_body: Option<Json>,
    plain_body: Option<(Seq<char>, Seq<char>)>,
) -> Option<(Seq<char>, Seq<char>)> {
    let ct = lower_spec(or_empty(header_str(h, "content-type"@)));
    let first = first_non_blank(body);
    let looks_like_json = first == Some(123u8) || first == Some(91u8);
    let as_json = if contains_sub_spec(ct, "json"@) || looks_like_json {
        opt_login_json(json_body)
    } else {
        None
    };
    let form_allowed = contains_sub_spec(ct, "x-www-form-urlencoded"@) || body.contains(61u8);
    match as_json {
        Some(p) => Some(p),
        None => {
            let as_form = if form_allowed {
                login_form_spec(body)
            } else {
                None
            };
            match as_form {
                Some(p) => Some(p),
                None => plain_body,
            }
        },
    }
}

fn bytes_contain(body: &[u8], b: u8) -> (r: bool)
    ensures
        r == body@.contains(b),
{
    let mut i: usize = 0;
    while i < body.len()
        invariant
            i <= body@.len(),
            forall|k: int| 0 <= k < i ==> body@[k] != b,
        decreases body.len() - i,
    {
        if body[i] == b {
            return true;
        }
        i = i + 1;
    }
    false
}

pub fn parse_login_request(
    headers: &RequestHeaders,
    body: &[u8],
    json_body: Option<&Json>,
    plain_body: Option<LoginRequest>,
) -> (r: Option<LoginRequest>)
    ensures
        login_view(r) == login_request_spec(
            headers@,
            body@,
            match json_body {
                Some(j) => Some(*j),
                None => None,
            },
            login_view(plain_body),
        ),
{
    let content_type = match headers.get_str("content-type") {
        Some(v) => to_ascii_lower(&v),
        None => {
            let e: Vec<char> = Vec::new();
            assert(lower_spec(Seq::<char>::empty()) =~= Seq::<char>::empty());
            e
        },
    };
    let first_byte = first_non_whitespace_byte(body);
    let looks_like_json = match first_byte {
        Some(b) => b == 123u8 || b == 91u8,
        None => false,
    };
    if contains_sub(&content_type, &lit("json")) || looks_like_json {
        if let Some(v) = json_body {
            if let Some(parsed) = parse_login_json_value(v) {
                return Some(parsed);
            }
        }
    }
    if contains_sub(&content_type, &lit("x-www-form-urlencoded")) || bytes_contain(body, 61u8) {
        if let Some(parsed) = parse_login_form_value(body) {
            return Some(parsed);
        }
    }
    plain_body
}


/// Forwarded headers from a peer that is not a trusted proxy cannot steer
/// the challenge origin: two requests whose `Host` headers agree get the
/// same origin, whatever their `X-Forwarded-Host` and `X-Forwarded-Proto`.
pub proof fn law_untrusted_forwarding_ignored(
    configured: Option<Seq<char>>,
    h1: Seq<(Seq<char>, Seq<char>)>,
    h2: Seq<(Seq<char>, Seq<char>)>,
    tls_enabled: Option<Seq<char>>,
)
    requires
        header_str(h1, "host"@) == header_str(h2, "host"@),
    ensures
        server_origin_spec(configured, h1, false, tls_enabled) == server_origin_spec(configured, h2, false, tls_enabled),
{
}

/// What a password login answers once its account was looked up:
/// `Unauthorized` when no account was found, when the account has no
/// password, or when the password does not match; otherwise the session is
/// issued. `password_matches` is the verdict of the password hash check.
pub open spec fn login_answer_spec(password_hash: Option<Seq<char>>, password_matches: bool) -> Result<(), ApiError> {
    match password_hash {
        None => Err(ApiError::Unauthorized),
        Some(h) => if trim_spec(h).len() == 0 || !password_matches {
            Err(ApiError::Unauthorized)
        } else {
            Ok(())
        },
    }
}

/// `password_hash` is the found account's stored hash (`None` when no
/// account was found).
pub fn login_answer(password_hash: Option<&str>, password_matches: bool) -> (r: Result<(), ApiError>)
    ensures
        r == login_answer_spec(ostr_view(password_hash), password_matches),
{
    match password_hash {
        None => Err(ApiError::Unauthorized),
        Some(h) => if trim(&chars_of(h)).len() == 0 || !password_matches {
            Err(ApiError::Unauthorized)
        } else {
            Ok(())
        },
    }
}

/// A login does not tell whether an account exists: an unknown account and
/// a known one with a blank or wrong password get the same answer.
pub proof fn law_login_hides_accounts(password_hash: Seq<char>, password_matches: bool, other_matches: bool)
    requires
        trim_spec(password_hash).len() == 0 || !password_matches,
    ensures
        login_answer_spec(None, other_matches) == login_answer_spec(Some(password_hash), password_matches),
        login_answer_spec(None, other_matches) == Err::<(), ApiError>(ApiError::Unauthorized),
{
}

} // verus!
