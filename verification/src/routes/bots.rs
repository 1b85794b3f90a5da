//! Bot applications: the checks on their names, descriptions, redirect
//! URIs and permission bits, and the credentials made for a new bot.
use vstd::prelude::*;
use crate::text::{ostr_view, ostring_view};
use crate::text::{
    chars_of, concat, contains_sub, contains_sub_spec, hex_lower, hex_lower_spec, i64_decimal,
    int_decimal, is_lit, lit, lower_spec, parse_i64, parse_in_range, string_from_chars,
    to_ascii_lower, trim, trim_spec, utf8_len, utf8_len_capped,
};
use crate::error::{ApiError, bad_request, is_bad_request};
use crate::trusted::{os_rng_bytes, url_parse, url_parse_spec, rfc3339_utc, rfc3339_utc_spec};
use crate::json::{Json, get_spec, member, obj_push, object_keys, opt_as_str, text_or_null};

verus! {

/// Longest bot name, in bytes.
pub const MAX_BOT_NAME_LEN: usize = 80;

/// Longest bot description, in bytes.
pub const MAX_BOT_DESCRIPTION_LEN: usize = 400;

/// Longest redirect URI, in bytes.
pub const MAX_REDIRECT_URI_LEN: usize = 2000;

/// Text that, ignoring ASCII case, holds a script tag, a `javascript:`
/// URL, an `onerror=` or `onload=` handler, or an iframe.
pub open spec fn dangerous_markup_spec(value: Seq<char>) -> bool {
    let l = lower_spec(value);
    ||| contains_sub_spec(l, "<script"@)
    ||| contains_sub_spec(l, "javascript:"@)
    ||| contains_sub_spec(l, "onerror="@)
    ||| contains_sub_spec(l, "onload="@)
    ||| contains_sub_spec(l, "<iframe"@)
}

pub fn contains_dangerous_markup(value: &str) -> (r: bool)
    ensures
        r == dangerous_markup_spec(value@),
{
    let l = to_ascii_lower(&chars_of(value));
    contains_sub(&l, &lit("<script")) || contains_sub(&l, &lit("javascript:")) || contains_sub(
        &l,
        &lit("onerror="),
    ) || contains_sub(&l, &lit("onload=")) || contains_sub(&l, &lit("<iframe"))
}

/// A bot token: 32 bytes from the operating system's generator, in
/// lowercase hexadecimal.
pub fn generate_secure_token() -> (r: String)
    ensures
        exists|b: Seq<u8>| b.len() == 32 && r@ == hex_lower_spec(b),
{
    let bytes = os_rng_bytes(32);
    string_from_chars(&hex_lower(&bytes))
}

/// Permission bits given as text: a trimmed decimal `i64`, not negative.
pub open spec fn permission_bits_spec(raw: Seq<char>) -> Option<i64> {
    match parse_in_range(trim_spec(raw), true, i64::MIN as int, i64::MAX as int) {
        Some(n) => if n >= 0 {
            Some(n as i64)
        } else {
            None
        },
        None => None,
    }
}

pub fn parse_permission_bits(raw: &str, field_name: &str) -> (r: Result<i64, ApiError>)
    ensures
        match r {
            Ok(n) => permission_bits_spec(raw@) == Some(n),
            Err(e) => permission_bits_spec(raw@) is None && is_bad_request(
                e,
                if parse_in_range(trim_spec(raw@), true, i64::MIN as int, i64::MAX as int) is None {
                    "Invalid "@ + field_name@
                } else {
                    field_name@ + " must be a non-negative integer"@
                },
            ),
        },
{
    let parsed = match parse_i64(&trim(&chars_of(raw))) {
        Some(n) => n,
        None => {
            let mut m = String::from_str("Invalid ");
            m.append(field_name);
            return Err(ApiError::BadRequest(m));
        },
    };
    if parsed < 0 {
        let mut m = String::from_str(field_name);
        m.append(" must be a non-negative integer");
        return Err(ApiError::BadRequest(m));
    }
    Ok(parsed)
}

/// Why a redirect URI is refused, if it is. It is trimmed, at most 2000
/// bytes, a URL with a host, without user information or fragment, and
/// `https` (or `http` to `localhost`, `127.0.0.1` or `::1`).
pub open spec fn redirect_uri_error(raw: Seq<char>) -> Option<Seq<char>> {
    let t = trim_spec(raw);
    if utf8_len(t) > 2000 {
        Some("redirect_uri too long"@)
    } else {
        match url_parse_spec(t) {
            None => Some("redirect_uri is not a valid URL"@),
            Some((scheme, host, _port, username, password, fragment, _path)) => match host {
                None => Some("redirect_uri must include a host"@),
                Some(h) => if username.len() > 0 || password is Some {
                    Some("redirect_uri must not include userinfo"@)
                } else if fragment is Some {
                    Some("redirect_uri must not include URL fragments"@)
                } else if scheme == "https"@ || (scheme == "http"@ && (h == "localhost"@ || h
                    == "127.0.0.1"@ || h == "::1"@)) {
                    None
                } else {
                    Some("redirect_uri must use https (localhost http allowed for development)"@)
                },
            },
        }
    }
}

pub fn validate_redirect_uri(raw: &str) -> (r: Result<String, ApiError>)
    ensures
        match r {
            Ok(s) => redirect_uri_error(raw@) is None && s@ == trim_spec(raw@),
            Err(e) => redirect_uri_error(raw@) matches Some(m) && is_bad_request(e, m),
        },
{
    let t = trim(&chars_of(raw));
    if utf8_len_capped(&t, MAX_REDIRECT_URI_LEN) > MAX_REDIRECT_URI_LEN {
        return Err(bad_request("redirect_uri too long"));
    }
    let trimmed = string_from_chars(&t);
    let parts = match url_parse(trimmed.as_str()) {
        Some(p) => p,
        None => return Err(bad_request("redirect_uri is not a valid URL")),
    };
    let host = match &parts.host {
        Some(h) => chars_of(h.as_str()),
        None => return Err(bad_request("redirect_uri must include a host")),
    };
    if chars_of(parts.username.as_str()).len() > 0 || parts.password.is_some() {
        return Err(bad_request("redirect_uri must not include userinfo"));
    }
    if parts.fragment.is_some() {
        return Err(bad_request("redirect_uri must not include URL fragments"));
    }
    let scheme = chars_of(parts.scheme.as_str());
    let ok = is_lit(&scheme, "https") || (is_lit(&scheme, "http") && (is_lit(&host, "localhost")
        || is_lit(&host, "127.0.0.1") || is_lit(&host, "::1")));
    if !ok {
        return Err(bad_request("redirect_uri must use https (localhost http allowed for development)"));
    }
    Ok(trimmed)
}

/// Why a bot's name or description is refused, if it is: the name,
/// trimmed, must hold 1 to 80 bytes and no unsafe markup; the description
/// at most 400 bytes and no unsafe markup.
pub open spec fn bot_fields_error(name: Option<Seq<char>>, description: Option<Seq<char>>) -> Option<
    Seq<char>,
> {
    let name_error = match name {
        Some(n) => {
            let t = trim_spec(n);
            if t.len() == 0 || utf8_len(t) > 80 {
                Some("Bot name must be between 1 and 80 characters"@)
            } else if dangerous_markup_spec(t) {
                Some("Bot name contains unsafe markup"@)
            } else {
                None
            }
        },
        None => None,
    };
    match name_error {
        Some(e) => Some(e),
        None => match description {
            Some(d) => if utf8_len(d) > 400 {
                Some("Description too long"@)
            } else if dangerous_markup_spec(d) {
                Some("Description contains unsafe markup"@)
            } else {
                None
            },
            None => None,
        },
    }
}

/// Checks the name (when given) and description (when given) of a bot.
pub fn validate_bot_fields(name: Option<&str>, description: Option<&str>) -> (r: Result<(), ApiError>)
    ensures
        match r {
            Ok(()) => bot_fields_error(ostr_view(name), ostr_view(description)) is None,
            Err(e) => bot_fields_error(ostr_view(name), ostr_view(description)) matches Some(m)
                && is_bad_request(e, m),
        },
{
    if let Some(n) = name {
        let t = trim(&chars_of(n));
        if t.len() == 0 || utf8_len_capped(&t, MAX_BOT_NAME_LEN) > MAX_BOT_NAME_LEN {
            return Err(bad_request("Bot name must be between 1 and 80 characters"));
        }
        if contains_dangerous_markup(string_from_chars(&t).as_str()) {
            return Err(bad_request("Bot name contains unsafe markup"));
        }
    }
    if let Some(d) = description {
        if utf8_len_capped(&chars_of(d), MAX_BOT_DESCRIPTION_LEN) > MAX_BOT_DESCRIPTION_LEN {
            return Err(bad_request("Description too long"));
        }
        if contains_dangerous_markup(d) {
            return Err(bad_request("Description contains unsafe markup"));
        }
    }
    Ok(())
}

/// `x % 9000` as Rust computes it on a signed number: the remainder takes
/// the sign of `x`.
pub open spec fn rem_9000(x: i64) -> int {
    if x >= 0 {
        (x as int) % 9000
    } else {
        -((-(x as int)) % 9000)
    }
}

/// The discriminator of a new bot user: `(id % 9000) + 1000`.
pub fn bot_discriminator(bot_user_id: i64) -> (r: i16)
    ensures
        r as int == rem_9000(bot_user_id) + 1000,
{
    let m: i64 = if bot_user_id >= 0 {
        bot_user_id % 9000
    } else if bot_user_id == i64::MIN {
        -((i64::MAX % 9000 + 1) % 9000)
    } else {
        -((-bot_user_id) % 9000)
    };
    proof {
        if bot_user_id == i64::MIN {
            assert((-(bot_user_id as int)) % 9000 == ((i64::MAX as int) % 9000 + 1) % 9000);
        }
    }
    (m + 1000) as i16
}

/// The username of a new bot user: `bot-<application id>`.
pub fn bot_username(app_id: i64) -> (r: String)
    ensures
        r@ == "bot-"@ + int_decimal(app_id as int),
{
    let mut s = String::from_str("bot-");
    s.append(string_from_chars(&i64_decimal(app_id)).as_str());
    s
}

/// The e-mail address of a new bot user.
pub fn bot_email(bot_user_id: i64) -> (r: String)
    ensures
        r@ == "bot-"@ + int_decimal(bot_user_id as int) + "@bots.paracord.local"@,
{
    let mut s = String::from_str("bot-");
    s.append(string_from_chars(&i64_decimal(bot_user_id)).as_str());
    s.append("@bots.paracord.local");
    s
}

pub struct CreateBotApplicationRequest {
    pub name: String,
    pub description: Option<String>,
    pub redirect_uri: Option<String>,
    pub permissions: Option<String>,
}

pub struct UpdateBotApplicationRequest {
    pub name: Option<String>,
    pub description: Option<String>,
    pub redirect_uri: Option<String>,
}

pub struct OAuth2AuthorizeRequest {
    pub application_id: String,
    pub guild_id: String,
    pub permissions: Option<String>,
    pub redirect_uri: Option<String>,
    pub state: Option<String>,
}

/// An authorization request as read: application id, guild id, requested
/// permissions and redirect URI.
pub open spec fn authorize_request_spec(
    application_id: Seq<char>,
    guild_id: Seq<char>,
    permissions: Option<Seq<char>>,
    redirect_uri: Option<Seq<char>>,
) -> Result<(i64, i64, Option<i64>, Option<Seq<char>>), Seq<char>> {
    match parse_in_range(application_id, true, i64::MIN as int, i64::MAX as int) {
        None => Err("Invalid application_id"@),
        Some(a) => match parse_in_range(guild_id, true, i64::MIN as int, i64::MAX as int) {
            None => Err("Invalid guild_id"@),
            Some(g) => {
                let perms: Result<Option<i64>, Seq<char>> = match permissions {
                    None => Ok(None),
                    Some(p) => match permission_bits_spec(p) {
                        Some(n) => Ok(Some(n)),
                        None => Err(
                            if parse_in_range(trim_spec(p), true, i64::MIN as int, i64::MAX as int) is None {
                                "Invalid permissions"@
                            } else {
                                "permissions must be a non-negative integer"@
                            },
                        ),
                    },
                };
                match perms {
                    Err(m) => Err(m),
                    Ok(pm) => match redirect_uri {
                        None => Ok((a as i64, g as i64, pm, None)),
                        Some(u) => match redirect_uri_error(u) {
                            Some(m) => Err(m),
                            None => Ok((a as i64, g as i64, pm, Some(trim_spec(u)))),
                        },
                    },
                }
            },
        },
    }
}

/// Reads an authorization request: ids, permissions and redirect URI,
/// checked in that order.
pub fn parse_oauth2_authorize(body: &OAuth2AuthorizeRequest) -> (r: Result<
    (i64, i64, Option<i64>, Option<String>),
    ApiError,
>)
    ensures
        match r {
            Ok((a, g, p, u)) => authorize_request_spec(
                body.application_id@,
                body.guild_id@,
                ostring_view(body.permissions),
                ostring_view(body.redirect_uri),
            ) == Ok::<(i64, i64, Option<i64>, Option<Seq<char>>), Seq<char>>(
                (a, g, p, ostring_view(u)),
            ),
            Err(e) => authorize_request_spec(
                body.application_id@,
                body.guild_id@,
                ostring_view(body.permissions),
                ostring_view(body.redirect_uri),
            ) matches Err(m) && is_bad_request(e, m),
        },
{
    proof {
        reveal_strlit("permissions");
        reveal_strlit("Invalid ");
        reveal_strlit("Invalid permissions");
        reveal_strlit(" must be a non-negative integer");
        reveal_strlit("permissions must be a non-negative integer");
    }
    let a = match parse_i64(&chars_of(body.application_id.as_str())) {
        Some(a) => a,
        None => return Err(bad_request("Invalid application_id")),
    };
    let g = match parse_i64(&chars_of(body.guild_id.as_str())) {
        Some(g) => g,
        None => return Err(bad_request("Invalid guild_id")),
    };
    let p = match &body.permissions {
        Some(raw) => match parse_permission_bits(raw.as_str(), "permissions") {
            Ok(n) => Some(n),
            Err(e) => {
                assert("Invalid "@ + "permissions"@ =~= "Invalid permissions"@);
                assert("permissions"@ + " must be a non-negative integer"@
                    =~= "permissions must be a non-negative integer"@);
                return Err(e);
            },
        },
        None => None,
    };
    let u = match &body.redirect_uri {
        Some(raw) => match validate_redirect_uri(raw.as_str()) {
            Ok(s) => Some(s),
            Err(e) => return Err(e),
        },
        None => None,
    };
    Ok((a, g, p, u))
}

/// A redirect URI given with an authorization must be the application's.
pub fn check_redirect_matches(app_redirect_uri: Option<&str>, requested: Option<&str>) -> (r: Result<
    (),
    ApiError,
>)
    ensures
        r is Ok <==> (requested matches Some(q) ==> ostr_view(app_redirect_uri) == Some(q@)),
        r matches Err(e) ==> is_bad_request(e, "redirect_uri does not match application configuration"@),
{
    match requested {
        Some(q) => {
            let ok = match app_redirect_uri {
                Some(a) => crate::text::seq_eq(&chars_of(a), &chars_of(q)),
                None => false,
            };
            if !ok {
                return Err(bad_request("redirect_uri does not match application configuration"));
            }
            Ok(())
        },
        None => Ok(()),
    }
}

/// A bot application as stored. Times are `(seconds, nanoseconds)` since
/// the Unix epoch.
pub struct BotApplicationRow {
    pub id: i64,
    pub name: String,
    pub description: Option<String>,
    pub owner_id: i64,
    pub bot_user_id: i64,
    pub redirect_uri: Option<String>,
    pub permissions: i64,
    pub created_at: (i64, u32),
    pub updated_at: (i64, u32),
}

proof fn lemma_bot_app_keys_differ()
    ensures
        "id"@.len() == 2,
        "name"@.len() == 4,
        "description"@.len() == 11,
        "owner_id"@.len() == 8,
        "bot_user_id"@.len() == 11 && "bot_user_id"@[0] == 'b' && "description"@[0] == 'd',
        "redirect_uri"@.len() == 12,
        "permissions"@.len() == 11 && "permissions"@[0] == 'p',
        "created_at"@.len() == 10 && "created_at"@[0] == 'c',
        "updated_at"@.len() == 10 && "updated_at"@[0] == 'u',
        "token"@.len() == 5,
{
    reveal_strlit("id");
    reveal_strlit("name");
    reveal_strlit("description");
    reveal_strlit("owner_id");
    reveal_strlit("bot_user_id");
    reveal_strlit("redirect_uri");
    reveal_strlit("permissions");
    reveal_strlit("created_at");
    reveal_strlit("updated_at");
    reveal_strlit("token");
}

/// A bot application as the API shows it, with its token only when one is
/// given (on creation and regeneration); `None` only where one of its times
/// has no RFC 3339 form.
pub fn bot_app_to_json(row: &BotApplicationRow, token: Option<&str>) -> (j: Option<Json>)
    ensures
        j is Some <==> (rfc3339_utc_spec(row.created_at.0, row.created_at.1) is Some
            && rfc3339_utc_spec(row.updated_at.0, row.updated_at.1) is Some),
        j matches Some(v) ==> {
            &&& object_keys(v) == seq![
                "id"@,
                "name"@,
                "description"@,
                "owner_id"@,
                "bot_user_id"@,
                "redirect_uri"@,
                "permissions"@,
                "created_at"@,
                "updated_at"@,
            ] + (if token is Some { seq!["token"@] } else { Seq::empty() })
            &&& opt_as_str(get_spec(v, "id"@)) == Some(int_decimal(row.id as int))
            &&& opt_as_str(get_spec(v, "name"@)) == Some(row.name@)
            &&& text_or_null(get_spec(v, "description"@), ostring_view(row.description))
            &&& opt_as_str(get_spec(v, "owner_id"@)) == Some(int_decimal(row.owner_id as int))
            &&& opt_as_str(get_spec(v, "bot_user_id"@)) == Some(int_decimal(row.bot_user_id as int))
            &&& text_or_null(get_spec(v, "redirect_uri"@), ostring_view(row.redirect_uri))
            &&& opt_as_str(get_spec(v, "permissions"@)) == Some(int_decimal(row.permissions as int))
            &&& opt_as_str(get_spec(v, "created_at"@)) == rfc3339_utc_spec(row.created_at.0, row.created_at.1)
            &&& opt_as_str(get_spec(v, "updated_at"@)) == rfc3339_utc_spec(row.updated_at.0, row.updated_at.1)
            &&& match token {
                Some(t) => opt_as_str(get_spec(v, "token"@)) == Some(t@),
                None => get_spec(v, "token"@) is None,
            }
        },
{
    proof {
        lemma_bot_app_keys_differ();
    }
    let created = match rfc3339_utc(row.created_at.0, row.created_at.1) {
        Some(t) => t,
        None => return None,
    };
    let updated = match rfc3339_utc(row.updated_at.0, row.updated_at.1) {
        Some(t) => t,
        None => return None,
    };
    let description = match &row.description {
        Some(d) => Json::Str(d.clone()),
        None => Json::Null,
    };
    let redirect = match &row.redirect_uri {
        Some(d) => Json::Str(d.clone()),
        None => Json::Null,
    };
    let mut f: Vec<(String, Json)> = Vec::new();
    proof {
        assert forall|k: Seq<char>| #[trigger] member(f@, k) is None by {}
    }
    obj_push(&mut f, "id", Json::Str(string_from_chars(&i64_decimal(row.id))));
    obj_push(&mut f, "name", Json::Str(row.name.clone()));
    obj_push(&mut f, "description", description);
    obj_push(&mut f, "owner_id", Json::Str(string_from_chars(&i64_decimal(row.owner_id))));
    obj_push(&mut f, "bot_user_id", Json::Str(string_from_chars(&i64_decimal(row.bot_user_id))));
    obj_push(&mut f, "redirect_uri", redirect);
    obj_push(&mut f, "permissions", Json::Str(string_from_chars(&i64_decimal(row.permissions))));
    obj_push(&mut f, "created_at", Json::Str(created));
    obj_push(&mut f, "updated_at", Json::Str(updated));
    if let Some(t) = token {
        obj_push(&mut f, "token", Json::Str(String::from_str(t)));
    }
    let v = Json::Object(f);
    proof {
        assert(object_keys(v) =~= seq![
            "id"@,
            "name"@,
            "description"@,
            "owner_id"@,
            "bot_user_id"@,
            "redirect_uri"@,
            "permissions"@,
            "created_at"@,
            "updated_at"@,
        ] + (if token is Some { seq!["token"@] } else { Seq::empty() }));
    }
    Some(v)
}

} // verus!
