//! Server administration: runtime settings, user and guild moderation
//! requests, backups.
use vstd::prelude::*;
use crate::text::{
    chars_of, concat, contains_char, contains_sub, contains_sub_spec, ends_with, ends_with_spec,
    is_lit, lit, parse_in_range, parse_u32, parse_u64, string_from_chars, trim, trim_spec,
    utf8_len, utf8_len_capped,
};
use crate::error::{ApiError, bad_request, is_bad_request};

verus! {

/// Longest value, in bytes, of a text setting.
pub const MAX_STRING_SETTING_LEN: usize = 256;

/// Settings that hold `true` or `false`.
pub open spec fn is_bool_setting(key: Seq<char>) -> bool {
    key == "registration_enabled"@ || key == "federation_file_cache_enabled"@
}

/// Settings that hold a per-user or per-guild limit.
pub open spec fn is_limit_setting(key: Seq<char>) -> bool {
    key == "max_guilds_per_user"@ || key == "max_members_per_guild"@
}

/// Settings that hold a size or a duration.
pub open spec fn is_size_setting(key: Seq<char>) -> bool {
    key == "max_guild_storage_quota"@ || key == "federation_file_cache_max_size"@
        || key == "federation_file_cache_ttl_hours"@
}

/// The settings an administrator may change.
pub open spec fn is_allowed_setting(key: Seq<char>) -> bool {
    is_bool_setting(key) || is_limit_setting(key) || is_size_setting(key) || key
        == "server_name"@ || key == "server_description"@
}

/// Why `value` is refused for the setting `key`, if it is.
pub open spec fn setting_error(key: Seq<char>, value: Seq<char>) -> Option<Seq<char>> {
    if is_bool_setting(key) {
        if value == "true"@ || value == "false"@ {
            None
        } else {
            Some(key + ": must be \"true\" or \"false\""@)
        }
    } else if key == "server_name"@ {
        let t = trim_spec(value);
        if t.len() == 0 || utf8_len(t) > 256 {
            Some(key + ": must be 1-256 characters"@)
        } else {
            None
        }
    } else if key == "server_description"@ {
        if utf8_len(value) > 256 {
            Some(key + ": must be at most 256 characters"@)
        } else {
            None
        }
    } else if is_limit_setting(key) {
        match parse_in_range(value, false, 0, u32::MAX as int) {
            None => Some(key + ": must be a positive integer"@),
            Some(n) => if n == 0 || n > 100000 {
                Some(key + ": must be between 1 and 100000"@)
            } else {
                None
            },
        }
    } else if is_size_setting(key) {
        match parse_in_range(value, false, 0, u64::MAX as int) {
            None => Some(key + ": must be a positive integer"@),
            Some(_) => None,
        }
    } else {
        None
    }
}

proof fn lemma_setting_keys_differ()
    ensures
        "registration_enabled"@.len() == 20,
        "federation_file_cache_enabled"@.len() == 29,
        "server_name"@.len() == 11,
        "server_description"@.len() == 18,
        "max_guilds_per_user"@.len() == 19,
        "max_members_per_guild"@.len() == 21,
        "max_guild_storage_quota"@.len() == 23,
        "federation_file_cache_max_size"@.len() == 30,
        "federation_file_cache_ttl_hours"@.len() == 31,
{
    reveal_strlit("registration_enabled");
    reveal_strlit("federation_file_cache_enabled");
    reveal_strlit("server_name");
    reveal_strlit("server_description");
    reveal_strlit("max_guilds_per_user");
    reveal_strlit("max_members_per_guild");
    reveal_strlit("max_guild_storage_quota");
    reveal_strlit("federation_file_cache_max_size");
    reveal_strlit("federation_file_cache_ttl_hours");
}

/// What each kind of setting accepts: the switches exactly `true` or
/// `false`; the storage and cache sizes and the cache lifetime any value
/// that reads as a `u64`; the per-user and per-guild limits a `u32` from 1
/// to 100000.
pub proof fn law_setting_values(key: Seq<char>, value: Seq<char>)
    ensures
        (key == "registration_enabled"@ || key == "federation_file_cache_enabled"@) ==> (setting_error(key, value)
            is None <==> (value == "true"@ || value == "false"@)),
        (key == "max_guild_storage_quota"@ || key == "federation_file_cache_max_size"@ || key
            == "federation_file_cache_ttl_hours"@) ==> (setting_error(key, value) is None
            <==> parse_in_range(value, false, 0, u64::MAX as int) is Some),
        (key == "max_guilds_per_user"@ || key == "max_members_per_guild"@) ==> (setting_error(key, value) is None
            <==> (parse_in_range(value, false, 0, u32::MAX as int) matches Some(n) && 1 <= n <= 100000)),
{
    lemma_setting_keys_differ();
}

fn message(key: &[char], tail: &str) -> (r: String)
    ensures
        r@ == key@ + tail@,
{
    string_from_chars(&concat(key, &lit(tail)))
}

/// Checks one setting's new value; the error names the setting and the rule.
pub fn validate_setting(key: &str, value: &str) -> (r: Result<(), String>)
    ensures
        match r {
            Ok(()) => setting_error(key@, value@) is None,
            Err(m) => setting_error(key@, value@) == Some(m@),
        },
{
    let k = chars_of(key);
    let v = chars_of(value);
    if is_lit(&k, "registration_enabled") || is_lit(&k, "federation_file_cache_enabled") {
        if !is_lit(&v, "true") && !is_lit(&v, "false") {
            return Err(message(&k, ": must be \"true\" or \"false\""));
        }
    } else if is_lit(&k, "server_name") {
        let t = trim(&v);
        if t.len() == 0 || utf8_len_capped(&t, MAX_STRING_SETTING_LEN) > MAX_STRING_SETTING_LEN {
            return Err(message(&k, ": must be 1-256 characters"));
        }
    } else if is_lit(&k, "server_description") {
        if utf8_len_capped(&v, MAX_STRING_SETTING_LEN) > MAX_STRING_SETTING_LEN {
            return Err(message(&k, ": must be at most 256 characters"));
        }
    } else if is_lit(&k, "max_guilds_per_user") || is_lit(&k, "max_members_per_guild") {
        match parse_u32(&v) {
            None => return Err(message(&k, ": must be a positive integer")),
            Some(n) => {
                if n == 0 || n > 100000 {
                    return Err(message(&k, ": must be between 1 and 100000"));
                }
            },
        }
    } else if is_lit(&k, "max_guild_storage_quota") || is_lit(&k, "federation_file_cache_max_size")
        || is_lit(&k, "federation_file_cache_ttl_hours") {
        if parse_u64(&v).is_none() {
            return Err(message(&k, ": must be a positive integer"));
        }
    }
    Ok(())
}

/// Whether an administrator may change the setting `key`.
pub fn allowed_setting(key: &[char]) -> (r: bool)
    ensures
        r == is_allowed_setting(key@),
{
    is_lit(key, "registration_enabled") || is_lit(key, "federation_file_cache_enabled")
        || is_lit(key, "max_guilds_per_user") || is_lit(key, "max_members_per_guild") || is_lit(
        key,
        "max_guild_storage_quota",
    ) || is_lit(key, "federation_file_cache_max_size") || is_lit(
        key,
        "federation_file_cache_ttl_hours",
    ) || is_lit(key, "server_name") || is_lit(key, "server_description")
}

/// The text of a list of setting changes.
pub open spec fn pairs_view(v: Seq<(String, String)>) -> Seq<(Seq<char>, Seq<char>)> {
    v.map_values(|p: (String, String)| (p.0@, p.1@))
}

/// The first setting of the list that may not be changed.
pub open spec fn first_unknown_setting(s: Seq<(Seq<char>, Seq<char>)>) -> Option<Seq<char>>
    decreases s.len(),
{
    if s.len() == 0 {
        None
    } else if !is_allowed_setting(s[0].0) {
        Some(s[0].0)
    } else {
        first_unknown_setting(s.drop_first())
    }
}

/// The error of the first change of the list that is refused.
pub open spec fn first_setting_error(s: Seq<(Seq<char>, Seq<char>)>) -> Option<Seq<char>>
    decreases s.len(),
{
    if s.len() == 0 {
        None
    } else if setting_error(s[0].0, s[0].1) is Some {
        setting_error(s[0].0, s[0].1)
    } else {
        first_setting_error(s.drop_first())
    }
}

/// The value stored for a setting: names and descriptions are trimmed.
pub open spec fn sanitized_value(key: Seq<char>, value: Seq<char>) -> Seq<char> {
    if key == "server_name"@ || key == "server_description"@ {
        trim_spec(value)
    } else {
        value
    }
}

/// The outcome of a settings update: every key must be known, then every
/// value valid; the stored values are sanitised.
pub open spec fn settings_update_spec(s: Seq<(Seq<char>, Seq<char>)>) -> Result<
    Seq<(Seq<char>, Seq<char>)>,
    Seq<char>,
> {
    match first_unknown_setting(s) {
        Some(k) => Err("unknown setting: \""@ + k + "\""@),
        None => match first_setting_error(s) {
            Some(m) => Err(m),
            None => Ok(
                s.map_values(|p: (Seq<char>, Seq<char>)| (p.0, sanitized_value(p.0, p.1))),
            ),
        },
    }
}

/// Checks a settings update, in the order its changes are given, and
/// returns the values to store.
pub fn check_settings_update(body: &Vec<(String, String)>) -> (r: Result<
    Vec<(String, String)>,
    ApiError,
>)
    ensures
        match r {
            Ok(out) => settings_update_spec(pairs_view(body@)) == Ok::<
                Seq<(Seq<char>, Seq<char>)>,
                Seq<char>,
            >(pairs_view(out@)),
            Err(e) => settings_update_spec(pairs_view(body@)) matches Err(m) && is_bad_request(
                e,
                m,
            ),
        },
{
    let ghost s = pairs_view(body@);
    let mut i: usize = 0;
    assert(s.skip(0) == s);
    while i < body.len()
        invariant
            i <= body@.len(),
            s == pairs_view(body@),
            first_unknown_setting(s) == first_unknown_setting(s.skip(i as int)),
        decreases body.len() - i,
    {
        let k = chars_of(body[i].0.as_str());
        assert(s[i as int] == (body@[i as int].0@, body@[i as int].1@));
        assert(s.skip(i as int)[0] == s[i as int]);
        assert(s.skip(i as int).drop_first() == s.skip(i as int + 1));
        if !allowed_setting(&k) {
            let mut m = String::from_str("unknown setting: \"");
            m.append(body[i].0.as_str());
            m.append("\"");
            return Err(ApiError::BadRequest(m));
        }
        i = i + 1;
    }
    assert(s.skip(i as int).len() == 0);
    let mut j: usize = 0;
    assert(s.skip(0) == s);
    while j < body.len()
        invariant
            j <= body@.len(),
            s == pairs_view(body@),
            first_unknown_setting(s) is None,
            first_setting_error(s) == first_setting_error(s.skip(j as int)),
        decreases body.len() - j,
    {
        assert(s[j as int] == (body@[j as int].0@, body@[j as int].1@));
        assert(s.skip(j as int)[0] == s[j as int]);
        assert(s.skip(j as int).drop_first() == s.skip(j as int + 1));
        match validate_setting(body[j].0.as_str(), body[j].1.as_str()) {
            Ok(()) => {},
            Err(m) => {
                return Err(ApiError::BadRequest(m));
            },
        }
        j = j + 1;
    }
    assert(s.skip(j as int).len() == 0);
    let mut out: Vec<(String, String)> = Vec::new();
    let mut t: usize = 0;
    while t < body.len()
        invariant
            t <= body@.len(),
            s == pairs_view(body@),
            out@.len() == t,
            pairs_view(out@) == s.take(t as int).map_values(
                |p: (Seq<char>, Seq<char>)| (p.0, sanitized_value(p.0, p.1)),
            ),
        decreases body.len() - t,
    {
        let key = body[t].0.clone();
        let k = chars_of(key.as_str());
        let value = if is_lit(&k, "server_name") || is_lit(&k, "server_description") {
            string_from_chars(&trim(&chars_of(body[t].1.as_str())))
        } else {
            body[t].1.clone()
        };
        assert(s[t as int] == (body@[t as int].0@, body@[t as int].1@));
        let ghost kv = key@;
        let ghost vv = value@;
        assert(kv == s[t as int].0);
        assert(vv == sanitized_value(s[t as int].0, s[t as int].1));
        let ghost prev = out@;
        out.push((key, value));
        proof {
            assert(out@ == prev.push(out@[t as int]));
            assert(pairs_view(out@)[t as int] == (kv, vv));
            assert(s.take(t as int + 1) == s.take(t as int).push(s[t as int]));
            let f = |p: (Seq<char>, Seq<char>)| (p.0, sanitized_value(p.0, p.1));
            assert forall|i: int| 0 <= i < t implies #[trigger] pairs_view(out@)[i] == s.take(
                t as int + 1,
            ).map_values(f)[i] by {
                assert(out@[i] == prev[i]);
                assert(pairs_view(prev)[i] == s.take(t as int).map_values(f)[i]);
                assert(s.take(t as int)[i] == s.take(t as int + 1)[i]);
            }
            assert(pairs_view(out@) =~= s.take(t as int + 1).map_values(
                |p: (Seq<char>, Seq<char>)| (p.0, sanitized_value(p.0, p.1)),
            ));
        }
        t = t + 1;
    }
    assert(s.take(t as int) == s);
    Ok(out)
}

// ---------------------------------------------------------------------------
// Listings
// ---------------------------------------------------------------------------

pub struct SecurityEventsQuery {
    pub before: Option<i64>,
    pub limit: Option<i64>,
    pub action: Option<String>,
}

/// How many security events one page lists: 100 unless asked, and always
/// between 1 and 500.
pub fn security_events_limit(limit: Option<i64>) -> (r: i64)
    ensures
        r == (match limit {
            None => 100,
            Some(l) => if l < 1 {
                1
            } else if l > 500 {
                500
            } else {
                l
            },
        }),
{
    let l = match limit {
        Some(l) => l,
        None => 100,
    };
    if l < 1 {
        1
    } else if l > 500 {
        500
    } else {
        l
    }
}

pub struct PaginationParams {
    pub offset: Option<i64>,
    pub limit: Option<i64>,
}

/// Offset and page size of a user listing: from the start, 50 a page, at
/// most 100.
pub fn user_page(params: &PaginationParams) -> (r: (i64, i64))
    ensures
        r.0 == (match params.offset {
            Some(o) => o,
            None => 0,
        }),
        r.1 == (match params.limit {
            Some(l) => if l < 100 {
                l
            } else {
                100
            },
            None => 50,
        }),
{
    let offset = match params.offset {
        Some(o) => o,
        None => 0,
    };
    let limit = match params.limit {
        Some(l) => if l < 100 {
            l
        } else {
            100
        },
        None => 50,
    };
    (offset, limit)
}

// ---------------------------------------------------------------------------
// Users and guilds
// ---------------------------------------------------------------------------

pub struct UpdateUserRequest {
    pub flags: Option<i32>,
}

/// The flags to store for a user. `keeps_admin` says whether the new flags
/// still mark an administrator; an administrator may not remove that from
/// their own account.
pub fn check_user_flags_update(
    user_id: i64,
    admin_user_id: i64,
    body: &UpdateUserRequest,
    keeps_admin: bool,
) -> (r: Result<i32, ApiError>)
    ensures
        match body.flags {
            None => r matches Err(e) && is_bad_request(e, "No updates provided"@),
            Some(f) => if user_id == admin_user_id && !keeps_admin {
                r matches Err(e) && is_bad_request(e, "Cannot remove your own admin status"@)
            } else {
                r == Ok::<i32, ApiError>(f)
            },
        },
{
    match body.flags {
        Some(f) => {
            if user_id == admin_user_id && !keeps_admin {
                return Err(bad_request("Cannot remove your own admin status"));
            }
            Ok(f)
        },
        None => Err(bad_request("No updates provided")),
    }
}

/// An administrator may delete any account but their own.
pub fn check_user_delete(user_id: i64, admin_user_id: i64) -> (r: Result<(), ApiError>)
    ensures
        r is Ok <==> user_id != admin_user_id,
        r matches Err(e) ==> is_bad_request(e, "Cannot delete yourself"@),
{
    if user_id == admin_user_id {
        return Err(bad_request("Cannot delete yourself"));
    }
    Ok(())
}

pub struct UpdateGuildRequest {
    pub name: Option<String>,
    pub description: Option<String>,
    pub icon: Option<String>,
}

// ---------------------------------------------------------------------------
// Backups
// ---------------------------------------------------------------------------

pub struct CreateBackupRequest {
    pub include_media: Option<bool>,
}

/// A backup includes media unless the request says otherwise.
pub fn backup_include_media(body: &Option<CreateBackupRequest>) -> (r: bool)
    ensures
        r == (match body {
            Some(b) => match b.include_media {
                Some(m) => m,
                None => true,
            },
            None => true,
        }),
{
    match body {
        Some(b) => match b.include_media {
            Some(m) => m,
            None => true,
        },
        None => true,
    }
}

pub struct RestoreBackupRequest {
    pub name: String,
}

/// A backup name names a file of the backup directory: no `..`, no path
/// separator.
pub open spec fn backup_name_ok(name: Seq<char>) -> bool {
    !contains_sub_spec(name, ".."@) && !name.contains('/') && !name.contains('\\')
}

/// Checks the name of a backup to restore.
pub fn validate_backup_name(name: &str) -> (r: Result<(), ApiError>)
    ensures
        r is Ok <==> backup_name_ok(name@),
        r matches Err(e) ==> is_bad_request(e, "Invalid backup name"@),
{
    let v = chars_of(name);
    if contains_sub(&v, &lit("..")) || contains_char(&v, '/') || contains_char(&v, '\\') {
        return Err(bad_request("Invalid backup name"));
    }
    Ok(())
}

/// Checks the name of a backup file to download or delete: a valid name
/// that ends in `.tar.gz`.
pub fn validate_backup_filename(name: &str) -> (r: Result<(), ApiError>)
    ensures
        r is Ok <==> backup_name_ok(name@) && ends_with_spec(name@, ".tar.gz"@),
        r matches Err(e) ==> if backup_name_ok(name@) {
            is_bad_request(e, "Invalid backup filename"@)
        } else {
            is_bad_request(e, "Invalid backup name"@)
        },
{
    validate_backup_name(name)?;
    if !ends_with(&chars_of(name), &lit(".tar.gz")) {
        return Err(bad_request("Invalid backup filename"));
    }
    Ok(())
}

/// The `Content-Disposition` header of a backup download.
pub fn backup_content_disposition(name: &str) -> (r: String)
    ensures
        r@ == "attachment; filename=\""@ + name@ + "\""@,
{
    let mut s = String::from_str("attachment; filename=\"");
    s.append(name);
    s.append("\"");
    s
}

} // verus!
