//! Application (slash) commands: the checks on names, descriptions and
//! nested options.
use vstd::prelude::*;
use crate::text::{chars_of, parse_i64, parse_in_range, string_from_chars, trim, trim_spec, utf8_len, utf8_len_capped};
use crate::error::{ApiError, bad_request, is_bad_request};
use crate::json::{Json, get_spec, member, obj_push, object_keys, opt_as_str, text_or_null};
use crate::text::{i64_decimal, int_decimal};
use crate::trusted::{rfc3339_utc, rfc3339_utc_spec};
use crate::trusted::{char_is_alphanumeric, is_alphanumeric_spec, str_to_lowercase, to_lowercase_spec};

verus! {

/// Longest command or option name, in bytes.
pub const MAX_COMMAND_NAME_LEN: usize = 32;

/// Longest command description, in bytes.
pub const MAX_COMMAND_DESCRIPTION_LEN: usize = 100;

/// Most options at one level of a command.
pub const MAX_OPTIONS: usize = 25;

/// Most choices of one option.
pub const MAX_CHOICES_PER_OPTION: usize = 25;

/// Most commands of one application in one scope (global or a guild).
pub const MAX_COMMANDS_PER_SCOPE: usize = 100;

/// A character allowed in command names: alphanumeric, `_` or `-`.
pub open spec fn is_name_char(c: char) -> bool {
    is_alphanumeric_spec(c) || c == '_' || c == '-'
}

pub open spec fn all_name_chars(s: Seq<char>) -> bool {
    forall|i: int| 0 <= i < s.len() ==> is_name_char(#[trigger] s[i])
}

fn all_name_chars_exec(v: &[char]) -> (r: bool)
    ensures
        r == all_name_chars(v@),
{
    let mut i: usize = 0;
    while i < v.len()
        invariant
            i <= v@.len(),
            forall|k: int| 0 <= k < i ==> is_name_char(#[trigger] v@[k]),
        decreases v.len() - i,
    {
        let c = v[i];
        if !(char_is_alphanumeric(c) || c == '_' || c == '-') {
            assert(!is_name_char(v@[i as int]));
            return false;
        }
        i = i + 1;
    }
    true
}

/// Why a command name is refused, if it is: 1 to 32 characters, name
/// characters only.
pub open spec fn command_name_error(name: Seq<char>) -> Option<Seq<char>> {
    if name.len() == 0 || name.len() > 32 {
        Some("Command name must be between 1 and 32 characters"@)
    } else if !all_name_chars(name) {
        Some("Command name must match ^[\\w-]{1,32}$"@)
    } else {
        None
    }
}

pub fn validate_command_name(name: &str) -> (r: Result<(), ApiError>)
    ensures
        match r {
            Ok(()) => command_name_error(name@) is None,
            Err(e) => command_name_error(name@) matches Some(m) && is_bad_request(e, m),
        },
{
    let v = chars_of(name);
    if v.len() == 0 || v.len() > MAX_COMMAND_NAME_LEN {
        return Err(bad_request("Command name must be between 1 and 32 characters"));
    }
    if !all_name_chars_exec(&v) {
        return Err(bad_request("Command name must match ^[\\w-]{1,32}$"));
    }
    Ok(())
}

/// A command description holds 1 to 100 bytes.
pub fn validate_command_description(desc: &str) -> (r: Result<(), ApiError>)
    ensures
        r is Ok <==> (desc@.len() > 0 && utf8_len(desc@) <= 100),
        r matches Err(e) ==> is_bad_request(
            e,
            "Command description must be between 1 and 100 characters"@,
        ),
{
    let v = chars_of(desc);
    if v.len() == 0 || utf8_len_capped(&v, MAX_COMMAND_DESCRIPTION_LEN) > MAX_COMMAND_DESCRIPTION_LEN {
        return Err(bad_request("Command description must be between 1 and 100 characters"));
    }
    Ok(())
}

/// The stored name of a command: trimmed, then lowercased.
pub fn normalize_command_name(name: &str) -> (r: String)
    ensures
        r@ == to_lowercase_spec(trim_spec(name@)),
{
    let t = string_from_chars(&trim(&chars_of(name)));
    str_to_lowercase(t.as_str())
}

/// An application has room for one more command in a scope that holds
/// `existing` commands.
pub fn check_command_scope_limit(existing: usize) -> (r: Result<(), ApiError>)
    ensures
        r is Ok <==> existing < 100,
        r matches Err(e) ==> is_bad_request(e, "Maximum 100 commands per scope"@),
{
    if existing >= MAX_COMMANDS_PER_SCOPE {
        return Err(bad_request("Maximum 100 commands per scope"));
    }
    Ok(())
}

/// `default_member_permissions`, given as decimal text.
pub fn parse_default_member_permissions(raw: Option<&str>) -> (r: Result<Option<i64>, ApiError>)
    ensures
        match raw {
            None => r == Ok::<Option<i64>, ApiError>(None),
            Some(s) => match parse_in_range(s@, true, i64::MIN as int, i64::MAX as int) {
                Some(n) => r == Ok::<Option<i64>, ApiError>(Some(n as i64)),
                None => r matches Err(e) && is_bad_request(e, "Invalid default_member_permissions"@),
            },
        },
{
    match raw {
        None => Ok(None),
        Some(s) => match parse_i64(&chars_of(s)) {
            Some(n) => Ok(Some(n)),
            None => Err(bad_request("Invalid default_member_permissions")),
        },
    }
}

// ---------------------------------------------------------------------------
// Options
// ---------------------------------------------------------------------------

/// The number of values in a JSON value, counting itself.
pub open spec fn json_size(j: Json) -> nat
    decreases j,
{
    match j {
        Json::Array(v) => 1 + items_size(v@),
        Json::Object(f) => 1 + fields_size(f@),
        _ => 1,
    }
}

pub open spec fn items_size(s: Seq<Json>) -> nat
    decreases s,
{
    if s.len() == 0 {
        0
    } else {
        json_size(s[0]) + items_size(s.drop_first())
    }
}

pub open spec fn fields_size(s: Seq<(String, Json)>) -> nat
    decreases s,
{
    if s.len() == 0 {
        0
    } else {
        json_size(s[0].1) + fields_size(s.drop_first())
    }
}

/// A member's value is no larger than the members together.
pub proof fn lemma_member_size(f: Seq<(String, Json)>, key: Seq<char>)
    ensures
        member(f, key) matches Some(j) ==> json_size(j) <= fields_size(f),
    decreases f.len(),
{
    if f.len() > 0 {
        lemma_member_size(f.drop_first(), key);
    }
}

/// An element is no larger than the list.
pub proof fn lemma_item_size(s: Seq<Json>, i: int)
    requires
        0 <= i < s.len(),
    ensures
        json_size(s[i]) <= items_size(s),
    decreases s.len(),
{
    if i > 0 {
        lemma_item_size(s.drop_first(), i - 1);
        assert(s.drop_first()[i - 1] == s[i]);
    }
}

/// The nested options of an option, when it has an array of them.
pub open spec fn nested_options(opt: Json) -> Option<Seq<Json>> {
    match get_spec(opt, "options"@) {
        Some(Json::Array(v)) => Some(v@),
        _ => None,
    }
}

/// Nested options are smaller than the option that holds them.
pub proof fn lemma_nested_smaller(opt: Json)
    ensures
        nested_options(opt) matches Some(v) ==> items_size(v) < json_size(opt),
{
    if let Json::Object(f) = opt {
        lemma_member_size(f@, "options"@);
    }
}

/// Why one option's own fields are refused, if they are: a text `name` of
/// 1 to 32 bytes and name characters; an array of `choices` of at most 25.
pub open spec fn option_fields_error(opt: Json) -> Option<Seq<char>> {
    let name_error = match get_spec(opt, "name"@) {
        Some(Json::Str(n)) => if n@.len() == 0 || utf8_len(n@) > 32 {
            Some("Option name must be between 1 and 32 characters"@)
        } else if !all_name_chars(n@) {
            Some("Option name must match ^[\\w-]{1,32}$"@)
        } else {
            None
        },
        _ => None,
    };
    match name_error {
        Some(e) => Some(e),
        None => match get_spec(opt, "choices"@) {
            Some(Json::Array(c)) => if c@.len() > 25 {
                Some("Maximum 25 choices per option"@)
            } else {
                None
            },
            _ => None,
        },
    }
}

/// Why a list of options is refused, if it is: more than 25, or the first
/// option refused (its fields, then its nested options), in order.
pub open spec fn options_error(opts: Seq<Json>) -> Option<Seq<char>>
    decreases items_size(opts), 1nat,
{
    if opts.len() > 25 {
        Some("Maximum 25 options allowed"@)
    } else {
        option_list_error(opts)
    }
}

pub open spec fn option_list_error(opts: Seq<Json>) -> Option<Seq<char>>
    decreases items_size(opts), 0nat,
{
    if opts.len() == 0 {
        None
    } else {
        match option_fields_error(opts[0]) {
            Some(e) => Some(e),
            None => {
                let nested_error = match nested_options(opts[0]) {
                    Some(v) => {
                        proof {
                            lemma_nested_smaller(opts[0]);
                        }
                        options_error(v)
                    },
                    None => None,
                };
                match nested_error {
                    Some(e) => Some(e),
                    None => {
                        proof {
                            assert(json_size(opts[0]) >= 1);
                            assert(items_size(opts) == json_size(opts[0]) + items_size(
                                opts.drop_first(),
                            ));
                        }
                        option_list_error(opts.drop_first())
                    },
                }
            },
        }
    }
}

fn option_fields_check(opt: &Json) -> (r: Result<(), ApiError>)
    ensures
        match r {
            Ok(()) => option_fields_error(*opt) is None,
            Err(e) => option_fields_error(*opt) matches Some(m) && is_bad_request(e, m),
        },
{
    if let Some(Json::Str(n)) = opt.get("name") {
        let v = chars_of(n.as_str());
        if v.len() == 0 || utf8_len_capped(&v, MAX_COMMAND_NAME_LEN) > MAX_COMMAND_NAME_LEN {
            return Err(bad_request("Option name must be between 1 and 32 characters"));
        }
        if !all_name_chars_exec(&v) {
            return Err(bad_request("Option name must match ^[\\w-]{1,32}$"));
        }
    }
    if let Some(Json::Array(c)) = opt.get("choices") {
        if c.len() > MAX_CHOICES_PER_OPTION {
            return Err(bad_request("Maximum 25 choices per option"));
        }
    }
    Ok(())
}

/// Checks a command's options, and their nested options, depth first.
pub fn validate_options(options: &Vec<Json>) -> (r: Result<(), ApiError>)
    ensures
        match r {
            Ok(()) => options_error(options@) is None,
            Err(e) => options_error(options@) matches Some(m) && is_bad_request(e, m),
        },
    decreases items_size(options@),
{
    if options.len() > MAX_OPTIONS {
        return Err(bad_request("Maximum 25 options allowed"));
    }
    let ghost s = options@;
    let mut i: usize = 0;
    assert(s.skip(0) == s);
    while i < options.len()
        invariant
            i <= s.len() <= 25,
            s == options@,
            options_error(s) == option_list_error(s),
            option_list_error(s) == option_list_error(s.skip(i as int)),
        decreases options.len() - i,
    {
        let ghost rest = s.skip(i as int);
        assert(rest[0] == s[i as int]);
        assert(rest.drop_first() == s.skip(i as int + 1));
        option_fields_check(&options[i])?;
        if let Some(Json::Array(nested)) = options[i].get("options") {
            proof {
                lemma_nested_smaller(s[i as int]);
                lemma_item_size(s, i as int);
            }
            validate_options(nested)?;
        }
        i = i + 1;
    }
    assert(s.skip(i as int).len() == 0);
    Ok(())
}

// ---------------------------------------------------------------------------
// Requests
// ---------------------------------------------------------------------------

pub struct CreateCommandRequest {
    pub name: String,
    pub description: String,
    pub options: Vec<Json>,
    pub cmd_type: Option<i16>,
    pub default_member_permissions: Option<String>,
    pub dm_permission: Option<bool>,
    pub nsfw: Option<bool>,
}

pub struct UpdateCommandRequest {
    pub name: Option<String>,
    pub description: Option<String>,
    pub options: Option<Vec<Json>>,
    pub default_member_permissions: Option<String>,
    pub dm_permission: Option<bool>,
    pub nsfw: Option<bool>,
}

pub struct BulkOverwriteCommandRequest {
    pub name: String,
    pub description: String,
    pub options: Vec<Json>,
    pub cmd_type: Option<i16>,
    pub default_member_permissions: Option<String>,
    pub dm_permission: Option<bool>,
    pub nsfw: Option<bool>,
}

/// An application command as stored. `options` is the stored option list
/// as parsed JSON (`None` when absent or not valid JSON); times are
/// `(seconds, nanoseconds)` since the Unix epoch.
pub struct ApplicationCommandRow {
    pub id: i64,
    pub application_id: i64,
    pub guild_id: Option<i64>,
    pub name: String,
    pub description: String,
    pub options: Option<Json>,
    pub cmd_type: i64,
    pub default_member_permissions: Option<i64>,
    pub dm_permission: bool,
    pub nsfw: bool,
    pub version: i64,
    pub created_at: (i64, u32),
    pub updated_at: (i64, u32),
}

proof fn lemma_command_keys_differ()
    ensures
        "id"@.len() == 2,
        "application_id"@.len() == 14,
        "guild_id"@.len() == 8,
        "name"@.len() == 4 && "name"@[0] == 'n' && "type"@[0] == 't',
        "description"@.len() == 11,
        "options"@.len() == 7 && "options"@[0] == 'o' && "version"@[0] == 'v',
        "type"@.len() == 4,
        "default_member_permissions"@.len() == 26,
        "dm_permission"@.len() == 13,
        "nsfw"@.len() == 4 && "nsfw"@[0] == 'n' && "name"@[1] == 'a' && "nsfw"@[1] == 's',
        "version"@.len() == 7,
        "created_at"@.len() == 10 && "created_at"@[0] == 'c',
        "updated_at"@.len() == 10 && "updated_at"@[0] == 'u',
{
    reveal_strlit("id");
    reveal_strlit("application_id");
    reveal_strlit("guild_id");
    reveal_strlit("name");
    reveal_strlit("description");
    reveal_strlit("options");
    reveal_strlit("type");
    reveal_strlit("default_member_permissions");
    reveal_strlit("dm_permission");
    reveal_strlit("nsfw");
    reveal_strlit("version");
    reveal_strlit("created_at");
    reveal_strlit("updated_at");
}

pub open spec fn id_text(o: Option<i64>) -> Option<Seq<char>> {
    match o {
        Some(n) => Some(int_decimal(n as int)),
        None => None,
    }
}

fn opt_id_json(o: Option<i64>) -> (r: Json)
    ensures
        text_or_null(Some(r), id_text(o)),
{
    match o {
        Some(n) => Json::Str(string_from_chars(&i64_decimal(n))),
        None => Json::Null,
    }
}

/// An application command as the API shows it, its options an empty list
/// when none are stored; `None` only where one of its times has no RFC
/// 3339 form.
pub fn command_row_to_json(row: ApplicationCommandRow) -> (j: Option<Json>)
    ensures
        j is Some <==> (rfc3339_utc_spec(row.created_at.0, row.created_at.1) is Some
            && rfc3339_utc_spec(row.updated_at.0, row.updated_at.1) is Some),
        j matches Some(v) ==> {
            &&& object_keys(v) == seq![
                "id"@,
                "application_id"@,
                "guild_id"@,
                "name"@,
                "description"@,
                "options"@,
                "type"@,
                "default_member_permissions"@,
                "dm_permission"@,
                "nsfw"@,
                "version"@,
                "created_at"@,
                "updated_at"@,
            ]
            &&& opt_as_str(get_spec(v, "id"@)) == Some(int_decimal(row.id as int))
            &&& opt_as_str(get_spec(v, "application_id"@)) == Some(int_decimal(row.application_id as int))
            &&& text_or_null(get_spec(v, "guild_id"@), id_text(row.guild_id))
            &&& opt_as_str(get_spec(v, "name"@)) == Some(row.name@)
            &&& opt_as_str(get_spec(v, "description"@)) == Some(row.description@)
            &&& match row.options {
                Some(o) => get_spec(v, "options"@) == Some(o),
                None => get_spec(v, "options"@) matches Some(Json::Array(items)) && items@.len() == 0,
            }
            &&& get_spec(v, "type"@) == Some(Json::Number(Some(row.cmd_type)))
            &&& text_or_null(get_spec(v, "default_member_permissions"@), id_text(row.default_member_permissions))
            &&& get_spec(v, "dm_permission"@) == Some(Json::Bool(row.dm_permission))
            &&& get_spec(v, "nsfw"@) == Some(Json::Bool(row.nsfw))
            &&& get_spec(v, "version"@) == Some(Json::Number(Some(row.version)))
            &&& opt_as_str(get_spec(v, "created_at"@)) == rfc3339_utc_spec(row.created_at.0, row.created_at.1)
            &&& opt_as_str(get_spec(v, "updated_at"@)) == rfc3339_utc_spec(row.updated_at.0, row.updated_at.1)
        },
{
    proof {
        lemma_command_keys_differ();
    }
    let created = match rfc3339_utc(row.created_at.0, row.created_at.1) {
        Some(t) => t,
        None => return None,
    };
    let updated = match rfc3339_utc(row.updated_at.0, row.updated_at.1) {
        Some(t) => t,
        None => return None,
    };
    let ApplicationCommandRow {
        id,
        application_id,
        guild_id,
        name,
        description,
        options,
        cmd_type,
        default_member_permissions,
        dm_permission,
        nsfw,
        version,
        ..
    } = row;
    let options = match options {
        Some(o) => o,
        None => Json::Array(Vec::new()),
    };
    let mut f: Vec<(String, Json)> = Vec::new();
    proof {
        assert forall|k: Seq<char>| #[trigger] member(f@, k) is None by {}
    }
    obj_push(&mut f, "id", Json::Str(string_from_chars(&i64_decimal(id))));
    obj_push(&mut f, "application_id", Json::Str(string_from_chars(&i64_decimal(application_id))));
    obj_push(&mut f, "guild_id", opt_id_json(guild_id));
    obj_push(&mut f, "name", Json::Str(name));
    obj_push(&mut f, "description", Json::Str(description));
    obj_push(&mut f, "options", options);
    obj_push(&mut f, "type", Json::Number(Some(cmd_type)));
    obj_push(&mut f, "default_member_permissions", opt_id_json(default_member_permissions));
    obj_push(&mut f, "dm_permission", Json::Bool(dm_permission));
    obj_push(&mut f, "nsfw", Json::Bool(nsfw));
    obj_push(&mut f, "version", Json::Number(Some(version)));
    obj_push(&mut f, "created_at", Json::Str(created));
    obj_push(&mut f, "updated_at", Json::Str(updated));
    let v = Json::Object(f);
    proof {
        assert(object_keys(v) =~= seq![
            "id"@,
            "application_id"@,
            "guild_id"@,
            "name"@,
            "description"@,
            "options"@,
            "type"@,
            "default_member_permissions"@,
            "dm_permission"@,
            "nsfw"@,
            "version"@,
            "created_at"@,
            "updated_at"@,
        ]);
    }
    Some(v)
}

} // verus!
