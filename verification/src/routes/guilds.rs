//! Guilds and their members, roles, bans, invites and audit log: request
//! shapes and the checks made before the store is consulted.
use vstd::prelude::*;
use crate::text::{chars_of, parse_i64, parse_in_range, utf8_len, utf8_len_capped};
use crate::error::{ApiError, bad_request, is_bad_request};
use crate::json::{Json, get_spec, member, obj_push, object_keys, opt_as_str};
use crate::text::{i64_decimal, int_decimal, string_from_chars};
use crate::trusted::{rfc3339_utc, rfc3339_utc_spec};

verus! {

pub struct CreateGuildRequest {
    pub name: String,
    pub icon: Option<String>,
}

pub struct UpdateGuildRequest {
    pub name: Option<String>,
    pub description: Option<String>,
    pub icon: Option<String>,
}

pub struct TransferOwnershipRequest {
    pub new_owner_id: String,
}

/// A guild name holds 2 to 100 bytes.
pub fn validate_guild_name(name: &str) -> (r: Result<(), ApiError>)
    ensures
        r is Ok <==> 2 <= utf8_len(name@) <= 100,
        r matches Err(e) ==> is_bad_request(e, "Guild name must be between 2 and 100 characters"@),
{
    let n = utf8_len_capped(&chars_of(name), 100);
    if n < 2 || n > 100 {
        return Err(bad_request("Guild name must be between 2 and 100 characters"));
    }
    Ok(())
}

/// The new owner named by an ownership transfer.
pub fn parse_new_owner_id(body: &TransferOwnershipRequest) -> (r: Result<i64, ApiError>)
    ensures
        match parse_in_range(body.new_owner_id@, true, i64::MIN as int, i64::MAX as int) {
            Some(n) => r == Ok::<i64, ApiError>(n as i64),
            None => r matches Err(e) && is_bad_request(e, "Invalid new_owner_id"@),
        },
{
    match parse_i64(&chars_of(body.new_owner_id.as_str())) {
        Some(n) => Ok(n),
        None => Err(bad_request("Invalid new_owner_id")),
    }
}

/// The owner of a guild cannot leave it.
pub fn check_can_leave_guild(owner_id: i64, user_id: i64) -> (r: Result<(), ApiError>)
    ensures
        r is Ok <==> owner_id != user_id,
        r matches Err(e) ==> is_bad_request(
            e,
            "Cannot leave a guild you own. Transfer ownership or delete the guild."@,
        ),
{
    if owner_id == user_id {
        return Err(bad_request("Cannot leave a guild you own. Transfer ownership or delete the guild."));
    }
    Ok(())
}

pub struct UpdateMemberRequest {
    pub nick: Option<String>,
    pub roles: Option<Vec<String>>,
    pub communication_disabled_until: Option<String>,
}

/// Role ids that occur in `a`, not in `b`, and are not `skip`.
pub open spec fn in_first_only(a: Seq<i64>, b: Seq<i64>, skip: Option<i64>) -> Set<i64> {
    Set::new(|x: i64| a.contains(x) && !b.contains(x) && skip != Some(x))
}

proof fn lemma_push_contains(s: Seq<i64>, v: i64, x: i64)
    ensures
        s.push(v).contains(x) <==> (s.contains(x) || v == x),
{
    if s.push(v).contains(x) {
        let j = choose|j: int| 0 <= j < s.push(v).len() && s.push(v)[j] == x;
        if j < s.len() {
            assert(s[j] == x);
        }
    }
    if s.contains(x) {
        let j = choose|j: int| 0 <= j < s.len() && s[j] == x;
        assert(s.push(v)[j] == x);
    }
    if v == x {
        assert(s.push(v)[s.len() as int] == x);
    }
}

fn difference_ids(a: &Vec<i64>, b: &Vec<i64>, skip: Option<i64>) -> (r: Vec<i64>)
    ensures
        r@.to_set() == in_first_only(a@, b@, skip),
        r@.no_duplicates(),
{
    let mut out: Vec<i64> = Vec::new();
    let mut i: usize = 0;
    while i < a.len()
        invariant
            i <= a@.len(),
            out@.no_duplicates(),
            forall|x: i64| #[trigger] out@.contains(x) <==> (a@.take(i as int).contains(x) && !b@.contains(x)
                && skip != Some(x)),
        decreases a.len() - i,
    {
        let x = a[i];
        let mut in_b = false;
        let mut k: usize = 0;
        while k < b.len()
            invariant
                k <= b@.len(),
                in_b <==> b@.take(k as int).contains(x),
            decreases b.len() - k,
        {
            if b[k] == x {
                in_b = true;
            }
            proof {
                assert(b@.take(k as int + 1) == b@.take(k as int).push(b@[k as int]));
                lemma_push_contains(b@.take(k as int), b@[k as int], x);
            }
            k = k + 1;
        }
        proof {
            assert(b@.take(b@.len() as int) == b@);
        }
        let mut seen = false;
        let mut t: usize = 0;
        while t < out.len()
            invariant
                t <= out@.len(),
                seen <==> out@.take(t as int).contains(x),
            decreases out.len() - t,
        {
            if out[t] == x {
                seen = true;
            }
            proof {
                assert(out@.take(t as int + 1) == out@.take(t as int).push(out@[t as int]));
                lemma_push_contains(out@.take(t as int), out@[t as int], x);
            }
            t = t + 1;
        }
        proof {
            assert(out@.take(out@.len() as int) == out@);
            assert(a@.take(i as int + 1) == a@.take(i as int).push(x));
            assert forall|y: i64| a@.take(i as int + 1).contains(y) <==> (a@.take(i as int).contains(y) || y == x) by {
                lemma_push_contains(a@.take(i as int), x, y);
            }
        }
        let skipped = match skip {
            Some(g) => g == x,
            None => false,
        };
        if !in_b && !seen && !skipped {
            let ghost before = out@;
            out.push(x);
            proof {
                assert forall|y: i64| #[trigger] out@.contains(y) <==> (before.contains(y) || y == x) by {
                    lemma_push_contains(before, x, y);
                }
                assert forall|j1: int, j2: int| 0 <= j1 < j2 < out@.len() implies out@[j1] != out@[j2] by {
                    if j2 == before.len() {
                        assert(out@[j1] == before[j1]);
                        assert(before.contains(before[j1]));
                    } else {
                        assert(out@[j1] == before[j1] && out@[j2] == before[j2]);
                    }
                }
            }
        }
        i = i + 1;
    }
    proof {
        assert(a@.take(a@.len() as int) == a@);
        assert(out@.to_set() =~= in_first_only(a@, b@, skip));
    }
    out
}

/// The role changes of a member update: the requested roles the member
/// lacks are added, and the member's roles that were not requested are
/// removed, except the guild's default role (whose id is the guild's).
pub fn member_role_changes(requested: &Vec<i64>, existing: &Vec<i64>, guild_id: i64) -> (r: (
    Vec<i64>,
    Vec<i64>,
))
    ensures
        r.0@.to_set() == in_first_only(requested@, existing@, None),
        r.1@.to_set() == in_first_only(existing@, requested@, Some(guild_id)),
        r.0@.no_duplicates(),
        r.1@.no_duplicates(),
{
    (difference_ids(requested, existing, None), difference_ids(existing, requested, Some(guild_id)))
}

/// After the changes, a member holds exactly the requested roles, plus the
/// default role where the member had it.
pub proof fn law_member_roles_after_update(requested: Seq<i64>, existing: Seq<i64>, guild_id: i64)
    ensures
        existing.to_set().union(in_first_only(requested, existing, None)).difference(
            in_first_only(existing, requested, Some(guild_id)),
        ) == requested.to_set().union(existing.to_set().intersect(set![guild_id])),
{
    assert(existing.to_set().union(in_first_only(requested, existing, None)).difference(
        in_first_only(existing, requested, Some(guild_id)),
    ) =~= requested.to_set().union(existing.to_set().intersect(set![guild_id])));
}

/// The channel a new member lands in: the first text channel (type 0) of
/// the guild's channels as listed, or else the first channel.
pub open spec fn default_channel_spec(channels: Seq<(i64, i16)>) -> Option<i64> {
    if exists|k: int| 0 <= k < channels.len() && channels[k].1 == 0 {
        let k = choose|k: int|
            0 <= k < channels.len() && channels[k].1 == 0 && forall|j: int| 0 <= j < k ==> channels[j].1 != 0;
        Some(channels[k].0)
    } else if channels.len() > 0 {
        Some(channels[0].0)
    } else {
        None
    }
}

/// `channels` lists each channel of the guild as `(id, channel_type)`.
pub fn default_channel_id(channels: &Vec<(i64, i16)>) -> (r: Option<i64>)
    ensures
        r == default_channel_spec(channels@),
{
    let mut k: usize = 0;
    while k < channels.len()
        invariant
            k <= channels@.len(),
            forall|j: int| 0 <= j < k ==> channels@[j].1 != 0,
        decreases channels.len() - k,
    {
        if channels[k].1 == 0 {
            proof {
                let c = choose|c: int|
                    0 <= c < channels@.len() && channels@[c].1 == 0 && forall|j: int| 0 <= j < c ==> channels@[j].1 != 0;
                assert(c == k as int) by {
                    if c < k as int {
                        assert(channels@[c].1 != 0);
                    } else if c > k as int {
                        assert(channels@[k as int].1 != 0);
                    }
                }
            }
            return Some(channels[k].0);
        }
        k = k + 1;
    }
    if channels.len() > 0 {
        Some(channels[0].0)
    } else {
        None
    }
}

/// A guild role as stored. Times are `(seconds, nanoseconds)` since the
/// Unix epoch.
pub struct RoleRow {
    pub id: i64,
    pub guild_id: i64,
    pub name: String,
    pub color: i64,
    pub hoist: bool,
    pub position: i64,
    pub permissions: i64,
    pub managed: bool,
    pub mentionable: bool,
    pub created_at: (i64, u32),
}

proof fn lemma_role_keys_differ()
    ensures
        "id"@.len() == 2,
        "guild_id"@.len() == 8 && "guild_id"@[0] == 'g',
        "name"@.len() == 4,
        "color"@.len() == 5,
        "hoist"@.len() == 5 && "hoist"@[0] == 'h' && "color"@[0] == 'c',
        "position"@.len() == 8 && "position"@[0] == 'p',
        "permissions"@.len() == 11 && "permissions"@[0] == 'p',
        "managed"@.len() == 7,
        "mentionable"@.len() == 11 && "mentionable"@[0] == 'm',
        "created_at"@.len() == 10,
{
    reveal_strlit("id");
    reveal_strlit("guild_id");
    reveal_strlit("name");
    reveal_strlit("color");
    reveal_strlit("hoist");
    reveal_strlit("position");
    reveal_strlit("permissions");
    reveal_strlit("managed");
    reveal_strlit("mentionable");
    reveal_strlit("created_at");
}

/// A role as the API shows it, ids as text; `None` only where the creation
/// time has no RFC 3339 form.
pub fn role_to_json(r: &RoleRow) -> (j: Option<Json>)
    ensures
        j is Some <==> rfc3339_utc_spec(r.created_at.0, r.created_at.1) is Some,
        j matches Some(v) ==> {
            &&& object_keys(v) == seq![
                "id"@,
                "guild_id"@,
                "name"@,
                "color"@,
                "hoist"@,
                "position"@,
                "permissions"@,
                "managed"@,
                "mentionable"@,
                "created_at"@,
            ]
            &&& opt_as_str(get_spec(v, "id"@)) == Some(int_decimal(r.id as int))
            &&& opt_as_str(get_spec(v, "guild_id"@)) == Some(int_decimal(r.guild_id as int))
            &&& opt_as_str(get_spec(v, "name"@)) == Some(r.name@)
            &&& get_spec(v, "color"@) == Some(Json::Number(Some(r.color)))
            &&& get_spec(v, "hoist"@) == Some(Json::Bool(r.hoist))
            &&& get_spec(v, "position"@) == Some(Json::Number(Some(r.position)))
            &&& get_spec(v, "permissions"@) == Some(Json::Number(Some(r.permissions)))
            &&& get_spec(v, "managed"@) == Some(Json::Bool(r.managed))
            &&& get_spec(v, "mentionable"@) == Some(Json::Bool(r.mentionable))
            &&& opt_as_str(get_spec(v, "created_at"@)) == rfc3339_utc_spec(r.created_at.0, r.created_at.1)
        },
{
    proof {
        lemma_role_keys_differ();
    }
    let created = match rfc3339_utc(r.created_at.0, r.created_at.1) {
        Some(t) => t,
        None => return None,
    };
    let mut f: Vec<(String, Json)> = Vec::new();
    proof {
        assert forall|k: Seq<char>| #[trigger] member(f@, k) is None by {}
    }
    obj_push(&mut f, "id", Json::Str(string_from_chars(&i64_decimal(r.id))));
    obj_push(&mut f, "guild_id", Json::Str(string_from_chars(&i64_decimal(r.guild_id))));
    obj_push(&mut f, "name", Json::Str(r.name.clone()));
    obj_push(&mut f, "color", Json::Number(Some(r.color)));
    obj_push(&mut f, "hoist", Json::Bool(r.hoist));
    obj_push(&mut f, "position", Json::Number(Some(r.position)));
    obj_push(&mut f, "permissions", Json::Number(Some(r.permissions)));
    obj_push(&mut f, "managed", Json::Bool(r.managed));
    obj_push(&mut f, "mentionable", Json::Bool(r.mentionable));
    obj_push(&mut f, "created_at", Json::Str(created));
    let v = Json::Object(f);
    proof {
        assert(object_keys(v) =~= seq![
            "id"@,
            "guild_id"@,
            "name"@,
            "color"@,
            "hoist"@,
            "position"@,
            "permissions"@,
            "managed"@,
            "mentionable"@,
            "created_at"@,
        ]);
    }
    Some(v)
}

pub struct CreateRoleRequest {
    pub name: String,
    pub permissions: i64,
    pub color: i32,
    pub hoist: bool,
    pub mentionable: bool,
}

pub struct UpdateRoleRequest {
    pub name: Option<String>,
    pub permissions: Option<i64>,
    pub color: Option<i32>,
    pub hoist: Option<bool>,
    pub mentionable: Option<bool>,
}

/// The highest position among a member's roles, 0 without roles.
pub fn top_role_position(positions: &Vec<i32>) -> (r: i32)
    ensures
        (positions@.len() == 0 && r == 0) || (positions@.contains(r) && forall|i: int|
            0 <= i < positions@.len() ==> #[trigger] positions@[i] <= r),
{
    if positions.len() == 0 {
        return 0;
    }
    let mut best = positions[0];
    let mut i: usize = 1;
    assert(positions@[0] == best);
    while i < positions.len()
        invariant
            1 <= i <= positions@.len(),
            positions@.contains(best),
            forall|k: int| 0 <= k < i ==> #[trigger] positions@[k] <= best,
        decreases positions.len() - i,
    {
        if positions[i] > best {
            best = positions[i];
            assert(positions@[i as int] == best);
        }
        i = i + 1;
    }
    best
}

pub struct BanRequest {
    pub reason: Option<String>,
}

pub struct CreateInviteRequest {
    pub max_uses: i32,
    pub max_age: i32,
}

/// Invites are unlimited in uses unless asked.
pub fn default_max_uses() -> (r: i32)
    ensures
        r == 0,
{
    0
}

/// Invites last a day unless asked.
pub fn default_max_age() -> (r: i32)
    ensures
        r == 86400,
{
    86400
}

pub struct AuditLogQuery {
    pub user_id: Option<i64>,
    pub action_type: Option<i16>,
    pub before: Option<i64>,
    pub limit: Option<i64>,
}

/// Entries per audit-log page: 50 unless asked, at most 100.
pub fn audit_log_limit(query: &AuditLogQuery) -> (r: i64)
    ensures
        r == (match query.limit {
            Some(l) => if l < 100 {
                l
            } else {
                100
            },
            None => 50,
        }),
{
    match query.limit {
        Some(l) => if l < 100 {
            l
        } else {
            100
        },
        None => 50,
    }
}

} // verus!
