//! The realtime event stream and the commands clients post to it.
use vstd::prelude::*;
use crate::text::{chars_of, i64_decimal, int_decimal, is_lit, parse_i64, parse_in_range, string_from_chars, trim, trim_spec, u64_decimal};
use crate::error::{ApiError, bad_request, is_bad_request};
use crate::json::{Json, get_spec, member, obj_push, object_keys, opt_as_str, take_member};

verus! {

pub struct RealtimeEventsQuery {
    pub session_id: Option<String>,
    pub cursor: Option<u64>,
}

/// The sequence a stream starts after: the client's cursor, else 0.
pub fn start_sequence(query: &RealtimeEventsQuery) -> (r: u64)
    ensures
        r == (match query.cursor {
            Some(c) => c,
            None => 0,
        }),
{
    match query.cursor {
        Some(c) => c,
        None => 0,
    }
}

pub struct RealtimeCommandRequest {
    pub command_id: String,
    pub command_type: String,
    pub payload: Json,
}

/// A command must carry an id that is not blank.
pub fn check_command_id(req: &RealtimeCommandRequest) -> (r: Result<(), ApiError>)
    ensures
        r is Ok <==> trim_spec(req.command_id@).len() > 0,
        r matches Err(e) ==> is_bad_request(e, "command_id is required"@),
{
    if trim(&chars_of(req.command_id.as_str())).len() == 0 {
        return Err(bad_request("command_id is required"));
    }
    Ok(())
}

/// An id given as optional decimal text.
pub fn parse_i64_id(raw: Option<&str>) -> (r: Option<i64>)
    ensures
        r == (match raw {
            Some(s) => match parse_in_range(s@, true, i64::MIN as int, i64::MAX as int) {
                Some(n) => Some(n as i64),
                None => None,
            },
            None => None,
        }),
{
    match raw {
        Some(s) => parse_i64(&chars_of(s)),
        None => None,
    }
}

/// The commands a client may post to the realtime endpoint.
#[derive(PartialEq, Eq, Structural, Clone, Copy, Debug)]
pub enum RealtimeCommandKind {
    PresenceUpdate,
    VoiceStateUpdate,
    TypingStart,
}

/// A command needs a non-blank id and one of the known types.
pub fn realtime_command_kind(req: &RealtimeCommandRequest) -> (r: Result<RealtimeCommandKind, ApiError>)
    ensures
        trim_spec(req.command_id@).len() == 0 ==> (r matches Err(e) && is_bad_request(
            e,
            "command_id is required"@,
        )),
        trim_spec(req.command_id@).len() > 0 && req.command_type@ == "presence_update"@ ==> r
            == Ok::<RealtimeCommandKind, ApiError>(RealtimeCommandKind::PresenceUpdate),
        trim_spec(req.command_id@).len() > 0 && req.command_type@ == "voice_state_update"@ ==> r
            == Ok::<RealtimeCommandKind, ApiError>(RealtimeCommandKind::VoiceStateUpdate),
        trim_spec(req.command_id@).len() > 0 && req.command_type@ == "typing_start"@ ==> r
            == Ok::<RealtimeCommandKind, ApiError>(RealtimeCommandKind::TypingStart),
        trim_spec(req.command_id@).len() > 0 && req.command_type@ != "presence_update"@
            && req.command_type@ != "voice_state_update"@ && req.command_type@ != "typing_start"@ ==> (
        r matches Err(e) && is_bad_request(e, "Unsupported command type"@)),
{
    check_command_id(req)?;
    proof {
        reveal_strlit("presence_update");
        reveal_strlit("voice_state_update");
        reveal_strlit("typing_start");
        assert("presence_update"@.len() == 15);
        assert("voice_state_update"@.len() == 18);
        assert("typing_start"@.len() == 12);
    }
    let t = chars_of(req.command_type.as_str());
    if is_lit(&t, "presence_update") {
        Ok(RealtimeCommandKind::PresenceUpdate)
    } else if is_lit(&t, "voice_state_update") {
        Ok(RealtimeCommandKind::VoiceStateUpdate)
    } else if is_lit(&t, "typing_start") {
        Ok(RealtimeCommandKind::TypingStart)
    } else {
        Err(bad_request("Unsupported command type"))
    }
}

/// The status a presence update announces: the payload's `status` string,
/// else `online`.
pub open spec fn presence_status(payload: Json) -> Seq<char> {
    match opt_as_str(get_spec(payload, "status"@)) {
        Some(s) => s,
        None => "online"@,
    }
}

/// The presence a user announces, as stored and sent to the users who can
/// see it: the user's id, the status, the custom status (or null) and the
/// activities given (or an empty list).
pub fn presence_payload(user_id: i64, payload: Json) -> (r: Json)
    ensures
        object_keys(r) == seq!["user_id"@, "status"@, "custom_status"@, "activities"@],
        opt_as_str(get_spec(r, "user_id"@)) == Some(int_decimal(user_id as int)),
        opt_as_str(get_spec(r, "status"@)) == Some(presence_status(payload)),
        match opt_as_str(get_spec(payload, "custom_status"@)) {
            Some(c) => opt_as_str(get_spec(r, "custom_status"@)) == Some(c),
            None => get_spec(r, "custom_status"@) == Some(Json::Null),
        },
        match get_spec(payload, "activities"@) {
            Some(a) => get_spec(r, "activities"@) == Some(a),
            None => get_spec(r, "activities"@) matches Some(Json::Array(items)) && items@.len() == 0,
        },
{
    let status = match payload.get("status") {
        Some(Json::Str(s)) => s.clone(),
        _ => String::from_str("online"),
    };
    let custom = match payload.get("custom_status") {
        Some(Json::Str(s)) => Json::Str(s.clone()),
        _ => Json::Null,
    };
    let activities = match take_member(payload, "activities") {
        Some(a) => a,
        None => Json::Array(Vec::new()),
    };
    proof {
        reveal_strlit("user_id");
        reveal_strlit("status");
        reveal_strlit("custom_status");
        reveal_strlit("activities");
        assert("user_id"@.len() == 7 && "status"@.len() == 6);
        assert("custom_status"@.len() == 13 && "activities"@.len() == 10);
    }
    let mut f: Vec<(String, Json)> = Vec::new();
    proof {
        assert forall|k: Seq<char>| #[trigger] member(f@, k) is None by {}
    }
    obj_push(&mut f, "user_id", Json::Str(string_from_chars(&i64_decimal(user_id))));
    obj_push(&mut f, "status", Json::Str(status));
    obj_push(&mut f, "custom_status", custom);
    obj_push(&mut f, "activities", activities);
    let r = Json::Object(f);
    proof {
        assert(object_keys(r) =~= seq!["user_id"@, "status"@, "custom_status"@, "activities"@]);
    }
    r
}

/// A voice state update naming a channel: the channel must be a guild
/// voice channel, and a guild the client names must be the channel's.
pub fn voice_state_channel_guild(channel_type: i16, channel_guild_id: Option<i64>, requested_guild_id: Option<i64>) -> (r:
    Result<i64, ApiError>)
    ensures
        channel_type != 2 ==> (r matches Err(e) && is_bad_request(e, "Not a voice channel"@)),
        channel_type == 2 && channel_guild_id is None ==> (r matches Err(e) && is_bad_request(
            e,
            "Voice is only supported in guild channels"@,
        )),
        channel_type == 2 && channel_guild_id is Some && (requested_guild_id is None
            || requested_guild_id == channel_guild_id) ==> r == Ok::<i64, ApiError>(channel_guild_id->0),
        channel_type == 2 && channel_guild_id is Some && requested_guild_id is Some
            && requested_guild_id != channel_guild_id ==> (r matches Err(e) && is_bad_request(
            e,
            "guild_id/channel_id mismatch"@,
        )),
{
    if channel_type != 2 {
        return Err(bad_request("Not a voice channel"));
    }
    let guild_id = match channel_guild_id {
        Some(g) => g,
        None => return Err(bad_request("Voice is only supported in guild channels")),
    };
    match requested_guild_id {
        Some(req) => if req != guild_id {
            return Err(bad_request("guild_id/channel_id mismatch"));
        },
        None => {},
    }
    Ok(guild_id)
}

/// How an event seen by a user's stream changes the guilds the stream's
/// session follows.
#[derive(PartialEq, Eq, Structural, Clone, Copy, Debug)]
pub enum SessionGuildChange {
    Follow(i64),
    Unfollow(i64),
    Unchanged,
}

/// `str::parse::<i64>` of an optional text.
pub open spec fn parsed_id(t: Option<Seq<char>>) -> Option<i64> {
    match t {
        Some(s) => match parse_in_range(s, true, i64::MIN as int, i64::MAX as int) {
            Some(n) => Some(n as i64),
            None => None,
        },
        None => None,
    }
}

/// The guild named by the event when it concerns the stream's own user.
pub open spec fn own_member_guild(payload: Json, user_id: i64) -> Option<i64> {
    if opt_as_str(get_spec(payload, "user_id"@)) == Some(int_decimal(user_id as int)) {
        parsed_id(opt_as_str(get_spec(payload, "guild_id"@)))
    } else {
        None
    }
}

/// Joining a guild makes the stream follow it; leaving it or being banned
/// from it, or the guild being deleted, makes it stop.
pub fn session_guild_change(event_type: &str, payload: &Json, user_id: i64) -> (r: SessionGuildChange)
    ensures
        r == (if event_type@ == "GUILD_MEMBER_ADD"@ {
            match own_member_guild(*payload, user_id) {
                Some(g) => SessionGuildChange::Follow(g),
                None => SessionGuildChange::Unchanged,
            }
        } else if event_type@ == "GUILD_MEMBER_REMOVE"@ || event_type@ == "GUILD_BAN_ADD"@ {
            match own_member_guild(*payload, user_id) {
                Some(g) => SessionGuildChange::Unfollow(g),
                None => SessionGuildChange::Unchanged,
            }
        } else if event_type@ == "GUILD_DELETE"@ {
            match parsed_id(
                opt_as_str(
                    match get_spec(*payload, "id"@) {
                        Some(v) => Some(v),
                        None => get_spec(*payload, "guild_id"@),
                    },
                ),
            ) {
                Some(g) => SessionGuildChange::Unfollow(g),
                None => SessionGuildChange::Unchanged,
            }
        } else {
            SessionGuildChange::Unchanged
        }),
{
    let t = chars_of(event_type);
    let add = is_lit(&t, "GUILD_MEMBER_ADD");
    let remove = is_lit(&t, "GUILD_MEMBER_REMOVE") || is_lit(&t, "GUILD_BAN_ADD");
    if add || remove {
        let uid = string_from_chars(&i64_decimal(user_id));
        let own = match payload.get("user_id") {
            Some(Json::Str(u)) => crate::text::seq_eq(&chars_of(u.as_str()), &chars_of(uid.as_str())),
            _ => false,
        };
        if !own {
            return SessionGuildChange::Unchanged;
        }
        let gid = match payload.get("guild_id") {
            Some(Json::Str(g)) => parse_i64(&chars_of(g.as_str())),
            _ => None,
        };
        return match gid {
            Some(g) => if add {
                SessionGuildChange::Follow(g)
            } else {
                SessionGuildChange::Unfollow(g)
            },
            None => SessionGuildChange::Unchanged,
        };
    }
    if is_lit(&t, "GUILD_DELETE") {
        let v = match payload.get("id") {
            Some(v) => Some(v),
            None => payload.get("guild_id"),
        };
        let gid = match v {
            Some(Json::Str(g)) => parse_i64(&chars_of(g.as_str())),
            _ => None,
        };
        return match gid {
            Some(g) => SessionGuildChange::Unfollow(g),
            None => SessionGuildChange::Unchanged,
        };
    }
    SessionGuildChange::Unchanged
}

/// The sequence number of the next frame of a stream.
pub open spec fn next_sequence_spec(sequence: u64) -> u64 {
    if sequence == u64::MAX { sequence } else { (sequence + 1) as u64 }
}

pub fn next_sequence(sequence: u64) -> (r: u64)
    ensures
        r == next_sequence_spec(sequence),
{
    if sequence == u64::MAX { sequence } else { sequence + 1 }
}

/// A gateway frame around an event whose payload is already serialized:
/// `{"event_id":<s>,"op":0,"t":"<type>","s":<s>,"d":<payload>}`.
pub open spec fn gateway_frame_spec(sequence: u64, event_type: Seq<char>, payload: Seq<char>) -> Seq<char> {
    "{\"event_id\":"@ + int_decimal(sequence as int) + ",\"op\":0,\"t\":\""@ + event_type
        + "\",\"s\":"@ + int_decimal(sequence as int) + ",\"d\":"@ + payload + "}"@
}

pub fn gateway_frame(sequence: u64, event_type: &str, serialized_payload: &str) -> (r: String)
    ensures
        r@ == gateway_frame_spec(sequence, event_type@, serialized_payload@),
{
    let seq_text = string_from_chars(&u64_decimal(sequence));
    let mut s = String::from_str("{\"event_id\":");
    s.append(seq_text.as_str());
    s.append(",\"op\":0,\"t\":\"");
    s.append(event_type);
    s.append("\",\"s\":");
    s.append(seq_text.as_str());
    s.append(",\"d\":");
    s.append(serialized_payload);
    s.append("}");
    s
}


/// The sequence of the `k`-th event a stream sends after starting at `start`.
pub open spec fn sequence_after(start: u64, k: nat) -> u64
    decreases k,
{
    if k == 0 {
        start
    } else {
        next_sequence_spec(sequence_after(start, (k - 1) as nat))
    }
}

/// A stream numbers its events on from the client's cursor: while the
/// numbers fit, the `k`-th event after cursor `c` carries `c + k`, and so
/// its gateway frame carries that number as its event id and sequence.
pub proof fn law_stream_numbers_events(start: u64, k: nat)
    requires
        start + k <= u64::MAX,
    ensures
        sequence_after(start, k) == start + k,
    decreases k,
{
    if k > 0 {
        law_stream_numbers_events(start, (k - 1) as nat);
    }
}

} // verus!
