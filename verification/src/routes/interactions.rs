//! Interactions with bots: request shapes and their defaults.
use vstd::prelude::*;
use crate::json::Json;
use crate::error::{ApiError, bad_request, is_bad_request};
use crate::text::{chars_of, i64_decimal, int_decimal, parse_i64, parse_in_range, string_from_chars};

verus! {

/// An interaction invoked by a user: a slash command (type 2, the default)
/// or a message component (type 3).
pub struct InvokeInteractionRequest {
    pub command_name: Option<String>,
    pub guild_id: String,
    pub channel_id: String,
    pub options: Vec<Json>,
    pub interaction_type: i16,
    pub message_id: Option<String>,
    pub custom_id: Option<String>,
    pub component_type: Option<i16>,
    pub values: Option<Vec<String>>,
}

/// Interactions are application commands unless the request says otherwise.
pub fn default_interaction_type() -> (r: i16)
    ensures
        r == 2,
{
    2
}

pub struct InteractionCallbackRequest {
    pub callback_type: u8,
    pub data: Option<Json>,
}

pub struct EditOriginalRequest {
    pub content: Option<String>,
    pub embeds: Option<Vec<Json>>,
    pub components: Option<Vec<Json>>,
}

pub struct FollowupMessageRequest {
    pub content: Option<String>,
    pub embeds: Option<Vec<Json>>,
    pub components: Option<Vec<Json>>,
    pub flags: Option<u32>,
}

/// `str::parse::<i64>` of a text.
pub open spec fn id_of(t: Seq<char>) -> Option<i64> {
    match parse_in_range(t, true, i64::MIN as int, i64::MAX as int) {
        Some(n) => Some(n as i64),
        None => None,
    }
}

/// The guild and channel an interaction is invoked in, as ids.
pub fn interaction_target(body: &InvokeInteractionRequest) -> (r: Result<(i64, i64), ApiError>)
    ensures
        id_of(body.guild_id@) is None ==> (r matches Err(e) && is_bad_request(e, "Invalid guild_id"@)),
        id_of(body.guild_id@) is Some && id_of(body.channel_id@) is None ==> (r matches Err(e)
            && is_bad_request(e, "Invalid channel_id"@)),
        id_of(body.guild_id@) is Some && id_of(body.channel_id@) is Some ==> r == Ok::<
            (i64, i64),
            ApiError,
        >((id_of(body.guild_id@)->0, id_of(body.channel_id@)->0)),
{
    let guild_id = match parse_i64(&chars_of(body.guild_id.as_str())) {
        Some(g) => g,
        None => return Err(bad_request("Invalid guild_id")),
    };
    let channel_id = match parse_i64(&chars_of(body.channel_id.as_str())) {
        Some(c) => c,
        None => return Err(bad_request("Invalid channel_id")),
    };
    Ok((guild_id, channel_id))
}

/// What an interaction invokes once its ids are read: a slash command by
/// name, or a component of a message by its custom id.
pub enum InteractionRoute {
    Command { command_name: String },
    Component { message_id: i64, custom_id: String, component_type: i16 },
}

/// A slash command (type 2) needs its name; a component interaction
/// (type 3) needs the message id, which must parse, and the custom id, and
/// defaults to component type 2; other types are refused.
pub fn interaction_route(body: &InvokeInteractionRequest) -> (r: Result<InteractionRoute, ApiError>)
    ensures
        body.interaction_type == 2 ==> match body.command_name {
            Some(n) => r matches Ok(InteractionRoute::Command { command_name }) && command_name@ == n@,
            None => r matches Err(e) && is_bad_request(e, "command_name required for slash commands"@),
        },
        body.interaction_type == 3 ==> match body.message_id {
            None => r matches Err(e) && is_bad_request(e, "message_id required for component interactions"@),
            Some(m) => match id_of(m@) {
                None => r matches Err(e) && is_bad_request(e, "Invalid message_id"@),
                Some(mid) => match body.custom_id {
                    None => r matches Err(e) && is_bad_request(
                        e,
                        "custom_id required for component interactions"@,
                    ),
                    Some(c) => r matches Ok(
                        InteractionRoute::Component { message_id, custom_id, component_type },
                    ) && message_id == mid && custom_id@ == c@ && component_type == (match body.component_type {
                        Some(t) => t,
                        None => 2i16,
                    }),
                },
            },
        },
        body.interaction_type != 2 && body.interaction_type != 3 ==> (r matches Err(e) && is_bad_request(
            e,
            "unsupported interaction type: "@ + int_decimal(body.interaction_type as int),
        )),
{
    if body.interaction_type == 2 {
        return match &body.command_name {
            Some(n) => Ok(InteractionRoute::Command { command_name: n.clone() }),
            None => Err(bad_request("command_name required for slash commands")),
        };
    }
    if body.interaction_type == 3 {
        let m = match &body.message_id {
            Some(m) => m,
            None => return Err(bad_request("message_id required for component interactions")),
        };
        let message_id = match parse_i64(&chars_of(m.as_str())) {
            Some(x) => x,
            None => return Err(bad_request("Invalid message_id")),
        };
        let custom_id = match &body.custom_id {
            Some(c) => c.clone(),
            None => return Err(bad_request("custom_id required for component interactions")),
        };
        let component_type = match body.component_type {
            Some(t) => t,
            None => 2,
        };
        return Ok(InteractionRoute::Component { message_id, custom_id, component_type });
    }
    let mut msg = String::from_str("unsupported interaction type: ");
    msg.append(string_from_chars(&i64_decimal(body.interaction_type as i64)).as_str());
    Err(ApiError::BadRequest(msg))
}

} // verus!
