//! Delivery of an inbound federated message: which local channel it lands
//! in, whose name it carries, and the events it is announced with. The
//! lookups and writes between these decisions are made by the caller.
use vstd::prelude::*;
use crate::text::{i64_decimal, int_decimal, string_from_chars};
use crate::json::{Json, get_spec, member, obj_push, object_keys, opt_as_str};

verus! {

/// Where an inbound message goes, once its remote channel is known.
#[derive(PartialEq, Eq, Structural, Clone, Copy, Debug)]
pub enum FederatedChannelStep {
    /// Announce it as a bare federation event (no channel can be found or made).
    Generic,
    /// Store it in this local channel.
    Use(i64),
    /// Create the remote guild (this remote id) and channel locally first.
    Materialize(i64),
}

/// Without a remote channel the message is only announced; a mapped local
/// channel that exists is used; otherwise it is created under its remote
/// guild, or only announced when the guild is unknown.
pub open spec fn channel_step_spec(
    remote_channel_id: Option<i64>,
    existing_local_channel: Option<i64>,
    remote_guild_id: Option<i64>,
) -> FederatedChannelStep {
    match remote_channel_id {
        None => FederatedChannelStep::Generic,
        Some(_) => match existing_local_channel {
            Some(c) => FederatedChannelStep::Use(c),
            None => match remote_guild_id {
                Some(g) => FederatedChannelStep::Materialize(g),
                None => FederatedChannelStep::Generic,
            },
        },
    }
}

/// The first decision: `existing_local_channel` is the local channel the
/// remote channel is mapped to, when the mapping exists and the channel is
/// still there.
pub fn federated_channel_step(
    remote_channel_id: Option<i64>,
    existing_local_channel: Option<i64>,
    remote_guild_id: Option<i64>,
) -> (r: FederatedChannelStep)
    ensures
        r == channel_step_spec(remote_channel_id, existing_local_channel, remote_guild_id),
{
    match remote_channel_id {
        None => FederatedChannelStep::Generic,
        Some(_) => match existing_local_channel {
            Some(c) => FederatedChannelStep::Use(c),
            None => match remote_guild_id {
                Some(g) => FederatedChannelStep::Materialize(g),
                None => FederatedChannelStep::Generic,
            },
        },
    }
}

/// What follows the attempt to create the remote guild and channel.
#[derive(PartialEq, Eq, Structural, Clone, Copy, Debug)]
pub enum MaterializeOutcome {
    /// The guild could not be created: the message is dropped.
    Drop,
    /// The channel could not be created: announce the message in this local guild.
    GenericIn(i64),
    /// Store the message in this new local channel.
    Use(i64),
}

/// `local_guild` is the guild created (or found) for the remote guild;
/// `channel` the channel created in it, when those steps succeeded.
pub fn federated_materialize_step(local_guild: Option<i64>, channel: Option<i64>) -> (r: MaterializeOutcome)
    ensures
        r == (match local_guild {
            None => MaterializeOutcome::Drop,
            Some(g) => match channel {
                None => MaterializeOutcome::GenericIn(g),
                Some(c) => MaterializeOutcome::Use(c),
            },
        }),
{
    match local_guild {
        None => MaterializeOutcome::Drop,
        Some(g) => match channel {
            None => MaterializeOutcome::GenericIn(g),
            Some(c) => MaterializeOutcome::Use(c),
        },
    }
}

/// The author a federated message is stored under: the local user mapped
/// to its sender; else the system user (id 0) when it is available; else
/// none, and the message is not stored.
pub fn federated_author_id(mapped_author: Option<i64>, system_user_ready: bool) -> (r: Option<i64>)
    ensures
        r == (match mapped_author {
            Some(a) => Some(a),
            None => if system_user_ready { Some(0i64) } else { None },
        }),
{
    match mapped_author {
        Some(a) => Some(a),
        None => if system_user_ready { Some(0) } else { None },
    }
}

proof fn lemma_generic_keys_differ()
    ensures
        "event_id"@.len() == 8,
        "origin_server"@.len() == 13,
        "sender"@.len() == 6,
        "content"@.len() == 7,
        "remote_message_id"@.len() == 17,
{
    reveal_strlit("event_id");
    reveal_strlit("origin_server");
    reveal_strlit("sender");
    reveal_strlit("content");
    reveal_strlit("remote_message_id");
}

/// The bare federation event a message is announced with when it cannot be
/// stored: its event id, origin server, sender and content.
pub fn federation_generic_event(event_id: &str, origin_server: &str, sender: &str, content: Json) -> (r: Json)
    ensures
        object_keys(r) == seq!["event_id"@, "origin_server"@, "sender"@, "content"@],
        opt_as_str(get_spec(r, "event_id"@)) == Some(event_id@),
        opt_as_str(get_spec(r, "origin_server"@)) == Some(origin_server@),
        opt_as_str(get_spec(r, "sender"@)) == Some(sender@),
        get_spec(r, "content"@) == Some(content),
{
    proof {
        lemma_generic_keys_differ();
    }
    let mut f: Vec<(String, Json)> = Vec::new();
    obj_push(&mut f, "event_id", Json::Str(String::from_str(event_id)));
    obj_push(&mut f, "origin_server", Json::Str(String::from_str(origin_server)));
    obj_push(&mut f, "sender", Json::Str(String::from_str(sender)));
    obj_push(&mut f, "content", content);
    let r = Json::Object(f);
    assert(object_keys(r) =~= seq!["event_id"@, "origin_server"@, "sender"@, "content"@]);
    r
}

/// Where a stored federated message came from: its event, origin server,
/// sender and the remote message id (empty when it has none).
pub fn federation_origin_json(event_id: &str, origin_server: &str, sender: &str, remote_message_id: &str) -> (r: Json)
    ensures
        object_keys(r) == seq!["event_id"@, "origin_server"@, "sender"@, "remote_message_id"@],
        opt_as_str(get_spec(r, "event_id"@)) == Some(event_id@),
        opt_as_str(get_spec(r, "origin_server"@)) == Some(origin_server@),
        opt_as_str(get_spec(r, "sender"@)) == Some(sender@),
        opt_as_str(get_spec(r, "remote_message_id"@)) == Some(remote_message_id@),
{
    proof {
        lemma_generic_keys_differ();
    }
    let mut f: Vec<(String, Json)> = Vec::new();
    obj_push(&mut f, "event_id", Json::Str(String::from_str(event_id)));
    obj_push(&mut f, "origin_server", Json::Str(String::from_str(origin_server)));
    obj_push(&mut f, "sender", Json::Str(String::from_str(sender)));
    obj_push(&mut f, "remote_message_id", Json::Str(String::from_str(remote_message_id)));
    let r = Json::Object(f);
    assert(object_keys(r) =~= seq!["event_id"@, "origin_server"@, "sender"@, "remote_message_id"@]);
    r
}

proof fn lemma_author_keys_differ()
    ensures
        "id"@.len() == 2,
        "username"@.len() == 8,
        "discriminator"@.len() == 13,
        "avatar_hash"@.len() == 11,
        "public_key"@.len() == 10,
        "flags"@.len() == 5,
        "bot"@.len() == 3,
{
    reveal_strlit("id");
    reveal_strlit("username");
    reveal_strlit("discriminator");
    reveal_strlit("avatar_hash");
    reveal_strlit("public_key");
    reveal_strlit("flags");
    reveal_strlit("bot");
}

/// The author object of a federated message.
pub open spec fn federated_author_ok(j: Json, author_id: i64, username: Seq<char>) -> bool {
    &&& object_keys(j) == seq!["id"@, "username"@, "discriminator"@, "avatar_hash"@, "public_key"@, "flags"@, "bot"@]
    &&& opt_as_str(get_spec(j, "id"@)) == Some(int_decimal(author_id as int))
    &&& opt_as_str(get_spec(j, "username"@)) == Some(username)
    &&& get_spec(j, "discriminator"@) == Some(Json::Number(Some(0)))
    &&& get_spec(j, "avatar_hash"@) == Some(Json::Null)
    &&& get_spec(j, "public_key"@) == Some(Json::Null)
    &&& get_spec(j, "flags"@) == Some(Json::Number(Some(0)))
    &&& get_spec(j, "bot"@) == Some(Json::Bool(false))
}

pub fn federated_author_json(author_id: i64, username: &str) -> (r: Json)
    ensures
        federated_author_ok(r, author_id, username@),
{
    proof {
        lemma_author_keys_differ();
    }
    let mut f: Vec<(String, Json)> = Vec::new();
    obj_push(&mut f, "id", Json::Str(string_from_chars(&i64_decimal(author_id))));
    obj_push(&mut f, "username", Json::Str(String::from_str(username)));
    obj_push(&mut f, "discriminator", Json::Number(Some(0)));
    obj_push(&mut f, "avatar_hash", Json::Null);
    obj_push(&mut f, "public_key", Json::Null);
    obj_push(&mut f, "flags", Json::Number(Some(0)));
    obj_push(&mut f, "bot", Json::Bool(false));
    let r = Json::Object(f);
    assert(object_keys(r) =~= seq!["id"@, "username"@, "discriminator"@, "avatar_hash"@, "public_key"@, "flags"@, "bot"@]);
    r
}

/// The keys of a federated `MESSAGE_CREATE` payload, in order.
pub open spec fn federated_message_keys() -> Seq<Seq<char>> {
    seq![
        "id"@, "channel_id"@, "author"@, "content"@, "pinned"@, "type"@, "message_type"@,
        "timestamp"@, "created_at"@, "edited_timestamp"@, "edited_at"@, "reference_id"@,
        "attachments"@, "reactions"@, "poll"@, "federation"@,
    ]
}

proof fn lemma_message_keys_differ()
    ensures
        "id"@.len() == 2,
        "channel_id"@.len() == 10 && "channel_id"@[0] == 'c' && "channel_id"@[1] == 'h',
        "author"@.len() == 6 && "author"@[0] == 'a',
        "content"@.len() == 7,
        "pinned"@.len() == 6 && "pinned"@[0] == 'p',
        "type"@.len() == 4 && "type"@[0] == 't',
        "message_type"@.len() == 12 && "message_type"@[0] == 'm',
        "timestamp"@.len() == 9 && "timestamp"@[0] == 't',
        "created_at"@.len() == 10 && "created_at"@[0] == 'c' && "created_at"@[1] == 'r',
        "edited_timestamp"@.len() == 16,
        "edited_at"@.len() == 9 && "edited_at"@[0] == 'e',
        "reference_id"@.len() == 12 && "reference_id"@[0] == 'r',
        "attachments"@.len() == 11,
        "reactions"@.len() == 9 && "reactions"@[0] == 'r',
        "poll"@.len() == 4 && "poll"@[0] == 'p',
        "federation"@.len() == 10 && "federation"@[0] == 'f',
{
    reveal_strlit("id");
    reveal_strlit("channel_id");
    reveal_strlit("author");
    reveal_strlit("content");
    reveal_strlit("pinned");
    reveal_strlit("type");
    reveal_strlit("message_type");
    reveal_strlit("timestamp");
    reveal_strlit("created_at");
    reveal_strlit("edited_timestamp");
    reveal_strlit("edited_at");
    reveal_strlit("reference_id");
    reveal_strlit("attachments");
    reveal_strlit("reactions");
    reveal_strlit("poll");
    reveal_strlit("federation");
}

/// The `MESSAGE_CREATE` payload of a stored federated message: its local
/// id and channel, the author object, the text, the creation time (RFC 3339)
/// as both timestamps, empty lists and nulls for what a federated message
/// lacks, and where it came from.
pub fn federated_message_json(
    message_id: i64,
    channel_id: i64,
    author: Json,
    content: &str,
    created_at: &str,
    federation: Json,
) -> (r: Json)
    ensures
        object_keys(r) == federated_message_keys(),
        opt_as_str(get_spec(r, "id"@)) == Some(int_decimal(message_id as int)),
        opt_as_str(get_spec(r, "channel_id"@)) == Some(int_decimal(channel_id as int)),
        get_spec(r, "author"@) == Some(author),
        opt_as_str(get_spec(r, "content"@)) == Some(content@),
        get_spec(r, "pinned"@) == Some(Json::Bool(false)),
        get_spec(r, "type"@) == Some(Json::Number(Some(0))),
        get_spec(r, "message_type"@) == Some(Json::Number(Some(0))),
        opt_as_str(get_spec(r, "timestamp"@)) == Some(created_at@),
        opt_as_str(get_spec(r, "created_at"@)) == Some(created_at@),
        get_spec(r, "edited_timestamp"@) == Some(Json::Null),
        get_spec(r, "edited_at"@) == Some(Json::Null),
        get_spec(r, "reference_id"@) == Some(Json::Null),
        get_spec(r, "attachments"@) matches Some(Json::Array(a)) && a@.len() == 0,
        get_spec(r, "reactions"@) matches Some(Json::Array(a)) && a@.len() == 0,
        get_spec(r, "poll"@) == Some(Json::Null),
        get_spec(r, "federation"@) == Some(federation),
{
    proof {
        lemma_message_keys_differ();
    }
    let mut f: Vec<(String, Json)> = Vec::new();
    obj_push(&mut f, "id", Json::Str(string_from_chars(&i64_decimal(message_id))));
    obj_push(&mut f, "channel_id", Json::Str(string_from_chars(&i64_decimal(channel_id))));
    obj_push(&mut f, "author", author);
    obj_push(&mut f, "content", Json::Str(String::from_str(content)));
    obj_push(&mut f, "pinned", Json::Bool(false));
    obj_push(&mut f, "type", Json::Number(Some(0)));
    obj_push(&mut f, "message_type", Json::Number(Some(0)));
    obj_push(&mut f, "timestamp", Json::Str(String::from_str(created_at)));
    obj_push(&mut f, "created_at", Json::Str(String::from_str(created_at)));
    obj_push(&mut f, "edited_timestamp", Json::Null);
    obj_push(&mut f, "edited_at", Json::Null);
    obj_push(&mut f, "reference_id", Json::Null);
    obj_push(&mut f, "attachments", Json::Array(Vec::new()));
    obj_push(&mut f, "reactions", Json::Array(Vec::new()));
    obj_push(&mut f, "poll", Json::Null);
    obj_push(&mut f, "federation", federation);
    let r = Json::Object(f);
    assert(object_keys(r) =~= federated_message_keys());
    r
}

} // verus!
