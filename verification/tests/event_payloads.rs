use paracord::routes::channels::message_body_fields;
use paracord::routes::channels::{federated_reaction_content, reaction_event};
use paracord::json::Json;
use paracord::routes::federation::{
    federated_attachment_json, mapped_message_content, FederatedAttachmentMeta,
    FederationOutboundContext,
};
use paracord::routes::voice::voice_state_event;
use serde_json::Value;

fn to_value(j: &Json) -> Value {
    match j {
        Json::Null => Value::Null,
        Json::Bool(b) => Value::Bool(*b),
        Json::Number(Some(n)) => Value::from(*n),
        Json::Number(None) => Value::Null,
        Json::Str(s) => Value::String(s.clone()),
        Json::Array(items) => Value::Array(items.iter().map(to_value).collect()),
        Json::Object(fields) => {
            let mut m = serde_json::Map::new();
            for (k, v) in fields {
                m.insert(k.clone(), to_value(v));
            }
            Value::Object(m)
        }
    }
}

fn object(pairs: Vec<(&str, Value)>) -> Value {
    let mut m = serde_json::Map::new();
    for (k, v) in pairs {
        m.insert(k.to_string(), v);
    }
    Value::Object(m)
}

fn text(s: &str) -> Value {
    Value::String(s.to_string())
}

#[test]
fn voice_state_event_for_a_join() {
    let event = voice_state_event(7, Some(30), Some(20), Some("sess-1"), false, false, false, Some("alice"), None);
    let expected = object(vec![
        ("user_id", text("7")),
        ("channel_id", text("30")),
        ("guild_id", text("20")),
        ("session_id", text("sess-1")),
        ("self_mute", Value::Bool(false)),
        ("self_deaf", Value::Bool(false)),
        ("self_stream", Value::Bool(false)),
        ("self_video", Value::Bool(false)),
        ("suppress", Value::Bool(false)),
        ("mute", Value::Bool(false)),
        ("deaf", Value::Bool(false)),
        ("username", text("alice")),
        ("avatar_hash", Value::Null),
    ]);
    assert_eq!(to_value(&event), expected);
}

#[test]
fn voice_state_event_for_leaving() {
    let event = voice_state_event(7, None, Some(20), None, true, false, false, None, Some("h1"));
    let v = to_value(&event);
    assert_eq!(v.get("channel_id"), Some(&Value::Null));
    assert_eq!(v.get("session_id"), None);
    assert_eq!(v.get("self_mute"), Some(&Value::Bool(true)));
    assert_eq!(v.get("username"), Some(&Value::Null));
    assert_eq!(v.get("avatar_hash"), Some(&text("h1")));
}

fn attachment() -> FederatedAttachmentMeta {
    FederatedAttachmentMeta {
        id: 99,
        filename: "a.png".to_string(),
        size: 1234,
        content_type: Some("image/png".to_string()),
        content_hash: None,
    }
}

#[test]
fn attachment_meta_names_origin_url() {
    let v = to_value(&federated_attachment_json(&attachment()));
    let expected = object(vec![
        ("id", text("99")),
        ("filename", text("a.png")),
        ("size", Value::from(1234)),
        ("content_type", text("image/png")),
        ("content_hash", Value::Null),
        ("origin_url", text("/_paracord/federation/v1/file/99")),
    ]);
    assert_eq!(v, expected);
}

#[test]
fn mapped_message_content_fields() {
    let outbound = FederationOutboundContext {
        room_id: "!5:peer.example".to_string(),
        payload_guild_id: "5".to_string(),
        payload_channel_id: None,
        uses_remote_mapping: true,
        origin_server: Some("peer.example".to_string()),
    };
    let content = mapped_message_content(
        Json::Str("hello".to_string()),
        &outbound,
        42,
        1001,
        Some("general"),
        Some(0),
        None,
        &vec![attachment()],
    );
    let v = to_value(&content);
    assert_eq!(v.get("body"), Some(&text("hello")));
    assert_eq!(v.get("msgtype"), Some(&text("m.text")));
    assert_eq!(v.get("guild_id"), Some(&text("5")));
    assert_eq!(v.get("channel_id"), Some(&text("42")));
    assert_eq!(v.get("message_id"), Some(&text("1001")));
    assert_eq!(v.get("channel_name"), Some(&text("general")));
    assert_eq!(v.get("channel_type"), Some(&Value::from(0)));
    assert_eq!(v.get("guild_name"), None);
    assert_eq!(v.get("attachments").and_then(|a| a.as_array()).map(|a| a.len()), Some(1));
    let plain = mapped_message_content(Json::Null, &outbound, 42, 1, None, None, None, &vec![]);
    assert_eq!(to_value(&plain).as_object().map(|m| m.len()), Some(5));
}

#[test]
fn reaction_payloads() {

    let e = to_value(&reaction_event(1, 2, 3, "👍"));
    assert_eq!(
        e,
        object(vec![
            ("user_id", text("1")),
            ("channel_id", text("2")),
            ("message_id", text("3")),
            ("emoji", text("👍")),
        ])
    );
    let c = to_value(&federated_reaction_content(9, 2, 3, "x"));
    assert_eq!(c.get("guild_id"), Some(&text("9")));
    assert_eq!(c.get("emoji"), Some(&text("x")));
}

#[test]
fn message_body_fields_hide_encrypted_content() {

    let (content, e2ee) = message_body_fields(false, &None, &Some("hi".to_string()), &None);
    assert_eq!(to_value(&content), text("hi"));
    assert_eq!(to_value(&e2ee), Value::Null);
    let (content, e2ee) = message_body_fields(true, &Some("n1".to_string()), &Some("ct".to_string()), &None);
    assert_eq!(to_value(&content), Value::Null);
    assert_eq!(
        to_value(&e2ee),
        object(vec![("version", Value::from(1)), ("nonce", text("n1")), ("ciphertext", text("ct"))])
    );
    let (_, e2ee) = message_body_fields(true, &Some("n1".to_string()), &Some("ct".to_string()), &Some("h".to_string()));
    assert_eq!(to_value(&e2ee).get("version"), Some(&Value::from(2)));
    assert_eq!(to_value(&e2ee).get("header"), Some(&text("h")));
    let (_, e2ee) = message_body_fields(true, &None, &Some("ct".to_string()), &None);
    assert_eq!(to_value(&e2ee), Value::Null);
}
