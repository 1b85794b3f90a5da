use paracord::routes::interactions::{interaction_route, interaction_target, InteractionRoute};
use paracord::headers::RequestHeaders;
use paracord::error::ApiError;
use paracord::http_layer::prometheus_escape_label_value;
use paracord::routes::channels::{attachment_needs_link, check_message_attachment};
use paracord::routes::livekit_proxy::sanitize_target_for_log;
use paracord::json::Json;
use paracord::routes::auth::{
    check_registration, login_lookup, registration_account_hint, LoginLookup,
};
use paracord::routes::federation::{
    check_transport_clock, federated_message_target, select_trusted_key,
};
use paracord::routes::realtime::{gateway_frame, next_sequence, session_guild_change, SessionGuildChange};
use paracord::routes::realtime::{
    presence_payload, realtime_command_kind, voice_state_channel_guild, RealtimeCommandKind,
    RealtimeCommandRequest,
};

fn obj(fields: Vec<(&str, Json)>) -> Json {
    Json::Object(fields.into_iter().map(|(k, v)| (k.to_string(), v)).collect())
}

fn s(v: &str) -> Json {
    Json::Str(v.to_string())
}

#[test]
fn login_lookup_kinds() {
    match login_lookup("  Alice#0042 ", true, true).unwrap() {
        LoginLookup::UsernameDiscriminator(u, d) => {
            assert_eq!(u, "alice");
            assert_eq!(d, 42);
        }
        _ => panic!("expected a discriminator lookup"),
    }
    match login_lookup("Bob", false, false).unwrap() {
        LoginLookup::Username(u) => assert_eq!(u, "bob"),
        _ => panic!("expected a username lookup"),
    }
    match login_lookup("Bob", false, true).unwrap() {
        LoginLookup::Email(e) => assert_eq!(e, "bob"),
        _ => panic!("expected an e-mail lookup"),
    }
    match login_lookup(" Carol@Example.COM ", true, false).unwrap() {
        LoginLookup::Email(e) => assert_eq!(e, "carol@example.com"),
        _ => panic!("expected an e-mail lookup"),
    }
    assert!(matches!(login_lookup("   ", true, false), Err(ApiError::Unauthorized)));
}

#[test]
fn registration_checks_in_order() {
    assert_eq!(registration_account_hint(" A@B.C ", "user"), "a@b.c");
    assert_eq!(registration_account_hint("  ", " User "), "user");
    assert!(check_registration("a@b.c", true, true, false, true, true, true).is_ok());
    assert!(matches!(
        check_registration("a@b.c", false, true, false, false, false, false),
        Err((ApiError::Forbidden, true))
    ));
    match check_registration("", true, true, true, true, true, true) {
        Err((ApiError::BadRequest(m), true)) => assert_eq!(m, "Email is required"),
        _ => panic!("expected missing e-mail"),
    }
    match check_registration("x", true, false, true, true, false, true) {
        Err((ApiError::BadRequest(m), true)) => assert_eq!(m, "Invalid email address"),
        _ => panic!("expected invalid e-mail"),
    }
    match check_registration("", true, false, false, true, true, false) {
        Err((ApiError::BadRequest(m), false)) => {
            assert_eq!(m, "Password must be between 10 and 128 characters")
        }
        _ => panic!("expected weak password"),
    }
    match check_registration("", true, false, false, false, true, true) {
        Err((ApiError::BadRequest(m), true)) => {
            assert_eq!(m, "Username must be between 2 and 32 valid characters")
        }
        _ => panic!("expected bad username"),
    }
}

#[test]
fn transport_clock_and_keys() {
    assert!(check_transport_clock(1_000_000, 999_000, 5_000).is_ok());
    assert!(check_transport_clock(1_000_000, 1_005_000, 5_000).is_ok());
    assert!(matches!(check_transport_clock(1_000_000, 1_005_001, 5_000), Err(ApiError::Unauthorized)));
    assert!(matches!(check_transport_clock(i64::MAX, i64::MIN, 5_000), Err(ApiError::Unauthorized)));
    let keys = vec![("k1".to_string(), 10), ("k2".to_string(), 100), ("k2".to_string(), 500)];
    assert_eq!(select_trusted_key(&keys, "k2", 50).unwrap(), 1);
    assert_eq!(select_trusted_key(&keys, "k2", 200).unwrap(), 2);
    assert!(matches!(select_trusted_key(&keys, "k1", 11), Err(ApiError::Forbidden)));
}

#[test]
fn federated_message_targets() {
    let content = obj(vec![("channel_id", s(" 77 ")), ("message_id", s("  m1 "))]);
    let t = federated_message_target("!5:remote.example", "origin.example", &content);
    assert_eq!(t.mapping_namespace, "remote.example");
    assert_eq!(t.remote_channel_id, Some(77));
    assert_eq!(t.remote_guild_id, Some(5));
    assert_eq!(t.remote_message_id.as_deref(), Some("m1"));
    let content = obj(vec![("guild_id", Json::Number(Some(9))), ("message_id", s("   "))]);
    let t = federated_message_target("space-room", "origin.example", &content);
    assert_eq!(t.mapping_namespace, "origin.example");
    assert_eq!(t.remote_channel_id, None);
    assert_eq!(t.remote_guild_id, Some(9));
    assert_eq!(t.remote_message_id, None);
}

fn command(id: &str, kind: &str) -> RealtimeCommandRequest {
    RealtimeCommandRequest { command_id: id.to_string(), command_type: kind.to_string(), payload: Json::Null }
}

#[test]
fn realtime_commands() {
    assert_eq!(realtime_command_kind(&command("1", "presence_update")).unwrap(), RealtimeCommandKind::PresenceUpdate);
    assert_eq!(realtime_command_kind(&command("1", "voice_state_update")).unwrap(), RealtimeCommandKind::VoiceStateUpdate);
    assert_eq!(realtime_command_kind(&command("1", "typing_start")).unwrap(), RealtimeCommandKind::TypingStart);
    match realtime_command_kind(&command("1", "dance")) {
        Err(ApiError::BadRequest(m)) => assert_eq!(m, "Unsupported command type"),
        other => panic!("unexpected {:?}", other),
    }
    match realtime_command_kind(&command("  ", "typing_start")) {
        Err(ApiError::BadRequest(m)) => assert_eq!(m, "command_id is required"),
        other => panic!("unexpected {:?}", other),
    }
}

#[test]
fn presence_payload_defaults() {
    let p = presence_payload(12, obj(vec![]));
    assert_eq!(p.get("user_id").and_then(|v| v.as_str()), Some("12"));
    assert_eq!(p.get("status").and_then(|v| v.as_str()), Some("online"));
    assert!(matches!(p.get("custom_status"), Some(Json::Null)));
    assert!(matches!(p.get("activities"), Some(Json::Array(a)) if a.is_empty()));
    let p = presence_payload(
        3,
        obj(vec![
            ("status", s("idle")),
            ("custom_status", s("afk")),
            ("activities", Json::Array(vec![s("game")])),
        ]),
    );
    assert_eq!(p.get("status").and_then(|v| v.as_str()), Some("idle"));
    assert_eq!(p.get("custom_status").and_then(|v| v.as_str()), Some("afk"));
    assert!(matches!(p.get("activities"), Some(Json::Array(a)) if a.len() == 1));
}

#[test]
fn voice_state_channel_checks() {
    assert_eq!(voice_state_channel_guild(2, Some(4), None).unwrap(), 4);
    assert_eq!(voice_state_channel_guild(2, Some(4), Some(4)).unwrap(), 4);
    match voice_state_channel_guild(2, Some(4), Some(5)) {
        Err(ApiError::BadRequest(m)) => assert_eq!(m, "guild_id/channel_id mismatch"),
        other => panic!("unexpected {:?}", other),
    }
    match voice_state_channel_guild(0, Some(4), None) {
        Err(ApiError::BadRequest(m)) => assert_eq!(m, "Not a voice channel"),
        other => panic!("unexpected {:?}", other),
    }
}

#[test]
fn message_attachment_checks() {
    let now = (1_000, 500);
    assert!(check_message_attachment(Some(1), Some(2), None, 1, 2, now).is_ok());
    assert!(check_message_attachment(Some(1), Some(2), Some((1_000, 501)), 1, 2, now).is_ok());
    match check_message_attachment(Some(1), Some(2), Some((1_000, 500)), 1, 2, now) {
        Err(ApiError::BadRequest(m)) => {
            assert_eq!(m, "Attachment upload has expired; re-upload the file")
        }
        other => panic!("unexpected {:?}", other),
    }
    assert!(matches!(check_message_attachment(None, Some(2), None, 1, 2, now), Err(ApiError::Forbidden)));
    match check_message_attachment(Some(1), Some(3), None, 1, 2, now) {
        Err(ApiError::BadRequest(m)) => assert_eq!(m, "Attachment was uploaded for a different channel"),
        other => panic!("unexpected {:?}", other),
    }
    assert_eq!(attachment_needs_link(None, 9).unwrap(), true);
    assert_eq!(attachment_needs_link(Some(9), 9).unwrap(), false);
    match attachment_needs_link(Some(8), 9) {
        Err(ApiError::BadRequest(m)) => assert_eq!(m, "Attachment is already linked"),
        other => panic!("unexpected {:?}", other),
    }
}

#[test]
fn escaped_labels_stay_on_one_line() {
    let escaped = prometheus_escape_label_value("a\nb\"c\\d");
    assert_eq!(escaped, "a\\nb\\\"c\\\\d");
    assert!(!escaped.contains('\n'));
}

#[test]
fn logged_targets_drop_the_query() {
    let logged = sanitize_target_for_log("ws://127.0.0.1:7880/rtc?access_token=secret&x=1");
    assert_eq!(logged, "ws://127.0.0.1:7880/rtc");
    assert!(!logged.contains('?'));
}

#[test]
fn stream_sessions_follow_own_guild_changes() {
    let add = obj(vec![("user_id", s("7")), ("guild_id", s("30"))]);
    assert_eq!(session_guild_change("GUILD_MEMBER_ADD", &add, 7), SessionGuildChange::Follow(30));
    assert_eq!(session_guild_change("GUILD_MEMBER_ADD", &add, 8), SessionGuildChange::Unchanged);
    assert_eq!(session_guild_change("GUILD_BAN_ADD", &add, 7), SessionGuildChange::Unfollow(30));
    assert_eq!(session_guild_change("GUILD_MEMBER_REMOVE", &add, 7), SessionGuildChange::Unfollow(30));
    let deleted = obj(vec![("id", s("31"))]);
    assert_eq!(session_guild_change("GUILD_DELETE", &deleted, 7), SessionGuildChange::Unfollow(31));
    let deleted_by_guild = obj(vec![("guild_id", s("32"))]);
    assert_eq!(session_guild_change("GUILD_DELETE", &deleted_by_guild, 7), SessionGuildChange::Unfollow(32));
    let odd_id = obj(vec![("id", Json::Number(Some(5))), ("guild_id", s("33"))]);
    assert_eq!(session_guild_change("GUILD_DELETE", &odd_id, 7), SessionGuildChange::Unchanged);
    assert_eq!(session_guild_change("MESSAGE_CREATE", &add, 7), SessionGuildChange::Unchanged);
    assert_eq!(next_sequence(4), 5);
    assert_eq!(next_sequence(u64::MAX), u64::MAX);
    assert_eq!(
        gateway_frame(5, "MESSAGE_CREATE", "{\"id\":\"1\"}"),
        "{\"event_id\":5,\"op\":0,\"t\":\"MESSAGE_CREATE\",\"s\":5,\"d\":{\"id\":\"1\"}}"
    );
}

#[test]
fn security_headers_by_path_and_scheme() {

    let mut h = RequestHeaders::new();
    let plain = paracord::http_layer::security_headers("/api/v1/users", &h);
    assert_eq!(plain.len(), 7);
    assert_eq!(plain[0], ("x-content-type-options", "nosniff"));
    assert_eq!(plain[6].1, "default-src 'none'; frame-ancestors 'none'; base-uri 'none'");
    h.insert("X-Forwarded-Proto", "HTTPS");
    let secure = paracord::http_layer::security_headers("/app", &h);
    assert_eq!(secure.len(), 8);
    assert!(secure[6].1.starts_with("default-src 'self'"));
    assert_eq!(secure[7], ("strict-transport-security", "max-age=31536000; includeSubDomains"));
}

fn interaction(kind: i16) -> paracord::routes::interactions::InvokeInteractionRequest {
    paracord::routes::interactions::InvokeInteractionRequest {
        command_name: None,
        guild_id: "10".to_string(),
        channel_id: "20".to_string(),
        options: vec![],
        interaction_type: kind,
        message_id: None,
        custom_id: None,
        component_type: None,
        values: None,
    }
}

#[test]
fn interaction_requests() {
    let mut body = interaction(2);
    assert_eq!(interaction_target(&body).unwrap(), (10, 20));
    body.channel_id = "x".to_string();
    match interaction_target(&body) {
        Err(ApiError::BadRequest(m)) => assert_eq!(m, "Invalid channel_id"),
        other => panic!("unexpected {:?}", other.map(|_| ())),
    }
    match interaction_route(&body) {
        Err(ApiError::BadRequest(m)) => assert_eq!(m, "command_name required for slash commands"),
        _ => panic!("expected a missing name"),
    }
    body.command_name = Some("ping".to_string());
    assert!(matches!(interaction_route(&body), Ok(InteractionRoute::Command { command_name }) if command_name == "ping"));
    let mut comp = interaction(3);
    comp.message_id = Some("55".to_string());
    comp.custom_id = Some("btn".to_string());
    assert!(matches!(
        interaction_route(&comp),
        Ok(InteractionRoute::Component { message_id: 55, ref custom_id, component_type: 2 }) if custom_id == "btn"
    ));
    comp.message_id = Some("5x".to_string());
    match interaction_route(&comp) {
        Err(ApiError::BadRequest(m)) => assert_eq!(m, "Invalid message_id"),
        _ => panic!("expected a bad message id"),
    }
    match interaction_route(&interaction(7)) {
        Err(ApiError::BadRequest(m)) => assert_eq!(m, "unsupported interaction type: 7"),
        _ => panic!("expected an unsupported type"),
    }
}
