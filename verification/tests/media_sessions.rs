use paracord::error::ApiError;
use paracord::routes::auth::{auth_guard_enforce, auth_guard_maybe_cleanup};
use paracord::routes::federation::local_federated_user_id;
use paracord::routes::livekit_proxy::{
    backend_retry_delay_ms, relay_next, RelayAction, RelayEvent, WsKind,
};
use paracord::routes::voice::{
    check_voice_service, local_voice_path, relayed_url_candidates, voice_channel_guild,
    LocalVoicePath, VoiceJoinQuery,
};

fn query(fallback: Option<&str>) -> VoiceJoinQuery {
    VoiceJoinQuery { fallback: fallback.map(|s| s.to_string()) }
}

#[test]
fn voice_needs_some_media_path() {
    assert!(check_voice_service(true, false, false, false).is_ok());
    assert!(check_voice_service(false, true, false, true).is_ok());
    assert!(check_voice_service(false, false, true, false).is_ok());
    match check_voice_service(false, false, false, true) {
        Err(ApiError::ServiceUnavailable(m)) => {
            assert_eq!(m, "Streaming is not available \u{2014} LiveKit server binary not found.")
        }
        other => panic!("unexpected {:?}", other),
    }
    let e = check_voice_service(false, false, false, false).unwrap_err();
    assert_eq!(e.status_code(), 503);
    assert!(e.message().starts_with("service unavailable: Voice chat is not available"));
}

#[test]
fn voice_channel_must_be_guild_voice_channel() {
    assert_eq!(voice_channel_guild(2, Some(77), false).unwrap(), 77);
    match voice_channel_guild(0, Some(77), false) {
        Err(ApiError::BadRequest(m)) => assert_eq!(m, "Not a voice channel"),
        other => panic!("unexpected {:?}", other),
    }
    match voice_channel_guild(2, None, true) {
        Err(ApiError::BadRequest(m)) => {
            assert_eq!(m, "Streaming is only supported in guild channels")
        }
        other => panic!("unexpected {:?}", other),
    }
    match voice_channel_guild(2, None, false) {
        Err(ApiError::BadRequest(m)) => assert_eq!(m, "Voice is only supported in guild channels"),
        other => panic!("unexpected {:?}", other),
    }
}

#[test]
fn native_media_preferred_unless_livekit_fallback() {
    assert_eq!(local_voice_path(true, true, &query(None), false).unwrap(), LocalVoicePath::Native);
    assert_eq!(
        local_voice_path(true, true, &query(Some("livekit")), false).unwrap(),
        LocalVoicePath::LiveKit
    );
    assert_eq!(
        local_voice_path(true, false, &query(Some("native")), true).unwrap(),
        LocalVoicePath::Native
    );
    assert_eq!(local_voice_path(false, true, &query(None), true).unwrap(), LocalVoicePath::LiveKit);
    match local_voice_path(true, false, &query(Some("livekit")), true) {
        Err(ApiError::ServiceUnavailable(m)) => {
            assert_eq!(m, "Streaming is not available - LiveKit server binary not found.")
        }
        other => panic!("unexpected {:?}", other),
    }
}

#[test]
fn relayed_candidates_put_peer_first_once() {
    let local = vec![
        "wss://a.example".to_string(),
        " wss://peer.example ".to_string(),
        "wss://a.example".to_string(),
        "   ".to_string(),
    ];
    let (list, url) = relayed_url_candidates(Some("wss://peer.example".to_string()), &local, "wss://fb");
    assert_eq!(list, vec!["wss://peer.example".to_string(), "wss://a.example".to_string()]);
    assert_eq!(url, "wss://peer.example");
    let (empty, url) = relayed_url_candidates(None, &Vec::new(), "wss://fb");
    assert!(empty.is_empty());
    assert_eq!(url, "wss://fb");
}

#[test]
fn auth_guard_locks_until_time_passes() {
    assert!(auth_guard_enforce(&vec![], 100, false).is_ok());
    assert!(auth_guard_enforce(&vec![50, 100], 100, false).is_ok());
    assert!(matches!(auth_guard_enforce(&vec![50, 101], 100, false), Err(ApiError::RateLimited)));
    assert!(auth_guard_enforce(&vec![50, 101], 100, true).is_ok());
}

#[test]
fn auth_guard_cleans_up_every_64th_operation() {
    assert_eq!(auth_guard_maybe_cleanup(62, 10_000), None);
    assert_eq!(auth_guard_maybe_cleanup(63, 10_000), Some(6_400));
    assert_eq!(auth_guard_maybe_cleanup(127, i64::MIN + 5), Some(i64::MIN));
    assert_eq!(auth_guard_maybe_cleanup(0, 10_000), None);
}

#[test]
fn ws_relay_steps() {
    assert_eq!(relay_next(RelayEvent::Received(WsKind::Binary)), RelayAction::Forward);
    assert_eq!(relay_next(RelayEvent::Received(WsKind::Text)), RelayAction::Forward);
    assert_eq!(relay_next(RelayEvent::Received(WsKind::Ping)), RelayAction::Forward);
    assert_eq!(relay_next(RelayEvent::Received(WsKind::Close)), RelayAction::ForwardAndFinish);
    assert_eq!(relay_next(RelayEvent::Received(WsKind::RawFrame)), RelayAction::Skip);
    assert_eq!(relay_next(RelayEvent::ReadFailed), RelayAction::Finish);
    assert_eq!(relay_next(RelayEvent::EndOfStream), RelayAction::Finish);
    assert_eq!(relay_next(RelayEvent::Cancelled), RelayAction::Finish);
    assert_eq!(relay_next(RelayEvent::SendFailed), RelayAction::Finish);
    assert_eq!(backend_retry_delay_ms(0), Some(250));
    assert_eq!(backend_retry_delay_ms(1), None);
}

#[test]
fn federated_user_ids() {
    assert_eq!(local_federated_user_id("alice", "chat.example"), "@alice:chat.example");
}
