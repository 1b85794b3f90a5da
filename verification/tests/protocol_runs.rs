use paracord::error::ApiError;
use paracord::headers::RequestHeaders;
use paracord::http_layer::{install_http_rate_limiter, request_body_limit};
use paracord::http_layer::HttpRateLimiter;
use paracord::json::Json;
use paracord::routes::auth::{
    build_access_cookie_clear, build_refresh_cookie, build_refresh_cookie_clear, get_cookie_value,
    login_answer, resolved_registration_email,
};
use paracord::routes::catchup::{catchup_cursor_update, CatchupOutcome};
use paracord::routes::challenge::{challenge_store, consume_challenge, verify_precheck};
use paracord::routes::channels::{message_follow_up, MessageAudience};
use paracord::routes::federated_dispatch::{
    federated_author_id, federated_author_json, federated_channel_step, federated_materialize_step,
    federated_message_json, federation_generic_event, federation_origin_json, FederatedChannelStep,
    MaterializeOutcome,
};
use paracord::routes::livekit_proxy::{
    backend_connect_step, livekit_proxy_decision, livekit_proxy_route, relay_next, ConnectStep,
    ProxyDecision, RelayAction, RelayEvent, WsKind,
};

fn cookie_headers(cookie: &str) -> RequestHeaders {
    let mut h = RequestHeaders::new();
    h.insert("cookie", cookie);
    h
}

#[test]
fn cleared_cookies_read_back_empty() {
    let h = cookie_headers(&build_refresh_cookie_clear(true));
    assert_eq!(get_cookie_value(&h, "paracord_refresh").as_deref(), Some(""));
    let h2 = cookie_headers(&build_access_cookie_clear(false));
    assert_eq!(get_cookie_value(&h2, "paracord_access").as_deref(), Some(""));
    let h3 = cookie_headers(&build_refresh_cookie("tok-123", 30, false));
    assert_eq!(get_cookie_value(&h3, "paracord_refresh").as_deref(), Some("tok-123"));
}

const KEY: &str = "0123456789abcdef0123456789abcdef0123456789abcdef0123456789abcdef";

#[test]
fn a_nonce_signs_in_once() {
    let mut store = challenge_store();
    store.insert("n1".to_string(), 100);
    let nonce = "n1".to_string();
    // a bad key is refused before the nonce is touched
    let bad = verify_precheck(&mut store, true, None, "zz", &nonce);
    assert!(matches!(bad, Err(ApiError::BadRequest(ref m)) if m == "Invalid public key"));
    assert_eq!(store.get(&nonce), Some(100));
    let first = verify_precheck(&mut store, true, Some("  Ann  "), KEY, &nonce);
    assert_eq!(first.unwrap().as_deref(), Some("Ann"));
    assert_eq!(store.get(&nonce), None);
    let second = verify_precheck(&mut store, true, None, KEY, &nonce);
    assert!(matches!(second, Err(ApiError::Unauthorized)));
    let bad_user = verify_precheck(&mut store, false, None, KEY, &nonce);
    assert!(matches!(bad_user, Err(ApiError::BadRequest(ref m)) if m == "Username must be between 2 and 32 valid characters"));
    store.insert("n2".to_string(), 5);
    assert!(consume_challenge(&mut store, &"n2".to_string()).is_ok());
    assert!(matches!(consume_challenge(&mut store, &"n2".to_string()), Err(ApiError::Unauthorized)));
}

fn outcome(verified: bool, ingested: bool, depth: i64, origin_ts: i64) -> CatchupOutcome {
    CatchupOutcome { verified, ingested, depth, origin_ts }
}

#[test]
fn catchup_cursor_moves_only_for_verified_ingested_events() {
    assert_eq!(catchup_cursor_update(5, &vec![]), None);
    assert_eq!(catchup_cursor_update(5, &vec![outcome(false, true, 50, 0)]), None);
    assert_eq!(catchup_cursor_update(5, &vec![outcome(true, false, 50, 0)]), None);
    assert_eq!(catchup_cursor_update(5, &vec![outcome(true, true, 50, 0)]), Some(50));
    assert_eq!(
        catchup_cursor_update(5, &vec![outcome(true, true, 3, 0), outcome(false, false, 90, 0)]),
        None
    );
    assert_eq!(catchup_cursor_update(0, &vec![outcome(true, true, 0, 0)]), Some(1));
    assert_eq!(catchup_cursor_update(0, &vec![outcome(true, true, 2, 700)]), Some(700));
}

#[test]
fn interleaved_keys_keep_their_own_windows() {
    let mut slot: Option<HttpRateLimiter> = None;
    install_http_rate_limiter(&mut slot);
    let mut limiter = slot.take().unwrap();
    assert!(limiter.check_rate_limit_at("a", 60, 2, 100));
    assert!(limiter.check_rate_limit_at("b", 60, 2, 100));
    assert!(limiter.check_rate_limit_at("b", 60, 2, 101));
    assert!(limiter.check_rate_limit_at("a", 60, 2, 110));
    assert!(!limiter.check_rate_limit_at("b", 60, 2, 120));
    assert!(!limiter.check_rate_limit_at("a", 60, 2, 159));
    assert!(limiter.check_rate_limit_at("a", 60, 2, 160));
}

fn relay(msgs: &[WsKind]) -> Vec<WsKind> {
    let mut out = Vec::new();
    for m in msgs {
        match relay_next(RelayEvent::Received(*m)) {
            RelayAction::Forward => out.push(*m),
            RelayAction::ForwardAndFinish => {
                out.push(*m);
                break;
            }
            RelayAction::Skip => {}
            RelayAction::Finish => break,
        }
    }
    out
}

#[test]
fn relay_passes_messages_in_order_through_close() {
    let all = [WsKind::Text, WsKind::RawFrame, WsKind::Binary, WsKind::Ping, WsKind::Close, WsKind::Text];
    assert_eq!(relay(&all), vec![WsKind::Text, WsKind::Binary, WsKind::Ping, WsKind::Close]);
    assert_eq!(relay(&[WsKind::Pong, WsKind::Text]), vec![WsKind::Pong, WsKind::Text]);
    assert_eq!(relay_next(RelayEvent::SendFailed), RelayAction::Finish);
}

#[test]
fn message_follow_up_depends_on_creation() {
    let r = message_follow_up(7, 7, 6, Some(3), true);
    assert!(r.count_in_thread && r.federate);
    assert_eq!(r.announce, Some(MessageAudience::Guild(3)));
    let dm = message_follow_up(7, 7, 1, None, true);
    assert_eq!(dm.announce, Some(MessageAudience::DmRecipients));
    assert!(!dm.federate && !dm.count_in_thread);
    let repeat = message_follow_up(4, 7, 6, Some(3), true);
    assert_eq!(repeat.announce, None);
    assert!(!repeat.count_in_thread && !repeat.federate);
    assert!(!message_follow_up(7, 7, 0, Some(3), false).federate);
}

#[test]
fn registration_email_falls_back_to_local_address() {
    assert_eq!(resolved_registration_email("", 12345), "u12345@local.invalid");
    assert_eq!(resolved_registration_email("a@b.c", 12345), "a@b.c");
}

#[test]
fn federated_messages_find_their_channel() {
    assert_eq!(federated_channel_step(None, Some(1), Some(2)), FederatedChannelStep::Generic);
    assert_eq!(federated_channel_step(Some(9), Some(1), Some(2)), FederatedChannelStep::Use(1));
    assert_eq!(federated_channel_step(Some(9), None, Some(2)), FederatedChannelStep::Materialize(2));
    assert_eq!(federated_channel_step(Some(9), None, None), FederatedChannelStep::Generic);
    assert_eq!(federated_materialize_step(None, Some(4)), MaterializeOutcome::Drop);
    assert_eq!(federated_materialize_step(Some(3), None), MaterializeOutcome::GenericIn(3));
    assert_eq!(federated_materialize_step(Some(3), Some(4)), MaterializeOutcome::Use(4));
    assert_eq!(federated_author_id(Some(8), false), Some(8));
    assert_eq!(federated_author_id(None, true), Some(0));
    assert_eq!(federated_author_id(None, false), None);
}

fn get<'a>(j: &'a Json, k: &str) -> Option<&'a Json> {
    match j {
        Json::Object(f) => f.iter().find(|(n, _)| n == k).map(|(_, v)| v),
        _ => None,
    }
}

fn text(j: Option<&Json>) -> Option<&str> {
    match j {
        Some(Json::Str(s)) => Some(s.as_str()),
        _ => None,
    }
}

#[test]
fn federated_message_payloads_are_complete() {
    let author = federated_author_json(42, "remote-user");
    assert_eq!(text(get(&author, "id")), Some("42"));
    assert_eq!(text(get(&author, "username")), Some("remote-user"));
    assert!(matches!(get(&author, "bot"), Some(Json::Bool(false))));
    let origin = federation_origin_json("$e1", "peer.example", "@a:peer.example", "");
    assert_eq!(text(get(&origin, "remote_message_id")), Some(""));
    let msg = federated_message_json(100, 200, author, "hello", "2024-01-01T00:00:00+00:00", origin);
    assert_eq!(text(get(&msg, "id")), Some("100"));
    assert_eq!(text(get(&msg, "channel_id")), Some("200"));
    assert_eq!(text(get(&msg, "content")), Some("hello"));
    assert_eq!(text(get(&msg, "created_at")), Some("2024-01-01T00:00:00+00:00"));
    assert!(matches!(get(&msg, "attachments"), Some(Json::Array(a)) if a.is_empty()));
    assert!(matches!(get(&msg, "poll"), Some(Json::Null)));
    assert_eq!(text(get(get(&msg, "federation").unwrap(), "event_id")), Some("$e1"));
    match &msg {
        Json::Object(f) => assert_eq!(f.len(), 16),
        _ => panic!("not an object"),
    }
    let generic = federation_generic_event("$e2", "peer", "@b:peer", Json::Null);
    assert_eq!(text(get(&generic, "sender")), Some("@b:peer"));
    assert!(matches!(get(&generic, "content"), Some(Json::Null)));
}

#[test]
fn backend_connection_retries_once_then_gives_up() {
    assert_eq!(backend_connect_step(0, true), ConnectStep::Relay);
    assert_eq!(backend_connect_step(0, false), ConnectStep::RetryAfter(250));
    assert_eq!(backend_connect_step(1, false), ConnectStep::GiveUp);
    assert_eq!(backend_connect_step(1, true), ConnectStep::Relay);
}

#[test]
fn body_limits_follow_the_route() {
    assert_eq!(request_body_limit("POST", "/api/v1/channels/42/attachments"), 67108864);
    assert_eq!(request_body_limit("GET", "/api/v1/channels/42/attachments"), 2097152);
    assert_eq!(request_body_limit("POST", "/api/v1/channels//attachments"), 2097152);
    assert_eq!(request_body_limit("POST", "/api/v1/channels/4/2/attachments"), 2097152);
    assert_eq!(request_body_limit("POST", "/api/v1/channels/42/messages"), 2097152);
}

#[test]
fn login_answers_do_not_reveal_accounts() {
    assert!(matches!(login_answer(None, true), Err(ApiError::Unauthorized)));
    assert!(matches!(login_answer(Some("  "), true), Err(ApiError::Unauthorized)));
    assert!(matches!(login_answer(Some("$hash"), false), Err(ApiError::Unauthorized)));
    assert!(login_answer(Some("$hash"), true).is_ok());
}

#[test]
fn proxy_routes_requests() {
    assert_eq!(livekit_proxy_route(false, false, true, true, true), ProxyDecision::NotFound);
    assert_eq!(livekit_proxy_route(true, false, false, true, true), ProxyDecision::Unauthorized);
    assert_eq!(livekit_proxy_route(true, true, false, false, false), ProxyDecision::ForwardHttp);
    assert_eq!(livekit_proxy_route(true, false, true, true, true), ProxyDecision::RelayWebSocket);
    assert_eq!(livekit_proxy_route(true, false, true, false, true), ProxyDecision::UpgradeRequired);
    let h = RequestHeaders::new();
    assert_eq!(
        livekit_proxy_decision("/livekit/twirp/x", "POST", &h, None, "k", "s", false),
        ProxyDecision::NotFound
    );
    assert_eq!(
        livekit_proxy_decision("/livekit/rtc/v1/validate", "GET", &h, None, "k", "s", false),
        ProxyDecision::Unauthorized
    );
    assert_eq!(
        livekit_proxy_decision("/livekit/rtc/v1/validate", "OPTIONS", &h, None, "k", "s", false),
        ProxyDecision::ForwardHttp
    );
}
