use sha2::Digest;
use paracord::error::ApiError;
use paracord::headers::RequestHeaders;
use paracord::json::Json;
use paracord::routes::livekit_proxy::{
    backend_ws_target, build_target, decode_first_protobuf_tag, has_ws_upgrade_intent,
    is_allowed_livekit_request, is_livekit_access_token_valid, livekit_access_token,
    livekit_claims_accepted, query_param, sanitize_request_uri_for_log,
    sanitize_target_for_log,
};
use paracord::routes::voice::{
    check_webhook_body_hash, check_webhook_claims, env_bool, native_media_claims,
    native_media_token, native_media_token_at, verify_livekit_webhook_auth, is_frontend_dev_proxy_host, livekit_url_candidates,
    media_room_name, native_media_endpoint, push_unique_url, resolve_livekit_client_url,
    webhook_bearer_token,
};

#[test]
fn allows_livekit_signal_ws_paths() {
    assert!(is_allowed_livekit_request("/livekit/rtc/v1", "GET", true));
    assert!(is_allowed_livekit_request("/livekit", "GET", true));
}

#[test]
fn allows_only_validate_http_paths() {
    assert!(is_allowed_livekit_request("/livekit/rtc/v1/validate", "GET", false));
    assert!(!is_allowed_livekit_request(
        "/livekit/twirp/livekit.RoomService/DeleteRoom",
        "POST",
        false
    ));
}

#[test]
fn query_params_take_the_first_non_empty_value() {
    assert_eq!(query_param(Some("a=1&token=&token=xyz"), "token").as_deref(), Some("xyz"));
    assert_eq!(query_param(Some("token"), "token"), None);
    assert_eq!(query_param(None, "token"), None);
    assert_eq!(livekit_access_token(Some("token=t&access_token=a")).as_deref(), Some("a"));
    assert_eq!(livekit_access_token(Some("token=t")).as_deref(), Some("t"));
}

#[test]
fn websocket_intent_is_detected() {
    let mut h = RequestHeaders::new();
    assert!(!has_ws_upgrade_intent(&h));
    h.insert("connection", "keep-alive, Upgrade");
    assert!(has_ws_upgrade_intent(&h));
    let mut h2 = RequestHeaders::new();
    h2.insert("upgrade", "WebSocket");
    assert!(has_ws_upgrade_intent(&h2));
    let mut h3 = RequestHeaders::new();
    h3.insert("sec-websocket-key", "x");
    assert!(has_ws_upgrade_intent(&h3));
}

#[test]
fn targets_and_logs() {
    assert_eq!(
        build_target("https://lk.example:7880", "/livekit/rtc", Some("access_token=x"), true),
        "wss://lk.example:7880/rtc?access_token=x"
    );
    assert_eq!(
        build_target("http://127.0.0.1:7880", "/livekit/rtc/validate", None, false),
        "http://127.0.0.1:7880/rtc/validate"
    );
    assert_eq!(backend_ws_target("ws://localhost:7880/rtc"), "ws://127.0.0.1:7880/rtc");
    assert_eq!(sanitize_target_for_log("ws://x/rtc?access_token=secret"), "ws://x/rtc");
    assert_eq!(
        sanitize_request_uri_for_log("/livekit/rtc", Some("access_token=abc& =x&auto=1")),
        "/livekit/rtc?access_token=REDACTED&auto=REDACTED"
    );
    assert_eq!(sanitize_request_uri_for_log("/p", Some("=x")), "/p");
    assert_eq!(sanitize_request_uri_for_log("/p", None), "/p");
}

#[test]
fn protobuf_tags_are_decoded() {
    assert_eq!(decode_first_protobuf_tag(&[0x72, 0x00]), Some((14, 2)));
    assert_eq!(decode_first_protobuf_tag(&[0x82, 0x01]), Some((16, 2)));
    assert_eq!(decode_first_protobuf_tag(&[0x00]), None);
    assert_eq!(decode_first_protobuf_tag(&[0x05]), None);
    assert_eq!(decode_first_protobuf_tag(&[0x80]), None);
    assert_eq!(decode_first_protobuf_tag(&[]), None);
    assert_eq!(decode_first_protobuf_tag(&[0xff; 11]), None);
}

#[test]
fn client_urls_follow_forwarded_headers() {
    let mut h = RequestHeaders::new();
    h.insert("x-forwarded-host", "chat.example.com, proxy");
    h.insert("x-forwarded-proto", "https");
    assert_eq!(
        resolve_livekit_client_url(&h, "wss://fallback/livekit", None),
        "wss://chat.example.com/livekit"
    );
    let mut dev = RequestHeaders::new();
    dev.insert("host", "localhost:5173");
    assert_eq!(resolve_livekit_client_url(&dev, "wss://fallback/livekit", None), "wss://fallback/livekit");
    assert!(is_frontend_dev_proxy_host("localhost:1420"));
    assert!(!is_frontend_dev_proxy_host("localhost"));
    assert_eq!(
        resolve_livekit_client_url(&h, "wss://direct.example/rtc", None),
        "wss://direct.example/rtc"
    );
    assert_eq!(resolve_livekit_client_url(&h, "wss://fallback/livekit", Some(" YES ")), "wss://fallback/livekit");
    assert!(env_bool(Some(" On ")));
    assert!(!env_bool(Some("off")));
}

#[test]
fn url_candidates_are_distinct() {
    let mut h = RequestHeaders::new();
    h.insert("host", "chat.example.com");
    let c = livekit_url_candidates(&h, "ws://chat.example.com/livekit", Some(" wss://direct/x "), None, None);
    assert_eq!(c, vec!["wss://direct/x".to_string(), "ws://chat.example.com/livekit".to_string()]);
    let mut list = vec!["a".to_string()];
    push_unique_url(&mut list, " a ".to_string());
    push_unique_url(&mut list, "   ".to_string());
    push_unique_url(&mut list, " b".to_string());
    assert_eq!(list, vec!["a".to_string(), "b".to_string()]);
}

#[test]
fn native_media_endpoint_uses_forwarded_host() {
    let mut h = RequestHeaders::new();
    h.insert("host", "media.example:8080");
    assert_eq!(native_media_endpoint(&h, 9443), "https://media.example:9443/media");
    let empty = RequestHeaders::new();
    assert_eq!(native_media_endpoint(&empty, 9443), "https://localhost:9443/media");
    assert_eq!(media_room_name(1, 2), "1:2");
}

#[test]
fn webhook_checks_bearer_and_body_hash() {
    let mut h = RequestHeaders::new();
    assert!(webhook_bearer_token(&h).is_err());
    h.insert("authorization", "Bearer abc");
    assert_eq!(webhook_bearer_token(&h).unwrap(), "abc");
    let body = b"{\"event\":\"room_started\"}";

    let digest: String = sha2::Sha256::digest(body).iter().map(|b| format!("{:02x}", b)).collect();
    assert!(check_webhook_body_hash(Some(&digest), body).is_ok());
    assert!(check_webhook_body_hash(Some("deadbeef"), body).is_err());
    assert!(check_webhook_body_hash(None, body).is_ok());
}

fn signed_token(secret: &str, claims: serde_json::Map<String, serde_json::Value>) -> String {
    jsonwebtoken::encode(
        &jsonwebtoken::Header::new(jsonwebtoken::Algorithm::HS256),
        &serde_json::Value::Object(claims),
        &jsonwebtoken::EncodingKey::from_secret(secret.as_bytes()),
    )
    .expect("encode token")
}

fn webhook_claims(issuer: &str, sha256: Option<String>) -> serde_json::Map<String, serde_json::Value> {
    let mut claims = serde_json::Map::new();
    claims.insert("iss".to_string(), serde_json::Value::from(issuer));
    claims.insert(
        "exp".to_string(),
        serde_json::Value::from(chrono::Utc::now().timestamp() + 300),
    );
    if let Some(h) = sha256 {
        claims.insert("sha256".to_string(), serde_json::Value::from(h));
    }
    claims
}

fn bearer_header(secret: &str, issuer: &str, sha256: Option<String>) -> RequestHeaders {
    let token = signed_token(secret, webhook_claims(issuer, sha256));
    let mut headers = RequestHeaders::new();
    headers.insert("authorization", &format!("Bearer {token}"));
    headers
}

#[test]
fn webhook_auth_accepts_valid_bearer() {
    let headers = bearer_header("secret-1", "api-key-1", None);
    let result = verify_livekit_webhook_auth(&headers, b"{}", "api-key-1", "secret-1");
    assert!(result.is_ok());
}

#[test]
fn webhook_auth_rejects_wrong_issuer() {
    let headers = bearer_header("secret-1", "other-key", None);
    let result = verify_livekit_webhook_auth(&headers, b"{}", "api-key-1", "secret-1");
    assert!(matches!(result, Err(ApiError::Unauthorized)));
}

#[test]
fn webhook_auth_rejects_body_hash_mismatch() {
    let digest = sha2::Sha256::digest(b"expected-body");
    let expected_hash = digest
        .iter()
        .fold(String::with_capacity(64), |mut out, byte| {
            out.push_str(&format!("{:02x}", byte));
            out
        });
    let headers = bearer_header("secret-1", "api-key-1", Some(expected_hash));
    let result =
        verify_livekit_webhook_auth(&headers, b"different-body", "api-key-1", "secret-1");
    assert!(matches!(result, Err(ApiError::Unauthorized)));
}

#[test]
fn webhook_auth_accepts_matching_body_hash_and_refuses_others() {
    let digest = sha2::Sha256::digest(b"the-body");
    let hash: String = digest.iter().map(|b| format!("{:02x}", b)).collect();
    let headers = bearer_header("secret-1", "api-key-1", Some(hash));
    assert!(verify_livekit_webhook_auth(&headers, b"the-body", "api-key-1", "secret-1").is_ok());
    // wrong secret
    assert!(matches!(
        verify_livekit_webhook_auth(&headers, b"the-body", "api-key-1", "secret-2"),
        Err(ApiError::Unauthorized)
    ));
    // no bearer token
    let mut plain = RequestHeaders::new();
    plain.insert("authorization", "Basic abc");
    assert!(matches!(
        verify_livekit_webhook_auth(&plain, b"the-body", "api-key-1", "secret-1"),
        Err(ApiError::Unauthorized)
    ));
    // a token without an issuer is refused for webhooks
    let mut claims = serde_json::Map::new();
    claims.insert("exp".to_string(), serde_json::Value::from(chrono::Utc::now().timestamp() + 300));
    let token = signed_token("secret-1", claims);
    let mut h = RequestHeaders::new();
    h.insert("authorization", &format!("Bearer {token}"));
    assert!(verify_livekit_webhook_auth(&h, b"x", "api-key-1", "secret-1").is_err());
}

#[test]
fn webhook_claims_check_types_and_hash() {
    let obj = |pairs: Vec<(&str, Json)>| {
        Json::Object(pairs.into_iter().map(|(k, v)| (k.to_string(), v)).collect())
    };
    assert!(check_webhook_claims(Some(obj(vec![])), b"x").is_ok());
    assert!(check_webhook_claims(Some(obj(vec![("_iss", Json::Null)])), b"x").is_ok());
    assert!(matches!(
        check_webhook_claims(Some(obj(vec![("sha256", Json::Number(Some(1)))])), b"x"),
        Err(ApiError::Unauthorized)
    ));
    assert!(matches!(
        check_webhook_claims(Some(obj(vec![("_iss", Json::Bool(true))])), b"x"),
        Err(ApiError::Unauthorized)
    ));
    assert!(matches!(check_webhook_claims(Some(Json::Null), b"x"), Err(ApiError::Unauthorized)));
    assert!(matches!(check_webhook_claims(None, b"x"), Err(ApiError::Unauthorized)));
    let hash: String = sha2::Sha256::digest(b"x").iter().map(|b| format!("{:02x}", b)).collect();
    assert!(check_webhook_claims(Some(obj(vec![("sha256", Json::Str(hash))])), b"x").is_ok());
    assert!(check_webhook_claims(Some(obj(vec![("sha256", Json::Str("00".into()))])), b"x").is_err());
}

#[test]
fn proxy_access_tokens_are_checked() {
    let mut claims = serde_json::Map::new();
    claims.insert("iss".to_string(), serde_json::Value::from("api-key-1"));
    claims.insert("exp".to_string(), serde_json::Value::from(chrono::Utc::now().timestamp() + 300));
    let good = signed_token("secret-1", claims.clone());
    let q = format!("access_token={good}");
    assert!(is_livekit_access_token_valid(Some(&q), "api-key-1", "secret-1"));
    let q2 = format!("token={good}");
    assert!(is_livekit_access_token_valid(Some(&q2), "api-key-1", "secret-1"));
    assert!(!is_livekit_access_token_valid(Some(&q), "api-key-2", "secret-1"));
    assert!(!is_livekit_access_token_valid(Some(&q), "api-key-1", "secret-2"));
    assert!(!is_livekit_access_token_valid(None, "api-key-1", "secret-1"));
    assert!(!is_livekit_access_token_valid(Some("room=a"), "api-key-1", "secret-1"));
    // expired
    let mut old = claims.clone();
    old.insert("exp".to_string(), serde_json::Value::from(1000));
    let q3 = format!("access_token={}", signed_token("secret-1", old));
    assert!(!is_livekit_access_token_valid(Some(&q3), "api-key-1", "secret-1"));
    // an issuer that is not text is refused by the claim types
    let mut odd = claims.clone();
    odd.insert("iss".to_string(), serde_json::Value::from(7));
    let q4 = format!("access_token={}", signed_token("secret-1", odd));
    assert!(!is_livekit_access_token_valid(Some(&q4), "api-key-1", "secret-1"));
    // a token without an issuer is accepted by the proxy (only `exp` is required)
    let mut no_iss = serde_json::Map::new();
    no_iss.insert("exp".to_string(), serde_json::Value::from(chrono::Utc::now().timestamp() + 300));
    let q5 = format!("access_token={}", signed_token("secret-1", no_iss));
    assert!(is_livekit_access_token_valid(Some(&q5), "api-key-1", "secret-1"));
    // accepted claims
    assert!(livekit_claims_accepted(&Some(Json::Object(vec![]))));
    assert!(!livekit_claims_accepted(&Some(Json::Object(vec![(
        "exp".to_string(),
        Json::Number(Some(-1))
    )]))));
    assert!(!livekit_claims_accepted(&None));
}

#[test]
fn native_media_tokens_carry_their_claims() {
    let token = native_media_token_at("jwt-secret", 42, "sess-1", "7:9", 1_700_000_000);
    let mut validation = jsonwebtoken::Validation::new(jsonwebtoken::Algorithm::HS256);
    validation.validate_exp = false;
    let data = jsonwebtoken::decode::<serde_json::Value>(
        &token,
        &jsonwebtoken::DecodingKey::from_secret(b"jwt-secret"),
        &validation,
    )
    .expect("token decodes");
    assert_eq!(data.claims["sub"], serde_json::Value::from("42"));
    assert_eq!(data.claims["session_id"], serde_json::Value::from("sess-1"));
    assert_eq!(data.claims["room"], serde_json::Value::from("7:9"));
    assert_eq!(data.claims["exp"], serde_json::Value::from(1_700_086_400i64));
    let claims = native_media_claims(42, "sess-1", "7:9", 5);
    assert!(matches!(claims, Json::Object(ref f) if f.len() == 4));
    assert!(!native_media_token("jwt-secret", 1, "s", "r").is_empty());
}
