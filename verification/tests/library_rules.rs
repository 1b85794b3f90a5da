use paracord::client::{
    chrono_like_timestamp_utc, greet, installer_preference, is_own_process, parse_first_u32,
    parse_frame_payload, parse_xprop_string_value, process_name_from_path, readable_process_name,
    unix_timestamp_text,
};
use paracord::error::{bad_request, ApiError};
use paracord::headers::RequestHeaders;
use paracord::http_layer::{
    bot_token, content_security_policy, cors_allow_any, cors_allowed_origins, forwarded_https,
    install_http_rate_limiter, is_auth_path, metrics_access, prometheus_escape_label_value,
    rate_limit_exempt, HttpMetrics, HttpRateLimiter,
};
use paracord::json::Json;
use paracord::middleware::bearer_token;
use paracord::routes::bots::{
    bot_discriminator, bot_email, bot_username, check_redirect_matches, contains_dangerous_markup,
    generate_secure_token, parse_oauth2_authorize, parse_permission_bits, validate_bot_fields,
    validate_redirect_uri, OAuth2AuthorizeRequest,
};
use paracord::routes::challenge::{
    challenge_store, normalize_verify_display_name, validate_attached_public_key,
    verify_public_key_length,
};
use paracord::routes::channels::{
    check_roles_belong_to_guild, parse_message_ids, parse_role_id_strings,
    validate_bulk_delete_count, validate_channel_topic, validate_forum_sort_order,
    validate_forum_tag_name, validate_poll, validate_send_message, validate_thread_name,
    CreatePollOptionRequest, CreatePollRequest, SendMessageRequest,
};
use paracord::routes::commands::{
    normalize_command_name, validate_command_description, validate_command_name, validate_options,
};
use paracord::routes::guilds::{default_max_age, default_max_uses, top_role_position, validate_guild_name};
use paracord::routes::interactions::default_interaction_type;
use paracord::routes::realtime::parse_i64_id;
use paracord::routes::users::{dm_recipient, CreateDmRequest};

fn msg(e: ApiError) -> String {
    match e {
        ApiError::BadRequest(m) => m,
        _ => panic!("expected a bad request"),
    }
}

#[test]
fn challenges_are_consumed_once() {
    let mut store = challenge_store();
    store.insert("n1".to_string(), 100);
    assert_eq!(store.get(&"n1".to_string()), Some(100));
    assert!(store.remove(&"n1".to_string()));
    assert!(!store.remove(&"n1".to_string()));
    assert_eq!(store.len(), 0);
}

#[test]
fn expired_challenges_are_dropped_and_oldest_capped() {
    let mut store = challenge_store();
    store.insert("old".to_string(), 0);
    store.insert("edge".to_string(), 880);
    store.insert("new".to_string(), 1_000);
    store.cleanup_expired_at(1_000);
    assert_eq!(store.get(&"old".to_string()), None);
    assert_eq!(store.get(&"edge".to_string()), Some(880));
    store.insert("newest".to_string(), 1_010);
    store.cap_oldest_to(2);
    assert_eq!(store.len(), 2);
    assert_eq!(store.get(&"edge".to_string()), None);
    assert_eq!(store.get(&"newest".to_string()), Some(1_010));
    store.insert("newest".to_string(), 5);
    assert_eq!(store.get(&"newest".to_string()), Some(5));
    assert_eq!(store.len(), 2);
    store.record_challenge("fresh".to_string(), 7);
    assert!(store.get(&"fresh".to_string()).is_some());
}

#[test]
fn display_names_and_public_keys_are_checked() {
    assert_eq!(normalize_verify_display_name(None).unwrap(), None);
    assert_eq!(normalize_verify_display_name(Some("   ")).unwrap(), None);
    assert_eq!(normalize_verify_display_name(Some("  Ann  ")).unwrap().as_deref(), Some("Ann"));
    assert_eq!(msg(normalize_verify_display_name(Some(&"x".repeat(65))).unwrap_err()), "Display name is too long");
    assert_eq!(
        msg(normalize_verify_display_name(Some("a\u{7}b")).unwrap_err()),
        "Display name contains invalid characters"
    );
    assert!(normalize_verify_display_name(Some(&"é".repeat(64))).is_ok());
    assert!(verify_public_key_length(&"a".repeat(64)).is_ok());
    assert_eq!(msg(verify_public_key_length("abc").unwrap_err()), "Invalid public key");
    assert_eq!(msg(verify_public_key_length(&"z".repeat(64)).unwrap_err()), "Invalid public key");
    assert!(verify_public_key_length(&"0aF9".repeat(16)).is_ok());
    assert!(validate_attached_public_key(&"aB0".repeat(21).chars().chain("f".chars()).collect::<String>()).is_ok());
    assert_eq!(
        msg(validate_attached_public_key(&"g".repeat(64)).unwrap_err()),
        "Invalid public key format (expected 64 hex characters)"
    );
}

#[test]
fn bot_fields_and_redirects_are_checked() {
    assert!(contains_dangerous_markup("hello <SCRIPT>x"));
    assert!(contains_dangerous_markup("JavaScript:alert(1)"));
    assert!(!contains_dangerous_markup("plain text"));
    assert_eq!(msg(validate_bot_fields(Some("  "), None).unwrap_err()), "Bot name must be between 1 and 80 characters");
    assert_eq!(msg(validate_bot_fields(Some("<iframe>"), None).unwrap_err()), "Bot name contains unsafe markup");
    assert_eq!(msg(validate_bot_fields(Some("bot"), Some(&"d".repeat(401))).unwrap_err()), "Description too long");
    assert!(validate_bot_fields(Some("bot"), Some("nice")).is_ok());
    assert_eq!(validate_redirect_uri(" https://app.example/cb ").unwrap(), "https://app.example/cb");
    assert!(validate_redirect_uri("http://localhost:3000/cb").is_ok());
    assert_eq!(
        msg(validate_redirect_uri("http://app.example/cb").unwrap_err()),
        "redirect_uri must use https (localhost http allowed for development)"
    );
    assert_eq!(msg(validate_redirect_uri("not a url").unwrap_err()), "redirect_uri is not a valid URL");
    assert_eq!(msg(validate_redirect_uri("https://u:p@app.example/").unwrap_err()), "redirect_uri must not include userinfo");
    assert_eq!(msg(validate_redirect_uri("https://app.example/#x").unwrap_err()), "redirect_uri must not include URL fragments");
    assert_eq!(parse_permission_bits(" 8 ", "permissions").unwrap(), 8);
    assert_eq!(msg(parse_permission_bits("x", "permissions").unwrap_err()), "Invalid permissions");
    assert_eq!(msg(parse_permission_bits("-1", "permissions").unwrap_err()), "permissions must be a non-negative integer");
    assert_eq!(bot_discriminator(12345), (12345 % 9000 + 1000) as i16);
    assert_eq!(bot_discriminator(-5), 995);
    assert_eq!(bot_username(7), "bot-7");
    assert_eq!(bot_email(8), "bot-8@bots.paracord.local");
    let t = generate_secure_token();
    assert_eq!(t.len(), 64);
    assert!(t.chars().all(|c| c.is_ascii_hexdigit() && !c.is_ascii_uppercase()));
    let req = OAuth2AuthorizeRequest {
        application_id: "1".to_string(),
        guild_id: "x".to_string(),
        permissions: None,
        redirect_uri: None,
        state: None,
    };
    assert_eq!(msg(parse_oauth2_authorize(&req).unwrap_err()), "Invalid guild_id");
    assert!(check_redirect_matches(Some("https://a/cb"), Some("https://a/cb")).is_ok());
    assert!(check_redirect_matches(None, Some("https://a/cb")).is_err());
    assert!(check_redirect_matches(None, None).is_ok());
}

#[test]
fn channel_requests_are_checked() {
    assert_eq!(parse_role_id_strings(&vec!["1".into(), "2".into()]).unwrap(), vec![1, 2]);
    assert_eq!(msg(parse_role_id_strings(&vec!["x".into()]).unwrap_err()), "Invalid role id");
    assert_eq!(msg(parse_message_ids(&vec!["1".into(), "".into()]).unwrap_err()), "Invalid message ID");
    assert!(check_roles_belong_to_guild(&vec![1, 2], &vec![2, 1, 3]).is_ok());
    assert!(check_roles_belong_to_guild(&vec![4], &vec![2, 1, 3]).is_err());
    assert_eq!(msg(validate_bulk_delete_count(0).unwrap_err()), "message_ids must contain at least one message");
    assert_eq!(msg(validate_bulk_delete_count(501).unwrap_err()), "Too many message_ids in one request");
    assert!(validate_bulk_delete_count(500).is_ok());
    assert_eq!(msg(validate_channel_topic(Some("<script>")).unwrap_err()), "topic contains unsafe markup");
    assert_eq!(msg(validate_channel_topic(Some(&"t".repeat(1025))).unwrap_err()), "topic is too long");
    assert!(validate_channel_topic(None).is_ok());
    assert_eq!(msg(validate_thread_name(" ").unwrap_err()), "Thread name must be 1-100 characters");
    assert_eq!(validate_forum_tag_name("  tag ").unwrap(), "tag");
    assert!(validate_forum_sort_order(2).is_err());
    let send = SendMessageRequest {
        content: "  ".into(),
        referenced_message_id: None,
        attachment_ids: vec![],
        e2ee: None,
        nonce: Some("  n1  ".into()),
    };
    assert_eq!(msg(validate_send_message(&send).unwrap_err()), "Message must include content or attachments");
    let send = SendMessageRequest { content: "hi".into(), ..send };
    assert_eq!(validate_send_message(&send).unwrap().as_deref(), Some("n1"));
    let poll = CreatePollRequest {
        question: " Lunch? ".into(),
        options: vec![
            CreatePollOptionRequest { text: " pizza ".into(), emoji: None },
            CreatePollOptionRequest { text: "soup".into(), emoji: None },
        ],
        allow_multiselect: None,
        expires_in_minutes: Some(60),
    };
    let (q, opts) = validate_poll(&poll).unwrap();
    assert_eq!(q, "Lunch?");
    assert_eq!(opts, vec!["pizza".to_string(), "soup".to_string()]);
    let poll = CreatePollRequest { expires_in_minutes: Some(20161), ..poll };
    assert_eq!(msg(validate_poll(&poll).unwrap_err()), "Poll duration must be between 1 minute and 14 days");
}

#[test]
fn command_names_and_options_are_checked() {
    assert!(validate_command_name("ping").is_ok());
    assert!(validate_command_name("ping-2_x").is_ok());
    assert_eq!(msg(validate_command_name("").unwrap_err()), "Command name must be between 1 and 32 characters");
    assert_eq!(msg(validate_command_name("a b").unwrap_err()), "Command name must match ^[\\w-]{1,32}$");
    assert!(validate_command_name(&"é".repeat(20)).is_ok());
    assert!(validate_command_name(&"a".repeat(33)).is_err());
    assert!(validate_command_description(&"d".repeat(100)).is_ok());
    assert!(validate_command_description("").is_err());
    assert_eq!(normalize_command_name("  PiNG "), "ping");
    let nested = Json::Object(vec![(
        "options".to_string(),
        Json::Array(vec![Json::Object(vec![("name".to_string(), Json::Str("bad name".to_string()))])]),
    )]);
    assert_eq!(msg(validate_options(&vec![nested]).unwrap_err()), "Option name must match ^[\\w-]{1,32}$");
    let many: Vec<Json> = (0..26).map(|_| Json::Null).collect();
    assert_eq!(msg(validate_options(&many).unwrap_err()), "Maximum 25 options allowed");
    let choices = Json::Object(vec![("choices".to_string(), Json::Array((0..26).map(|_| Json::Null).collect()))]);
    assert_eq!(msg(validate_options(&vec![choices]).unwrap_err()), "Maximum 25 choices per option");
    assert!(validate_options(&vec![]).is_ok());
}

#[test]
fn small_defaults_and_parsers() {
    assert_eq!(default_interaction_type(), 2);
    assert_eq!(default_max_uses(), 0);
    assert_eq!(default_max_age(), 86400);
    assert_eq!(parse_i64_id(Some("-12")), Some(-12));
    assert_eq!(parse_i64_id(Some("1x")), None);
    assert_eq!(parse_i64_id(None), None);
    assert_eq!(top_role_position(&vec![]), 0);
    assert_eq!(top_role_position(&vec![3, 9, 2]), 9);
    assert!(validate_guild_name("ab").is_ok());
    assert!(validate_guild_name("a").is_err());
    assert_eq!(msg(dm_recipient(&CreateDmRequest { recipient_id: "5".into() }, 5).unwrap_err()), "Cannot create a DM channel with yourself");
    assert_eq!(dm_recipient(&CreateDmRequest { recipient_id: "6".into() }, 5).unwrap(), 6);
    assert_eq!(msg(bad_request("x")), "x");
}

#[test]
fn http_layers_decide_as_configured() {
    let mut slot: Option<HttpRateLimiter> = None;
    install_http_rate_limiter(&mut slot);
    let mut limiter = slot.take().unwrap();
    assert!(limiter.check_rate_limit_at("k", 60, 2, 100));
    assert!(limiter.check_rate_limit_at("k", 60, 2, 101));
    assert!(!limiter.check_rate_limit_at("k", 60, 2, 102));
    assert!(limiter.check_rate_limit_at("k", 60, 2, 160));
    for _ in 0..120 {
        assert!(limiter.check_request_rate("1.2.3.4", None, false));
    }
    assert!(rate_limit_exempt("OPTIONS", "/api"));
    assert!(rate_limit_exempt("GET", "/livekit/rtc"));
    assert!(!rate_limit_exempt("GET", "/livekitx"));
    assert!(is_auth_path("/api/v1/auth/login"));
    let mut h = RequestHeaders::new();
    h.insert("authorization", "Bot  tok ");
    assert_eq!(bot_token(&h).as_deref(), Some("tok"));
    assert_eq!(prometheus_escape_label_value("a\"b\\c\nd"), "a\\\"b\\\\c\\nd");
    let mut m = HttpMetrics::new();
    m.record_request_duration(7);
    m.record_request_duration(2000);
    m.record_status_code(204);
    m.record_status_code(302);
    m.record_status_code(503);
    assert_eq!((m.le_5, m.le_10, m.le_1000, m.le_inf, m.count), (0, 1, 1, 2, 2));
    assert_eq!(m.sum_us, 2_007_000);
    assert_eq!((m.status_2xx, m.status_4xx, m.status_5xx), (1, 0, 1));
    assert!(content_security_policy("/api/v1/x").starts_with("default-src 'none'"));
    assert!(content_security_policy("/app").starts_with("default-src 'self'"));
    let mut p = RequestHeaders::new();
    p.insert("x-forwarded-proto", "HTTPS");
    assert!(forwarded_https(&p));
    let origins = cors_allowed_origins(Some(" https://chat.example "), Some("https://a, ,tauri://localhost"));
    assert_eq!(origins.len(), 9);
    assert!(origins.contains(&"https://chat.example".to_string()));
    assert!(!cors_allow_any(&origins));
    assert!(cors_allow_any(&cors_allowed_origins(None, Some("*"))));
    let mut auth = RequestHeaders::new();
    assert_eq!(metrics_access(None, None, &auth), Err((403, "metrics disabled")));
    assert_eq!(metrics_access(Some("TRUE"), None, &auth), Ok(()));
    assert_eq!(metrics_access(None, Some(" tok "), &auth), Err((401, "unauthorized")));
    auth.insert("authorization", "Bearer tok");
    assert_eq!(metrics_access(None, Some(" tok "), &auth), Ok(()));
    assert_eq!(bearer_token(&auth), Ok("tok".to_string()));
    assert_eq!(bearer_token(&RequestHeaders::new()), Err((401, "Missing authorization header")));
}

#[test]
fn desktop_client_helpers() {
    assert_eq!(greet("Ann"), "Hello, Ann! Welcome to Paracord.");
    assert_eq!(installer_preference("windows", None), "msi");
    assert_eq!(installer_preference("linux", Some("/opt/Paracord.AppImage")), "appimage");
    assert_eq!(installer_preference("linux", Some("/usr/bin/paracord")), "deb");
    assert_eq!(installer_preference("macos", None), "asset");
    assert_eq!(readable_process_name("visual_studio-code.exe.exe"), "Visual Studio Code");
    assert_eq!(readable_process_name("  "), "Unknown App");
    assert_eq!(readable_process_name("éclair app"), "éclair App");
    assert_eq!(parse_first_u32("window id # 0x1a2"), Some(12));
    assert_eq!(parse_first_u32("none"), None);
    assert_eq!(parse_first_u32("99999999999"), None);
    assert_eq!(process_name_from_path("/usr/bin/firefox").as_deref(), Some("firefox"));
    assert_eq!(process_name_from_path("/"), None);
    assert_eq!(process_name_from_path("firefox").as_deref(), Some("firefox"));
    assert_eq!(process_name_from_path("   "), None);
    assert_eq!(process_name_from_path("opt/apps/editor").as_deref(), Some("editor"));
    assert_eq!(process_name_from_path("/usr/bin/ ").as_deref(), None);
    assert_eq!(parse_xprop_string_value("WM_CLASS(STRING) = \"navigator\", \"Firefox\"").as_deref(), Some("navigator\", \"Firefox"));
    assert_eq!(parse_xprop_string_value("_NET_WM_PID(CARDINAL) = 4242").as_deref(), Some("4242"));
    assert_eq!(parse_xprop_string_value("nothing"), None);
    assert!(is_own_process("Paracord.exe"));
    assert!(!is_own_process("firefox"));
    assert_eq!(unix_timestamp_text(42), "unix_ts=42");
    assert!(chrono_like_timestamp_utc().starts_with("unix_ts="));
    let frame = [2u8, 0, 0, 0, 1, 1, 0, 0, 9, 8];
    assert_eq!(parse_frame_payload(&frame).unwrap(), (2, 257, vec![9, 8]));
    assert_eq!(parse_frame_payload(&[1, 2]).unwrap_err(), "frame payload too short");
}
