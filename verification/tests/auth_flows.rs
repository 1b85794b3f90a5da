use paracord::headers::RequestHeaders;
use paracord::json::Json;
use paracord::routes::auth::{
    auth_guard_keys, build_access_cookie, build_access_cookie_clear, build_refresh_cookie,
    build_refresh_cookie_clear, constant_time_equal, get_cookie_value, normalize_email_for_auth,
    normalize_host_header_value, normalize_login_identifier_for_auth, normalize_public_origin,
    parse_forwarded_proto, parse_login_form_value, parse_login_json_value, parse_login_request,
    parse_username_with_discriminator, proxy_peer_is_trusted, resolve_server_origin,
    should_use_secure_cookie_with_public_url, synthesized_local_email, username_login_effective,
    LoginRequest,
};

fn s(v: &str) -> Json {
    Json::Str(v.to_string())
}

fn obj(fields: Vec<(&str, Json)>) -> Json {
    Json::Object(fields.into_iter().map(|(k, v)| (k.to_string(), v)).collect())
}

#[test]
fn auth_guard_keys_include_ip_device_and_account() {
    let mut headers = RequestHeaders::new();
    headers.insert("x-forwarded-for", "203.0.113.4");
    headers.insert("x-device-id", "device-123");
    let keys = auth_guard_keys(&headers, Some("198.51.100.9"), Some("USER@example.com"), false);
    assert!(keys.contains(&"ip:198.51.100.9".to_string()));
    assert!(keys.contains(&"device:device-123".to_string()));
    assert!(keys.contains(&"acct:user@example.com".to_string()));
}

#[test]
fn refresh_cookie_roundtrip_parsing_works() {
    let cookie = build_refresh_cookie("token-value", 7, true);
    let mut headers = RequestHeaders::new();
    headers.insert("cookie", &cookie);
    let parsed = get_cookie_value(&headers, "paracord_refresh");
    assert_eq!(parsed.as_deref(), Some("token-value"));
}

#[test]
fn normalizes_email_to_ascii_lowercase_and_trimmed() {
    assert_eq!(normalize_email_for_auth("  USER@Example.COM  "), "user@example.com");
}

#[test]
fn secure_cookie_defaults_to_true_when_tls_env_enabled() {
    assert!(should_use_secure_cookie_with_public_url(None, Some("true"), None));
}

#[test]
fn secure_cookie_respects_tls_env_false_even_with_https_public_url() {
    assert!(!should_use_secure_cookie_with_public_url(
        None,
        Some("false"),
        Some("https://chat.example.com")
    ));
}

#[test]
fn challenge_origin_uses_configured_public_origin_when_available() {
    let mut headers = RequestHeaders::new();
    headers.insert("host", "evil.example");
    let origin = resolve_server_origin(Some("https://chat.example.com/app"), &headers, false, None);
    assert_eq!(origin, "https://chat.example.com");
}

#[test]
fn challenge_origin_falls_back_to_request_host_when_public_url_missing() {
    let mut headers = RequestHeaders::new();
    headers.insert("host", "173.62.236.246:8443");
    let trusted = proxy_peer_is_trusted(None, None, Some("198.51.100.10"));
    let origin = resolve_server_origin(None, &headers, trusted, Some("true"));
    assert_eq!(origin, "https://173.62.236.246:8443");
}

#[test]
fn challenge_origin_honors_trusted_forwarded_headers() {
    let mut headers = RequestHeaders::new();
    headers.insert("x-forwarded-host", "chat.example.com");
    headers.insert("x-forwarded-proto", "https");
    headers.insert("host", "127.0.0.1:8080");
    let trusted = proxy_peer_is_trusted(Some("true"), Some("10.0.0.5"), Some("10.0.0.5"));
    let origin = resolve_server_origin(None, &headers, trusted, None);
    assert_eq!(origin, "https://chat.example.com");
}

#[test]
fn parse_login_json_value_accepts_nested_credentials_payload() {
    let body = obj(vec![(
        "credentials",
        obj(vec![("username", s("alice")), ("password", s("secret-123"))]),
    )]);
    let parsed = parse_login_json_value(&body).expect("nested payload should deserialize");
    assert_eq!(parsed.email, "alice");
    assert_eq!(parsed.password, "secret-123");
}

#[test]
fn parse_login_form_value_accepts_identifier_and_password() {
    let parsed = parse_login_form_value(b"identifier=alice&password=secret-123")
        .expect("form payload should deserialize");
    assert_eq!(parsed.email, "alice");
    assert_eq!(parsed.password, "secret-123");
}

#[test]
fn parse_login_request_accepts_json_without_content_type() {
    let headers = RequestHeaders::new();
    let body: &[u8] = br#"{"identifier":"alice@example.com","password":"secret-123"}"#;
    let json = obj(vec![("identifier", s("alice@example.com")), ("password", s("secret-123"))]);
    let plain = LoginRequest { email: "alice@example.com".to_string(), password: "secret-123".to_string() };
    let parsed = parse_login_request(&headers, body, Some(&json), Some(plain))
        .expect("json payload should deserialize without content-type");
    assert_eq!(parsed.email, "alice@example.com");
    assert_eq!(parsed.password, "secret-123");
}

#[test]
fn parse_login_request_accepts_form_content_type() {
    let mut headers = RequestHeaders::new();
    headers.insert("content-type", "application/x-www-form-urlencoded");
    let parsed = parse_login_request(&headers, b"username=alice&password=secret-123", None, None)
        .expect("form payload should deserialize with content-type");
    assert_eq!(parsed.email, "alice");
    assert_eq!(parsed.password, "secret-123");
}

#[test]
fn parse_login_request_tolerates_null_identifier_fields() {
    let headers = RequestHeaders::new();
    let body: &[u8] = br#"{"identifier":null,"email":null,"password":"secret-123"}"#;
    let json = obj(vec![
        ("identifier", Json::Null),
        ("email", Json::Null),
        ("password", s("secret-123")),
    ]);
    let parsed = parse_login_request(&headers, body, Some(&json), None)
        .expect("null identifiers should not hard-fail login payload parsing");
    assert!(parsed.email.is_empty());
    assert_eq!(parsed.password, "secret-123");
}

#[test]
fn username_login_is_effective_when_email_is_optional() {
    assert!(username_login_effective(false, false));
    assert!(username_login_effective(true, false));
    assert!(username_login_effective(true, true));
    assert!(!username_login_effective(false, true));
}

#[test]
fn parses_username_with_discriminator_identifier() {
    let parsed = parse_username_with_discriminator("alice#42");
    assert_eq!(parsed, Some(("alice".to_string(), 42)));
    assert!(parse_username_with_discriminator("alice#").is_none());
    assert!(parse_username_with_discriminator("#42").is_none());
}

#[test]
fn synthesizes_local_email_for_emailless_accounts() {
    assert_eq!(synthesized_local_email(12345), "u12345@local.invalid");
}

#[test]
fn cookies_carry_their_attributes() {
    assert_eq!(
        build_refresh_cookie("t", 7, false),
        "paracord_refresh=t; HttpOnly; Path=/api/v1/auth; SameSite=Lax; Max-Age=604800"
    );
    assert_eq!(
        build_access_cookie("a", 900, true),
        "paracord_access=a; HttpOnly; Path=/api/v1; SameSite=Lax; Max-Age=900; Secure"
    );
    assert_eq!(
        build_refresh_cookie("t", i64::MAX, false),
        format!("paracord_refresh=t; HttpOnly; Path=/api/v1/auth; SameSite=Lax; Max-Age={}", i64::MAX)
    );
    assert_eq!(
        build_refresh_cookie_clear(true),
        "paracord_refresh=; HttpOnly; Path=/api/v1/auth; SameSite=Lax; Max-Age=0; Secure"
    );
    assert_eq!(
        build_access_cookie_clear(false),
        "paracord_access=; HttpOnly; Path=/api/v1; SameSite=Lax; Max-Age=0"
    );
}

#[test]
fn access_cookie_roundtrips_among_other_cookies() {
    let cookie = build_access_cookie("abc.def", 60, true);
    let mut headers = RequestHeaders::new();
    headers.insert("cookie", &format!("theme=dark; {}", cookie));
    assert_eq!(get_cookie_value(&headers, "paracord_access").as_deref(), Some("abc.def"));
    assert_eq!(get_cookie_value(&headers, "theme").as_deref(), Some("dark"));
    assert_eq!(get_cookie_value(&headers, "missing"), None);
}

#[test]
fn equal_strings_compare_equal_in_constant_time() {
    assert!(constant_time_equal("secret", "secret"));
    assert!(!constant_time_equal("secret", "secreT"));
    assert!(!constant_time_equal("secret", "secrets"));
}

#[test]
fn origins_and_hosts_are_normalised() {
    assert_eq!(normalize_public_origin("https://chat.example.com:8443/x").as_deref(), Some("https://chat.example.com:8443"));
    assert_eq!(normalize_public_origin("ftp://x"), None);
    assert_eq!(normalize_host_header_value(" https://Host.example/path , other").as_deref(), Some("Host.example"));
    assert_eq!(parse_forwarded_proto(" HTTPS "), Some("https"));
    assert_eq!(parse_forwarded_proto("gopher"), None);
    assert_eq!(normalize_login_identifier_for_auth(" Alice "), "alice");
}
