use sha2::Digest;
use paracord::json::Json;
use paracord::routes::federation::{
    canonical_local_room_id, content_i64, content_str, decode_signing_key_hex, parse_signing_key,
    sign_with_signing_key,
    ensure_federation_guild_allowed, ensure_identity_matches_origin,
    ensure_identity_matches_origin_or_alias, extract_signature_for_origin,
    federation_file_hmac, mapping_namespace_from_room, mint_federation_file_token_at,
    parse_federation_allowed_guild_ids, parse_local_room_guild_id, parse_room_parts,
    remote_room_id, sanitize_remote_username, validate_federation_content,
    validate_federation_file_token_at, validate_json_structure, MAX_COLLECTION_LENGTH,
};
use paracord::error::ApiError;

fn serialized_len(v: &serde_json::Value) -> usize {
    serde_json::to_vec(v).unwrap_or_default().len()
}

fn numbers(n: usize) -> (Json, serde_json::Value) {
    let json = Json::Array((0..n).map(|i| Json::Number(Some(i as i64))).collect());
    let value = serde_json::Value::Array((0..n).map(|i| serde_json::Value::Number(i.into())).collect());
    (json, value)
}

#[test]
fn parses_only_local_room_ids() {
    assert_eq!(
        parse_local_room_guild_id("chat.example.com", "server.example.com", "!42:chat.example.com"),
        Some(42)
    );
    assert_eq!(
        parse_local_room_guild_id("chat.example.com", "server.example.com", "!42:server.example.com"),
        Some(42)
    );
    assert_eq!(
        parse_local_room_guild_id("chat.example.com", "server.example.com", "!42:evil.example"),
        None
    );
}

#[test]
fn identity_must_match_request_origin() {
    // The identity `@alice:remote.example` belongs to the server `remote.example`.
    assert!(ensure_identity_matches_origin("remote.example", "remote.example").is_ok());
    assert!(ensure_identity_matches_origin("remote.example", "other.example").is_err());
}

#[test]
fn federation_guild_allowlist_defaults_to_deny() {
    assert!(ensure_federation_guild_allowed(None, 123).is_err());
}

#[test]
fn federation_guild_allowlist_accepts_configured_ids() {
    assert!(ensure_federation_guild_allowed(Some("10,20,30"), 20).is_ok());
    assert!(ensure_federation_guild_allowed(Some("10,20,30"), 99).is_err());
}

#[test]
fn federation_content_rejects_oversized_collection() {
    let (oversized, value) = numbers(MAX_COLLECTION_LENGTH + 1);
    assert!(validate_federation_content(&oversized, serialized_len(&value)).is_err());
}

#[test]
fn federation_content_accepts_reasonable_collection() {
    let (ok, value) = numbers(5_000);
    assert!(validate_federation_content(&ok, serialized_len(&value)).is_ok());
}

#[test]
fn federation_content_limits_depth_and_size() {
    let mut deep = Json::Null;
    for _ in 0..33 {
        deep = Json::Array(vec![deep]);
    }
    assert_eq!(validate_json_structure(&deep), Ok(33));
    match validate_federation_content(&deep, 100) {
        Err(ApiError::BadRequest(m)) => {
            assert_eq!(m, "federation event content exceeds maximum nesting depth of 32")
        }
        _ => panic!("expected a depth error"),
    }
    match validate_federation_content(&Json::Null, 1_048_577) {
        Err(ApiError::BadRequest(m)) => {
            assert_eq!(m, "federation event content exceeds maximum size of 1048576 bytes")
        }
        _ => panic!("expected a size error"),
    }
    let big_object = Json::Object(
        (0..10_001).map(|i| (format!("k{i}"), Json::Null)).collect(),
    );
    assert_eq!(
        validate_json_structure(&big_object),
        Err("federation event content object exceeds maximum key count")
    );
}

#[test]
fn room_ids_roundtrip() {
    let id = canonical_local_room_id("chat.example.com", -7);
    assert_eq!(id, "!-7:chat.example.com");
    assert_eq!(parse_room_parts(&id), Some((-7, "chat.example.com".to_string())));
    assert_eq!(remote_room_id("55", "peer.example"), "!55:peer.example");
    assert_eq!(parse_room_parts("!x:peer"), None);
    assert_eq!(parse_room_parts("!1:  "), None);
    assert_eq!(parse_room_parts("1:peer"), None);
    assert_eq!(mapping_namespace_from_room("!1: peer.example ", "fallback"), "peer.example");
    assert_eq!(mapping_namespace_from_room("nonsense", "fallback"), "fallback");
}

#[test]
fn identity_aliases_come_from_trusted_peers() {
    let peers = vec![("Peer".to_string(), "peer.example".to_string())];
    assert!(ensure_identity_matches_origin_or_alias("peer.example", "PEER", &peers).is_ok());
    assert!(ensure_identity_matches_origin_or_alias("other.example", "peer", &peers).is_err());
}

#[test]
fn allowlist_skips_blank_and_malformed_items() {
    assert_eq!(parse_federation_allowed_guild_ids(Some(" 1, ,x, -2 ")), vec![1, -2]);
    assert!(parse_federation_allowed_guild_ids(None).is_empty());
}

#[test]
fn remote_usernames_are_sanitized() {
    assert_eq!(sanitize_remote_username("al!ce.bob", "remote"), "alcebob");
    assert_eq!(sanitize_remote_username("!!!", "remote"), "remote");
    assert_eq!(sanitize_remote_username(&"a".repeat(30), "remote"), "a".repeat(24));
}

#[test]
fn content_members_are_read_leniently() {
    let content = Json::Object(vec![
        ("a".to_string(), Json::Str("  hi ".to_string())),
        ("b".to_string(), Json::Str("   ".to_string())),
        ("n".to_string(), Json::Number(Some(5))),
        ("s".to_string(), Json::Str(" 17 ".to_string())),
        ("f".to_string(), Json::Number(None)),
    ]);
    assert_eq!(content_str(&content, "a").as_deref(), Some("hi"));
    assert_eq!(content_str(&content, "b"), None);
    assert_eq!(content_i64(&content, "n"), Some(5));
    assert_eq!(content_i64(&content, "s"), Some(17));
    assert_eq!(content_i64(&content, "f"), None);
    assert_eq!(content_i64(&content, "missing"), None);
}

#[test]
fn signatures_prefer_the_origin_entry() {
    let sigs = Json::Object(vec![
        ("flat-key".to_string(), Json::Str("flat-sig".to_string())),
        (
            "origin.example".to_string(),
            Json::Object(vec![("ed25519:1".to_string(), Json::Str("abcd".to_string()))]),
        ),
    ]);
    assert_eq!(
        extract_signature_for_origin(&sigs, "origin.example"),
        Some(("ed25519:1".to_string(), "abcd".to_string()))
    );
    assert_eq!(
        extract_signature_for_origin(&sigs, "other.example"),
        Some(("flat-key".to_string(), "flat-sig".to_string()))
    );
    assert_eq!(extract_signature_for_origin(&Json::Null, "x"), None);
}

#[test]
fn file_tokens_roundtrip_until_expiry() {
    let (token, exp) = mint_federation_file_token_at("secret", 99, "peer.example", 1_000);
    assert_eq!(exp, 1_300);
    assert!(token.starts_with("99:peer.example:1300."));
    assert!(validate_federation_file_token_at("secret", &token, 99, 1_300).is_ok());
    assert!(validate_federation_file_token_at("secret", &token, 99, 1_301).is_err());
    assert!(validate_federation_file_token_at("secret", &token, 98, 1_000).is_err());
    assert!(validate_federation_file_token_at("other", &token, 99, 1_000).is_err());
    assert!(validate_federation_file_token_at("secret", "garbage", 99, 1_000).is_err());
}

#[test]
fn file_hmac_is_sha256_of_key_colon_message() {

    let expected: String = sha2::Sha256::digest(b"k:m").iter().map(|b| format!("{:02x}", b)).collect();
    assert_eq!(federation_file_hmac("k", "m"), expected);
}

#[test]
fn signing_key_hex_decodes_to_32_bytes() {
    let hex = "00".repeat(31) + "ff";
    let bytes = decode_signing_key_hex(&hex).unwrap();
    assert_eq!(bytes.len(), 32);
    assert_eq!(bytes[31], 255);
    assert_eq!(decode_signing_key_hex(&("+f".to_string() + &"00".repeat(31))).unwrap()[0], 15);
    assert!(decode_signing_key_hex("abc").is_none());
    assert!(decode_signing_key_hex(&("zz".to_string() + &"00".repeat(31))).is_none());
}

#[test]
fn signing_keys_parse_and_sign() {
    let hex = "0101010101010101010101010101010101010101010101010101010101010101";
    let key = parse_signing_key(Some(hex)).expect("key");
    assert_eq!(key, vec![1u8; 32]);
    assert_eq!(parse_signing_key(None), None);
    assert_eq!(parse_signing_key(Some("abc")), None);
    let sig = sign_with_signing_key(&key, b"payload").expect("signature");
    assert_eq!(sig.len(), 64);
    let signing = ed25519_dalek::SigningKey::from_bytes(&[1u8; 32]);
    let signature = ed25519_dalek::Signature::from_slice(&sig).expect("64 bytes");
    assert!(signing.verifying_key().verify_strict(b"payload", &signature).is_ok());
    assert_eq!(sign_with_signing_key(&[1u8; 31], b"payload"), None);
}
