use base64::Engine as _;
use campus_match::auth::{
    authorize_endpoint, callback_destination, csrf_state_matches, decode_id_token_claims,
    token_endpoint,
};
use campus_match::error::AppError;
use campus_match::models::{User, UserResponse};
use campus_match::text::{message_image_key, parse_i64, parse_interest_list, profile_image_key, trim_spaces};

#[test]
fn status_codes_follow_the_error_taxonomy() {
    assert_eq!(AppError::Unauthorized.status_code(), 401);
    assert_eq!(AppError::Validation("v".to_string()).status_code(), 400);
    assert_eq!(AppError::Db("d".to_string()).status_code(), 500);
    assert_eq!(AppError::OAuth("o".to_string()).status_code(), 500);
    assert_eq!(AppError::Internal("i".to_string()).status_code(), 500);
}

#[test]
fn parse_i64_accepts_signed_decimals() {
    assert_eq!(parse_i64("0"), Some(0));
    assert_eq!(parse_i64("42"), Some(42));
    assert_eq!(parse_i64("+5"), Some(5));
    assert_eq!(parse_i64("-17"), Some(-17));
    assert_eq!(parse_i64("9223372036854775807"), Some(i64::MAX));
    assert_eq!(parse_i64("-9223372036854775808"), Some(i64::MIN));
}

#[test]
fn parse_i64_rejects_junk_and_overflow() {
    assert_eq!(parse_i64(""), None);
    assert_eq!(parse_i64("-"), None);
    assert_eq!(parse_i64("+"), None);
    assert_eq!(parse_i64("12a"), None);
    assert_eq!(parse_i64("a12"), None);
    assert_eq!(parse_i64("1 2"), None);
    assert_eq!(parse_i64("9223372036854775808"), None);
    assert_eq!(parse_i64("-9223372036854775809"), None);
    assert_eq!(parse_i64("99999999999999999999999"), None);
}

#[test]
fn trim_strips_both_ends_only() {
    assert_eq!(trim_spaces("  a b \t\n"), "a b");
    assert_eq!(trim_spaces("ab"), "ab");
    assert_eq!(trim_spaces(" \t "), "");
    assert_eq!(trim_spaces(""), "");
}

#[test]
fn interest_list_splits_trims_and_drops_empties() {
    assert_eq!(
        parse_interest_list(" Hiking , Coffee ,, Chess ,"),
        vec!["Hiking".to_string(), "Coffee".to_string(), "Chess".to_string()],
    );
    assert_eq!(parse_interest_list(""), Vec::<String>::new());
    assert_eq!(parse_interest_list(" , , "), Vec::<String>::new());
    assert_eq!(parse_interest_list("solo"), vec!["solo".to_string()]);
}

#[test]
fn image_keys_embed_the_decimal_id() {
    assert_eq!(profile_image_key(7), "profiles/7");
    assert_eq!(profile_image_key(0), "profiles/0");
    assert_eq!(message_image_key(1203), "messages/1203");
}

#[test]
fn id_token_claims_decode_from_the_middle_segment() {
    let payload = br#"{"oid":"user-123","email":"a@b.c","name":"Alice","tid":"tenant-9"}"#;
    let encoded = base64::engine::general_purpose::URL_SAFE_NO_PAD.encode(payload);
    let token = format!("header.{}.signature", encoded);
    let claims = decode_id_token_claims(&token).expect("well-formed token must decode");
    assert_eq!(claims.oid, "user-123");
    assert_eq!(claims.email.as_deref(), Some("a@b.c"));
    assert_eq!(claims.name.as_deref(), Some("Alice"));
    assert_eq!(claims.tid.as_deref(), Some("tenant-9"));
}

#[test]
fn id_token_optional_claims_may_be_absent() {
    let payload = br#"{"oid":"user-123"}"#;
    let encoded = base64::engine::general_purpose::URL_SAFE_NO_PAD.encode(payload);
    let token = format!("h.{}", encoded);
    let claims = decode_id_token_claims(&token).unwrap();
    assert_eq!(claims.oid, "user-123");
    assert_eq!(claims.email, None);
    assert_eq!(claims.name, None);
    assert_eq!(claims.tid, None);
}

#[test]
fn malformed_id_tokens_are_oauth_errors() {
    // No dot at all.
    assert!(matches!(decode_id_token_claims("nodots"), Err(AppError::OAuth(_))));
    // Payload is not base64url.
    assert!(matches!(decode_id_token_claims("h.!!!.s"), Err(AppError::OAuth(_))));
    // Payload decodes but is not a claims object.
    let encoded = base64::engine::general_purpose::URL_SAFE_NO_PAD.encode(b"[1,2,3]");
    let token = format!("h.{}.s", encoded);
    assert!(matches!(decode_id_token_claims(&token), Err(AppError::OAuth(_))));
    // Claims object without an oid.
    let encoded = base64::engine::general_purpose::URL_SAFE_NO_PAD.encode(br#"{"email":"a@b.c"}"#);
    let token = format!("h.{}.s", encoded);
    assert!(matches!(decode_id_token_claims(&token), Err(AppError::OAuth(_))));
}

#[test]
fn csrf_state_must_match_the_stored_value() {
    let stored = "state-abc".to_string();
    assert!(csrf_state_matches(Some(&stored), "state-abc"));
    assert!(!csrf_state_matches(Some(&stored), "state-xyz"));
    assert!(!csrf_state_matches(None, "state-abc"));
}

#[test]
fn callback_destination_honours_relative_next_only() {
    let base = "http://localhost:3001";
    let next = "/feed".to_string();
    assert_eq!(callback_destination(base, Some(&next)), "http://localhost:3001/feed");
    let absolute = "https://evil.example".to_string();
    assert_eq!(callback_destination(base, Some(&absolute)), base);
    let empty = "".to_string();
    assert_eq!(callback_destination(base, Some(&empty)), base);
    assert_eq!(callback_destination(base, None), base);
}

#[test]
fn provider_endpoints_embed_the_tenant() {
    assert_eq!(
        authorize_endpoint("common"),
        "https://login.microsoftonline.com/common/oauth2/v2.0/authorize",
    );
    assert_eq!(
        token_endpoint("tenant-1"),
        "https://login.microsoftonline.com/tenant-1/oauth2/v2.0/token",
    );
}

#[test]
fn user_response_drops_every_token() {
    let user = User {
        id: 3,
        oid: "oid-3".to_string(),
        email: Some("c@d.e".to_string()),
        display_name: Some("carol".to_string()),
        tenant_id: None,
        access_token: Some("secret-access".to_string()),
        refresh_token: Some("secret-refresh".to_string()),
        id_token: Some("secret-id".to_string()),
        full_name: Some("Carol".to_string()),
        age: Some(21),
        is_rso: false,
        major: Some("Biology".to_string()),
        created_at: "t0".to_string(),
        updated_at: "t1".to_string(),
    };
    let resp = UserResponse::from(user);
    assert_eq!(resp.id, 3);
    assert_eq!(resp.full_name.as_deref(), Some("Carol"));
    let dump = format!("{:?}", resp);
    assert!(!dump.contains("secret-access"));
    assert!(!dump.contains("secret-refresh"));
    assert!(!dump.contains("secret-id"));
}
