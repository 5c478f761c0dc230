use zyvor_fabricd::auth::UserRole;
use base64::Engine;
use jsonwebtoken::{encode, Algorithm, DecodingKey, EncodingKey, Header};
use zyvor_fabricd::external_auth::{
    check_nonce, checked_claims, decoding_key_from_jwk, verify_id_token_with_key, id_token_payload, default_viewer, generate_code_verifier, oidc_authorize_url, parse_role,
    percent_encode, pkce_challenge_s256, select_jwk, Jwk,
};

#[test]
fn test_pkce_challenge_s256_rfc7636() {
    let verifier = "dBjftJeZ4CVP-mB92K27uhbUJU1p1r_wW1gFWFOEjXk";
    let challenge = pkce_challenge_s256(verifier);
    assert_eq!(challenge, "E9Melhoa2OwvFrEMTJguCHaoeK1t8URWbuGJSstw-cM");
}

#[test]
fn test_generate_code_verifier_length_and_charset() {
    let v = generate_code_verifier();
    assert_eq!(v.len(), 64);
    assert!(v
        .chars()
        .all(|c| c.is_ascii_alphanumeric() || matches!(c, '-' | '.' | '_' | '~')));
}

#[test]
fn test_verify_nonce_claim_ok() {
    assert!(check_nonce(Some("abc-123"), "abc-123").is_ok());
}

#[test]
fn test_verify_nonce_claim_mismatch() {
    assert!(check_nonce(Some("abc-123"), "other").is_err());
    assert_eq!(
        check_nonce(Some("abc-123"), "other").unwrap_err(),
        "ID token nonce mismatch"
    );
}

#[test]
fn test_verify_nonce_claim_missing() {
    assert!(check_nonce(None, "abc-123").is_err());
    assert_eq!(
        check_nonce(None, "abc-123").unwrap_err(),
        "ID token missing nonce claim"
    );
}

#[test]
fn test_percent_encode_unreserved() {
    assert_eq!(percent_encode("abc123-._~"), "abc123-._~");
}

#[test]
fn test_percent_encode_reserved() {
    let encoded = percent_encode("hello world&foo=bar");
    assert!(encoded.contains("%20"));
    assert!(encoded.contains("%26"));
    assert!(encoded.contains("%3D"));
    assert!(!encoded.contains(' '));
}

#[test]
fn percent_encode_exact_bytes() {
    assert_eq!(percent_encode("a b/é"), "a%20b%2F%C3%A9");
}

#[test]
fn test_parse_role_variants() {
    assert_eq!(parse_role("admin"), UserRole::Admin);
    assert_eq!(parse_role("user"), UserRole::User);
    assert_eq!(parse_role("viewer"), UserRole::Viewer);
    assert_eq!(parse_role("unknown"), UserRole::Viewer);
}

#[test]
fn test_parse_role_case_insensitive() {
    assert_eq!(parse_role("ADMIN"), UserRole::Admin);
    assert_eq!(parse_role("User"), UserRole::User);
    assert_eq!(parse_role("AdMiN"), UserRole::Admin);
    assert_eq!(default_viewer(), "viewer");
}

fn jwk(kid: &str, alg: Option<&str>) -> Jwk {
    Jwk {
        kty: "RSA".into(),
        kid: Some(kid.into()),
        alg: alg.map(str::to_string),
        n: Some("n".into()),
        e: Some("AQAB".into()),
    }
}

#[test]
fn test_select_jwk_by_kid() {
    let keys = vec![jwk("a", Some("RS256")), jwk("b", Some("RS256"))];
    let selected = select_jwk(&keys, Some("b"), Some("RS256"), "RS256").unwrap();
    assert_eq!(selected.kid.as_deref(), Some("b"));
}

#[test]
fn select_jwk_refuses_an_unsupported_algorithm() {
    let keys = vec![jwk("a", Some("RS256"))];
    assert_eq!(
        select_jwk(&keys, Some("a"), None, "HS256").unwrap_err(),
        "Unsupported JWT algorithm: HS256"
    );
}

#[test]
fn authorize_url_carries_the_pkce_challenge() {
    let scopes = vec!["openid".to_string(), "email".to_string()];
    let url = oidc_authorize_url(
        "https://idp.example/auth",
        "client 1",
        "https://app/cb",
        &scopes,
        "st",
        "ch",
        "n1",
    );
    assert_eq!(
        url,
        "https://idp.example/auth?client_id=client%201&redirect_uri=https%3A%2F%2Fapp%2Fcb&response_type=code&scope=openid%20email&state=st&code_challenge=ch&code_challenge_method=S256&nonce=n1"
    );
}

#[test]
fn test_decode_id_token_valid() {
    let header = base64::engine::general_purpose::URL_SAFE_NO_PAD
        .encode(r#"{"alg":"RS256","typ":"JWT"}"#);
    let payload = base64::engine::general_purpose::URL_SAFE_NO_PAD
        .encode(r#"{"sub":"user1","email":"u@test.com","name":"Test"}"#);
    let token = format!("{}.{}.fake-signature", header, payload);
    let bytes = id_token_payload(&token).unwrap();
    assert_eq!(
        String::from_utf8(bytes).unwrap(),
        r#"{"sub":"user1","email":"u@test.com","name":"Test"}"#
    );
}

#[test]
fn test_decode_id_token_invalid_parts() {
    assert!(id_token_payload("only-two.parts").is_err());
    assert!(id_token_payload("").is_err());
    assert_eq!(
        id_token_payload("a.b.c.d").unwrap_err(),
        "ID token does not have 3 parts"
    );
}

#[test]
fn test_decode_id_token_invalid_base64() {
    assert!(id_token_payload("header.!!!invalid!!!.sig").is_err());
    assert!(id_token_payload("header.!!!invalid!!!.sig")
        .unwrap_err()
        .starts_with("Base64 decode failed: "));
}

fn hmac_token(secret: &[u8], exp: i64, nonce: &str) -> String {
    let mut claims = serde_json::Map::new();
    claims.insert("iss".into(), serde_json::Value::from("https://issuer.example"));
    claims.insert("aud".into(), serde_json::Value::from("client-1"));
    claims.insert("exp".into(), serde_json::Value::from(exp));
    claims.insert("nonce".into(), serde_json::Value::from(nonce));
    claims.insert("sub".into(), serde_json::Value::from("user1"));
    encode(&Header::new(Algorithm::HS256), &serde_json::Value::Object(claims), &EncodingKey::from_secret(secret))
        .unwrap()
}

fn unix_now() -> i64 {
    std::time::SystemTime::now().duration_since(std::time::UNIX_EPOCH).unwrap().as_secs() as i64
}

#[test]
fn test_verify_id_token_rejects_nonce_mismatch_with_hmac() {
    let secret = b"unit-test-secret-key-32bytes!!!!";
    let token = hmac_token(secret, unix_now() + 3600, "expected-nonce");
    let key = DecodingKey::from_secret(secret);
    let ok = verify_id_token_with_key(
        &token,
        "https://issuer.example",
        "client-1",
        "expected-nonce",
        Algorithm::HS256,
        &key,
    );
    assert!(ok.is_ok());
    let claims: serde_json::Value = serde_json::from_str(&ok.unwrap()).unwrap();
    assert_eq!(claims.get("sub").unwrap().as_str().unwrap(), "user1");

    let bad = verify_id_token_with_key(
        &token,
        "https://issuer.example",
        "client-1",
        "wrong-nonce",
        Algorithm::HS256,
        &key,
    );
    assert!(bad.is_err());
    assert!(bad.unwrap_err().contains("nonce"));
}

#[test]
fn id_tokens_are_held_to_issuer_audience_expiry_and_key() {
    let secret = b"unit-test-secret-key-32bytes!!!!";
    let key = DecodingKey::from_secret(secret);
    let token = hmac_token(secret, unix_now() + 3600, "n");
    // The configured issuer may carry a trailing slash.
    assert!(verify_id_token_with_key(&token, "https://issuer.example/", "client-1", "n", Algorithm::HS256, &key).is_ok());
    let wrong_issuer = verify_id_token_with_key(&token, "https://other.example", "client-1", "n", Algorithm::HS256, &key);
    assert!(wrong_issuer.unwrap_err().starts_with("ID token verification failed: "));
    let wrong_audience = verify_id_token_with_key(&token, "https://issuer.example", "client-2", "n", Algorithm::HS256, &key);
    assert!(wrong_audience.unwrap_err().starts_with("ID token verification failed: "));
    let other_key = DecodingKey::from_secret(b"another-secret-key-of-32-bytes!!");
    let forged = verify_id_token_with_key(&token, "https://issuer.example", "client-1", "n", Algorithm::HS256, &other_key);
    assert!(forged.unwrap_err().starts_with("ID token verification failed: "));
    let expired = hmac_token(secret, unix_now() - 3600, "n");
    let late = verify_id_token_with_key(&expired, "https://issuer.example", "client-1", "n", Algorithm::HS256, &key);
    assert!(late.unwrap_err().starts_with("ID token verification failed: "));
}

#[test]
fn decoded_claims_are_held_to_the_nonce() {
    let good = r#"{"nonce":"abc","sub":"u"}"#.to_string();
    assert_eq!(checked_claims(Ok(good.clone()), "abc"), Ok(good.clone()));
    assert_eq!(checked_claims(Ok(good), "xyz").unwrap_err(), "ID token nonce mismatch");
    assert_eq!(
        checked_claims(Ok(r#"{"nonce":7}"#.to_string()), "abc").unwrap_err(),
        "ID token missing nonce claim"
    );
    assert_eq!(
        checked_claims(Ok("[1,2]".to_string()), "abc").unwrap_err(),
        "ID token payload is not a JSON object"
    );
    assert_eq!(
        checked_claims(Err("ExpiredSignature".to_string()), "abc").unwrap_err(),
        "ID token verification failed: ExpiredSignature"
    );
}

#[test]
fn rsa_keys_come_from_complete_rsa_jwks() {
    let mut good = jwk("a", Some("RS256"));
    good.n = Some("sXchDQ".into());
    assert!(decoding_key_from_jwk(&good).is_ok());
    let mut ec = jwk("a", None);
    ec.kty = "EC".into();
    assert_eq!(decoding_key_from_jwk(&ec).err().unwrap(), "Unsupported JWK kty 'EC'");
    let mut no_n = jwk("a", None);
    no_n.n = None;
    assert_eq!(decoding_key_from_jwk(&no_n).err().unwrap(), "RSA JWK missing 'n'");
    let mut no_e = jwk("a", None);
    no_e.e = None;
    assert_eq!(decoding_key_from_jwk(&no_e).err().unwrap(), "RSA JWK missing 'e'");
    let mut bad = jwk("a", None);
    bad.n = Some("not base64!".into());
    assert!(decoding_key_from_jwk(&bad).err().unwrap().starts_with("Invalid RSA JWK: "));
}
