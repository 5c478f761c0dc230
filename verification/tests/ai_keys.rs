use zyvor_fabricd::ai::keys::{
    admit_limits, hash_secret, hmac_key, key_tenant_check, key_view, new_api_key, release_concurrency, requested_tokens, tokens_from_member,
    try_reserve_quota, verify_api_key,
};
use zyvor_fabricd::ai::types::{CreateApiKeyRequest, InferenceApiKey};
use zyvor_fabricd::crypto::{hmac_sha256_hex, sha256_hex};

const PREVIEW_KEY: &str = "fabric-ai-preview-hmac";

fn key() -> InferenceApiKey {
    InferenceApiKey {
        id: "aik_1".into(),
        name: "n".into(),
        endpoint: "e".into(),
        model: None,
        tenant: None,
        secret_hash: "h".into(),
        prefix: "fvai_abc".into(),
        request_quota: None,
        tokens_per_minute: Some(10),
        max_concurrent: Some(1),
        requests_used: 0,
        tokens_used_window: 0,
        window_started_unix: 1_000,
        inflight: 0,
        created: 0,
        last_used: None,
    }
}

#[test]
fn hash_is_stable() {
    assert_eq!(hash_secret(PREVIEW_KEY, "abc"), hash_secret(PREVIEW_KEY, "abc"));
    assert_ne!(hash_secret(PREVIEW_KEY, "abc"), hash_secret(PREVIEW_KEY, "abd"));
}

#[test]
fn hmac_matches_the_published_vector() {
    assert_eq!(
        hash_secret("Jefe", "what do ya want for nothing?"),
        "5bdcc146bf60754e6a042426089575c75a003f089d2739839dec58b964ec3843"
    );
    let long_key = [0xaau8; 131];
    assert_eq!(
        hmac_sha256_hex(&long_key, b"Test Using Larger Than Block-Size Key - Hash Key First"),
        "60e431591ee0b67f0d8a26aacbf5b77f8e0bc6213728c5140546040f0ee37f54"
    );
    assert_eq!(
        sha256_hex(b"abc"),
        "ba7816bf8f01cfea414140de5dae2223b00361a396177a9cb410ff61f20015ad"
    );
}

#[test]
fn sequential_quota_cannot_exceed() {
    let mut used = 0u64;
    used = try_reserve_quota(used, Some(2)).unwrap();
    used = try_reserve_quota(used, Some(2)).unwrap();
    assert!(try_reserve_quota(used, Some(2)).is_err());
}

#[test]
fn quota_without_a_limit_saturates() {
    assert_eq!(try_reserve_quota(u64::MAX, None), Ok(u64::MAX));
    assert_eq!(try_reserve_quota(3, Some(2)), Err("quota exceeded"));
}

#[test]
fn token_and_concurrency_limits_are_exclusive() {
    let mut k = key();
    k = admit_limits(k, 1_010, 4).unwrap();
    assert_eq!(k.tokens_used_window, 4);
    assert_eq!(k.inflight, 1);
    assert!(admit_limits(k, 1_020, 1).is_err());
    assert_eq!(requested_tokens(br#"{"max_tokens":16}"#), 16);
}

#[test]
fn admission_reports_which_limit_broke() {
    let k = key();
    assert_eq!(
        admit_limits(k.clone(), 1_010, 11).unwrap_err(),
        "API key token rate exceeded"
    );
    let mut busy = key();
    busy.inflight = 1;
    assert_eq!(
        admit_limits(busy, 1_010, 1).unwrap_err(),
        "API key concurrency exceeded"
    );
    let mut spent = key();
    spent.request_quota = Some(1);
    spent.requests_used = 1;
    assert_eq!(
        admit_limits(spent, 1_010, 1).unwrap_err(),
        "API key request quota exceeded"
    );
}

#[test]
fn the_token_window_restarts_after_a_minute() {
    let mut k = key();
    k.tokens_used_window = 9;
    k.max_concurrent = None;
    let admitted = admit_limits(k, 1_060, 5).unwrap();
    assert_eq!(admitted.window_started_unix, 1_060);
    assert_eq!(admitted.tokens_used_window, 5);
    assert_eq!(admitted.requests_used, 1);
    assert_eq!(admitted.last_used, Some(1_060));
    let released = release_concurrency(admitted);
    assert_eq!(released.inflight, 0);
    assert_eq!(release_concurrency(released).inflight, 0);
}

#[test]
fn request_size_defaults_to_one() {
    assert_eq!(requested_tokens(b"not json"), 1);
    assert_eq!(requested_tokens(br#"{"max_tokens":0}"#), 1);
    assert_eq!(requested_tokens(br#"{"max_tokens":"7"}"#), 1);
    assert_eq!(requested_tokens(br#"{"model":"q"}"#), 1);
    assert_eq!(tokens_from_member(Some(0)), 1);
    assert_eq!(tokens_from_member(Some(5)), 5);
}

#[test]
fn hmac_key_settings() {
    assert_eq!(hmac_key(None, None).unwrap(), PREVIEW_KEY);
    assert_eq!(hmac_key(None, Some("s3")).unwrap(), "s3");
    assert_eq!(hmac_key(Some("1"), Some("s3")).unwrap(), "s3");
    assert_eq!(
        hmac_key(Some("1"), Some(PREVIEW_KEY)).unwrap_err(),
        "FLUXVM_AI_KEY_HMAC_SECRET must be set to a non-default value"
    );
    assert!(hmac_key(Some("1"), None).is_err());
    assert_eq!(hmac_key(Some("0"), Some("")).unwrap(), PREVIEW_KEY);
}

#[test]
fn a_bearer_secret_finds_its_key() {
    let secret = "fvai_0123456789abcdef";
    let mut k = key();
    k.prefix = "fvai_012".into();
    k.secret_hash = hash_secret(PREVIEW_KEY, secret);
    let mut other = key();
    other.id = "aik_2".into();
    let keys = vec![other, k];
    assert_eq!(
        verify_api_key(keys.clone(), PREVIEW_KEY, secret).map(|k| k.id),
        Some("aik_1".to_string())
    );
    assert!(verify_api_key(keys.clone(), PREVIEW_KEY, "fvai_0123456789abcdeX").is_none());
    assert!(verify_api_key(keys, "another-key", secret).is_none());
}

#[test]
fn list_view_omits_secret_hash() {
    let mut k = key();
    k.secret_hash = "deadbeef".into();
    k.request_quota = Some(2);
    let v = key_view(&k);
    assert_eq!(v.id, "aik_1");
    assert_eq!(v.prefix, "fvai_abc");
    assert_eq!(v.request_quota, Some(2));
    assert!(!format!("{v:?}").contains("deadbeef"));
}

#[test]
fn a_created_key_verifies_with_its_secret() {
    let req = CreateApiKeyRequest {
        name: "ci".into(),
        endpoint: "e".into(),
        model: None,
        tenant: Some("acme".into()),
        request_quota: Some(10),
        tokens_per_minute: None,
        max_concurrent: None,
    };
    let secret = "fvai_00112233445566778899aabbccddeeff";
    let k = new_api_key(req, "aik_0011223344".into(), secret, PREVIEW_KEY, 77);
    assert_eq!(k.prefix, "fvai_001");
    assert_eq!(k.secret_hash, hash_secret(PREVIEW_KEY, secret));
    assert_eq!((k.requests_used, k.inflight, k.created), (0, 0, 77));
    assert_eq!(
        verify_api_key(vec![k], PREVIEW_KEY, secret).map(|k| k.id),
        Some("aik_0011223344".to_string())
    );
    assert!(key_tenant_check(None, None).is_ok());
    assert!(key_tenant_check(Some("acme"), Some("acme")).is_ok());
    assert_eq!(
        key_tenant_check(Some("acme"), None).unwrap_err(),
        (403, "key tenant must match endpoint tenant".to_string())
    );
}
