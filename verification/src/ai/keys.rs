//! Inference endpoint API keys: quota, token-window and in-flight
//! admission, and the keyed hash under which secrets are kept.
use vstd::prelude::*;

use crate::ai::types::{CreateApiKeyRequest, InferenceApiKey, InferenceApiKeyView};
use crate::crypto::{ct_eq_bytes, hmac_sha256_hex, hmac_spec};
use crate::num::{clamp, sat_sub_i64};
use crate::text::{chars_of, hex_seq, owned, str_eq, string_of_range};
use vstd::string::*;
use vstd::utf8::*;

verus! {

// ---------------------------------------------------------------------------
// Admission
// ---------------------------------------------------------------------------
/// The lifetime request quota: refused once `used` reaches `quota`.
pub open spec fn quota_spent(used: u64, quota: Option<u64>) -> bool {
    match quota {
        Some(q) => used >= q,
        None => false,
    }
}

/// One step of the sequential quota: the new count, or a refusal.
pub fn try_reserve_quota(used: u64, quota: Option<u64>) -> (r: Result<u64, &'static str>)
    ensures
        r is Err <==> quota_spent(used, quota),
        r matches Ok(n) ==> n == clamp(used + 1, 0, u64::MAX as int),
        r matches Err(e) ==> e@ == "quota exceeded"@,
        quota matches Some(q) ==> (r matches Ok(n) ==> n <= q),
{
    let spent = match quota {
        Some(q) => used >= q,
        None => false,
    };
    if spent {
        return Err("quota exceeded");
    }
    Ok(used.saturating_add(1))
}

/// Counters after one admitted request: window start, tokens in the
/// window, requests in flight, requests used.
#[derive(Debug, Clone)]
pub struct Admitted {
    pub window_started_unix: i64,
    pub tokens_used_window: u64,
    pub inflight: u32,
    pub requests_used: u64,
}

/// Whether the 60-second token window starts afresh at `now`.
pub open spec fn window_expired(key: InferenceApiKey, now: i64) -> bool {
    clamp(now - key.window_started_unix, i64::MIN as int, i64::MAX as int) >= 60
}

/// Tokens counted in the window before this request.
pub open spec fn window_tokens(key: InferenceApiKey, now: i64) -> u64 {
    if window_expired(key, now) {
        0
    } else {
        key.tokens_used_window
    }
}

/// The outcome of admitting a request of `tokens` tokens at `now`: the new
/// counters, or the first limit it breaks (token rate, then concurrency,
/// then the request quota).
pub open spec fn admit_outcome(key: InferenceApiKey, now: i64, tokens: u64) -> Result<
    (i64, u64, u32, u64),
    Seq<char>,
> {
    let start = if window_expired(key, now) {
        now
    } else {
        key.window_started_unix
    };
    let w0 = window_tokens(key, now);
    let w = clamp(w0 + tokens, 0, u64::MAX as int) as u64;
    let rate_refused = match key.tokens_per_minute {
        Some(limit) => w > limit,
        None => false,
    };
    let conc_refused = match key.max_concurrent {
        Some(max) => key.inflight >= max,
        None => false,
    };
    if rate_refused {
        Err("API key token rate exceeded"@)
    } else if conc_refused {
        Err("API key concurrency exceeded"@)
    } else if quota_spent(key.requests_used, key.request_quota) {
        Err("API key request quota exceeded"@)
    } else {
        Ok(
            (
                start,
                if key.tokens_per_minute is Some {
                    w
                } else {
                    w0
                },
                clamp(key.inflight + 1, 0, u32::MAX as int) as u32,
                clamp(key.requests_used + 1, 0, u64::MAX as int) as u64,
            ),
        )
    }
}

/// The key with new counters and `last_used` set.
pub open spec fn with_counters(key: InferenceApiKey, c: (i64, u64, u32, u64), now: i64) -> InferenceApiKey {
    InferenceApiKey {
        window_started_unix: c.0,
        tokens_used_window: c.1,
        inflight: c.2,
        requests_used: c.3,
        last_used: Some(now),
        ..key
    }
}

/// Token window, in-flight cap and request quota, checked against the
/// stored key; the caller persists the returned key before proxying.
pub fn admit_limits(key: InferenceApiKey, now_unix: i64, requested_tokens: u64) -> (r: Result<
    InferenceApiKey,
    String,
>)
    ensures
        match admit_outcome(key, now_unix, requested_tokens) {
            Err(e) => r is Err && r->Err_0@ == e,
            Ok(c) => r is Ok && r->Ok_0 == with_counters(key, c, now_unix),
        },
        r matches Ok(k) ==> (k.tokens_per_minute matches Some(l) ==> k.tokens_used_window <= l),
        r matches Ok(k) ==> (k.max_concurrent matches Some(m) ==> k.inflight <= m),
        r matches Ok(k) ==> (k.request_quota matches Some(q) ==> k.requests_used <= q),
{
    let mut key = key;
    let ghost k0 = key;
    if sat_sub_i64(now_unix, key.window_started_unix) >= 60 {
        key.window_started_unix = now_unix;
        key.tokens_used_window = 0;
    }
    if let Some(limit) = key.tokens_per_minute {
        if key.tokens_used_window.saturating_add(requested_tokens) > limit {
            return Err(owned("API key token rate exceeded"));
        }
        key.tokens_used_window = key.tokens_used_window.saturating_add(requested_tokens);
    }
    if let Some(max) = key.max_concurrent {
        if key.inflight >= max {
            return Err(owned("API key concurrency exceeded"));
        }
    }
    key.inflight = key.inflight.saturating_add(1);
    key.requests_used = match try_reserve_quota(key.requests_used, key.request_quota) {
        Ok(n) => n,
        Err(_) => {
            return Err(owned("API key request quota exceeded"));
        },
    };
    key.last_used = Some(now_unix);
    proof {
        assert(key == with_counters(k0, admit_outcome(k0, now_unix, requested_tokens)->Ok_0, now_unix));
    }
    Ok(key)
}

/// The key once one of its requests has finished.
pub fn release_concurrency(key: InferenceApiKey) -> (r: InferenceApiKey)
    ensures
        r == (InferenceApiKey { inflight: clamp(key.inflight - 1, 0, u32::MAX as int) as u32, ..key }),
{
    let mut key = key;
    key.inflight = key.inflight.saturating_sub(1);
    key
}

// ---------------------------------------------------------------------------
// Request size
// ---------------------------------------------------------------------------
/// The `max_tokens` member of a JSON request body, when the body parses as
/// JSON and the member is an unsigned integer that fits in a `u64`.
pub uninterp spec fn json_max_tokens(body: Seq<u8>) -> Option<u64>;

/// `serde_json::from_slice::<serde_json::Value>`, then `Value::get("max_tokens")`
/// and `Value::as_u64`: the number is named, not stated.
#[verifier::external_body]
fn max_tokens_member(body: &[u8]) -> (r: Option<u64>)
    ensures
        r == json_max_tokens(body@),
{
    match serde_json::from_slice::<serde_json::Value>(body) {
        Ok(v) => v.get("max_tokens").and_then(|x| x.as_u64()),
        Err(_) => None,
    }
}

/// Tokens charged for a request whose `max_tokens` member is `member`:
/// that number when positive, else one.
pub fn tokens_from_member(member: Option<u64>) -> (r: u64)
    ensures
        r == (match member {
            Some(n) => if n > 0 {
                n
            } else {
                1
            },
            None => 1,
        }),
        r >= 1,
{
    match member {
        Some(n) => if n > 0 {
            n
        } else {
            1
        },
        None => 1,
    }
}

/// Tokens a request body asks for.
pub fn requested_tokens(body: &[u8]) -> (r: u64)
    ensures
        r == (match json_max_tokens(body@) {
            Some(n) => if n > 0 {
                n
            } else {
                1
            },
            None => 1,
        }),
{
    tokens_from_member(max_tokens_member(body))
}

// ---------------------------------------------------------------------------
// Secrets
// ---------------------------------------------------------------------------
/// The preview HMAC key, used when none is configured.
pub open spec fn preview_hmac_key() -> Seq<char> {
    "fabric-ai-preview-hmac"@
}

/// The HMAC key from the configured secret and the require setting: a
/// configured non-default secret always; the default secret or none only
/// when HMAC is not required (`require_setting` other than `1`).
pub fn hmac_key(require_setting: Option<&str>, configured: Option<&str>) -> (r: Result<String, String>)
    ensures
        ({
            let require = require_setting matches Some(v) && v@ == "1"@;
            match configured {
                Some(v) if v@.len() > 0 && v@ != preview_hmac_key() => r is Ok && r->Ok_0@ == v@,
                Some(v) if v@.len() > 0 && !require => r is Ok && r->Ok_0@ == v@,
                _ => if require {
                    r is Err && r->Err_0@
                        == "FLUXVM_AI_KEY_HMAC_SECRET must be set to a non-default value"@
                } else {
                    r is Ok && r->Ok_0@ == preview_hmac_key()
                },
            }
        }),
{
    let require = match require_setting {
        Some(v) => str_eq(v, "1"),
        None => false,
    };
    if let Some(v) = configured {
        let empty = v.unicode_len() == 0;
        if !empty && !str_eq(v, "fabric-ai-preview-hmac") {
            return Ok(owned(v));
        }
        if !empty && !require {
            return Ok(owned(v));
        }
    }
    if require {
        Err(owned("FLUXVM_AI_KEY_HMAC_SECRET must be set to a non-default value"))
    } else {
        Ok(owned("fabric-ai-preview-hmac"))
    }
}

/// Lower-case hex HMAC-SHA256 of `secret` under `key`, the form a secret is
/// stored in.
pub fn hash_secret(key: &str, secret: &str) -> (r: String)
    ensures
        r@ == hex_seq(hmac_spec(key.spec_bytes(), secret.spec_bytes())),
        r@.len() == 64,
        forall|i: int| 0 <= i < 64 ==> crate::text::is_lower_hex(#[trigger] r@[i]),
{
    hmac_sha256_hex(key.as_bytes(), secret.as_bytes())
}

/// The display prefix of a secret: its first eight characters.
pub open spec fn secret_prefix(secret: Seq<char>) -> Seq<char> {
    if secret.len() <= 8 {
        secret
    } else {
        secret.subrange(0, 8)
    }
}

/// Whether stored key `k` is the one `secret` belongs to, given the secret's hash.
pub open spec fn key_matches(k: InferenceApiKey, secret: Seq<char>, hash: Seq<char>) -> bool {
    k.prefix@ == secret_prefix(secret) && k.secret_hash@ == hash
}

/// Index of the first key from `i` on that `secret` belongs to.
pub open spec fn first_match(keys: Seq<InferenceApiKey>, secret: Seq<char>, hash: Seq<char>, i: int) -> Option<int>
    decreases keys.len() - i,
{
    if i < 0 || i >= keys.len() {
        None
    } else if key_matches(keys[i], secret, hash) {
        Some(i)
    } else {
        first_match(keys, secret, hash, i + 1)
    }
}

/// The stored key a bearer secret belongs to: prefix lookup, then a
/// constant-time compare of the secret's hash under `hmac_key`.
pub fn verify_api_key(keys: Vec<InferenceApiKey>, hmac_key: &str, secret: &str) -> (r: Option<InferenceApiKey>)
    ensures
        ({
            let hash = hex_seq(hmac_spec(hmac_key.spec_bytes(), secret.spec_bytes()));
            match first_match(keys@, secret@, hash, 0) {
                Some(i) => r == Some(keys@[i]),
                None => r is None,
            }
        }),
{
    let v = chars_of(secret);
    let cut: usize = if v.len() <= 8 {
        v.len()
    } else {
        8
    };
    let prefix = string_of_range(&v, 0, cut);
    proof {
        assert(v@.subrange(0, v@.len() as int) =~= v@);
    }
    let hash = hash_secret(hmac_key, secret);
    let ghost h = hash@;
    let mut list = keys;
    let mut i: usize = 0;
    while i < list.len()
        invariant
            list@ == keys@,
            i <= keys@.len(),
            prefix@ == secret_prefix(secret@),
            hash@ == h,
            h == hex_seq(hmac_spec(hmac_key.spec_bytes(), secret.spec_bytes())),
            first_match(keys@, secret@, h, 0) == first_match(keys@, secret@, h, i as int),
        decreases list.len() - i,
    {
        let same_prefix = str_eq(list[i].prefix.as_str(), prefix.as_str());
        if same_prefix && ct_eq_bytes(list[i].secret_hash.as_str().as_bytes(), hash.as_str().as_bytes()) {
            proof {
                let a = keys@[i as int].secret_hash@;
                encode_utf8_decode_utf8(a);
                encode_utf8_decode_utf8(h);
                assert(a == h);
                assert(key_matches(keys@[i as int], secret@, h));
            }
            let k = list.remove(i);
            return Some(k);
        }
        i = i + 1;
    }
    None
}

/// The listing view of a key: every field but `secret_hash`.
pub fn key_view(key: &InferenceApiKey) -> (r: InferenceApiKeyView)
    ensures
        r.id == key.id,
        r.name == key.name,
        r.endpoint == key.endpoint,
        r.model == key.model,
        r.tenant == key.tenant,
        r.prefix == key.prefix,
        r.request_quota == key.request_quota,
        r.tokens_per_minute == key.tokens_per_minute,
        r.max_concurrent == key.max_concurrent,
        r.requests_used == key.requests_used,
        r.created == key.created,
        r.last_used == key.last_used,
{
    InferenceApiKeyView {
        id: key.id.clone(),
        name: key.name.clone(),
        endpoint: key.endpoint.clone(),
        model: key.model.clone(),
        tenant: key.tenant.clone(),
        prefix: key.prefix.clone(),
        request_quota: key.request_quota,
        tokens_per_minute: key.tokens_per_minute,
        max_concurrent: key.max_concurrent,
        requests_used: key.requests_used,
        created: key.created,
        last_used: key.last_used,
    }
}

/// A key may only name the tenant of the endpoint it opens.
pub fn key_tenant_check(key_tenant: Option<&str>, endpoint_tenant: Option<&str>) -> (r: Result<(), (u16, String)>)
    ensures
        match key_tenant {
            Some(t) => match endpoint_tenant {
                Some(e) if e@ == t@ => r is Ok,
                _ => r matches Err((code, m)) && code == 403 && m@
                    == "key tenant must match endpoint tenant"@,
            },
            None => r is Ok,
        },
{
    match key_tenant {
        Some(t) => match endpoint_tenant {
            Some(e) => if str_eq(e, t) {
                Ok(())
            } else {
                Err((403, owned("key tenant must match endpoint tenant")))
            },
            None => Err((403, owned("key tenant must match endpoint tenant"))),
        },
        None => Ok(()),
    }
}

/// `k` is the stored record of a new key: the secret is kept only as
/// `hash` and its first eight characters; no usage yet.
pub open spec fn fresh_key(k: InferenceApiKey, req: CreateApiKeyRequest, id: String, secret: Seq<char>, hash: Seq<char>, now_unix: i64) -> bool {
    &&& k.id == id
    &&& k.name == req.name
    &&& k.endpoint == req.endpoint
    &&& k.model == req.model
    &&& k.tenant == req.tenant
    &&& k.secret_hash@ == hash
    &&& k.prefix@ == secret_prefix(secret)
    &&& k.request_quota == req.request_quota
    &&& k.tokens_per_minute == req.tokens_per_minute
    &&& k.max_concurrent == req.max_concurrent
    &&& k.requests_used == 0
    &&& k.tokens_used_window == 0
    &&& k.window_started_unix == 0
    &&& k.inflight == 0
    &&& k.created == now_unix
    &&& k.last_used is None
}

/// A new key record for `req` with the generated `id` and `secret`.
pub fn new_api_key(req: CreateApiKeyRequest, id: String, secret: &str, hmac_key: &str, now_unix: i64) -> (r: InferenceApiKey)
    ensures
        fresh_key(r, req, id, secret@, hex_seq(hmac_spec(hmac_key.spec_bytes(), secret.spec_bytes())), now_unix),
{
    let v = chars_of(secret);
    let cut: usize = if v.len() <= 8 {
        v.len()
    } else {
        8
    };
    proof {
        assert(v@.subrange(0, v@.len() as int) =~= v@);
    }
    let prefix = string_of_range(&v, 0, cut);
    InferenceApiKey {
        id,
        name: req.name,
        endpoint: req.endpoint,
        model: req.model,
        tenant: req.tenant,
        secret_hash: hash_secret(hmac_key, secret),
        prefix,
        request_quota: req.request_quota,
        tokens_per_minute: req.tokens_per_minute,
        max_concurrent: req.max_concurrent,
        requests_used: 0,
        tokens_used_window: 0,
        window_started_unix: 0,
        inflight: 0,
        created: now_unix,
        last_used: None,
    }
}

/// A key created with a secret is found again by that secret, under the
/// same HMAC key, once no earlier stored key matches it.
pub proof fn lemma_created_key_verifies(
    keys: Seq<InferenceApiKey>,
    k: InferenceApiKey,
    req: CreateApiKeyRequest,
    id: String,
    secret: Seq<char>,
    hash: Seq<char>,
    now_unix: i64,
)
    requires
        fresh_key(k, req, id, secret, hash, now_unix),
        first_match(keys, secret, hash, 0) is None,
    ensures
        first_match(keys.push(k), secret, hash, 0) == Some(keys.len() as int),
{
    lemma_first_match_push(keys, k, secret, hash, 0);
}

proof fn lemma_first_match_push(keys: Seq<InferenceApiKey>, k: InferenceApiKey, secret: Seq<char>, hash: Seq<char>, i: int)
    requires
        0 <= i <= keys.len(),
        key_matches(k, secret, hash),
        first_match(keys, secret, hash, i) is None,
    ensures
        first_match(keys.push(k), secret, hash, i) == Some(keys.len() as int),
    decreases keys.len() - i,
{
    if i < keys.len() {
        assert(keys.push(k)[i] == keys[i]);
        lemma_first_match_push(keys, k, secret, hash, i + 1);
    }
}

} // verus!
