//! OpenAI-compatible gateway decisions: bearer extraction, key scope and
//! quota gates, the upstream path and target.
use vstd::prelude::*;

use super::types::{InferenceApiKey, InferenceReplica};
use crate::num::clamp;
use crate::text::{contains_str, dec, has_infix, owned, push_dec, starts_with, str_eq, trim, trim_string};
use vstd::string::*;
use vstd::utf8::encode_utf8;

verus! {

/// The token of an `Authorization` header: after `Bearer ` or `bearer `,
/// trimmed; none when missing or empty.
pub open spec fn bearer_of(raw: Seq<char>) -> Option<Seq<char>> {
    let rest = if "Bearer "@.is_prefix_of(raw) {
        Some(raw.subrange(7, raw.len() as int))
    } else if "bearer "@.is_prefix_of(raw) {
        Some(raw.subrange(7, raw.len() as int))
    } else {
        None
    };
    match rest {
        None => None,
        Some(r) => if trim(r).len() == 0 {
            None
        } else {
            Some(trim(r))
        },
    }
}

/// The bearer token of an `Authorization` header value.
pub fn extract_bearer(authorization: Option<&str>) -> (r: Option<String>)
    ensures
        match authorization {
            None => r is None,
            Some(raw) => match bearer_of(raw@) {
                None => r is None,
                Some(t) => r matches Some(s) && s@ == t,
            },
        },
{
    let raw = match authorization {
        None => {
            return None;
        },
        Some(raw) => raw,
    };
    proof {
        reveal_strlit("Bearer ");
        reveal_strlit("bearer ");
    }
    if !(starts_with(raw, "Bearer ") || starts_with(raw, "bearer ")) {
        return None;
    }
    let rest = raw.substring_char(7, raw.unicode_len());
    let t = trim_string(rest);
    if t.unicode_len() == 0 {
        None
    } else {
        Some(t)
    }
}

/// Whether a key has spent its lifetime request quota.
pub fn would_reject_quota(key: &InferenceApiKey) -> (r: bool)
    ensures
        r == (key.request_quota matches Some(q) && key.requests_used >= q),
{
    match key.request_quota {
        Some(q) => key.requests_used >= q,
        None => false,
    }
}

/// The endpoint scope and quota gates: 403 when the key belongs to another
/// endpoint, 429 when its quota is spent.
pub fn key_gate(key: &InferenceApiKey, endpoint_name: &str) -> (r: Result<(), (u16, String)>)
    ensures
        key.endpoint@ != endpoint_name@ ==> (r matches Err((code, msg)) && code == 403 && msg@
            == "API key is not scoped to endpoint '"@ + endpoint_name@ + "'"@),
        key.endpoint@ == endpoint_name@ && (key.request_quota matches Some(q) && key.requests_used
            >= q) ==> (r matches Err((code, msg)) && code == 429 && msg@
            == "API key request quota exceeded"@),
        key.endpoint@ == endpoint_name@ && !(key.request_quota matches Some(q) && key.requests_used
            >= q) ==> r is Ok,
{
    if !str_eq(key.endpoint.as_str(), endpoint_name) {
        let mut m = owned("API key is not scoped to endpoint '");
        m.append(endpoint_name);
        m.append("'");
        return Err((403, m));
    }
    if would_reject_quota(key) {
        return Err((429, owned("API key request quota exceeded")));
    }
    Ok(())
}

/// The model scope gate: 403 when the key is scoped to another model.
pub fn model_gate(key: &InferenceApiKey, deployment_model: &str) -> (r: Result<(), (u16, String)>)
    ensures
        match key.model {
            Some(m) if m@ != deployment_model@ => r matches Err((code, msg)) && code == 403 && msg@
                == "API key is scoped to model '"@ + m@ + "'"@,
            _ => r is Ok,
        },
{
    if let Some(m) = &key.model {
        if !str_eq(deployment_model, m.as_str()) {
            let mut msg = owned("API key is scoped to model '");
            msg.append(m.as_str());
            msg.append("'");
            return Err((403, msg));
        }
    }
    Ok(())
}

/// The key after one proxied request: one more request used, last used now.
pub fn consume_request_unit(key: InferenceApiKey, now_unix: i64) -> (r: InferenceApiKey)
    ensures
        r == (InferenceApiKey {
            requests_used: clamp(key.requests_used + 1, 0, u64::MAX as int) as u64,
            last_used: Some(now_unix),
            ..key
        }),
{
    let mut key = key;
    key.requests_used = key.requests_used.saturating_add(1);
    key.last_used = Some(now_unix);
    key
}

/// The upstream path: `/v1/models` for an empty path, else the path with a
/// leading `/`.
pub fn upstream_path(path: &str) -> (r: String)
    ensures
        r@ == (if path@.len() == 0 {
            "/v1/models"@
        } else if "/"@.is_prefix_of(path@) {
            path@
        } else {
            "/"@ + path@
        }),
{
    if path.unicode_len() == 0 {
        owned("/v1/models")
    } else if starts_with(path, "/") {
        owned(path)
    } else {
        let mut r = owned("/");
        r.append(path);
        r
    }
}

/// Index of the first ready replica that is not draining.
pub open spec fn first_serving(reps: Seq<InferenceReplica>, i: int) -> Option<int>
    decreases reps.len() - i,
{
    if i < 0 || i >= reps.len() {
        None
    } else if reps[i].ready && !reps[i].draining {
        Some(i)
    } else {
        first_serving(reps, i + 1)
    }
}

/// `host:port` of where a request goes: the endpoint's VIP when it has one,
/// else the address of the first ready, not draining replica.
pub open spec fn upstream_of(vip: Option<Seq<char>>, port: u16, reps: Seq<InferenceReplica>) -> Option<Seq<char>> {
    match vip {
        Some(v) => Some(v + ":"@ + dec(port as nat)),
        None => match first_serving(reps, 0) {
            Some(i) => match reps[i].address {
                Some(a) => Some(a@ + ":"@ + dec(port as nat)),
                None => None,
            },
            None => None,
        },
    }
}

pub fn resolve_upstream(vip: Option<&str>, port: u16, replicas: &[InferenceReplica]) -> (r: Option<String>)
    ensures
        match upstream_of(
            match vip {
                Some(v) => Some(v@),
                None => None::<Seq<char>>,
            },
            port,
            replicas@,
        ) {
            None => r is None,
            Some(t) => r matches Some(s) && s@ == t,
        },
{
    if let Some(v) = vip {
        let mut r = owned(v);
        r.append(":");
        push_dec(&mut r, port as u64);
        return Some(r);
    }
    let mut i: usize = 0;
    while i < replicas.len()
        invariant
            i <= replicas@.len(),
            vip is None,
            first_serving(replicas@, 0) == first_serving(replicas@, i as int),
        decreases replicas.len() - i,
    {
        if replicas[i].ready && !replicas[i].draining {
            return match &replicas[i].address {
                Some(a) => {
                    let mut r = owned(a.as_str());
                    r.append(":");
                    push_dec(&mut r, port as u64);
                    Some(r)
                },
                None => None,
            };
        }
        i = i + 1;
    }
    None
}

/// What a dry-run gateway answers.
#[derive(Debug, Clone, Copy, PartialEq, Eq, Structural)]
pub enum DryRunReply {
    ChatCompletion,
    ModelList,
    Echo,
}

/// The dry-run reply for a request: a chat completion for completion
/// paths, a model list for model paths, else an echo.
pub fn dry_run_reply(is_post: bool, path: &str) -> (r: DryRunReply)
    ensures
        r == (if has_infix(path@, "chat/completions"@) || (is_post && has_infix(path@, "completions"@)) {
            DryRunReply::ChatCompletion
        } else if has_infix(path@, "/models"@) {
            DryRunReply::ModelList
        } else {
            DryRunReply::Echo
        }),
{
    if contains_str(path, "chat/completions") || (is_post && contains_str(path, "completions")) {
        DryRunReply::ChatCompletion
    } else if contains_str(path, "/models") {
        DryRunReply::ModelList
    } else {
        DryRunReply::Echo
    }
}

/// What the store holds for the endpoint a request names.
#[derive(Debug, Clone)]
pub enum GatewayTarget {
    /// No such endpoint.
    NoEndpoint,
    /// The endpoint's deployment is gone.
    NoDeployment(String),
    /// The endpoint and the model its deployment serves.
    Found(String),
}

/// The gates of a proxied request, in order: a bearer token (401), a key
/// it belongs to (401), the key's endpoint scope (403) and request quota
/// (429), the endpoint (404) and its deployment (502), and the key's model
/// scope (403). Answers the key that passed every gate.
pub fn gateway_admit(
    authorization: Option<&str>,
    keys: Vec<InferenceApiKey>,
    hmac_key: &str,
    endpoint_name: &str,
    target: &GatewayTarget,
) -> (r: Result<InferenceApiKey, (u16, String)>)
    ensures
        match match authorization {
            Some(raw) => bearer_of(raw@),
            None => None,
        } {
            None => r matches Err((c, m)) && c == 401 && m@ == "missing or invalid Authorization: Bearer <api-key>"@,
            Some(t) => match super::keys::first_match(
                keys@,
                t,
                crate::text::hex_seq(crate::crypto::hmac_spec(encode_utf8(hmac_key@), encode_utf8(t))),
                0,
            ) {
                None => r matches Err((c, m)) && c == 401 && m@ == "invalid API key"@,
                Some(i) => {
                    let k = keys@[i];
                    if k.endpoint@ != endpoint_name@ {
                        r matches Err((c, m)) && c == 403 && m@ == "API key is not scoped to endpoint '"@
                            + endpoint_name@ + "'"@
                    } else if k.request_quota matches Some(q) && k.requests_used >= q {
                        r matches Err((c, m)) && c == 429 && m@ == "API key request quota exceeded"@
                    } else {
                        match *target {
                            GatewayTarget::NoEndpoint => r matches Err((c, m)) && c == 404 && m@
                                == "InferenceEndpoint '"@ + endpoint_name@ + "' not found"@,
                            GatewayTarget::NoDeployment(d) => r matches Err((c, m)) && c == 502 && m@
                                == "deployment '"@ + d@ + "' not found"@,
                            GatewayTarget::Found(model) => match k.model {
                                Some(km) if km@ != model@ => r matches Err((c, m)) && c == 403 && m@
                                    == "API key is scoped to model '"@ + km@ + "'"@,
                                _ => r == Ok::<InferenceApiKey, (u16, String)>(k),
                            },
                        }
                    }
                },
            },
        },
{
    let token = match extract_bearer(authorization) {
        Some(t) => t,
        None => {
            return Err((401, owned("missing or invalid Authorization: Bearer <api-key>")));
        },
    };
    let key = match super::keys::verify_api_key(keys, hmac_key, token.as_str()) {
        Some(k) => k,
        None => {
            return Err((401, owned("invalid API key")));
        },
    };
    key_gate(&key, endpoint_name)?;
    match target {
        GatewayTarget::NoEndpoint => {
            let mut m = owned("InferenceEndpoint '");
            m.append(endpoint_name);
            m.append("' not found");
            Err((404, m))
        },
        GatewayTarget::NoDeployment(d) => {
            let mut m = owned("deployment '");
            m.append(d.as_str());
            m.append("' not found");
            Err((502, m))
        },
        GatewayTarget::Found(model) => {
            model_gate(&key, model.as_str())?;
            Ok(key)
        },
    }
}

} // verus!
