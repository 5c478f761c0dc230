//! Store-backed request and token windows.
//!
//! The decision holds no process-local counter. Callers persist the returned
//! record under an exclusive lock.
use vstd::prelude::*;

use crate::num::{clamp, sat_sub_i64};
use crate::text::{chars_of, push_char, push_dec, string_of};
use vstd::string::*;

verus! {

#[derive(Debug, Clone)]
pub struct RateCounter {
    pub id: String,
    pub window_started_unix: i64,
    pub requests: u64,
    pub tokens: u64,
    /// Streams admitted and not yet released.
    pub inflight: u32,
}

/// A new window starts once 60 seconds have passed since the last one.
pub open spec fn window_expired(counter: RateCounter, now_unix: i64) -> bool {
    clamp(now_unix - counter.window_started_unix, i64::MIN as int, i64::MAX as int) >= 60
}

/// Requests and tokens already counted in the window that applies at `now`.
pub open spec fn window_requests(counter: RateCounter, now_unix: i64) -> int {
    if window_expired(counter, now_unix) {
        0
    } else {
        counter.requests as int
    }
}

pub open spec fn window_tokens(counter: RateCounter, now_unix: i64) -> int {
    if window_expired(counter, now_unix) {
        0
    } else {
        counter.tokens as int
    }
}

/// A request asks for at least one token.
pub open spec fn charged_tokens(requested: u64) -> int {
    if requested == 0 {
        1
    } else {
        requested as int
    }
}

pub open spec fn sat_u64(v: int) -> int {
    clamp(v, 0, u64::MAX as int)
}

/// The request limit refuses this request.
pub open spec fn over_requests(counter: RateCounter, now_unix: i64, rpm: u64) -> bool {
    rpm > 0 && sat_u64(window_requests(counter, now_unix) + 1) > rpm
}

/// The token limit refuses this request.
pub open spec fn over_tokens(counter: RateCounter, now_unix: i64, requested: u64, tpm: u64) -> bool {
    tpm > 0 && sat_u64(window_tokens(counter, now_unix) + charged_tokens(requested)) > tpm
}

/// Admit one request of `requested_tokens` against per-minute limits. `0`
/// disables a limit. A refused request leaves nothing counted.
pub fn admit_request(
    counter: RateCounter,
    now_unix: i64,
    requested_tokens: u64,
    requests_per_minute: u64,
    tokens_per_minute: u64,
) -> (r: Result<RateCounter, String>)
    ensures
        over_requests(counter, now_unix, requests_per_minute) ==> r is Err && r->Err_0@ == "rate limit exceeded for "@ + counter.id@ + " ("@ + crate::text::dec(requests_per_minute as nat) + " requests/minute)"@,
        !over_requests(counter, now_unix, requests_per_minute) && over_tokens(counter, now_unix, requested_tokens, tokens_per_minute) ==> r is Err && r->Err_0@ == "token limit exceeded for "@ + counter.id@ + " ("@ + crate::text::dec(tokens_per_minute as nat) + " tokens/minute)"@,
        !over_requests(counter, now_unix, requests_per_minute) && !over_tokens(counter, now_unix, requested_tokens, tokens_per_minute) ==> (r is Ok && r->Ok_0.id == counter.id
            && r->Ok_0.window_started_unix == (if window_expired(counter, now_unix) { now_unix } else { counter.window_started_unix })
            && r->Ok_0.requests == sat_u64(window_requests(counter, now_unix) + 1)
            && r->Ok_0.tokens == sat_u64(window_tokens(counter, now_unix) + charged_tokens(requested_tokens))
            && r->Ok_0.inflight == counter.inflight),
{
    let mut counter = counter;
    if sat_sub_i64(now_unix, counter.window_started_unix) >= 60 {
        counter.window_started_unix = now_unix;
        counter.requests = 0;
        counter.tokens = 0;
    }
    if requests_per_minute > 0 && counter.requests.saturating_add(1) > requests_per_minute {
        let mut msg = "rate limit exceeded for ".to_owned();
        msg.append(counter.id.as_str());
        msg.append(" (");
        push_dec(&mut msg, requests_per_minute);
        msg.append(" requests/minute)");
        return Err(msg);
    }
    let tokens = if requested_tokens > 1 { requested_tokens } else { 1 };
    if tokens_per_minute > 0 && counter.tokens.saturating_add(tokens) > tokens_per_minute {
        let mut msg = "token limit exceeded for ".to_owned();
        msg.append(counter.id.as_str());
        msg.append(" (");
        push_dec(&mut msg, tokens_per_minute);
        msg.append(" tokens/minute)");
        return Err(msg);
    }
    counter.requests = counter.requests.saturating_add(1);
    counter.tokens = counter.tokens.saturating_add(tokens);
    Ok(counter)
}

/// An admitted request never takes a window past a non-zero limit.
pub proof fn lemma_admitted_request_within_limits(
    counter: RateCounter,
    now_unix: i64,
    requested: u64,
    rpm: u64,
    tpm: u64,
)
    requires
        !over_requests(counter, now_unix, rpm),
        !over_tokens(counter, now_unix, requested, tpm),
    ensures
        rpm > 0 ==> sat_u64(window_requests(counter, now_unix) + 1) <= rpm,
        tpm > 0 ==> sat_u64(window_tokens(counter, now_unix) + charged_tokens(requested)) <= tpm,
{
}

/// `name` with every `/` replaced by `_`.
pub open spec fn slash_to_underscore(name: Seq<char>) -> Seq<char> {
    name.map_values(|c: char| if c == '/' { '_' } else { c })
}

/// `"{scope}:{name}"` with `/` in `name` replaced by `_`.
pub fn counter_id(scope: &str, name: &str) -> (r: String)
    ensures
        r@ == scope@ + ":"@ + slash_to_underscore(name@),
{
    let v = chars_of(name);
    let mut out: Vec<char> = Vec::new();
    let mut i: usize = 0;
    while i < v.len()
        invariant
            v@ == name@,
            i <= v@.len(),
            out@ == slash_to_underscore(name@.subrange(0, i as int)),
        decreases v.len() - i,
    {
        let c = v[i];
        out.push(if c == '/' { '_' } else { c });
        i = i + 1;
        assert(out@ =~= slash_to_underscore(name@.subrange(0, i as int)));
    }
    assert(name@.subrange(0, name@.len() as int) =~= name@);
    let mut r = scope.to_owned();
    r.append(":");
    let tail = string_of(&out);
    r.append(tail.as_str());
    r
}

} // verus!
