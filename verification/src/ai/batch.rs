//! Control-plane batch jobs.
//!
//! A job stays queued until a ready replica exists, then running until a
//! worker reports the outcome. Fabric never marks a job succeeded on its own
//! and does not store the prompt.
use vstd::prelude::*;

use crate::crypto::{sha256_hex, sha256_spec};
use crate::text::{chars_of, hex_seq, is_ascii_hex, is_ascii_hex_exec, owned};
use vstd::string::*;

verus! {

#[derive(Debug, Clone, Copy, PartialEq, Eq, Structural)]
pub enum BatchState {
    Queued,
    Running,
    Succeeded,
    Failed,
    Cancelled,
}

#[derive(Debug, Clone)]
pub struct BatchJob {
    pub id: String,
    pub deployment: String,
    pub input_sha256: String,
    pub state: BatchState,
    pub message: String,
    pub created_unix: i64,
    pub updated_unix: i64,
}

#[derive(Debug, Clone)]
pub struct CreateBatchRequest {
    pub deployment: String,
    pub input_sha256: String,
}

#[derive(Debug, Clone)]
pub struct FinishBatchRequest {
    pub ok: bool,
    pub message: String,
}

/// Lower-case hex SHA-256 of `bytes`.
pub fn digest_sha256(bytes: &[u8]) -> (r: String)
    ensures
        r@ == hex_seq(sha256_spec(bytes@)),
{
    sha256_hex(bytes)
}

/// Exactly 64 hexadecimal characters.
pub open spec fn valid_digest_spec(value: Seq<char>) -> bool {
    value.len() == 64 && forall|i: int| 0 <= i < value.len() ==> is_ascii_hex(#[trigger] value[i])
}

pub fn valid_digest(value: &str) -> (r: bool)
    ensures
        r == valid_digest_spec(value@),
{
    let v = chars_of(value);
    if v.len() != 64 {
        return false;
    }
    let mut i: usize = 0;
    while i < v.len()
        invariant
            v@ == value@,
            i <= v@.len(),
            forall|j: int| 0 <= j < i ==> is_ascii_hex(#[trigger] v@[j]),
        decreases v.len() - i,
    {
        if !is_ascii_hex_exec(v[i]) {
            return false;
        }
        i = i + 1;
    }
    true
}

/// A new job, queued.
pub fn submit(id: String, deployment: String, input_sha256: String, now_unix: i64) -> (r: BatchJob)
    ensures
        r.id == id,
        r.deployment == deployment,
        r.input_sha256 == input_sha256,
        r.state == BatchState::Queued,
        r.message@.len() == 0,
        r.created_unix == now_unix,
        r.updated_unix == now_unix,
{
    BatchJob {
        id,
        deployment,
        input_sha256,
        state: BatchState::Queued,
        message: String::new(),
        created_unix: now_unix,
        updated_unix: now_unix,
    }
}

/// The state a claim moves to, if it is allowed.
pub open spec fn claim_next(state: BatchState, ready: bool) -> Option<BatchState> {
    if state == BatchState::Queued && ready {
        Some(BatchState::Running)
    } else {
        None
    }
}

/// The state a reported outcome moves to, if it is allowed.
pub open spec fn finish_next(state: BatchState, ok: bool) -> Option<BatchState> {
    if state == BatchState::Running {
        Some(if ok { BatchState::Succeeded } else { BatchState::Failed })
    } else {
        None
    }
}

pub open spec fn is_finished(state: BatchState) -> bool {
    state == BatchState::Succeeded || state == BatchState::Failed || state == BatchState::Cancelled
}

/// The state a cancel moves to, if it is allowed.
pub open spec fn cancel_next(state: BatchState) -> Option<BatchState> {
    if is_finished(state) {
        None
    } else {
        Some(BatchState::Cancelled)
    }
}

/// Same job except for state, message and update time.
pub open spec fn same_job(a: BatchJob, b: BatchJob) -> bool {
    a.id == b.id && a.deployment == b.deployment && a.input_sha256 == b.input_sha256
        && a.created_unix == b.created_unix
}

pub fn claim(job: BatchJob, ready: bool, now_unix: i64) -> (r: Result<BatchJob, &'static str>)
    ensures
        claim_next(job.state, ready) is Some <==> r is Ok,
        r matches Ok(j) ==> same_job(j, job) && Some(j.state) == claim_next(job.state, ready)
            && j.updated_unix == now_unix && j.message@ == "claimed"@,
        job.state != BatchState::Queued ==> r == Err::<BatchJob, &str>("batch is not queued"),
        job.state == BatchState::Queued && !ready ==> r == Err::<BatchJob, &str>("no ready inference replica"),
{
    let mut job = job;
    if job.state != BatchState::Queued {
        return Err("batch is not queued");
    }
    if !ready {
        return Err("no ready inference replica");
    }
    job.state = BatchState::Running;
    job.updated_unix = now_unix;
    job.message = owned("claimed");
    Ok(job)
}

pub fn finish(job: BatchJob, ok: bool, message: String, now_unix: i64) -> (r: Result<BatchJob, &'static str>)
    ensures
        finish_next(job.state, ok) is Some <==> r is Ok,
        r matches Ok(j) ==> same_job(j, job) && Some(j.state) == finish_next(job.state, ok)
            && j.updated_unix == now_unix && j.message == message,
        r is Err ==> r == Err::<BatchJob, &str>("batch is not running"),
{
    let mut job = job;
    if job.state != BatchState::Running {
        return Err("batch is not running");
    }
    job.state = if ok {
        BatchState::Succeeded
    } else {
        BatchState::Failed
    };
    job.message = message;
    job.updated_unix = now_unix;
    Ok(job)
}

pub fn cancel(job: BatchJob, now_unix: i64) -> (r: Result<BatchJob, &'static str>)
    ensures
        cancel_next(job.state) is Some <==> r is Ok,
        r matches Ok(j) ==> same_job(j, job) && j.state == BatchState::Cancelled && j.updated_unix
            == now_unix && j.message@ == "cancelled"@,
        r is Err ==> r == Err::<BatchJob, &str>("batch is already finished"),
{
    let mut job = job;
    if job.state == BatchState::Succeeded || job.state == BatchState::Failed || job.state
        == BatchState::Cancelled {
        return Err("batch is already finished");
    }
    job.state = BatchState::Cancelled;
    job.updated_unix = now_unix;
    job.message = owned("cancelled");
    Ok(job)
}

/// A finished job is final: no claim, outcome or cancel changes it. A job
/// only reaches Succeeded through a reported outcome on a running job.
pub proof fn lemma_finished_jobs_are_final(state: BatchState, ready: bool, ok: bool)
    ensures
        is_finished(state) ==> claim_next(state, ready) is None && finish_next(state, ok) is None
            && cancel_next(state) is None,
        claim_next(state, ready) != Some(BatchState::Succeeded),
        cancel_next(state) != Some(BatchState::Succeeded),
        finish_next(state, ok) == Some(BatchState::Succeeded) ==> state == BatchState::Running && ok,
{
}

} // verus!
