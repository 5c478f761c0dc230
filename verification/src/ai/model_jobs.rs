//! Background, content-addressed model materialization: disk admission,
//! joining a job already fetching the same content, and retry accounting.
use vstd::prelude::*;

use super::types::{InferenceDeployment, InferenceNode, ModelJob, ModelJobState};
use super::supply::known_kind;
use crate::crypto::sha256_spec;
use crate::text::{dec, hex_seq, lower_seq, owned, push_dec, starts_with, str_eq, trim};
use vstd::utf8::encode_utf8;
use vstd::string::*;

verus! {

/// Refuses a job when free space is below the declared object size.
pub fn admit_disk(free: u64, declared: Option<u64>) -> (r: Result<(), String>)
    ensures
        r is Err <==> (declared matches Some(need) && free < need),
        r matches Err(e) ==> e@ == "free disk "@ + dec(free as nat) + " is below declared size "@
            + dec(declared->0 as nat),
{
    if let Some(need) = declared {
        if free < need {
            let mut m = owned("free disk ");
            push_dec(&mut m, free);
            m.append(" is below declared size ");
            push_dec(&mut m, need);
            return Err(m);
        }
    }
    Ok(())
}

/// Whether the source is fetched from local storage (`file://` or an
/// absolute path), or a local model directory is configured.
pub fn source_is_local(model_dir_set: bool, source: &str) -> (r: bool)
    ensures
        r == (model_dir_set || "file://"@.is_prefix_of(source@) || "/"@.is_prefix_of(source@)),
{
    model_dir_set || starts_with(source, "file://") || starts_with(source, "/")
}

/// The content a job names: its digest, else its checksum.
pub open spec fn content_of(j: ModelJob) -> Option<Seq<char>> {
    match j.digest {
        Some(d) => Some(d@),
        None => match j.checksum {
            Some(c) => Some(c@),
            None => None,
        },
    }
}

/// States in which a job with the same content is worth joining.
pub open spec fn fetching_or_ready(s: ModelJobState) -> bool {
    match s {
        ModelJobState::Downloading | ModelJobState::Verifying | ModelJobState::Scanning
        | ModelJobState::Optimizing | ModelJobState::Ready => true,
        _ => false,
    }
}

/// States in which an earlier job for the same source and revision is
/// worth joining.
pub open spec fn resolving_or_later(s: ModelJobState) -> bool {
    s is Resolving || fetching_or_ready(s)
}

pub open spec fn same_content(other: ModelJob, job: ModelJob) -> bool {
    other.id@ != job.id@ && content_of(job) is Some && content_of(other) == content_of(job)
        && fetching_or_ready(other.state)
}

pub open spec fn same_request(other: ModelJob, job: ModelJob) -> bool {
    &&& other.id@ != job.id@
    &&& other.source@ == job.source@
    &&& match (other.revision, job.revision) {
        (Some(a), Some(b)) => a@ == b@,
        (None, None) => true,
        _ => false,
    }
    &&& other.created_at <= job.created_at
    &&& resolving_or_later(other.state)
}

/// Index of the first job from `i` on that satisfies `p`.
pub open spec fn first_job(jobs: Seq<ModelJob>, job: ModelJob, by_content: bool, i: int) -> Option<int>
    decreases jobs.len() - i,
{
    if i < 0 || i >= jobs.len() {
        None
    } else if (if by_content {
        same_content(jobs[i], job)
    } else {
        same_request(jobs[i], job)
    }) {
        Some(i)
    } else {
        first_job(jobs, job, by_content, i + 1)
    }
}

/// The job `job` should join: the first other job fetching the same
/// content, else the first earlier job for the same source and revision.
pub open spec fn join_target(jobs: Seq<ModelJob>, job: ModelJob) -> Option<int> {
    match first_job(jobs, job, true, 0) {
        Some(i) => Some(i),
        None => first_job(jobs, job, false, 0),
    }
}

fn opt_str_eq(a: &Option<String>, b: &Option<String>) -> (r: bool)
    ensures
        r == (match (*a, *b) {
            (Some(x), Some(y)) => x@ == y@,
            (None, None) => true,
            _ => false,
        }),
{
    match (a, b) {
        (Some(x), Some(y)) => str_eq(x.as_str(), y.as_str()),
        (None, None) => true,
        _ => false,
    }
}

fn content(j: &ModelJob) -> (r: Option<&str>)
    ensures
        content_of(*j) == (match r {
            Some(s) => Some(s@),
            None => None::<Seq<char>>,
        }),
{
    match &j.digest {
        Some(d) => Some(d.as_str()),
        None => match &j.checksum {
            Some(c) => Some(c.as_str()),
            None => None,
        },
    }
}

fn is_fetching_or_ready(s: ModelJobState) -> (r: bool)
    ensures
        r == fetching_or_ready(s),
{
    match s {
        ModelJobState::Downloading | ModelJobState::Verifying | ModelJobState::Scanning
        | ModelJobState::Optimizing | ModelJobState::Ready => true,
        _ => false,
    }
}

fn scan_jobs(jobs: &[ModelJob], job: &ModelJob, by_content: bool) -> (r: Option<usize>)
    ensures
        first_job(jobs@, *job, by_content, 0) == (match r {
            Some(i) => Some(i as int),
            None => None::<int>,
        }),
        r matches Some(i) ==> i < jobs@.len(),
{
    let mine = content(job);
    let mut i: usize = 0;
    while i < jobs.len()
        invariant
            i <= jobs@.len(),
            content_of(*job) == (match mine {
                Some(s) => Some(s@),
                None => None::<Seq<char>>,
            }),
            first_job(jobs@, *job, by_content, 0) == first_job(jobs@, *job, by_content, i as int),
        decreases jobs.len() - i,
    {
        let other = &jobs[i];
        let hit = if !str_eq(other.id.as_str(), job.id.as_str()) {
            if by_content {
                match (mine, content(other)) {
                    (Some(a), Some(b)) => str_eq(a, b) && is_fetching_or_ready(other.state),
                    _ => false,
                }
            } else {
                str_eq(other.source.as_str(), job.source.as_str()) && opt_str_eq(
                    &other.revision,
                    &job.revision,
                ) && other.created_at <= job.created_at && (other.state == ModelJobState::Resolving
                    || is_fetching_or_ready(other.state))
            }
        } else {
            false
        };
        if hit {
            return Some(i);
        }
        i = i + 1;
    }
    None
}

/// Another in-flight or ready job for the same digest, or an earlier one
/// for the same source and revision.
pub fn find_join<'a>(jobs: &'a [ModelJob], job: &ModelJob) -> (r: Option<&'a ModelJob>)
    ensures
        match join_target(jobs@, *job) {
            Some(i) => r == Some(&jobs@[i]),
            None => r is None,
        },
{
    match scan_jobs(jobs, job, true) {
        Some(i) => Some(&jobs[i]),
        None => match scan_jobs(jobs, job, false) {
            Some(i) => Some(&jobs[i]),
            None => None,
        },
    }
}

/// A job's state after a failed step: it retries from the start until the
/// third failure, then fails for good.
pub fn record_step_failure(job: &mut ModelJob, msg: String)
    ensures
        final(job).retries == (if old(job).retries == u32::MAX {
            u32::MAX
        } else {
            (old(job).retries + 1) as u32
        }),
        final(job).message == Some(msg),
        final(job).state == (if final(job).retries < 3 {
            ModelJobState::Registered
        } else {
            ModelJobState::Failed
        }),
        *final(job) == (ModelJob {
            retries: final(job).retries,
            message: final(job).message,
            state: final(job).state,
            ..*old(job)
        }),
{
    job.retries = job.retries.saturating_add(1);
    job.message = Some(msg);
    job.state = if job.retries < 3 {
        ModelJobState::Registered
    } else {
        ModelJobState::Failed
    };
}

/// The name a download lands under: the digest when known, else
/// `partial-{id}`.
pub fn download_name(job: &ModelJob) -> (r: String)
    ensures
        r@ == (match job.digest {
            Some(d) if d@.len() > 0 => d@,
            _ => "partial-"@ + job.id@,
        }),
{
    if let Some(d) = &job.digest {
        if d.unicode_len() > 0 {
            return owned(d.as_str());
        }
    }
    let mut r = owned("partial-");
    r.append(job.id.as_str());
    r
}

/// A record that `model` is, or is to be, cached at `site`.
#[derive(Debug, Clone)]
pub struct ReplicationRecord {
    pub id: String,
    pub model: String,
    pub site: String,
    pub digest: Option<String>,
    pub state: String,
}

#[derive(Debug, Clone)]
pub struct ReplicateRequest {
    pub site: String,
}

/// Whether a node at `site` already lists `model` in its cache.
pub open spec fn cached_at(nodes: Seq<InferenceNode>, site: Seq<char>, model: Seq<char>) -> bool {
    exists|i: int, k: int|
        0 <= i < nodes.len() && 0 <= k < nodes[i].cached_models@.len() && (#[trigger] nodes[i]).site@
            == site && (#[trigger] nodes[i].cached_models@[k])@ == model
}

fn node_caches(node: &InferenceNode, model: &str) -> (r: bool)
    ensures
        r == exists|k: int| 0 <= k < node.cached_models@.len() && (#[trigger] node.cached_models@[k])@ == model@,
{
    let mut k: usize = 0;
    while k < node.cached_models.len()
        invariant
            k <= node.cached_models@.len(),
            forall|j: int| 0 <= j < k ==> (#[trigger] node.cached_models@[j])@ != model@,
        decreases node.cached_models.len() - k,
    {
        if str_eq(node.cached_models[k].as_str(), model) {
            return true;
        }
        k = k + 1;
    }
    false
}

fn cached_somewhere(nodes: &[InferenceNode], site: &str, model: &str) -> (r: bool)
    ensures
        r == cached_at(nodes@, site@, model@),
{
    let mut i: usize = 0;
    while i < nodes.len()
        invariant
            i <= nodes@.len(),
            forall|j: int, k: int|
                0 <= j < i && 0 <= k < nodes@[j].cached_models@.len() ==> !((#[trigger] nodes@[j]).site@ == site@
                    && (#[trigger] nodes@[j].cached_models@[k])@ == model@),
        decreases nodes.len() - i,
    {
        if str_eq(nodes[i].site.as_str(), site) && node_caches(&nodes[i], model) {
            proof {
                let k = choose|k: int|
                    0 <= k < nodes@[i as int].cached_models@.len() && (#[trigger] nodes@[i as int].cached_models@[k])@
                        == model@;
                assert(nodes@[i as int].site@ == site@);
                assert((nodes@[i as int].cached_models@[k])@ == model@);
            }
            return true;
        }
        i = i + 1;
    }
    false
}

/// The replication record for `model` at `site`: `ready` when a node there
/// caches it already, else `pending`. Bytes are not copied across a WAN.
pub fn replication_record(model: &str, site: &str, digest: Option<String>, nodes: &[InferenceNode]) -> (r: ReplicationRecord)
    ensures
        r.id@ == model@ + "--"@ + site@,
        r.model@ == model@,
        r.site@ == site@,
        r.digest == digest,
        r.state@ == (if cached_at(nodes@, site@, model@) {
            "ready"@
        } else {
            "pending"@
        }),
{
    let ready = cached_somewhere(nodes, site, model);
    let mut id = owned(model);
    id.append("--");
    id.append(site);
    ReplicationRecord {
        id,
        model: owned(model),
        site: owned(site),
        digest,
        state: if ready {
            owned("ready")
        } else {
            owned("pending")
        },
    }
}

// ---------------------------------------------------------------------------
// The materialization pipeline: Registered/Resolving, Downloading,
// Verifying, Scanning, Optimizing, Ready. The controller performs the file
// and store work between these steps and hands in what it found.
// ---------------------------------------------------------------------------
/// Position of a state in the pipeline.
pub open spec fn stage(s: ModelJobState) -> int {
    match s {
        ModelJobState::Registered => 0,
        ModelJobState::Resolving => 1,
        ModelJobState::Downloading => 2,
        ModelJobState::Verifying => 3,
        ModelJobState::Scanning => 4,
        ModelJobState::Optimizing => 5,
        ModelJobState::Ready => 6,
        ModelJobState::Failed => 7,
    }
}

proof fn lemma_join_ignores_state(jobs: Seq<ModelJob>, a: ModelJob, b: ModelJob, by_content: bool, i: int)
    requires
        a == (ModelJob { state: a.state, ..b }),
    ensures
        first_job(jobs, a, by_content, i) == first_job(jobs, b, by_content, i),
    decreases jobs.len() - i,
{
    if 0 <= i < jobs.len() {
        lemma_join_ignores_state(jobs, a, b, by_content, i + 1);
    }
}

/// What a resolving step found.
#[derive(Debug, Clone, Copy, PartialEq, Eq)]
pub enum ResolveStep {
    /// Joined the job at this index, which is still fetching.
    Joined(usize),
    /// Joined the job at this index, which is ready: copy its files, then
    /// the job is ready too.
    JoinedReady(usize),
    /// Nothing to join and the disk has room: the download starts.
    Admitted,
}

/// Resolving: join another job for the same content or request, else
/// admit the download against the free space and the declared size.
pub fn resolve_job(job: &mut ModelJob, jobs: &[ModelJob], free: u64, declared: Option<u64>) -> (r: Result<
    ResolveStep,
    String,
>)
    ensures
        match join_target(jobs@, *old(job)) {
            Some(i) => {
                let other = jobs@[i];
                &&& r == Ok::<ResolveStep, String>(
                    if other.state == ModelJobState::Ready {
                        ResolveStep::JoinedReady(i as usize)
                    } else {
                        ResolveStep::Joined(i as usize)
                    },
                )
                &&& final(job).joined_job == Some(other.id)
                &&& final(job).digest == (if other.digest is Some {
                    other.digest
                } else {
                    old(job).digest
                })
                &&& final(job).message matches Some(m) && m@ == "joined "@ + other.id@
                &&& *final(job) == (ModelJob {
                    state: ModelJobState::Resolving,
                    joined_job: final(job).joined_job,
                    digest: final(job).digest,
                    message: final(job).message,
                    ..*old(job)
                })
            },
            None => {
                &&& (declared matches Some(need) && free < need) <==> r is Err
                &&& r matches Err(e) ==> e@ == "free disk "@ + dec(free as nat) + " is below declared size "@
                    + dec(declared->0 as nat)
                &&& *final(job) == (ModelJob {
                    state: if r is Ok {
                        ModelJobState::Downloading
                    } else {
                        ModelJobState::Resolving
                    },
                    ..*old(job)
                })
                &&& r is Ok ==> r == Ok::<ResolveStep, String>(ResolveStep::Admitted)
            },
        },
{
    job.state = ModelJobState::Resolving;
    match find_join(jobs, job) {
        Some(other) => {
            proof {
                lemma_join_ignores_state(jobs@, *job, *old(job), true, 0);
                lemma_join_ignores_state(jobs@, *job, *old(job), false, 0);
            }
            let idx = find_index_of_join(jobs, job);
            job.joined_job = Some(other.id.clone());
            if other.digest.is_some() {
                job.digest = other.digest.clone();
            }
            let mut m = owned("joined ");
            m.append(other.id.as_str());
            job.message = Some(m);
            if other.state == ModelJobState::Ready {
                Ok(ResolveStep::JoinedReady(idx))
            } else {
                Ok(ResolveStep::Joined(idx))
            }
        },
        None => {
            proof {
                lemma_join_ignores_state(jobs@, *job, *old(job), true, 0);
                lemma_join_ignores_state(jobs@, *job, *old(job), false, 0);
            }
            admit_disk(free, declared)?;
            job.state = ModelJobState::Downloading;
            Ok(ResolveStep::Admitted)
        },
    }
}

fn find_index_of_join(jobs: &[ModelJob], job: &ModelJob) -> (r: usize)
    requires
        join_target(jobs@, *job) is Some,
    ensures
        join_target(jobs@, *job) == Some(r as int),
{
    match scan_jobs(jobs, job, true) {
        Some(i) => i,
        None => match scan_jobs(jobs, job, false) {
            Some(i) => i,
            None => 0,
        },
    }
}

/// A joined job whose source was ready, once its files are copied.
pub fn finish_join(job: &mut ModelJob)
    ensures
        *final(job) == (ModelJob { state: ModelJobState::Ready, ..*old(job) }),
{
    job.state = ModelJobState::Ready;
}

/// A download landed at `path` with `bytes` written; `digest` is the
/// verified or computed SHA-256 of a single file, when there is one.
pub fn record_download(job: &mut ModelJob, path: String, bytes: u64, digest: Option<String>)
    ensures
        *final(job) == (ModelJob {
            bytes_written: bytes,
            digest: if digest is Some {
                digest
            } else {
                old(job).digest
            },
            state: ModelJobState::Verifying,
            message: Some(path),
            ..*old(job)
        }),
{
    job.bytes_written = bytes;
    if digest.is_some() {
        job.digest = digest;
    }
    job.state = ModelJobState::Verifying;
    job.message = Some(path);
}

/// The path a download left in `slot`, else the error that stops the step.
pub fn downloaded_path(slot: &Option<String>) -> (r: Result<String, String>)
    ensures
        match *slot {
            Some(p) => r == Ok::<String, String>(p),
            None => r matches Err(e) && e@ == "model job has no downloaded path"@,
        },
{
    match slot {
        Some(p) => Ok(p.clone()),
        None => Err(owned("model job has no downloaded path")),
    }
}

/// `parts` joined with `, `.
pub open spec fn comma_joined(parts: Seq<Seq<char>>) -> Seq<char>
    decreases parts.len(),
{
    if parts.len() == 0 {
        Seq::empty()
    } else if parts.len() == 1 {
        parts[0]
    } else {
        comma_joined(parts.drop_last()) + ", "@ + parts.last()
    }
}

fn join_comma(parts: &[String]) -> (r: String)
    ensures
        r@ == comma_joined(crate::text::views(parts@)),
{
    let mut out = String::new();
    let mut i: usize = 0;
    while i < parts.len()
        invariant
            i <= parts@.len(),
            out@ == comma_joined(crate::text::views(parts@).subrange(0, i as int)),
        decreases parts.len() - i,
    {
        if i > 0 {
            out.append(", ");
        }
        out.append(parts[i].as_str());
        proof {
            let t = crate::text::views(parts@).subrange(0, i + 1);
            assert(t.drop_last() =~= crate::text::views(parts@).subrange(0, i as int));
            if i == 0 {
                assert(out@ =~= t[0]);
            }
        }
        i = i + 1;
    }
    proof {
        assert(crate::text::views(parts@).subrange(0, parts@.len() as int) =~= crate::text::views(parts@));
    }
    out
}

/// The checksum and format scan of a downloaded path passed unless it
/// found `blocked` files; the job moves on to scanning.
pub fn record_verified(job: &mut ModelJob, path: String, verified: Option<String>, blocked: &[String]) -> (r: Result<(), String>)
    ensures
        blocked@.len() > 0 <==> r is Err,
        r matches Err(e) ==> e@ == "unsafe model file: "@ + comma_joined(crate::text::views(blocked@)),
        r is Err ==> *final(job) == *old(job),
        r is Ok ==> *final(job) == (ModelJob {
            digest: if verified is Some {
                verified
            } else {
                old(job).digest
            },
            local_path: Some(path),
            state: ModelJobState::Scanning,
            message: final(job).message,
            ..*old(job)
        }),
        r is Ok ==> (final(job).message matches Some(m) && m@ == "scanning"@),
{
    if blocked.len() > 0 {
        let mut e = owned("unsafe model file: ");
        e.append(join_comma(blocked).as_str());
        return Err(e);
    }
    if verified.is_some() {
        job.digest = verified;
    }
    job.local_path = Some(path);
    job.state = ModelJobState::Scanning;
    job.message = Some(owned("scanning"));
    Ok(())
}

/// Whether the job asks for an optimized artifact.
pub open spec fn wants_optimization(job: ModelJob) -> bool {
    job.optimize matches Some(k) && k@.len() > 0
}

/// The scan of the stored model passed: no blocked format, a file count
/// within `max_files`, and a matching signature when the model carries one
/// (checked with the signing key `key`). Returns whether the model is
/// published now; otherwise the job moves on to optimizing.
pub fn record_scanned(
    job: &mut ModelJob,
    blocked: &[String],
    files: usize,
    max_files: usize,
    signature: Option<&str>,
    key: Option<&str>,
) -> (r: Result<bool, String>)
    ensures
        blocked@.len() > 0 ==> (r matches Err(e) && e@ == "unsafe model format: "@ + comma_joined(
            crate::text::views(blocked@),
        )),
        blocked@.len() == 0 && files > max_files ==> (r matches Err(e) && e@ == "model has "@ + dec(
            files as nat,
        ) + " files; limit is "@ + dec(max_files as nat)),
        r is Ok <==> (blocked@.len() == 0 && files <= max_files && match signature {
            Some(sig) => match (old(job).digest, key) {
                (Some(d), Some(k)) => k@.len() > 0 && crate::text::hex_seq(
                    crate::crypto::hmac_spec(encode_utf8(k@), encode_utf8(d@)),
                ) == crate::text::trim(sig@),
                _ => false,
            },
            None => true,
        }),
        r is Err ==> *final(job) == *old(job),
        r == Ok::<bool, String>(true) <==> (r is Ok && !wants_optimization(*old(job))),
        r == Ok::<bool, String>(true) ==> *final(job) == *old(job),
        r == Ok::<bool, String>(false) ==> (final(job).message matches Some(m) && m@ == "optimizing"@),
        r == Ok::<bool, String>(false) ==> *final(job) == (ModelJob {
            state: ModelJobState::Optimizing,
            message: final(job).message,
            ..*old(job)
        }),
{
    if blocked.len() > 0 {
        let mut e = owned("unsafe model format: ");
        e.append(join_comma(blocked).as_str());
        return Err(e);
    }
    super::supply::file_count_allowed(files, max_files)?;
    if let Some(sig) = signature {
        let d = match &job.digest {
            Some(d) => Some(d.as_str()),
            None => None,
        };
        super::supply::require_signature(d, sig, key)?;
    }
    let optimize = match &job.optimize {
        Some(k) => k.unicode_len() > 0,
        None => false,
    };
    if optimize {
        job.state = ModelJobState::Optimizing;
        job.message = Some(owned("optimizing"));
        Ok(false)
    } else {
        Ok(true)
    }
}

/// The optimization of a scanned job: its kind and the digest of the
/// derived artifact, named from the source digest and the kind.
pub fn plan_optimization(job: &ModelJob) -> (r: Result<(&'static str, String), String>)
    ensures
        ({
            let kind = lower_seq(trim(match job.optimize {
                Some(k) => k@,
                None => Seq::empty(),
            }));
            &&& !known_kind(kind) ==> (r matches Err(e) && e@ == "unsupported optimization '"@ + kind + "'"@)
            &&& known_kind(kind) && !(job.digest is Some && job.digest->0@.len() > 0) ==> (r matches Err(e)
                && e@ == "optimization requires a source digest"@)
            &&& known_kind(kind) && job.digest is Some && job.digest->0@.len() > 0 ==> (r matches Ok((k, derived))
                && k@ == kind && derived@ == hex_seq(sha256_spec(encode_utf8(job.digest->0@) + seq![10u8] + encode_utf8(k@))))
        }),
{
    proof {
        reveal_strlit("");
    }
    let k = match &job.optimize {
        Some(k) => k.as_str(),
        None => "",
    };
    proof {
        assert(""@ =~= Seq::<char>::empty());
        assert(k@ == (match job.optimize {
            Some(x) => x@,
            None => Seq::<char>::empty(),
        }));
    }
    let kind = match super::supply::optimization_kind(k) {
        Ok(kind) => kind,
        Err(e) => {
            return Err(e);
        },
    };
    let source = match &job.digest {
        Some(d) => if d.unicode_len() > 0 {
            d.as_str()
        } else {
            return Err(owned("optimization requires a source digest"));
        },
        None => {
            return Err(owned("optimization requires a source digest"));
        },
    };
    Ok((kind, super::supply::derived_digest(source, kind)))
}

/// The name of the derived artifact record: `{model}--{kind}`.
pub fn derived_artifact_name(model: &str, kind: &str) -> (r: String)
    ensures
        r@ == model@ + "--"@ + kind@,
{
    let mut r = owned(model);
    r.append("--");
    r.append(kind);
    r
}

/// A job whose model record was published: ready.
pub fn mark_ready(job: &mut ModelJob, derived_digest: Option<String>)
    ensures
        final(job).message matches Some(m) && m@ == "ready"@,
        *final(job) == (ModelJob {
            state: ModelJobState::Ready,
            message: final(job).message,
            derived_digest: if derived_digest is Some {
                derived_digest
            } else {
                old(job).derived_digest
            },
            ..*old(job)
        }),
{
    if derived_digest.is_some() {
        job.derived_digest = derived_digest;
    }
    job.state = ModelJobState::Ready;
    job.message = Some(owned("ready"));
}

/// Replica `r` runs on cache node `node`: on the host of that name, or on
/// this host (no host recorded) when `node` is `local`.
pub open spec fn runs_on(r: super::types::InferenceReplica, node: Seq<char>) -> bool {
    r.host@ == node || (node == "local"@ && r.host@.len() == 0)
}

/// Some deployment of `model` has a replica on cache node `node`.
pub open spec fn cache_in_use(deps: Seq<InferenceDeployment>, model: Seq<char>, node: Seq<char>) -> bool {
    exists|i: int, j: int|
        0 <= i < deps.len() && 0 <= j < deps[i].status.replicas@.len() && (#[trigger] deps[i]).model@ == model
            && runs_on(#[trigger] deps[i].status.replicas@[j], node)
}

/// Whether a model's cache on `node` is still used by a replica; a cache in
/// use is not deleted.
pub fn cache_referenced(deps: &[InferenceDeployment], model: &str, node: &str) -> (r: bool)
    ensures
        r == cache_in_use(deps@, model@, node@),
{
    let local = str_eq(node, "local");
    let mut i: usize = 0;
    while i < deps.len()
        invariant
            i <= deps@.len(),
            local == (node@ == "local"@),
            forall|a: int, j: int|
                0 <= a < i && 0 <= j < deps@[a].status.replicas@.len() ==> !((#[trigger] deps@[a]).model@ == model@
                    && runs_on(#[trigger] deps@[a].status.replicas@[j], node@)),
        decreases deps.len() - i,
    {
        if str_eq(deps[i].model.as_str(), model) {
            let reps = &deps[i].status.replicas;
            let mut j: usize = 0;
            while j < reps.len()
                invariant
                    j <= reps@.len(),
                    i < deps@.len(),
                    reps@ == deps@[i as int].status.replicas@,
                    deps@[i as int].model@ == model@,
                    local == (node@ == "local"@),
                    forall|b: int| 0 <= b < j ==> !runs_on(#[trigger] reps@[b], node@),
                decreases reps.len() - j,
            {
                let h = reps[j].host.as_str();
                if str_eq(h, node) || (local && h.unicode_len() == 0) {
                    proof {
                        assert(runs_on(deps@[i as int].status.replicas@[j as int], node@));
                        assert(cache_in_use(deps@, model@, node@));
                    }
                    return true;
                }
                j = j + 1;
            }
        }
        i = i + 1;
    }
    false
}

/// Whether cache node `node` is this host: `local`, or the configured
/// node id.
pub fn is_local_node(node: &str, node_id: Option<&str>) -> (r: bool)
    ensures
        r == (node@ == "local"@ || (node_id matches Some(id) && id@ == node@)),
{
    str_eq(node, "local") || match node_id {
        Some(id) => str_eq(id, node),
        None => false,
    }
}

/// The cached models other than `model`, in order.
pub open spec fn without_model(cached: Seq<String>, model: Seq<char>) -> Seq<String>
    decreases cached.len(),
{
    if cached.len() == 0 {
        Seq::empty()
    } else {
        without_model(cached.drop_last(), model) + if cached.last()@ == model {
            Seq::empty()
        } else {
            seq![cached.last()]
        }
    }
}

/// Drops `model` from a node's list of cached models.
pub fn uncache(cached: &mut Vec<String>, model: &str)
    ensures
        final(cached)@ == without_model(old(cached)@, model@),
{
    let mut rest: Vec<String> = Vec::new();
    std::mem::swap(&mut rest, cached);
    let ghost all = rest@;
    let total = rest.len();
    let mut done: usize = 0;
    while rest.len() > 0
        invariant
            total == all.len(),
            done + rest@.len() == all.len(),
            rest@ == all.subrange(done as int, all.len() as int),
            cached@ == without_model(all.subrange(0, done as int), model@),
        decreases rest.len(),
    {
        let s = rest.remove(0);
        proof {
            let t = all.subrange(0, done + 1);
            assert(t.drop_last() =~= all.subrange(0, done as int));
            assert(s == all[done as int]);
        }
        if !str_eq(s.as_str(), model) {
            cached.push(s);
        }
        proof {
            assert(cached@ =~= without_model(all.subrange(0, done + 1), model@));
            assert(rest@ =~= all.subrange(done + 1, all.len() as int));
        }
        done = done + 1;
    }
    proof {
        assert(all.subrange(0, all.len() as int) =~= all);
    }
}

/// The outside work a job's state asks for next.
#[derive(Debug, Clone, Copy, PartialEq, Eq, Structural)]
pub enum JobAction {
    /// Look for a job already fetching the same content, and admit disk.
    Resolve,
    /// Fetch (or resume) the weights.
    Download,
    /// Check the downloaded bytes and scan them.
    Verify,
    /// Scan, check the signature and publish.
    Scan,
    /// Build the derived artifact and publish.
    Optimize,
    /// Nothing: the job is ready or failed for good.
    Idle,
}

/// What the pipeline does with a job in `state`: one step per live state;
/// a ready or failed job is left alone.
pub fn next_action(state: ModelJobState) -> (r: JobAction)
    ensures
        r == (match state {
            ModelJobState::Registered | ModelJobState::Resolving => JobAction::Resolve,
            ModelJobState::Downloading => JobAction::Download,
            ModelJobState::Verifying => JobAction::Verify,
            ModelJobState::Scanning => JobAction::Scan,
            ModelJobState::Optimizing => JobAction::Optimize,
            ModelJobState::Ready | ModelJobState::Failed => JobAction::Idle,
        }),
{
    match state {
        ModelJobState::Registered | ModelJobState::Resolving => JobAction::Resolve,
        ModelJobState::Downloading => JobAction::Download,
        ModelJobState::Verifying => JobAction::Verify,
        ModelJobState::Scanning => JobAction::Scan,
        ModelJobState::Optimizing => JobAction::Optimize,
        ModelJobState::Ready | ModelJobState::Failed => JobAction::Idle,
    }
}

proof fn lemma_first_job_satisfies(jobs: Seq<ModelJob>, job: ModelJob, by_content: bool, i: int)
    ensures
        first_job(jobs, job, by_content, i) matches Some(k) ==> i <= k < jobs.len() && (if by_content {
            same_content(jobs[k], job)
        } else {
            same_request(jobs[k], job)
        }),
    decreases jobs.len() - i,
{
    if 0 <= i < jobs.len() {
        lemma_first_job_satisfies(jobs, job, by_content, i + 1);
    }
}

/// Joining never merges different downloads: the job that a job joins is
/// another job, and either already fetches (or holds) the very content the
/// job names, or is an earlier request for the same source at the same
/// revision (both unpinned, or pinned to the same one), still resolving or
/// further along.
pub proof fn lemma_join_is_same_download(jobs: Seq<ModelJob>, job: ModelJob)
    ensures
        join_target(jobs, job) matches Some(i) ==> {
            let other = jobs[i];
            &&& 0 <= i < jobs.len()
            &&& other.id@ != job.id@
            &&& {
                ||| (content_of(job) is Some && content_of(other) == content_of(job) && fetching_or_ready(
                    other.state,
                ))
                ||| (other.source@ == job.source@ && (match (other.revision, job.revision) {
                    (Some(a), Some(b)) => a@ == b@,
                    (None, None) => true,
                    _ => false,
                }) && other.created_at <= job.created_at && (other.state is Resolving || fetching_or_ready(
                    other.state,
                )))
            }
        },
{
    lemma_first_job_satisfies(jobs, job, true, 0);
    lemma_first_job_satisfies(jobs, job, false, 0);
}

} // verus!
