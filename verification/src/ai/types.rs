//! Records of the inference plane: nodes, GPUs, rollout state and the
//! request bodies of the AI API. Timestamps are Unix seconds.
use vstd::prelude::*;

use crate::text::owned;

verus! {

pub fn default_vllm() -> (r: String)
    ensures
        r@ == "vllm"@,
{
    owned("vllm")
}

pub fn default_openai() -> (r: String)
    ensures
        r@ == "openai"@,
{
    owned("openai")
}

pub fn default_port() -> (r: u16)
    ensures
        r == 8000,
{
    8000
}

pub fn default_one_u32() -> (r: u32)
    ensures
        r == 1,
{
    1
}

pub fn default_true() -> (r: bool)
    ensures
        r,
{
    true
}

pub fn default_gpus_per_replica() -> (r: u32)
    ensures
        r == 1,
{
    1
}

pub fn default_routing_strategy() -> (r: RoutingStrategy)
    ensures
        r == RoutingStrategy::LeastQueue,
{
    RoutingStrategy::LeastQueue
}

pub fn default_scale_out_queue() -> (r: u32)
    ensures
        r == 20,
{
    20
}

pub fn default_scale_out_secs() -> (r: u64)
    ensures
        r == 30,
{
    30
}

pub fn default_scale_in_queue() -> (r: u32)
    ensures
        r == 2,
{
    2
}

pub fn default_scale_in_secs() -> (r: u64)
    ensures
        r == 600,
{
    600
}

pub fn default_max_replicas() -> (r: u32)
    ensures
        r == 4,
{
    4
}

pub fn default_drain_grace() -> (r: u64)
    ensures
        r == 30,
{
    30
}

pub fn default_nvidia() -> (r: String)
    ensures
        r@ == "nvidia"@,
{
    owned("nvidia")
}

/// How AI backend health maps into Maglev weights.
#[derive(Debug, Clone, Copy, PartialEq, Eq, Structural)]
pub enum RoutingStrategy {
    /// Equal weight.
    Equal,
    /// Prefer backends with shorter waiting queues (the default).
    LeastQueue,
    /// Prefer backends with lower observed time to first token.
    LowestTtft,
    /// Prefer backends with more free GPU / KV-cache headroom.
    MostFreeVram,
    /// Blend of queue depth and free VRAM.
    WeightedCapacity,
    /// Prefer replicas whose site matches the endpoint's preferred site.
    SiteLocal,
    /// Prefer lower-cost backends.
    CostOptimized,
    /// Prefer backends with lower cache pressure.
    EnergyOptimized,
}

impl Default for RoutingStrategy {
    fn default() -> (r: Self)
        ensures
            r == RoutingStrategy::LeastQueue,
    {
        RoutingStrategy::LeastQueue
    }
}

/// Queue-driven replica autoscaling. The TTFT threshold is a floating
/// point figure and is held by the caller.
#[derive(Debug, Clone, Copy)]
pub struct AutoscalingPolicy {
    pub enabled: bool,
    pub min_replicas: u32,
    pub max_replicas: u32,
    /// Allow desired replicas to reach 0 when idle.
    pub scale_to_zero: bool,
    pub scale_out_queue: u32,
    pub scale_out_seconds: u64,
    pub scale_in_queue: u32,
    pub scale_in_seconds: u64,
    /// Keep one warm standby replica beyond desired.
    pub warm_standby: bool,
}

impl Default for AutoscalingPolicy {
    fn default() -> (r: Self)
        ensures
            r == (AutoscalingPolicy {
                enabled: false,
                min_replicas: 1,
                max_replicas: 4,
                scale_to_zero: false,
                scale_out_queue: 20,
                scale_out_seconds: 30,
                scale_in_queue: 2,
                scale_in_seconds: 600,
                warm_standby: false,
            }),
    {
        AutoscalingPolicy {
            enabled: false,
            min_replicas: 1,
            max_replicas: 4,
            scale_to_zero: false,
            scale_out_queue: 20,
            scale_out_seconds: 30,
            scale_in_queue: 2,
            scale_in_seconds: 600,
            warm_standby: false,
        }
    }
}

/// Rollout mode for model / runtime upgrades.
#[derive(Debug, Clone, Copy, PartialEq, Eq, Structural)]
pub enum RolloutStrategy {
    Rolling,
    Canary,
    BlueGreen,
}

impl Default for RolloutStrategy {
    fn default() -> (r: Self)
        ensures
            r == RolloutStrategy::Rolling,
    {
        RolloutStrategy::Rolling
    }
}

/// How a deployment is being rolled to a new revision; the error-rate and
/// TTFT rollback thresholds are held by the caller.
#[derive(Debug, Clone)]
pub struct RolloutSpec {
    pub strategy: RolloutStrategy,
    /// Canary traffic percent (1 to 50) for a canary rollout, else 0.
    pub canary_percent: u8,
    /// The model rolled to, when it changes.
    pub target_model: Option<String>,
}

#[derive(Debug, Clone)]
pub struct DrainRequest {
    /// Replica VM name to drain; `None` drains all backends.
    pub replica: Option<String>,
    /// Drain grace period in seconds.
    pub grace_seconds: u64,
}

#[derive(Debug, Clone, Copy, PartialEq, Eq, Structural)]
pub enum RevisionState {
    Pending,
    Provisioning,
    Testing,
    Active,
    Superseded,
    RollingBack,
    Failed,
}

impl Default for RevisionState {
    fn default() -> (r: Self)
        ensures
            r == RevisionState::Pending,
    {
        RevisionState::Pending
    }
}

#[derive(Debug, Clone, Copy, PartialEq, Eq)]
pub struct CanaryStep {
    pub weight: u8,
    pub duration_secs: u64,
}

#[derive(Debug, Clone, Copy, PartialEq, Eq, Structural)]
pub enum RolloutPhase {
    Progressing,
    Paused,
    Succeeded,
    RollingBack,
    Failed,
}

impl Default for RolloutPhase {
    fn default() -> (r: Self)
        ensures
            r == RolloutPhase::Progressing,
    {
        RolloutPhase::Progressing
    }
}

/// The integer figures of a replica's last metrics scrape that placement
/// and admission read; `scraped_at` is Unix seconds.
#[derive(Debug, Clone)]
pub struct ReplicaMetrics {
    pub queue_depth: u32,
    pub active_requests: u32,
    pub scraped_at: Option<i64>,
    pub source: Option<String>,
}

/// One inference VM of a deployment revision. `created_at` is Unix seconds.
#[derive(Debug, Clone)]
pub struct InferenceReplica {
    pub replica_id: String,
    pub ordinal: u32,
    pub vm_name: String,
    pub bdf: String,
    pub ready: bool,
    pub address: Option<String>,
    pub metrics: Option<ReplicaMetrics>,
    /// Last Maglev weight applied (1..=32).
    pub maglev_weight: Option<u16>,
    pub site: Option<String>,
    /// Relative cost tier; lower is cheaper.
    pub cost_tier: Option<u8>,
    pub draining: bool,
    /// Consecutive failed health probes.
    pub unhealthy_streak: u32,
    pub deployment: String,
    pub revision: u64,
    pub model_digest: String,
    pub profile_digest: String,
    pub host: String,
    pub generation: u64,
    /// pending, provisioning, ready, draining, failed, superseded.
    pub lifecycle: String,
    /// healthy, unhealthy, unknown.
    pub health: String,
    pub created_at: Option<i64>,
}

/// The text of an optional string.
pub open spec fn opt_str(o: Option<String>) -> Option<Seq<char>> {
    match o {
        Some(s) => Some(s@),
        None => None,
    }
}

/// Two metrics records that read the same.
pub open spec fn same_metrics(a: Option<ReplicaMetrics>, b: Option<ReplicaMetrics>) -> bool {
    match (a, b) {
        (Some(x), Some(y)) => x.queue_depth == y.queue_depth && x.active_requests == y.active_requests
            && x.scraped_at == y.scraped_at && opt_str(x.source) == opt_str(y.source),
        (None, None) => true,
        _ => false,
    }
}

/// Two replica records that read the same, field for field.
pub open spec fn same_replica(a: InferenceReplica, b: InferenceReplica) -> bool {
    &&& a.replica_id@ == b.replica_id@ && a.ordinal == b.ordinal
    &&& a.vm_name@ == b.vm_name@ && a.bdf@ == b.bdf@ && a.ready == b.ready
    &&& opt_str(a.address) == opt_str(b.address) && same_metrics(a.metrics, b.metrics)
    &&& a.maglev_weight == b.maglev_weight && opt_str(a.site) == opt_str(b.site)
    &&& a.cost_tier == b.cost_tier && a.draining == b.draining && a.unhealthy_streak == b.unhealthy_streak
    &&& a.deployment@ == b.deployment@ && a.revision == b.revision
    &&& a.model_digest@ == b.model_digest@ && a.profile_digest@ == b.profile_digest@
    &&& a.host@ == b.host@ && a.generation == b.generation
    &&& a.lifecycle@ == b.lifecycle@ && a.health@ == b.health@ && a.created_at == b.created_at
}

fn copy_opt(o: &Option<String>) -> (r: Option<String>)
    ensures
        opt_str(r) == opt_str(*o),
{
    match o {
        Some(s) => Some(owned(s.as_str())),
        None => None,
    }
}

/// A copy of a replica record.
pub fn copy_replica(r: &InferenceReplica) -> (c: InferenceReplica)
    ensures
        same_replica(*r, c),
{
    let metrics = match &r.metrics {
        Some(m) => Some(
            ReplicaMetrics {
                queue_depth: m.queue_depth,
                active_requests: m.active_requests,
                scraped_at: m.scraped_at,
                source: copy_opt(&m.source),
            },
        ),
        None => None,
    };
    InferenceReplica {
        replica_id: owned(r.replica_id.as_str()),
        ordinal: r.ordinal,
        vm_name: owned(r.vm_name.as_str()),
        bdf: owned(r.bdf.as_str()),
        ready: r.ready,
        address: copy_opt(&r.address),
        metrics,
        maglev_weight: r.maglev_weight,
        site: copy_opt(&r.site),
        cost_tier: r.cost_tier,
        draining: r.draining,
        unhealthy_streak: r.unhealthy_streak,
        deployment: owned(r.deployment.as_str()),
        revision: r.revision,
        model_digest: owned(r.model_digest.as_str()),
        profile_digest: owned(r.profile_digest.as_str()),
        host: owned(r.host.as_str()),
        generation: r.generation,
        lifecycle: owned(r.lifecycle.as_str()),
        health: owned(r.health.as_str()),
        created_at: r.created_at,
    }
}

/// An immutable record of what one revision of a deployment runs.
/// `created_at` is Unix seconds.
#[derive(Debug, Clone)]
pub struct InferenceDeploymentRevision {
    pub id: String,
    pub deployment: String,
    pub revision: u64,
    pub model: String,
    pub model_digest: String,
    pub profile: String,
    pub runtime_config_digest: String,
    pub desired_replicas: u32,
    pub created_at: i64,
    pub state: RevisionState,
}

/// The replicas of one revision of a deployment.
#[derive(Debug, Clone)]
pub struct InferenceReplicaSet {
    pub id: String,
    pub deployment: String,
    pub revision: u64,
    pub desired: u32,
    pub ready: u32,
    pub replicas: Vec<InferenceReplica>,
}

/// A stored rollout from one revision to the next. Times are Unix seconds;
/// the error-rate and TTFT rollback thresholds are held by the caller.
#[derive(Debug, Clone)]
pub struct RolloutRun {
    pub id: String,
    pub deployment: String,
    pub strategy: RolloutStrategy,
    pub from_revision: u64,
    pub to_revision: u64,
    pub max_surge: u32,
    pub max_unavailable: u32,
    pub min_ready_secs: u64,
    pub phase: RolloutPhase,
    pub step_index: u32,
    pub steps: Vec<CanaryStep>,
    pub rollback_window_secs: u64,
    /// When the current canary step started; kept across restarts.
    pub step_started_unix: i64,
    pub promoted_at: Option<i64>,
    pub message: Option<String>,
    pub created_at: i64,
    pub updated_at: i64,
}

/// The stable entry point of a deployment. `created` and `updated` are
/// Unix seconds.
#[derive(Debug, Clone)]
pub struct InferenceEndpoint {
    pub name: String,
    pub deployment: String,
    pub protocol: String,
    pub port: u16,
    /// Maglev service id assigned after upsert.
    pub service_id: Option<u32>,
    pub vip: Option<String>,
    pub routing_strategy: RoutingStrategy,
    pub tenant: Option<String>,
    /// Preferred site for site-local routing.
    pub preferred_site: Option<String>,
    /// Approved failover sites.
    pub allowed_sites: Vec<String>,
    /// Data-residency tag; backends outside it are excluded.
    pub residency: Option<String>,
    /// `Deleting` while Maglev removal is in progress; empty means active.
    pub phase: String,
    pub created: i64,
    pub updated: i64,
}

#[derive(Debug, Clone)]
pub struct CreateRevisionRequest {
    pub model: Option<String>,
    pub profile: Option<String>,
}

#[derive(Debug, Clone, Copy, PartialEq, Eq, Structural)]
pub enum ModelJobState {
    Registered,
    Resolving,
    Downloading,
    Verifying,
    Scanning,
    Optimizing,
    Ready,
    Failed,
}

/// A background model materialization. Times are Unix seconds.
#[derive(Debug, Clone)]
pub struct ModelJob {
    pub id: String,
    pub model: String,
    pub source: String,
    pub revision: Option<String>,
    pub checksum: Option<String>,
    pub state: ModelJobState,
    pub digest: Option<String>,
    pub message: Option<String>,
    pub retries: u32,
    pub bytes_written: u64,
    pub joined_job: Option<String>,
    pub local_path: Option<String>,
    pub optimize: Option<String>,
    pub derived_digest: Option<String>,
    pub created_at: i64,
    pub updated_at: i64,
}

/// A Fabric host that can run an inference VM. Heartbeats expire.
#[derive(Debug, Clone, Copy, PartialEq, Eq, Structural)]
pub enum NodeState {
    Joining,
    Ready,
    Draining,
    Maintenance,
    Offline,
}

#[derive(Debug, Clone)]
pub struct NodeGpu {
    pub bdf: String,
    pub vendor: String,
    pub vram_gib: u32,
    pub model: String,
    /// Unhealthy devices are quarantined and not scheduled.
    pub healthy: bool,
    /// Empty means a full GPU. A non-empty value is the MIG slice.
    pub mig_profile: String,
    /// For a MIG slice, the device it was cut from.
    pub parent_bdf: String,
    pub nvlink: bool,
    pub temperature_c: u32,
    pub power_watts: u32,
    pub ecc_errors: u64,
}

#[derive(Debug, Clone)]
pub struct InferenceNode {
    pub id: String,
    pub site: String,
    pub failure_domain: String,
    pub state: NodeState,
    /// Unix seconds. `0` means the declared state is used as-is.
    pub heartbeat_unix: i64,
    pub gpus: Vec<NodeGpu>,
    pub taints: Vec<String>,
    /// `0` means the node did not report a CPU remainder.
    pub cpu_free: u32,
    pub memory_gib_free: u32,
    pub cached_models: Vec<String>,
}

#[derive(Debug, Clone)]
pub struct CreateNodeRequest {
    pub id: String,
    pub site: String,
    pub failure_domain: String,
    pub gpus: Vec<NodeGpu>,
    pub taints: Vec<String>,
    pub cpu_free: u32,
    pub memory_gib_free: u32,
    pub cached_models: Vec<String>,
}

/// Per-endpoint API key. The secret is kept only as its HMAC-SHA256 hex;
/// `created` and `last_used` are Unix seconds.
#[derive(Debug, Clone)]
pub struct InferenceApiKey {
    pub id: String,
    pub name: String,
    pub endpoint: String,
    pub model: Option<String>,
    pub tenant: Option<String>,
    pub secret_hash: String,
    pub prefix: String,
    pub request_quota: Option<u64>,
    pub tokens_per_minute: Option<u64>,
    pub max_concurrent: Option<u32>,
    pub requests_used: u64,
    pub tokens_used_window: u64,
    pub window_started_unix: i64,
    pub inflight: u32,
    pub created: i64,
    pub last_used: Option<i64>,
}

#[derive(Debug, Clone)]
pub struct CreateApiKeyRequest {
    pub name: String,
    pub endpoint: String,
    pub model: Option<String>,
    pub tenant: Option<String>,
    pub request_quota: Option<u64>,
    pub tokens_per_minute: Option<u64>,
    pub max_concurrent: Option<u32>,
}

/// A registered model weight blob: a Hugging Face URI or a local path.
/// `created` and `updated` are Unix seconds.
#[derive(Debug, Clone)]
pub struct ModelArtifact {
    pub name: String,
    /// Source URI, e.g. `hf://org/model` or a local absolute path.
    pub source: String,
    pub revision: Option<String>,
    pub checksum: Option<String>,
    /// Weight format hint (`safetensors`, `gguf`, ...).
    pub format: String,
    pub size_bytes: Option<u64>,
    pub tenant: Option<String>,
    /// Host path once materialized.
    pub local_path: Option<String>,
    pub license: Option<String>,
    /// Required data-residency region or site tag.
    pub residency: Option<String>,
    /// Creation fails when the checksum cannot be verified.
    pub require_checksum: bool,
    pub created: i64,
    pub updated: i64,
}

/// Hardware and runtime shape of an inference replica. `created` and
/// `updated` are Unix seconds.
#[derive(Debug, Clone)]
pub struct InferenceProfile {
    pub name: String,
    pub runtime: String,
    pub gpu: GpuRequirements,
    pub cpu: u32,
    pub memory_gib: u32,
    pub allowed_hosts: Vec<String>,
    pub max_egress_mbps: Option<u32>,
    pub tenant: Option<String>,
    pub created: i64,
    pub updated: i64,
}

#[derive(Debug, Clone)]
pub struct CreateInferenceDeploymentRequest {
    pub name: String,
    pub model: String,
    pub profile: String,
    pub replicas: u32,
    pub tenant: Option<String>,
    pub autoscaling: Option<AutoscalingPolicy>,
    pub preferred_site: Option<String>,
    pub residency: Option<String>,
    pub allowed_sites: Vec<String>,
    pub failover_sites: Vec<String>,
    pub minimum_sites: u32,
    pub max_replicas_per_site: u32,
}

#[derive(Debug, Clone)]
pub struct PatchAutoscalingRequest {
    pub autoscaling: AutoscalingPolicy,
}

#[derive(Debug, Clone)]
pub struct CreateModelArtifactRequest {
    pub name: String,
    pub source: String,
    pub revision: Option<String>,
    pub checksum: Option<String>,
    pub format: String,
    pub size_bytes: Option<u64>,
    pub tenant: Option<String>,
    pub license: Option<String>,
    pub residency: Option<String>,
    pub require_checksum: bool,
}

#[derive(Debug, Clone)]
pub struct GpuRequirements {
    /// GPU vendor filter.
    pub vendor: String,
    pub count: u32,
    pub minimum_vram_gib: u32,
}

#[derive(Debug, Clone)]
pub struct CreateInferenceProfileRequest {
    pub name: String,
    pub runtime: String,
    pub gpu: GpuRequirements,
    pub cpu: u32,
    pub memory_gib: u32,
    pub allowed_hosts: Vec<String>,
    pub max_egress_mbps: Option<u32>,
    pub tenant: Option<String>,
}

#[derive(Debug, Clone)]
pub struct ScaleInferenceDeploymentRequest {
    pub replicas: u32,
}

#[derive(Debug, Clone)]
pub struct CreateInferenceEndpointRequest {
    pub name: String,
    pub deployment: String,
    pub protocol: String,
    pub port: u16,
    pub vip: Option<String>,
    pub routing_strategy: RoutingStrategy,
    pub tenant: Option<String>,
    pub preferred_site: Option<String>,
    pub allowed_sites: Vec<String>,
    pub residency: Option<String>,
}

#[derive(Debug, Clone)]
pub struct GpuAllocation {
    pub deployment: String,
    pub tenant: Option<String>,
    pub vm_name: String,
}

#[derive(Debug, Clone)]
pub struct TenantQuery {
    pub tenant: Option<String>,
}

/// The observed side of a deployment.
#[derive(Debug, Clone)]
pub struct InferenceDeploymentStatus {
    pub phase: String,
    pub replicas: Vec<InferenceReplica>,
    pub message: Option<String>,
}

/// A model and profile run as `replicas` inference VMs. `created` and
/// `updated` are Unix seconds; a rollout's error-rate and TTFT thresholds
/// are held by the caller.
#[derive(Debug, Clone)]
pub struct InferenceDeployment {
    pub name: String,
    pub model: String,
    pub profile: String,
    pub replicas: u32,
    /// Copied from the profile at create and scale, for quota accounting.
    pub gpus_per_replica: u32,
    pub tenant: Option<String>,
    pub autoscaling: AutoscalingPolicy,
    pub rollout: Option<RolloutSpec>,
    pub revision: u64,
    pub preferred_site: Option<String>,
    /// Never placed outside this residency tag.
    pub residency: Option<String>,
    /// Empty means every site that matches the residency.
    pub allowed_sites: Vec<String>,
    pub failover_sites: Vec<String>,
    pub minimum_sites: u32,
    /// `0` means no per-site cap.
    pub max_replicas_per_site: u32,
    pub status: InferenceDeploymentStatus,
    pub created: i64,
    pub updated: i64,
}

/// What listing a key shows: everything but the secret's hash.
#[derive(Debug, Clone)]
pub struct InferenceApiKeyView {
    pub id: String,
    pub name: String,
    pub endpoint: String,
    pub model: Option<String>,
    pub tenant: Option<String>,
    pub prefix: String,
    pub request_quota: Option<u64>,
    pub tokens_per_minute: Option<u64>,
    pub max_concurrent: Option<u32>,
    pub requests_used: u64,
    pub created: i64,
    pub last_used: Option<i64>,
}

/// A created key and its plaintext secret, shown once.
#[derive(Debug, Clone)]
pub struct CreateApiKeyResponse {
    pub key: InferenceApiKeyView,
    pub secret: String,
}

} // verus!
