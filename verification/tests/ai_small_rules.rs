use zyvor_fabricd::ai::gpu_orch::janus_mig_profile;
use zyvor_fabricd::ai::lifecycle::{migrate, objectives, recovery, ChaosEvent, Recovery};
use zyvor_fabricd::ai::limits::{admit_request, counter_id, RateCounter};
use zyvor_fabricd::ai::model_jobs::{
    admit_disk, derived_artifact_name, download_name, downloaded_path, find_join, finish_join,
    mark_ready, plan_optimization, record_download, record_scanned, record_step_failure,
    record_verified, replication_record, resolve_job, source_is_local, ResolveStep,
};
use zyvor_fabricd::ai::pci_mig::{
    create_argv, destroy_argv, is_pci_bdf, mig_failure_message, profile_gi_id,
};
use zyvor_fabricd::ai::policy::{allows, enforce, TenantAiPolicy};
use zyvor_fabricd::ai::runtime::require_supported;
use zyvor_fabricd::ai::types::{InferenceNode, ModelJob, ModelJobState, NodeState};
use zyvor_fabricd::ai::upstream::{
    backend_transport, upstream_origin, websocket_origin, BackendTransport,
};

#[test]
fn schema_one_migrates_and_unknown_versions_fail() {
    assert_eq!(migrate(1).unwrap(), 2);
    assert!(migrate(9).is_err());
    assert_eq!(migrate(9).unwrap_err(), "unsupported inference schema 9");
}

#[test]
fn crash_resumes_and_leader_loss_stays_degraded_without_quorum() {
    assert_eq!(recovery(ChaosEvent::FabricdCrash, false), Recovery::Resumes);
    assert_eq!(recovery(ChaosEvent::LeaderLoss, false), Recovery::Degraded);
    assert_eq!(recovery(ChaosEvent::LeaderLoss, true), Recovery::Resumes);
    assert_eq!(
        recovery(ChaosEvent::ModelCacheCorruption, false),
        Recovery::FailClosed
    );
    assert_eq!(objectives().rpo_secs, 0);
}

#[test]
fn maglev_failure_stays_degraded_even_with_quorum() {
    assert_eq!(recovery(ChaosEvent::MaglevFailure, true), Recovery::Degraded);
    assert_eq!(recovery(ChaosEvent::GatewayOverload, true), Recovery::FailClosed);
    assert_eq!(objectives().rto_secs, 120);
}

#[test]
fn window_resets_and_then_refuses_the_next_request() {
    let counter = RateCounter {
        id: "endpoint:qwen".into(),
        window_started_unix: 0,
        requests: 2,
        tokens: 0,
        inflight: 0,
    };
    let admitted = admit_request(counter, 61, 1, 2, 0).unwrap();
    assert_eq!(admitted.requests, 1);
    let again = admit_request(admitted.clone(), 61, 1, 2, 0).unwrap();
    assert!(admit_request(again, 61, 1, 2, 0).is_err());
}

#[test]
fn token_window_counts_the_request() {
    let counter = RateCounter {
        id: "model:qwen".into(),
        window_started_unix: 10,
        requests: 0,
        tokens: 8,
        inflight: 0,
    };
    assert!(admit_request(counter, 10, 4, 0, 10).is_err());
}

#[test]
fn rate_errors_name_the_counter_and_the_limit() {
    let counter = RateCounter {
        id: "endpoint:qwen".into(),
        window_started_unix: 10,
        requests: 2,
        tokens: 8,
        inflight: 0,
    };
    assert_eq!(
        admit_request(counter.clone(), 20, 1, 2, 0).unwrap_err(),
        "rate limit exceeded for endpoint:qwen (2 requests/minute)"
    );
    assert_eq!(
        admit_request(counter.clone(), 20, 3, 0, 10).unwrap_err(),
        "token limit exceeded for endpoint:qwen (10 tokens/minute)"
    );
    let ok = admit_request(counter, 20, 0, 0, 0).unwrap();
    assert_eq!((ok.requests, ok.tokens, ok.window_started_unix), (3, 9, 10));
    assert_eq!(counter_id("model", "org/name/v1"), "model:org_name_v1");
}

fn job(id: &str, digest: Option<&str>, state: ModelJobState) -> ModelJob {
    ModelJob {
        id: id.into(),
        model: "m".into(),
        source: "hf://org/model".into(),
        revision: Some("main".into()),
        checksum: digest.map(str::to_string),
        state,
        digest: digest.map(str::to_string),
        message: None,
        retries: 0,
        bytes_written: 0,
        joined_job: None,
        local_path: None,
        optimize: None,
        derived_digest: None,
        created_at: 0,
        updated_at: 0,
    }
}

#[test]
fn disk_admission_refuses_a_short_volume() {
    assert!(admit_disk(10, Some(11)).is_err());
    assert!(admit_disk(11, Some(11)).is_ok());
    assert!(admit_disk(0, None).is_ok());
    assert_eq!(
        admit_disk(10, Some(11)).unwrap_err(),
        "free disk 10 is below declared size 11"
    );
}

#[test]
fn second_job_joins_the_same_digest() {
    let first = job("a", Some("abc"), ModelJobState::Downloading);
    let second = job("b", Some("abc"), ModelJobState::Registered);
    let jobs = [first];
    let joined = find_join(&jobs, &second).unwrap();
    assert_eq!(joined.id, "a");
}

#[test]
fn a_failed_job_is_not_joined_and_a_job_never_joins_itself() {
    let failed = job("a", Some("abc"), ModelJobState::Failed);
    let me = job("b", Some("abc"), ModelJobState::Registered);
    assert!(find_join(&[failed], &me).is_none());
    assert!(find_join(&[me.clone()], &me).is_none());
    let mut earlier = job("c", None, ModelJobState::Resolving);
    earlier.checksum = None;
    let mut later = job("d", None, ModelJobState::Registered);
    later.created_at = 5;
    assert_eq!(find_join(&[earlier], &later).unwrap().id, "c");
}

#[test]
fn step_failures_retry_then_fail() {
    let mut j = job("a", None, ModelJobState::Downloading);
    record_step_failure(&mut j, "timeout".into());
    assert_eq!((j.retries, j.state), (1, ModelJobState::Registered));
    record_step_failure(&mut j, "timeout".into());
    record_step_failure(&mut j, "checksum".into());
    assert_eq!((j.retries, j.state), (3, ModelJobState::Failed));
    assert_eq!(j.message.as_deref(), Some("checksum"));
}

#[test]
fn download_names_and_local_sources() {
    assert_eq!(download_name(&job("a", Some("abc"), ModelJobState::Registered)), "abc");
    assert_eq!(download_name(&job("a", None, ModelJobState::Registered)), "partial-a");
    assert!(source_is_local(false, "file:///models/q"));
    assert!(source_is_local(false, "/models/q"));
    assert!(source_is_local(true, "hf://org/model"));
    assert!(!source_is_local(false, "hf://org/model"));
}

#[test]
fn replication_is_ready_only_where_a_node_caches_the_model() {
    let node = InferenceNode {
        id: "n1".into(),
        site: "pune-1".into(),
        failure_domain: "r1".into(),
        state: NodeState::Ready,
        heartbeat_unix: 0,
        gpus: vec![],
        taints: vec![],
        cpu_free: 0,
        memory_gib_free: 0,
        cached_models: vec!["qwen".into()],
    };
    let nodes = vec![node];
    let r = replication_record("qwen", "pune-1", Some("abc".into()), &nodes);
    assert_eq!((r.id.as_str(), r.state.as_str()), ("qwen--pune-1", "ready"));
    let r = replication_record("qwen", "frankfurt-1", None, &nodes);
    assert_eq!(r.state, "pending");
}

#[test]
fn pci_bdf_shape_and_create_argv() {
    assert!(is_pci_bdf("0000:01:00.0"));
    assert!(is_pci_bdf("01:00.0"));
    assert!(!is_pci_bdf("janus:node-0:gpu-0"));
    assert!(!is_pci_bdf("0000:01:00.0--1g.10gb--0"));
    let profile = janus_mig_profile("1g.10gb").unwrap();
    let argv = create_argv("0000:01:00.0", &profile).unwrap();
    assert_eq!(argv, vec!["mig", "-i", "0000:01:00.0", "-cgi", "19", "-C"]);
    assert_eq!(
        destroy_argv("0000:01:00.0--1g.10gb--0"),
        vec!["mig", "-i", "0000:01:00.0", "-dci", "-dgi"]
    );
}

#[test]
fn mig_profile_ids_and_failure_text() {
    assert_eq!(profile_gi_id("3g"), Some("9"));
    assert_eq!(profile_gi_id("7g.80gb"), Some("0"));
    assert_eq!(profile_gi_id("4g"), None);
    assert!(!is_pci_bdf("0000"));
    assert!(!is_pci_bdf("0000:01:00."));
    assert_eq!(
        mig_failure_message("  no such device\n", ""),
        "nvidia-smi mig failed: no such device"
    );
    assert_eq!(destroy_argv("0000:01:00.0")[2], "0000:01:00.0");
}

#[test]
fn policy_blocks_an_unlisted_model() {
    let policy = TenantAiPolicy {
        id: "acme".into(),
        allowed_models: vec!["qwen".into()],
        allowed_source_prefixes: vec!["hf://Qwen/".into()],
    };
    assert!(allows(&policy, "qwen", "hf://Qwen/Qwen3-8B"));
    assert!(!allows(&policy, "other", "hf://Qwen/Qwen3-8B"));
    assert!(!allows(&policy, "qwen", "hf://secret/weights"));
}

#[test]
fn enforce_only_applies_a_stored_policy() {
    let policy = TenantAiPolicy {
        id: "acme".into(),
        allowed_models: vec!["qwen".into()],
        allowed_source_prefixes: vec![],
    };
    assert!(enforce(None, Some(&policy), "other", "x").is_ok());
    assert!(enforce(Some(""), Some(&policy), "other", "x").is_ok());
    assert!(enforce(Some("acme"), None, "other", "x").is_ok());
    assert!(enforce(Some("acme"), Some(&policy), "qwen", "anything").is_ok());
    assert_eq!(
        enforce(Some("acme"), Some(&policy), "other", "x").unwrap_err(),
        "tenant 'acme' is not allowed to deploy model 'other'"
    );
}

#[test]
fn only_vllm_launches() {
    assert!(require_supported("vllm").is_ok());
    assert!(require_supported("VLLM").is_ok());
    assert!(require_supported("triton").is_err());
    assert!(require_supported("tensorrt-llm").is_err());
    assert!(require_supported("  vLLM ").is_ok());
    assert_eq!(
        require_supported("triton").unwrap_err(),
        "runtime 'triton' is not supported (preview implements vllm only)"
    );
}

#[test]
fn http_stays_the_default_and_mtls_needs_every_file() {
    assert_eq!(
        backend_transport(false, None, None, None).unwrap(),
        BackendTransport::Http
    );
    assert!(matches!(
        backend_transport(true, None, None, None).unwrap(),
        BackendTransport::Https
    ));
    let mtls = backend_transport(true, Some("c.pem"), Some("k.pem"), Some("ca.pem")).unwrap();
    assert!(matches!(mtls, BackendTransport::Mtls { .. }));
    assert!(backend_transport(true, Some("c.pem"), None, None).is_err());
    assert!(backend_transport(false, Some("c.pem"), Some("k.pem"), Some("ca.pem")).is_err());
    assert_eq!(
        upstream_origin(
            &BackendTransport::Http,
            "10.0.0.8:8000",
            "/v1/chat/completions"
        ),
        "http://10.0.0.8:8000/v1/chat/completions"
    );
    assert_eq!(
        websocket_origin(&BackendTransport::Http, "10.0.0.8:8000", "/v1/realtime"),
        "ws://10.0.0.8:8000/v1/realtime"
    );
    assert!(
        websocket_origin(&BackendTransport::Https, "10.0.0.8:8000", "/v1/realtime")
            .starts_with("wss://")
    );
    assert!(
        upstream_origin(&BackendTransport::Https, "10.0.0.8:8000", "/v1/models")
            .starts_with("https://")
    );
}

#[test]
fn mtls_keeps_trimmed_paths_and_blank_values_count_as_unset() {
    let mtls = backend_transport(true, Some(" c.pem "), Some("k.pem"), Some("ca.pem")).unwrap();
    assert_eq!(
        mtls,
        BackendTransport::Mtls {
            cert: "c.pem".into(),
            key: "k.pem".into(),
            ca: "ca.pem".into()
        }
    );
    assert_eq!(
        backend_transport(false, Some("  "), None, None).unwrap(),
        BackendTransport::Http
    );
    assert_eq!(
        backend_transport(false, Some("c.pem"), Some("k.pem"), Some("ca.pem")).unwrap_err(),
        "FLUXVM_AI_BACKEND_TLS=1 is required with backend client certificates"
    );
}

#[test]
fn resolving_joins_or_admits() {
    let ready = job("a", Some("abc"), ModelJobState::Ready);
    let mut mine = job("b", Some("abc"), ModelJobState::Registered);
    let step = resolve_job(&mut mine, &[ready], 0, Some(100)).unwrap();
    assert_eq!(step, ResolveStep::JoinedReady(0));
    assert_eq!(mine.joined_job.as_deref(), Some("a"));
    assert_eq!(mine.message.as_deref(), Some("joined a"));
    assert_eq!(mine.state, ModelJobState::Resolving);
    finish_join(&mut mine);
    assert_eq!(mine.state, ModelJobState::Ready);

    let fetching = job("a", Some("abc"), ModelJobState::Downloading);
    let mut mine = job("b", Some("abc"), ModelJobState::Registered);
    assert_eq!(resolve_job(&mut mine, &[fetching], 0, None).unwrap(), ResolveStep::Joined(0));

    let mut alone = job("c", Some("zzz"), ModelJobState::Registered);
    assert_eq!(
        resolve_job(&mut alone, &[], 10, Some(11)).unwrap_err(),
        "free disk 10 is below declared size 11"
    );
    assert_eq!(alone.state, ModelJobState::Resolving);
    assert_eq!(resolve_job(&mut alone, &[], 11, Some(11)).unwrap(), ResolveStep::Admitted);
    assert_eq!(alone.state, ModelJobState::Downloading);
}

#[test]
fn download_verify_scan_and_publish() {
    let mut j = job("a", None, ModelJobState::Downloading);
    record_download(&mut j, "/models/a".into(), 42, Some("d1".into()));
    assert_eq!((j.state, j.bytes_written), (ModelJobState::Verifying, 42));
    assert_eq!(j.digest.as_deref(), Some("d1"));
    let path = downloaded_path(&j.message).unwrap();
    assert_eq!(path, "/models/a");
    assert_eq!(downloaded_path(&None).unwrap_err(), "model job has no downloaded path");

    let blocked = vec!["x.pkl".to_string(), "y.bin".to_string()];
    let before = j.clone();
    assert_eq!(
        record_verified(&mut j, path.clone(), None, &blocked).unwrap_err(),
        "unsafe model file: x.pkl, y.bin"
    );
    assert_eq!(j.state, before.state);
    record_verified(&mut j, path, Some("d2".into()), &[]).unwrap();
    assert_eq!(j.state, ModelJobState::Scanning);
    assert_eq!(j.digest.as_deref(), Some("d2"));
    assert_eq!(j.local_path.as_deref(), Some("/models/a"));

    assert_eq!(
        record_scanned(&mut j, &["z.pt".to_string()], 1, 10, None, None).unwrap_err(),
        "unsafe model format: z.pt"
    );
    assert_eq!(
        record_scanned(&mut j, &[], 11, 10, None, None).unwrap_err(),
        "model has 11 files; limit is 10"
    );
    assert_eq!(
        record_scanned(&mut j, &[], 1, 10, Some("bad"), Some("key")).unwrap_err(),
        "model signature does not match the digest"
    );
    assert!(record_scanned(&mut j, &[], 1, 10, None, None).unwrap());
    j.optimize = Some("AWQ".into());
    assert!(!record_scanned(&mut j, &[], 1, 10, None, None).unwrap());
    assert_eq!(j.state, ModelJobState::Optimizing);

    let (kind, derived) = plan_optimization(&j).unwrap();
    assert_eq!(kind, "awq");
    assert_eq!(derived, zyvor_fabricd::ai::supply::derived_digest("d2", "awq"));
    assert_eq!(derived_artifact_name(&j.model, kind), "m--awq");
    mark_ready(&mut j, Some(derived.clone()));
    assert_eq!(j.state, ModelJobState::Ready);
    assert_eq!(j.message.as_deref(), Some("ready"));
    assert_eq!(j.derived_digest, Some(derived));

    let mut bare = job("b", None, ModelJobState::Optimizing);
    bare.optimize = Some("gguf".into());
    assert_eq!(plan_optimization(&bare).unwrap_err(), "optimization requires a source digest");
    bare.optimize = Some("pickle".into());
    assert_eq!(plan_optimization(&bare).unwrap_err(), "unsupported optimization 'pickle'");
}
