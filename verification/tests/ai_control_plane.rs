use zyvor_fabricd::ai::deployments::{
    check_autoscaling, check_create_replicas, check_scale_replicas, check_tenants, scaling_message,
    tenant_visible,
};
use zyvor_fabricd::ai::endpoints::check_endpoint_request;
use zyvor_fabricd::ai::gateway::{
    consume_request_unit, dry_run_reply, extract_bearer, key_gate, model_gate, resolve_upstream,
    upstream_path, would_reject_quota, DryRunReply,
};
use zyvor_fabricd::ai::models::{check_model_request, fetch_outcome, FetchOutcome};
use zyvor_fabricd::ai::raft::{
    counter_home, may_place, parse_peer_spec, peers_configured, quorum_committed,
    replicated_audit_tip, CounterHome,
};
use zyvor_fabricd::ai::reconcile::{
    deployment_status, dry_run_enabled, is_bound_bdf, keep_live, replica_vm_name, vllm_systemd_unit,
};
use zyvor_fabricd::ai::types::{AutoscalingPolicy, InferenceApiKey, InferenceReplica};

fn key() -> InferenceApiKey {
    InferenceApiKey {
        id: "aik_1".into(),
        name: "n".into(),
        endpoint: "ep".into(),
        model: Some("qwen".into()),
        tenant: None,
        secret_hash: "h".into(),
        prefix: "fvai_abc".into(),
        request_quota: Some(1),
        tokens_per_minute: None,
        max_concurrent: None,
        requests_used: 0,
        tokens_used_window: 0,
        window_started_unix: 0,
        inflight: 0,
        created: 0,
        last_used: None,
    }
}

fn rep(vm: &str, ready: bool, address: Option<&str>) -> InferenceReplica {
    InferenceReplica {
        replica_id: String::new(),
        ordinal: 0,
        vm_name: vm.into(),
        bdf: "0000:01:00.0".into(),
        ready,
        address: address.map(str::to_string),
        metrics: None,
        maglev_weight: None,
        site: None,
        cost_tier: None,
        draining: false,
        unhealthy_streak: 0,
        deployment: "d".into(),
        revision: 1,
        model_digest: String::new(),
        profile_digest: String::new(),
        host: String::new(),
        generation: 1,
        lifecycle: String::new(),
        health: String::new(),
        created_at: None,
    }
}

#[test]
fn quota_gate() {
    let k = key();
    assert!(key_gate(&k, "ep").is_ok());
    assert_eq!(
        key_gate(&k, "other").unwrap_err(),
        (403, "API key is not scoped to endpoint 'other'".to_string())
    );
    let used = consume_request_unit(k, 77);
    assert_eq!((used.requests_used, used.last_used), (1, Some(77)));
    assert!(would_reject_quota(&used));
    assert_eq!(
        key_gate(&used, "ep").unwrap_err(),
        (429, "API key request quota exceeded".to_string())
    );
    assert!(model_gate(&used, "qwen").is_ok());
    assert_eq!(
        model_gate(&used, "llama").unwrap_err(),
        (403, "API key is scoped to model 'qwen'".to_string())
    );
}

#[test]
fn bearer_tokens_paths_and_upstreams() {
    assert_eq!(extract_bearer(Some("Bearer  fvai_x ")).as_deref(), Some("fvai_x"));
    assert_eq!(extract_bearer(Some("bearer fvai_y")).as_deref(), Some("fvai_y"));
    assert_eq!(extract_bearer(Some("Basic abc")), None);
    assert_eq!(extract_bearer(Some("Bearer   ")), None);
    assert_eq!(extract_bearer(None), None);
    assert_eq!(upstream_path(""), "/v1/models");
    assert_eq!(upstream_path("v1/chat/completions"), "/v1/chat/completions");
    assert_eq!(upstream_path("/v1/models"), "/v1/models");
    let reps = vec![rep("a", false, Some("10.0.0.1")), rep("b", true, Some("10.0.0.2"))];
    assert_eq!(resolve_upstream(Some("10.96.0.5"), 8000, &reps).as_deref(), Some("10.96.0.5:8000"));
    assert_eq!(resolve_upstream(None, 8000, &reps).as_deref(), Some("10.0.0.2:8000"));
    assert_eq!(resolve_upstream(None, 8000, &[rep("c", true, None)]), None);
    assert_eq!(dry_run_reply(false, "/v1/chat/completions"), DryRunReply::ChatCompletion);
    assert_eq!(dry_run_reply(true, "/v1/completions"), DryRunReply::ChatCompletion);
    assert_eq!(dry_run_reply(false, "/v1/models"), DryRunReply::ModelList);
    assert_eq!(dry_run_reply(false, "/v1/embeddings"), DryRunReply::Echo);
}

#[test]
fn deployment_requests() {
    assert!(check_create_replicas(0, true).is_ok());
    assert_eq!(
        check_create_replicas(0, false).unwrap_err(),
        "replicas must be greater than 0 (or enable autoscaling.scale_to_zero)"
    );
    assert!(check_scale_replicas(0, false).is_err());
    assert!(check_tenants(None, &Some("x".into()), &None).is_ok());
    assert_eq!(
        check_tenants(Some("acme"), &Some("other".into()), &None).unwrap_err(),
        "model tenant does not match deployment tenant"
    );
    assert_eq!(
        check_tenants(Some("acme"), &None, &Some("other".into())).unwrap_err(),
        "profile tenant does not match deployment tenant"
    );
    assert!(check_tenants(Some("acme"), &Some("acme".into()), &None).is_ok());
    let mut p = AutoscalingPolicy::default();
    p.min_replicas = 3;
    p.max_replicas = 2;
    assert_eq!(check_autoscaling(&p).unwrap_err(), "max_replicas must be >= min_replicas");
    p.scale_to_zero = true;
    assert!(check_autoscaling(&p).is_ok());
    assert!(tenant_visible(None, &Some("x".into())));
    assert!(!tenant_visible(Some("acme"), &None));
    assert_eq!(scaling_message(3), "scaling to 3 replicas");
}

#[test]
fn endpoint_and_model_requests() {
    assert!(check_endpoint_request("openai", 8000, None, &None).is_ok());
    assert_eq!(
        check_endpoint_request("grpc", 8000, None, &None).unwrap_err(),
        (400, "protocol must be 'openai' (MVP)".to_string())
    );
    assert_eq!(
        check_endpoint_request("openai", 0, None, &None).unwrap_err(),
        (400, "port must be non-zero".to_string())
    );
    assert_eq!(
        check_endpoint_request("openai", 8000, Some("acme"), &None).unwrap_err(),
        (403, "endpoint tenant must match deployment tenant".to_string())
    );
    assert_eq!(check_model_request(" ", "gguf", false, None).unwrap_err(), "source is required");
    assert_eq!(check_model_request("hf://x", "", false, None).unwrap_err(), "format is required");
    assert_eq!(
        check_model_request("hf://x", "gguf", true, Some(" ")).unwrap_err(),
        "require_checksum is set but no checksum was provided"
    );
    assert!(check_model_request("hf://x", "gguf", true, Some("abc")).is_ok());
    assert_eq!(fetch_outcome(true, false, true, "hf://x"), FetchOutcome::Unverified);
    assert_eq!(fetch_outcome(true, false, false, "hf://x"), FetchOutcome::Keep);
    assert_eq!(fetch_outcome(false, false, false, "hf://x"), FetchOutcome::Defer);
    assert_eq!(fetch_outcome(false, false, false, "/models/x"), FetchOutcome::Refuse);
}

#[test]
fn peers_need_three_members_including_this_one() {
    let spec = parse_peer_spec(Some("1"), Some("1@a:1, 2@b:1,3@c:1,"), Some("tok")).unwrap();
    assert_eq!(spec.id, 1);
    assert_eq!(spec.peers.len(), 3);
    assert_eq!(spec.peers[1], (2, "b:1".to_string()));
    assert!(parse_peer_spec(Some("4"), Some("1@a,2@b,3@c"), Some("tok")).is_none());
    assert!(parse_peer_spec(Some("1"), Some("1@a,2@b"), Some("tok")).is_none());
    assert!(parse_peer_spec(Some("1"), Some("1@a,2@b,3@c"), Some("")).is_none());
    assert!(parse_peer_spec(Some("1"), Some("1@a,x@b,3@c"), Some("tok")).is_none());
    assert!(!peers_configured(None, Some("1@a,2@b,3@c"), Some("tok")));
    let spec2 = parse_peer_spec(Some("1"), Some("1@a,2@b,3@c,2@z"), Some("tok")).unwrap();
    assert_eq!(spec2.peers.len(), 3);
    assert_eq!(spec2.peers[1].1, "z");
    assert!(may_place(false, false));
    assert!(!may_place(true, false));
    assert!(matches!(counter_home(None, false, false, None), CounterHome::Local));
    assert!(matches!(counter_home(Some(&spec), true, true, None), CounterHome::Local));
    assert!(matches!(counter_home(Some(&spec), false, false, Some(2)), CounterHome::Unavailable));
    assert!(matches!(counter_home(Some(&spec), false, true, Some(3)), CounterHome::Leader(a) if a == "c:1"));
    assert!(matches!(counter_home(Some(&spec), false, true, Some(9)), CounterHome::Unavailable));
    assert!(quorum_committed(true, Some(1), 3));
    assert!(!quorum_committed(true, None, 3));
    assert!(!quorum_committed(true, Some(1), 2));
    assert_eq!(replicated_audit_tip(Some("")), None);
    assert_eq!(replicated_audit_tip(Some("abc")).as_deref(), Some("abc"));
}

#[test]
fn reconcile_pieces() {
    assert!(dry_run_enabled(Some("TRUE")));
    assert!(dry_run_enabled(Some("1")));
    assert!(!dry_run_enabled(Some("yes")));
    assert_eq!(replica_vm_name("llm", 2), "llm-2");
    assert!(is_bound_bdf("0000:01:00.0"));
    assert!(!is_bound_bdf("dry-run-0"));
    assert!(!is_bound_bdf(""));
    let reps = vec![rep("a", true, None), rep("b", true, Some("10.0.0.2")), rep("c", false, None)];
    let live = vec![("a".to_string(), Some("10.0.0.9".to_string())), ("b".to_string(), None)];
    let (kept, gone) = keep_live(reps, &live);
    assert_eq!(kept.len(), 2);
    assert_eq!(kept[0].address.as_deref(), Some("10.0.0.9"));
    assert_eq!(kept[1].address.as_deref(), Some("10.0.0.2"));
    assert_eq!(gone.len(), 1);
    assert_eq!(gone[0].vm_name, "c");
    assert_eq!(
        deployment_status(2, 2, false),
        ("Ready".to_string(), "2/2 replicas ready".to_string())
    );
    assert_eq!(
        deployment_status(1, 2, true),
        ("DryRun".to_string(), "1/2 replicas ready (FLUXVM_AI_DRY_RUN)".to_string())
    );
    assert_eq!(deployment_status(0, 0, false).0, "Pending");
    assert!(vllm_systemd_unit("/models/q").contains("ExecStart=/usr/local/bin/vllm serve /models/q --host 0.0.0.0 --port 8000"));
}
