use zyvor_fabricd::ai::endpoints::new_endpoint;
use zyvor_fabricd::ai::models::new_model_artifact;
use zyvor_fabricd::ai::profiles::{check_profile_delete, check_profile_request, new_profile};
use zyvor_fabricd::ai::limits::RateCounter;
use zyvor_fabricd::ai::raft::{apply_admit, apply_audit_link, apply_release, LeaseResponse};
use zyvor_fabricd::ai::autoscaling::apply_scale;
use zyvor_fabricd::ai::deployments::{new_deployment, patch_autoscaling, scale_deployment};
use zyvor_fabricd::ai::gateway::{gateway_admit, GatewayTarget};
use zyvor_fabricd::ai::keys::hash_secret;
use zyvor_fabricd::ai::model_jobs::{cache_referenced, is_local_node, next_action, uncache, JobAction};
use zyvor_fabricd::ai::pci_mig::{destroy_argv, slice_parent};
use zyvor_fabricd::ai::reconcile::{
    mark_probed, reconcile_step, replica_image, replica_vm_spec, replicas_to_create, scale_down,
    vllm_systemd_unit, ReconcileAction, ReconcileOutcome, ReconcileStage,
};
use zyvor_fabricd::ai::types::{
    AutoscalingPolicy, CreateInferenceDeploymentRequest, InferenceApiKey, InferenceDeployment,
    InferenceDeploymentStatus, InferenceReplica, ModelJobState,
};
use zyvor_fabricd::auth::UserRole;
use zyvor_fabricd::capabilities::{probe_vm_dataplane, DataplaneProbe, SubsystemPhase};
use zyvor_fabricd::container_declarative::{
    check_containers, ContainerGroupSpec, ContainerSpec, PlacementSpec, ResourceSpec,
};
use zyvor_fabricd::external_auth::{
    accepted_issuers, id_token_alg_supported, code_verifier_from, generate_code_verifier, oidc_login_decision, oidc_state_gate, Provisioning,
};
use zyvor_fabricd::images::{cloud_image_plan, image_dest_path};

const PREVIEW_KEY: &str = "fabric-ai-preview-hmac";

fn rep(vm: &str, host: &str) -> InferenceReplica {
    InferenceReplica {
        replica_id: String::new(),
        ordinal: 0,
        vm_name: vm.into(),
        bdf: String::new(),
        ready: true,
        address: None,
        metrics: None,
        maglev_weight: None,
        site: None,
        cost_tier: None,
        draining: false,
        unhealthy_streak: 0,
        deployment: String::new(),
        revision: 0,
        model_digest: String::new(),
        profile_digest: String::new(),
        host: host.into(),
        generation: 0,
        lifecycle: String::new(),
        health: String::new(),
        created_at: None,
    }
}

fn deployment(model: &str, replicas: Vec<InferenceReplica>) -> InferenceDeployment {
    InferenceDeployment {
        name: "d".into(),
        model: model.into(),
        profile: "p".into(),
        replicas: 2,
        gpus_per_replica: 1,
        tenant: None,
        autoscaling: AutoscalingPolicy::default(),
        rollout: None,
        revision: 3,
        preferred_site: None,
        residency: None,
        allowed_sites: vec![],
        failover_sites: vec![],
        minimum_sites: 0,
        max_replicas_per_site: 0,
        status: InferenceDeploymentStatus { phase: "Ready".into(), replicas, message: None },
        created: 0,
        updated: 0,
    }
}

#[test]
fn dataplane_probe_lines() {
    let s = probe_vm_dataplane(&DataplaneProbe::DriverUnreachable);
    assert_eq!(s.phase, SubsystemPhase::Unreachable);
    let s = probe_vm_dataplane(&DataplaneProbe::Status {
        vm: "vm1".into(),
        mode: "LEGACY".into(),
        attached: true,
        schema_version: Some(4),
    });
    assert_eq!(s.phase, SubsystemPhase::Off);
    let s = probe_vm_dataplane(&DataplaneProbe::Status {
        vm: "vm1".into(),
        mode: "eBPF".into(),
        attached: true,
        schema_version: Some(3),
    });
    assert_eq!(s.phase, SubsystemPhase::Live);
    assert_eq!(
        s.detail.as_deref(),
        Some("mode=ebpf · attached · schema=3 · upgrade FluxVM for schema v4 groups/CNP")
    );
    let s = probe_vm_dataplane(&DataplaneProbe::Status {
        vm: "vm1".into(),
        mode: "cilium".into(),
        attached: false,
        schema_version: None,
    });
    assert_eq!(
        s.detail.as_deref(),
        Some("mode=cilium · API live · not attached on sample VM 'vm1' (need TAP/netns + BPF object)")
    );
    let s = probe_vm_dataplane(&DataplaneProbe::Failed { vm: "vm1".into(), error: "boom".into() });
    assert_eq!(s.detail.as_deref(), Some("Dataplane probe failed on 'vm1': boom"));
}

#[test]
fn node_cache_in_use_and_dropped() {
    let deps = vec![deployment("llama", vec![rep("a", "")]), deployment("mistral", vec![rep("b", "gpu-1")])];
    assert!(cache_referenced(&deps, "llama", "local"));
    assert!(!cache_referenced(&deps, "llama", "gpu-1"));
    assert!(cache_referenced(&deps, "mistral", "gpu-1"));
    assert!(is_local_node("local", None));
    assert!(is_local_node("n7", Some("n7")));
    assert!(!is_local_node("n7", Some("n8")));
    let mut cached = vec!["a".to_string(), "m".to_string(), "b".to_string(), "m".to_string()];
    uncache(&mut cached, "m");
    assert_eq!(cached, vec!["a".to_string(), "b".to_string()]);
}

#[test]
fn autoscaler_steps() {
    let mut dep = deployment("m", vec![]);
    assert!(!apply_scale(&mut dep, 2, "queue", false, None, 5));
    assert!(!apply_scale(&mut dep, 1, "idle", true, None, 5));
    assert_eq!(
        dep.status.message.as_deref(),
        Some("autoscaler skipped scale-in: replica metrics missing or stale")
    );
    assert!(!apply_scale(&mut dep, 3, "queue", false, Some("gpu quota"), 6));
    assert_eq!(dep.status.message.as_deref(), Some("autoscaler skipped scale-out: gpu quota"));
    assert_eq!(dep.replicas, 2);
    assert!(apply_scale(&mut dep, 3, "queue high", false, None, 7));
    assert_eq!(dep.replicas, 3);
    assert_eq!(dep.revision, 4);
    assert_eq!(dep.status.phase, "Scaling");
    assert_eq!(dep.status.message.as_deref(), Some("autoscaler queue high → 3"));
}

#[test]
fn verifier_spells_its_draws() {
    let draws: Vec<usize> = (0..64).map(|i| i % 66).collect();
    let v = code_verifier_from(&draws);
    assert_eq!(v, "ABCDEFGHIJKLMNOPQRSTUVWXYZabcdefghijklmnopqrstuvwxyz0123456789-.");
    assert_eq!(code_verifier_from(&[65; 64]), "~".repeat(64));
    let a = generate_code_verifier();
    let b = generate_code_verifier();
    assert_eq!(a.len(), 64);
    assert_ne!(a, b);
}

#[test]
fn oidc_gates_and_identity() {
    assert_eq!(oidc_state_gate(601, true, true), Err((400, "State parameter expired".to_string())));
    assert_eq!(oidc_state_gate(10, false, true), Err((400, "Provider is not OIDC".to_string())));
    assert_eq!(oidc_state_gate(10, true, false), Err((403, "Auth provider is disabled".to_string())));
    assert_eq!(oidc_state_gate(600, true, true), Ok(()));
    let mapping = vec![("ops".to_string(), "Admin".to_string()), ("dev".to_string(), "user".to_string())];
    assert_eq!(
        oidc_login_decision(None, "email", false, None, &mapping, "viewer", Provisioning::NotManaged),
        Err((502, "ID token missing 'email' claim".to_string()))
    );
    assert_eq!(
        oidc_login_decision(Some("a@x"), "email", true, Some("ops"), &mapping, "viewer", Provisioning::NotManaged),
        Ok(("a@x".to_string(), UserRole::Admin))
    );
    assert_eq!(
        oidc_login_decision(Some("a@x"), "email", true, None, &mapping, "user", Provisioning::NotManaged),
        Ok(("a@x".to_string(), UserRole::User))
    );
    assert_eq!(
        oidc_login_decision(Some("a@x"), "email", false, Some("ops"), &mapping, "viewer", Provisioning::NotManaged),
        Ok(("a@x".to_string(), UserRole::Viewer))
    );
    assert_eq!(
        oidc_login_decision(Some("a@x"), "email", true, Some("ops"), &mapping, "viewer", Provisioning::Allow(UserRole::User)),
        Ok(("a@x".to_string(), UserRole::User))
    );
    assert_eq!(
        oidc_login_decision(Some("a@x"), "email", true, Some("ops"), &mapping, "viewer", Provisioning::Deny("suspended".into())),
        Err((403, "suspended".to_string()))
    );
}

#[test]
fn cloud_image_download_plan() {
    assert_eq!(
        cloud_image_plan("debian-12", None),
        Ok("https://cloud.debian.org/images/cloud/bookworm/latest/debian-12-generic-amd64.qcow2".to_string())
    );
    assert_eq!(cloud_image_plan("x", Some("https://e/x.raw")), Ok("https://e/x.raw".to_string()));
    assert_eq!(
        cloud_image_plan("nope", None),
        Err((404, "Cloud image 'nope' not found in catalog".to_string()))
    );
    let allowed = vec!["qcow2".to_string(), "raw".to_string(), "img".to_string()];
    assert_eq!(image_dest_path("https://e/a.raw?x=1", "a", &allowed), "/var/lib/zyvor-fabricd/images/a.raw");
    assert_eq!(image_dest_path("https://e/a.iso", "a", &allowed), "/var/lib/zyvor-fabricd/images/a.qcow2");
    assert_eq!(image_dest_path("noext", "a", &allowed), "/var/lib/zyvor-fabricd/images/a.qcow2");
}

fn container(name: &str, image: &str, cpus: u32) -> ContainerSpec {
    ContainerSpec {
        name: name.into(),
        image: image.into(),
        command: vec![],
        args: vec![],
        env: vec![],
        resources: ResourceSpec { cpus, memory: "512Mi".into() },
        volume_mounts: vec![],
    }
}

#[test]
fn container_checks_and_totals() {
    assert_eq!(check_containers(&[container("a", "img", 2)]), Ok(()));
    assert_eq!(
        check_containers(&[container("a", "img", 2), container("", "img", 2)]),
        Err("each container needs a non-empty name and image".to_string())
    );
    assert_eq!(
        check_containers(&[container("a", "img", 0)]),
        Err("container 'a': cpus must be between 1 and 1024".to_string())
    );
    let spec = ContainerGroupSpec {
        name: "g".into(),
        containers: vec![container("a", "i", 2), container("b", "i", 3)],
        replicas: 3,
        placement: PlacementSpec { node_hint: None, auto_reschedule: false },
        restart_policy: "Always".into(),
        tags: vec![],
        tenant: None,
        image_pull_secrets: vec![],
    };
    assert_eq!(spec.total_resources(&[Some(512), None]), (15, 1536));
    let mut zero = spec.clone();
    zero.replicas = 0;
    assert_eq!(zero.total_resources(&[Some(u64::MAX), Some(1)]), (5, u64::MAX));
}

#[test]
fn job_actions_by_state() {
    assert_eq!(next_action(ModelJobState::Registered), JobAction::Resolve);
    assert_eq!(next_action(ModelJobState::Downloading), JobAction::Download);
    assert_eq!(next_action(ModelJobState::Scanning), JobAction::Scan);
    assert_eq!(next_action(ModelJobState::Ready), JobAction::Idle);
    assert_eq!(next_action(ModelJobState::Failed), JobAction::Idle);
}

fn api_key(secret: &str, endpoint: &str, model: Option<&str>, quota: Option<u64>) -> InferenceApiKey {
    InferenceApiKey {
        id: "aik_1".into(),
        name: "n".into(),
        endpoint: endpoint.into(),
        model: model.map(str::to_string),
        tenant: None,
        secret_hash: hash_secret(PREVIEW_KEY, secret),
        prefix: secret[..8].into(),
        request_quota: quota,
        tokens_per_minute: None,
        max_concurrent: None,
        requests_used: 5,
        tokens_used_window: 0,
        window_started_unix: 0,
        inflight: 0,
        created: 0,
        last_used: None,
    }
}

#[test]
fn gateway_gates_in_order() {
    let s = "fvai_0123456789abcdef";
    let ok = GatewayTarget::Found("llama".into());
    let bearer = format!("Bearer {s}");
    assert_eq!(
        gateway_admit(None, vec![], PREVIEW_KEY, "ep", &ok).unwrap_err().0,
        401
    );
    assert_eq!(
        gateway_admit(Some("Bearer fvai_nope_nope"), vec![api_key(s, "ep", None, None)], PREVIEW_KEY, "ep", &ok).map(|k| k.id),
        Err((401, "invalid API key".to_string()))
    );
    assert_eq!(
        gateway_admit(Some(&bearer), vec![api_key(s, "other", None, None)], PREVIEW_KEY, "ep", &GatewayTarget::NoEndpoint).map(|k| k.id),
        Err((403, "API key is not scoped to endpoint 'ep'".to_string()))
    );
    assert_eq!(
        gateway_admit(Some(&bearer), vec![api_key(s, "ep", None, Some(5))], PREVIEW_KEY, "ep", &ok).unwrap_err().0,
        429
    );
    assert_eq!(
        gateway_admit(Some(&bearer), vec![api_key(s, "ep", None, None)], PREVIEW_KEY, "ep", &GatewayTarget::NoEndpoint).map(|k| k.id),
        Err((404, "InferenceEndpoint 'ep' not found".to_string()))
    );
    assert_eq!(
        gateway_admit(Some(&bearer), vec![api_key(s, "ep", None, None)], PREVIEW_KEY, "ep", &GatewayTarget::NoDeployment("d".into())).map(|k| k.id),
        Err((502, "deployment 'd' not found".to_string()))
    );
    assert_eq!(
        gateway_admit(Some(&bearer), vec![api_key(s, "ep", Some("mistral"), None)], PREVIEW_KEY, "ep", &ok).map(|k| k.id),
        Err((403, "API key is scoped to model 'mistral'".to_string()))
    );
    assert_eq!(
        gateway_admit(Some(&bearer), vec![api_key(s, "ep", Some("llama"), None)], PREVIEW_KEY, "ep", &ok).map(|k| k.id),
        Ok("aik_1".to_string())
    );
}

#[test]
fn hashes_are_lower_hex() {
    let h = hash_secret(PREVIEW_KEY, "abc");
    assert_eq!(h.len(), 64);
    assert!(h.chars().all(|c| c.is_ascii_digit() || ('a'..='f').contains(&c)));
}

#[test]
fn reconcile_scale_plan() {
    let mut reps = vec![rep("a", ""), rep("b", ""), rep("c", "")];
    let victims = scale_down(&mut reps, 1);
    let names: Vec<&str> = victims.iter().map(|r| r.vm_name.as_str()).collect();
    assert_eq!(names, vec!["c", "b"]);
    assert_eq!(reps.len(), 1);
    assert!(scale_down(&mut reps, 4).is_empty());
    assert_eq!(replicas_to_create(1, 4), 3);
    assert_eq!(replicas_to_create(5, 4), 0);
}

#[test]
fn deployment_records() {
    let req = CreateInferenceDeploymentRequest {
        name: "d".into(),
        model: "m".into(),
        profile: "p".into(),
        replicas: 2,
        tenant: None,
        autoscaling: None,
        preferred_site: None,
        residency: None,
        allowed_sites: vec![],
        failover_sites: vec![],
        minimum_sites: 0,
        max_replicas_per_site: 0,
    };
    let dep = new_deployment(req, 0, Some("eu".into()), 42);
    assert_eq!(dep.gpus_per_replica, 1);
    assert_eq!(dep.revision, 1);
    assert_eq!(dep.residency.as_deref(), Some("eu"));
    assert_eq!(dep.status.phase, "Pending");
    assert_eq!(dep.status.message.as_deref(), Some("reconcile enqueued"));
    assert_eq!(dep.autoscaling.max_replicas, 4);
    assert_eq!(dep.created, 42);

    let mut dep = deployment("m", vec![]);
    assert_eq!(
        scale_deployment(&mut dep, 0, None, 1),
        Err((400, "replicas must be greater than 0 (enable autoscaling.scale_to_zero or DELETE)".to_string()))
    );
    assert_eq!(scale_deployment(&mut dep, 5, Some("over quota"), 1), Err((403, "over quota".to_string())));
    assert_eq!(scale_deployment(&mut dep, 5, None, 1), Ok(()));
    assert_eq!(dep.status.message.as_deref(), Some("scaling to 5 replicas"));
    assert_eq!(dep.revision, 4);
    let mut bad = AutoscalingPolicy::default();
    bad.max_replicas = 0;
    assert_eq!(patch_autoscaling(&mut dep, bad, 2), Err("max_replicas must be >= min_replicas".to_string()));
    let mut good = AutoscalingPolicy::default();
    good.enabled = true;
    assert_eq!(patch_autoscaling(&mut dep, good, 2), Ok(()));
    assert!(dep.autoscaling.enabled);
    assert_eq!(dep.revision, 5);
}

#[test]
fn destroying_a_slice_addresses_its_parent() {
    let s = zyvor_fabricd::ai::gpu_orch::slice_bdf("0000:01:00.0", "1g.10gb", 3);
    assert_eq!(slice_parent(&s), "0000:01:00.0");
    assert_eq!(destroy_argv(&s), vec!["mig", "-i", "0000:01:00.0", "-dci", "-dgi"]);
}

#[test]
fn replicated_admissions() {
    let mut counters: Vec<RateCounter> = vec![];
    match apply_admit(&mut counters, "key:a", 100, 5, 2, 0, 1) {
        LeaseResponse::Admitted { stream_id } => assert_eq!(stream_id.as_deref(), Some("key:a")),
        other => panic!("unexpected {other:?}"),
    }
    assert_eq!(counters.len(), 1);
    assert_eq!((counters[0].requests, counters[0].tokens, counters[0].window_started_unix), (1, 5, 100));
    match apply_admit(&mut counters, "key:a", 110, 1, 2, 0, 0) {
        LeaseResponse::Admitted { stream_id } => assert_eq!(stream_id, None),
        other => panic!("unexpected {other:?}"),
    }
    match apply_admit(&mut counters, "key:a", 120, 1, 2, 0, 0) {
        LeaseResponse::Rejected { message } => {
            assert_eq!(message, "rate limit exceeded for key:a (2 requests/minute)")
        }
        other => panic!("unexpected {other:?}"),
    }
    assert_eq!(counters[0].requests, 2);
    let mut tip = String::new();
    let t = apply_audit_link(&mut tip, "line");
    assert_eq!(t, tip);
    assert_eq!(t, zyvor_fabricd::ai::chain_hash("", "line"));
}

#[test]
fn catalog_records() {
    use_catalog_records();
}

fn use_catalog_records() {
    let req = zyvor_fabricd::ai::types::CreateInferenceProfileRequest {
        name: "a100".into(),
        runtime: "vllm".into(),
        gpu: zyvor_fabricd::ai::types::GpuRequirements { vendor: "nvidia".into(), count: 1, minimum_vram_gib: 40 },
        cpu: 8,
        memory_gib: 64,
        allowed_hosts: vec![],
        max_egress_mbps: None,
        tenant: None,
    };
    assert_eq!(check_profile_request("vllm", " ", 1, 1), Err("gpu.vendor is required".to_string()));
    assert_eq!(check_profile_request("tgi", "nvidia", 1, 1), Err("runtime must be 'vllm' (MVP)".to_string()));
    assert_eq!(
        check_profile_request("vllm", "nvidia", 0, 1),
        Err("cpu and memory_gib must be greater than 0".to_string())
    );
    assert_eq!(check_profile_request("vllm", "nvidia", 8, 64), Ok(()));
    let p = new_profile(req, 9);
    assert_eq!((p.name.as_str(), p.cpu, p.created, p.updated), ("a100", 8, 9, 9));
    let deps = vec![deployment("m", vec![])];
    assert_eq!(
        check_profile_delete(&deps, "p"),
        Err((409, "InferenceProfile 'p' is referenced by an InferenceDeployment".to_string()))
    );
    assert_eq!(check_profile_delete(&deps, "other"), Ok(()));

    let mreq = zyvor_fabricd::ai::types::CreateModelArtifactRequest {
        name: "llama".into(),
        source: "hf://org/llama".into(),
        revision: None,
        checksum: Some("aa".into()),
        format: "safetensors".into(),
        size_bytes: None,
        tenant: None,
        license: None,
        residency: None,
        require_checksum: false,
    };
    let m = new_model_artifact(mreq.clone(), Some("/x".into()), Some("bb".into()), 3);
    assert_eq!(m.checksum.as_deref(), Some("bb"));
    assert_eq!(m.local_path.as_deref(), Some("/x"));
    let m = new_model_artifact(mreq, None, None, 3);
    assert_eq!(m.checksum.as_deref(), Some("aa"));

    let ereq = zyvor_fabricd::ai::types::CreateInferenceEndpointRequest {
        name: "ep".into(),
        deployment: "d".into(),
        protocol: "openai".into(),
        port: 8000,
        vip: None,
        routing_strategy: zyvor_fabricd::ai::types::RoutingStrategy::LeastQueue,
        tenant: None,
        preferred_site: None,
        allowed_sites: vec![],
        residency: Some("eu".into()),
    };
    let e = new_endpoint(ereq, Some("site-1".into()), Some("us".into()), 4);
    assert_eq!(e.preferred_site.as_deref(), Some("site-1"));
    assert_eq!(e.residency.as_deref(), Some("eu"));
    assert_eq!(e.service_id, None);
    assert!(e.phase.is_empty());
}

#[test]
fn a_second_admit_is_rejected_and_release_drops_the_inflight_slot() {
    let mut counters: Vec<RateCounter> = vec![];
    let first = apply_admit(&mut counters, "endpoint:qwen", 1_000, 4, 1, 10, 1);
    assert!(matches!(first, LeaseResponse::Admitted { stream_id: Some(ref s) } if s == "endpoint:qwen"));
    let second = apply_admit(&mut counters, "endpoint:qwen", 1_001, 4, 1, 10, 1);
    assert!(matches!(second, LeaseResponse::Rejected { .. }));
    assert_eq!(counters[0].inflight, 1);
    let released = apply_release(&mut counters, "endpoint:qwen");
    assert!(matches!(released, LeaseResponse::Released));
    assert_eq!(counters[0].inflight, 0);
}

#[test]
fn the_stream_cap_holds_until_a_release() {
    let mut counters: Vec<RateCounter> = vec![];
    assert!(matches!(apply_admit(&mut counters, "e", 0, 1, 0, 0, 1), LeaseResponse::Admitted { .. }));
    match apply_admit(&mut counters, "e", 1, 1, 0, 0, 1) {
        LeaseResponse::Rejected { message } => {
            assert_eq!(message, "stream limit exceeded for e (1 concurrent streams)")
        }
        other => panic!("unexpected {other:?}"),
    }
    assert_eq!(counters[0].requests, 1);
    apply_release(&mut counters, "e");
    assert!(matches!(apply_admit(&mut counters, "e", 2, 1, 0, 0, 1), LeaseResponse::Admitted { .. }));
    assert!(matches!(apply_release(&mut counters, "unknown"), LeaseResponse::Released));
}

#[test]
fn a_reconcile_pass_runs_in_order() {
    assert_eq!(reconcile_step(ReconcileStage::ScaleDown, ReconcileOutcome::Start, 3, 1, false), (ReconcileStage::ScaleDown, ReconcileAction::RemoveLast));
    assert_eq!(reconcile_step(ReconcileStage::ScaleDown, ReconcileOutcome::RemoveFailed, 2, 1, false), (ReconcileStage::Listing, ReconcileAction::ListVms));
    assert_eq!(reconcile_step(ReconcileStage::ScaleDown, ReconcileOutcome::Removed, 1, 1, false), (ReconcileStage::Listing, ReconcileAction::ListVms));
    assert_eq!(reconcile_step(ReconcileStage::ScaleDown, ReconcileOutcome::Start, 0, 2, true), (ReconcileStage::ScaleUp, ReconcileAction::CreateReplica(0)));
    assert_eq!(reconcile_step(ReconcileStage::Listing, ReconcileOutcome::Listed, 1, 2, false), (ReconcileStage::ScaleUp, ReconcileAction::CreateReplica(1)));
    assert_eq!(reconcile_step(ReconcileStage::ScaleUp, ReconcileOutcome::CreateFailed, 1, 2, false), (ReconcileStage::Done, ReconcileAction::Abort));
    assert_eq!(reconcile_step(ReconcileStage::ScaleUp, ReconcileOutcome::Created, 2, 2, false), (ReconcileStage::Probing, ReconcileAction::ProbeReplicas));
    assert_eq!(reconcile_step(ReconcileStage::ScaleUp, ReconcileOutcome::Created, 2, 2, true), (ReconcileStage::Done, ReconcileAction::Finish));
    assert_eq!(reconcile_step(ReconcileStage::Probing, ReconcileOutcome::Probed, 2, 2, false), (ReconcileStage::Done, ReconcileAction::Finish));
}

#[test]
fn probes_make_addressed_replicas_ready() {
    let mut a = rep("a", "");
    a.ready = false;
    a.address = Some("10.0.0.1".into());
    let mut b = rep("b", "");
    b.ready = false;
    let mut c = a.clone();
    c.vm_name = "c".into();
    let mut reps = vec![a, b, c];
    mark_probed(&mut reps, &[true, true, false]);
    assert_eq!(reps.iter().map(|r| r.ready).collect::<Vec<_>>(), vec![true, false, false]);
}

#[test]
fn replica_vm_records() {
    assert_eq!(replica_image(None, "/var/lib/images//"), "/var/lib/images/ai-vllm-cuda.qcow2");
    assert_eq!(replica_image(Some("/x.qcow2"), "/y"), "/x.qcow2");
    let vm = replica_vm_spec("chat-0", "chat", Some("acme"), 8, 64, "/img".into(), "/srv/models/llama", "0000:3b:00.0");
    assert_eq!(vm.memory_mib, 65536);
    assert_eq!(vm.disk_gib, 40);
    assert_eq!(vm.hostname, "chat-0");
    assert_eq!(vm.tags, vec!["ai".to_string(), "inference".to_string()]);
    assert_eq!(
        vm.labels,
        vec![
            ("role".to_string(), "ai-inference".to_string()),
            ("deployment".to_string(), "chat".to_string()),
            ("tenant".to_string(), "acme".to_string())
        ]
    );
    assert_eq!(vm.model_mount, "/models");
    assert_eq!(vm.vfio_devices, vec!["0000:3b:00.0".to_string()]);
    assert_eq!(vm.write_files[0].1, vllm_systemd_unit("/models"));
    assert_eq!(vm.runcmd[1], "systemctl enable --now vllm.service");
    let no_tenant = replica_vm_spec("chat-1", "chat", None, 8, 64, "/img".into(), "/m", "b");
    assert_eq!(no_tenant.labels.len(), 2);
}

#[test]
fn id_token_issuer_forms_and_algorithms() {
    assert_eq!(
        accepted_issuers("https://idp.example.com//"),
        ("https://idp.example.com".to_string(), "https://idp.example.com/".to_string())
    );
    assert_eq!(
        accepted_issuers("https://idp.example.com"),
        ("https://idp.example.com".to_string(), "https://idp.example.com/".to_string())
    );
    assert!(id_token_alg_supported("RS384"));
    assert!(!id_token_alg_supported("HS256"));
}
