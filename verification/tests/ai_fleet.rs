use zyvor_fabricd::ai::capacity::{capacity_counts, CapacityCounts};
use zyvor_fabricd::ai::nodes::{heartbeat, node_from_request};
use zyvor_fabricd::ai::scheduler::effective_state;
use zyvor_fabricd::ai::types::{
    AutoscalingPolicy, CreateNodeRequest, InferenceDeployment, InferenceDeploymentStatus,
    InferenceReplica, NodeState,
};

fn rep(bdf: &str, ready: bool) -> InferenceReplica {
    InferenceReplica {
        replica_id: String::new(),
        ordinal: 0,
        vm_name: "vm".into(),
        bdf: bdf.into(),
        ready,
        address: None,
        metrics: None,
        maglev_weight: None,
        site: None,
        cost_tier: None,
        draining: false,
        unhealthy_streak: 0,
        deployment: String::new(),
        revision: 0,
        model_digest: String::new(),
        profile_digest: String::new(),
        host: String::new(),
        generation: 0,
        lifecycle: String::new(),
        health: String::new(),
        created_at: None,
    }
}

fn deployment(replicas: u32, status: Vec<InferenceReplica>) -> InferenceDeployment {
    InferenceDeployment {
        name: "d".into(),
        model: "m".into(),
        profile: "p".into(),
        replicas,
        gpus_per_replica: 1,
        tenant: None,
        autoscaling: AutoscalingPolicy::default(),
        rollout: None,
        revision: 1,
        preferred_site: None,
        residency: None,
        allowed_sites: vec![],
        failover_sites: vec![],
        minimum_sites: 0,
        max_replicas_per_site: 0,
        status: InferenceDeploymentStatus {
            phase: "Ready".into(),
            replicas: status,
            message: None,
        },
        created: 0,
        updated: 0,
    }
}

#[test]
fn capacity_counts_real_devices_and_ready_replicas() {
    let deps = vec![
        deployment(2, vec![rep("0000:01:00.0", true), rep("dry-run-1", true)]),
        deployment(3, vec![rep("", false), rep("0000:02:00.0", false)]),
    ];
    assert_eq!(
        capacity_counts(&deps, 4),
        CapacityCounts {
            total_gpus: 4,
            allocated: 2,
            free: 2,
            desired_replicas: 5,
            ready_replicas: 2,
        }
    );
    let c = capacity_counts(&deps, 1);
    assert_eq!(c.free, 0);
    let big = vec![deployment(u32::MAX, vec![]), deployment(7, vec![])];
    assert_eq!(capacity_counts(&big, 0).desired_replicas, u32::MAX);
}

#[test]
fn registration_and_heartbeat() {
    let req = CreateNodeRequest {
        id: "n1".into(),
        site: "pune".into(),
        failure_domain: "rack1".into(),
        gpus: vec![],
        taints: vec![],
        cpu_free: 8,
        memory_gib_free: 32,
        cached_models: vec!["qwen".into()],
    };
    let mut node = node_from_request(req, 100);
    assert_eq!(node.state, NodeState::Ready);
    assert_eq!(node.heartbeat_unix, 100);
    node.state = NodeState::Offline;
    let node = heartbeat(node, 500);
    assert_eq!((node.state, node.heartbeat_unix), (NodeState::Ready, 500));
    assert_eq!(effective_state(&node, 500), NodeState::Ready);
    let mut draining = node.clone();
    draining.state = NodeState::Draining;
    assert_eq!(heartbeat(draining, 600).state, NodeState::Draining);
}
