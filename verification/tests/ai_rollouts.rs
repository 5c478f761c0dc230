use zyvor_fabricd::ai::rollouts::{drain_deployment, rollout_deployment};
use zyvor_fabricd::ai::types::{
    AutoscalingPolicy, InferenceDeployment, InferenceDeploymentStatus, InferenceReplica,
    RolloutStrategy,
};

fn rep(vm: &str, address: Option<&str>) -> InferenceReplica {
    InferenceReplica {
        replica_id: String::new(),
        ordinal: 0,
        vm_name: vm.into(),
        bdf: "0000:01:00.0".into(),
        ready: true,
        address: address.map(str::to_string),
        metrics: None,
        maglev_weight: Some(16),
        site: None,
        cost_tier: None,
        draining: false,
        unhealthy_streak: 0,
        deployment: "d".into(),
        revision: 1,
        model_digest: String::new(),
        profile_digest: String::new(),
        host: String::new(),
        generation: 0,
        lifecycle: String::new(),
        health: String::new(),
        created_at: None,
    }
}

fn deployment(replicas: Vec<InferenceReplica>) -> InferenceDeployment {
    InferenceDeployment {
        name: "d".into(),
        model: "m".into(),
        profile: "p".into(),
        replicas: replicas.len() as u32,
        gpus_per_replica: 1,
        tenant: None,
        autoscaling: AutoscalingPolicy::default(),
        rollout: None,
        revision: 4,
        preferred_site: None,
        residency: None,
        allowed_sites: vec![],
        failover_sites: vec![],
        minimum_sites: 0,
        max_replicas_per_site: 0,
        status: InferenceDeploymentStatus {
            phase: "Ready".into(),
            replicas,
            message: None,
        },
        created: 0,
        updated: 0,
    }
}

#[test]
fn draining_one_replica_by_name() {
    let mut dep = deployment(vec![rep("d-0", Some("10.0.0.1")), rep("d-1", Some("10.0.0.2"))]);
    let addrs = drain_deployment(&mut dep, Some("d-1"), 77).unwrap();
    assert_eq!(addrs, vec!["10.0.0.2".to_string()]);
    assert!(!dep.status.replicas[0].draining);
    assert_eq!(dep.status.replicas[0].maglev_weight, Some(16));
    assert!(dep.status.replicas[1].draining);
    assert_eq!(dep.status.replicas[1].maglev_weight, Some(1));
    assert_eq!(dep.status.phase, "Draining");
    assert_eq!(dep.status.message.as_deref(), Some("draining 1 replica(s)"));
    assert_eq!(dep.revision, 5);
    assert_eq!(dep.updated, 77);
}

#[test]
fn draining_everything_skips_missing_addresses() {
    let mut dep = deployment(vec![rep("d-0", Some("10.0.0.1")), rep("d-1", None)]);
    let addrs = drain_deployment(&mut dep, None, 1).unwrap();
    assert_eq!(addrs, vec!["10.0.0.1".to_string()]);
    assert!(dep.status.replicas.iter().all(|r| r.draining));
    assert_eq!(dep.status.message.as_deref(), Some("draining 2 replica(s)"));
}

#[test]
fn draining_an_unknown_replica_is_refused() {
    let mut dep = deployment(vec![rep("d-0", Some("10.0.0.1"))]);
    let r = drain_deployment(&mut dep, Some("d-9"), 1);
    assert_eq!(r, Err("replica 'd-9' not found".to_string()));
    assert_eq!(dep.status.phase, "Ready");
    assert_eq!(dep.revision, 4);
}

#[test]
fn canary_rollout_weights_its_share() {
    let reps: Vec<InferenceReplica> = (0..10).map(|i| rep(&format!("d-{i}"), None)).collect();
    let mut dep = deployment(reps);
    rollout_deployment(&mut dep, RolloutStrategy::Canary, 20, None, true, false, 9).unwrap();
    let weights: Vec<Option<u16>> = dep.status.replicas.iter().map(|r| r.maglev_weight).collect();
    assert_eq!(weights[..2], [Some(32), Some(32)]);
    assert!(weights[2..].iter().all(|w| *w == Some(1)));
    assert_eq!(dep.status.phase, "Canary");
    assert_eq!(dep.status.message.as_deref(), Some("canary 20% traffic on new revision"));
    let spec = dep.rollout.as_ref().unwrap();
    assert_eq!(spec.canary_percent, 20);
    assert_eq!(spec.strategy, RolloutStrategy::Canary);
    assert_eq!(dep.revision, 5);
}

#[test]
fn canary_share_is_clamped_and_at_least_one_replica() {
    let mut dep = deployment(vec![rep("d-0", None), rep("d-1", None), rep("d-2", None)]);
    rollout_deployment(&mut dep, RolloutStrategy::Canary, 0, None, true, false, 9).unwrap();
    assert_eq!(dep.rollout.as_ref().unwrap().canary_percent, 1);
    assert_eq!(dep.status.replicas[0].maglev_weight, Some(32));
    assert_eq!(dep.status.replicas[1].maglev_weight, Some(1));
    let mut dep = deployment(vec![rep("d-0", None)]);
    rollout_deployment(&mut dep, RolloutStrategy::Canary, 90, None, true, false, 9).unwrap();
    assert_eq!(dep.rollout.as_ref().unwrap().canary_percent, 50);
}

#[test]
fn blue_green_drains_blue_and_doubles_the_fleet() {
    let mut dep = deployment(vec![rep("d-0", None), rep("d-1", None)]);
    rollout_deployment(&mut dep, RolloutStrategy::BlueGreen, 30, Some("m2".into()), true, false, 9)
        .unwrap();
    assert!(dep.status.replicas.iter().all(|r| r.draining && r.maglev_weight == Some(1)));
    assert_eq!(dep.replicas, 4);
    assert_eq!(dep.model, "m2");
    assert_eq!(dep.rollout.as_ref().unwrap().canary_percent, 0);
    assert_eq!(dep.rollout.as_ref().unwrap().target_model.as_deref(), Some("m2"));
    assert_eq!(dep.status.phase, "BlueGreen");
    let mut empty = deployment(vec![]);
    empty.replicas = 0;
    rollout_deployment(&mut empty, RolloutStrategy::BlueGreen, 0, None, true, false, 9).unwrap();
    assert_eq!(empty.replicas, 1);
}

#[test]
fn rolling_only_records_the_rollout() {
    let mut dep = deployment(vec![rep("d-0", None)]);
    rollout_deployment(&mut dep, RolloutStrategy::Rolling, 30, None, true, false, 9).unwrap();
    assert_eq!(dep.status.replicas[0].maglev_weight, Some(16));
    assert_eq!(dep.status.phase, "Rolling");
    assert_eq!(dep.status.message.as_deref(), Some("rolling update enqueued"));
}

#[test]
fn rollout_refusals() {
    let mut dep = deployment(vec![rep("d-0", None)]);
    let r = rollout_deployment(&mut dep, RolloutStrategy::Rolling, 0, Some("nope".into()), false, false, 9);
    assert_eq!(r, Err((400, "target model 'nope' not found".to_string())));
    assert_eq!(dep.status.phase, "Ready");
    let r = rollout_deployment(&mut dep, RolloutStrategy::Rolling, 0, None, true, true, 9);
    assert_eq!(
        r,
        Err((409, "rollout aborted: live metrics exceed rollback thresholds".to_string()))
    );
    assert_eq!(dep.status.phase, "Rollback");
    assert_eq!(
        dep.status.message.as_deref(),
        Some("rollout aborted: error/TTFT threshold exceeded")
    );
    assert_eq!(dep.revision, 4);
    assert!(dep.rollout.is_none());
}
