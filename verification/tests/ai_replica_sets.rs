use zyvor_fabricd::ai::reconcile::{
    allocated_bdfs, dry_run_replica, orphaned, placed_replica, replica_site,
};
use zyvor_fabricd::ai::revisions::{
    active_rollout, latest_rollout, list_revisions, seed_revision, sync_replica_sets,
};
use zyvor_fabricd::ai::types::{
    AutoscalingPolicy, CanaryStep, InferenceDeployment, InferenceDeploymentRevision,
    InferenceDeploymentStatus, InferenceReplica, InferenceReplicaSet, RevisionState, RolloutPhase,
    RolloutRun, RolloutStrategy,
};

fn rep(vm: &str, revision: u64, deployment: &str, ready: bool) -> InferenceReplica {
    InferenceReplica {
        replica_id: String::new(),
        ordinal: 0,
        vm_name: vm.into(),
        bdf: format!("bdf-{vm}"),
        ready,
        address: Some(format!("10.0.0.{}", vm.len())),
        metrics: None,
        maglev_weight: Some(7),
        site: Some("eu".into()),
        cost_tier: Some(2),
        draining: false,
        unhealthy_streak: 0,
        deployment: deployment.into(),
        revision,
        model_digest: "m".into(),
        profile_digest: "p".into(),
        host: "h".into(),
        generation: 3,
        lifecycle: "ready".into(),
        health: "healthy".into(),
        created_at: Some(5),
    }
}

fn deployment(revision: u64, replicas: Vec<InferenceReplica>) -> InferenceDeployment {
    InferenceDeployment {
        name: "chat".into(),
        model: "llama".into(),
        profile: "a100".into(),
        replicas: 2,
        gpus_per_replica: 1,
        tenant: None,
        autoscaling: AutoscalingPolicy::default(),
        rollout: None,
        revision,
        preferred_site: None,
        residency: None,
        allowed_sites: vec![],
        failover_sites: vec![],
        minimum_sites: 0,
        max_replicas_per_site: 0,
        status: InferenceDeploymentStatus {
            phase: "Ready".into(),
            replicas,
            message: None,
        },
        created: 100,
        updated: 100,
    }
}

fn run(deployment: &str, to: u64, phase: RolloutPhase, id: &str) -> RolloutRun {
    RolloutRun {
        id: id.into(),
        deployment: deployment.into(),
        strategy: RolloutStrategy::Rolling,
        from_revision: to - 1,
        to_revision: to,
        max_surge: 1,
        max_unavailable: 0,
        min_ready_secs: 0,
        phase,
        step_index: 0,
        steps: vec![CanaryStep {
            weight: 100,
            duration_secs: 0,
        }],
        rollback_window_secs: 0,
        step_started_unix: 0,
        promoted_at: None,
        message: None,
        created_at: 0,
        updated_at: 0,
    }
}

fn revision(deployment: &str, n: u64, id: &str) -> InferenceDeploymentRevision {
    InferenceDeploymentRevision {
        id: id.into(),
        deployment: deployment.into(),
        revision: n,
        model: "m".into(),
        model_digest: "d".into(),
        profile: "p".into(),
        runtime_config_digest: String::new(),
        desired_replicas: 1,
        created_at: 0,
        state: RevisionState::Active,
    }
}

#[test]
fn seed_revision_provisions_an_empty_set() {
    let dep = deployment(3, vec![]);
    let (rev, set) = seed_revision(&dep, "sha256:abc");
    assert_eq!(rev.id, "chat--3");
    assert_eq!(rev.deployment, "chat");
    assert_eq!(rev.revision, 3);
    assert_eq!(rev.model, "llama");
    assert_eq!(rev.model_digest, "sha256:abc");
    assert_eq!(rev.profile, "a100");
    assert_eq!(rev.runtime_config_digest, "");
    assert_eq!(rev.desired_replicas, 2);
    assert_eq!(rev.created_at, 100);
    assert_eq!(rev.state, RevisionState::Provisioning);
    assert_eq!(set.id, "chat--set-3");
    assert_eq!(set.desired, 2);
    assert_eq!(set.ready, 0);
    assert!(set.replicas.is_empty());
}

#[test]
fn sync_groups_replicas_by_revision() {
    let mut dep = deployment(
        2,
        vec![
            rep("b", 2, "chat", true),
            rep("a", 1, "chat", true),
            rep("old", 0, "", false),
            rep("c", 1, "chat", false),
        ],
    );
    let stored = vec![InferenceReplicaSet {
        id: "chat--set-1".into(),
        deployment: "chat".into(),
        revision: 1,
        desired: 5,
        ready: 0,
        replicas: vec![],
    }];
    let sets = sync_replica_sets(&mut dep, &stored);
    assert_eq!(sets.len(), 2);
    assert_eq!(sets[0].revision, 1);
    assert_eq!(sets[0].id, "chat--set-1");
    assert_eq!(sets[0].desired, 5);
    assert_eq!(sets[0].ready, 1);
    let names: Vec<&str> = sets[0].replicas.iter().map(|r| r.vm_name.as_str()).collect();
    assert_eq!(names, vec!["a", "c"]);
    assert_eq!(sets[1].revision, 2);
    assert_eq!(sets[1].desired, 2);
    assert_eq!(sets[1].ready, 1);
    let names: Vec<&str> = sets[1].replicas.iter().map(|r| r.vm_name.as_str()).collect();
    assert_eq!(names, vec!["b", "old"]);
    // The legacy record joins the current revision and this deployment.
    assert_eq!(sets[1].replicas[1].revision, 2);
    assert_eq!(sets[1].replicas[1].deployment, "chat");
    let union: Vec<&str> = dep.status.replicas.iter().map(|r| r.vm_name.as_str()).collect();
    assert_eq!(union, vec!["a", "c", "b", "old"]);
    assert_eq!(dep.status.replicas[3].revision, 2);
    assert_eq!(dep.status.replicas[0].address.as_deref(), Some("10.0.0.1"));
    assert_eq!(dep.status.phase, "Ready");
}

#[test]
fn sync_of_an_empty_deployment_keeps_its_current_set() {
    let mut dep = deployment(4, vec![]);
    let sets = sync_replica_sets(&mut dep, &[]);
    assert_eq!(sets.len(), 1);
    assert_eq!(sets[0].revision, 4);
    assert_eq!(sets[0].id, "chat--set-4");
    assert_eq!(sets[0].desired, 0);
    assert!(sets[0].replicas.is_empty());
    assert!(dep.status.replicas.is_empty());
}

#[test]
fn revisions_are_listed_in_order_for_one_deployment() {
    let rows = vec![
        revision("chat", 3, "chat--3"),
        revision("other", 1, "other--1"),
        revision("chat", 1, "chat--1"),
        revision("chat", 2, "chat--2"),
    ];
    let listed = list_revisions(rows, "chat");
    let ids: Vec<&str> = listed.iter().map(|r| r.id.as_str()).collect();
    assert_eq!(ids, vec!["chat--1", "chat--2", "chat--3"]);
    assert!(list_revisions(vec![], "chat").is_empty());
}

#[test]
fn active_rollout_is_the_last_progressing() {
    let rows = vec![
        run("chat", 2, RolloutPhase::Progressing, "a"),
        run("chat", 3, RolloutPhase::Succeeded, "b"),
        run("chat", 4, RolloutPhase::Progressing, "c"),
        run("other", 5, RolloutPhase::Progressing, "d"),
    ];
    assert_eq!(active_rollout(rows, "chat").map(|r| r.id), Some("c".to_string()));
    let done = vec![run("chat", 2, RolloutPhase::Failed, "a")];
    assert!(active_rollout(done, "chat").is_none());
}

#[test]
fn latest_rollout_has_the_highest_target() {
    let rows = vec![
        run("chat", 3, RolloutPhase::Succeeded, "a"),
        run("chat", 5, RolloutPhase::Failed, "b"),
        run("other", 9, RolloutPhase::Progressing, "c"),
        run("chat", 4, RolloutPhase::Progressing, "d"),
        run("chat", 5, RolloutPhase::Paused, "e"),
    ];
    assert_eq!(latest_rollout(rows, "chat").map(|r| r.id), Some("e".to_string()));
    assert!(latest_rollout(vec![run("other", 2, RolloutPhase::Paused, "x")], "chat").is_none());
}

#[test]
fn allocated_bdfs_are_bound_lower_case_and_distinct() {
    let reps = vec![
        "0000:3B:00.0".to_string(),
        "dry-run-0".to_string(),
        String::new(),
        "0000:3b:00.0".to_string(),
    ];
    let reserved = vec!["0000:AF:00.0".to_string(), "dry-run-7".to_string()];
    let set = allocated_bdfs(&reps, &reserved);
    assert_eq!(set, vec!["0000:3b:00.0".to_string(), "0000:af:00.0".to_string()]);
}

#[test]
fn orphans_are_records_of_missing_owners() {
    let owners = vec!["chat".to_string(), "gone".to_string(), "code".to_string(), "gone".to_string()];
    let present = vec!["chat".to_string(), "code".to_string()];
    assert_eq!(orphaned(&owners, &present), vec![1, 3]);
    assert!(orphaned(&owners, &owners).is_empty());
}

#[test]
fn replica_site_prefers_the_deployment() {
    assert_eq!(replica_site(Some("eu"), Some("us")), Some("eu".to_string()));
    assert_eq!(replica_site(None, Some("us")), Some("us".to_string()));
    assert_eq!(replica_site(None, None), None);
}

#[test]
fn dry_run_replica_is_ready_with_placeholders() {
    let r = dry_run_replica("chat", 2, Some("eu".into()));
    assert_eq!(r.vm_name, "chat-2");
    assert_eq!(r.bdf, "dry-run-2");
    assert_eq!(r.address.as_deref(), Some("10.255.0.3"));
    assert!(r.ready);
    assert_eq!(r.site.as_deref(), Some("eu"));
    assert_eq!(r.cost_tier, Some(1));
    assert!(!r.draining);
}

#[test]
fn placed_replica_waits_for_health() {
    let r = placed_replica("chat-0".into(), "0000:3b:00.0".into(), None, None);
    assert_eq!(r.vm_name, "chat-0");
    assert_eq!(r.bdf, "0000:3b:00.0");
    assert!(!r.ready);
    assert_eq!(r.address, None);
    assert_eq!(r.cost_tier, Some(1));
}
