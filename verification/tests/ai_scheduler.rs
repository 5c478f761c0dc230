use zyvor_fabricd::ai::scheduler::{
    consider, decide, effective_state, explain, schedule, should_replace_lost, Placement,
    ScheduleRequest,
};
use zyvor_fabricd::ai::types::{InferenceNode, NodeGpu, NodeState};

fn node(id: &str, site: &str, domain: &str, vram: u32, cached: bool) -> InferenceNode {
    InferenceNode {
        id: id.into(),
        site: site.into(),
        failure_domain: domain.into(),
        state: NodeState::Ready,
        heartbeat_unix: 1_000,
        gpus: vec![NodeGpu {
            bdf: format!("{id}-gpu"),
            vendor: "nvidia".into(),
            vram_gib: vram,
            model: "L40S".into(),
            healthy: true,
            mig_profile: String::new(),
            parent_bdf: String::new(),
            nvlink: true,
            temperature_c: 0,
            power_watts: 0,
            ecc_errors: 0,
        }],
        taints: vec![],
        cpu_free: 16,
        memory_gib_free: 64,
        cached_models: if cached { vec!["qwen".into()] } else { vec![] },
    }
}

fn req() -> ScheduleRequest {
    ScheduleRequest {
        vendor: "nvidia".into(),
        minimum_vram_gib: 24,
        preferred_site: Some("pune".into()),
        residency: None,
        model: "qwen".into(),
        cpu: 4,
        memory_gib: 16,
        allocated: vec![],
        occupied_domains: vec![],
        allowed_sites: vec![],
        max_replicas_per_site: 0,
        site_counts: vec![],
        mig_profile: String::new(),
        require_nvlink: false,
    }
}

#[test]
fn empty_inventory_stays_on_the_local_host() {
    assert_eq!(decide(&[], &req(), 1_010).unwrap(), Placement::Legacy);
}

#[test]
fn stale_heartbeat_is_offline_and_not_scheduled() {
    let mut n = node("a", "pune", "rack1", 48, false);
    assert_eq!(effective_state(&n, 1_000 + 61), NodeState::Offline);
    assert!(schedule(&[n.clone()], &req(), 1_000 + 61).is_err());
    n.heartbeat_unix = 1_050;
    assert_eq!(schedule(&[n], &req(), 1_060).unwrap().node_id, "a");
}

#[test]
fn cache_and_site_beat_a_larger_remote_gpu() {
    let local = node("local", "pune", "rack1", 24, true);
    let remote = node("remote", "blr", "rack9", 80, false);
    let choice = schedule(&[remote, local], &req(), 1_010).unwrap();
    assert_eq!(choice.node_id, "local");
}

#[test]
fn residency_excludes_other_sites() {
    let mut request = req();
    request.residency = Some("pune".into());
    let remote = node("remote", "blr", "rack9", 80, true);
    assert!(schedule(&[remote], &request, 1_010).is_err());
}

#[test]
fn taint_and_allocated_gpu_are_filtered() {
    let mut tainted = node("a", "pune", "rack1", 48, false);
    tainted.taints = vec!["dedicated".into()];
    assert!(schedule(&[tainted], &req(), 1_010).is_err());
    let free = node("b", "pune", "rack1", 48, false);
    let mut request = req();
    request.allocated = vec![("b".into(), "b-gpu".into())];
    assert!(schedule(&[free], &request, 1_010).is_err());
}

#[test]
fn lost_node_is_replaced_only_when_another_is_ready() {
    let mut dead = node("dead", "pune", "rack1", 48, false);
    dead.heartbeat_unix = 1;
    let live = node("live", "pune", "rack2", 48, false);
    assert!(should_replace_lost(&[dead.clone(), live], "dead", 1_000));
    assert!(!should_replace_lost(&[dead], "dead", 1_000));
    assert!(!should_replace_lost(&[], "", 1_000));
}

#[test]
fn allowed_site_cap_and_explain_agree() {
    let local = node("local", "pune", "rack1", 48, false);
    let mut request = req();
    request.allowed_sites = vec!["pune".into()];
    request.max_replicas_per_site = 1;
    request.site_counts = vec![("pune".into(), 1)];
    let (chosen, rejected) = explain(&[local], &request, 1_010);
    assert!(chosen.is_none());
    assert_eq!(rejected[0].1, "site is at max_replicas_per_site");
}

#[test]
fn a_chosen_node_names_its_device_and_decide_wraps_it() {
    let n = node("a", "pune", "rack1", 48, false);
    let c = consider(&n, &req(), 1_010).unwrap();
    assert_eq!(c.bdf, "a-gpu");
    match decide(&[n], &req(), 1_010).unwrap() {
        Placement::Chosen(choice) => assert_eq!(choice, c),
        Placement::Legacy => panic!("expected a choice"),
    }
    let small = node("s", "pune", "rack1", 16, false);
    assert!(consider(&small, &req(), 1_010).is_err());
    let (none, why) = explain(&[small], &req(), 1_010);
    assert!(none.is_none());
    assert_eq!(why.len(), 1);
    assert_eq!(why[0].0, "s");
}

#[test]
fn a_declared_state_stands_without_a_heartbeat() {
    let mut n = node("a", "pune", "rack1", 48, false);
    n.heartbeat_unix = 0;
    n.state = NodeState::Draining;
    assert_eq!(effective_state(&n, 1_000_000), NodeState::Draining);
    assert!(schedule(&[n], &req(), 1_000_000).is_err());
}
