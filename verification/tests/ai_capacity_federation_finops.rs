use zyvor_fabricd::ai::capacity::free_gpus;
use zyvor_fabricd::ai::federation::{
    edge_may_serve, eligible, meets_minimum_sites, pick_site, AiSite, EdgeSnapshot, SitePolicy,
};
use zyvor_fabricd::ai::finops::{gpu_seconds, token_charge};

#[test]
fn free_math() {
    assert_eq!(free_gpus(4, 1), 3);
    assert_eq!(free_gpus(1, 5), 0);
}

fn site(id: &str, residency: &str, gpu: u32) -> AiSite {
    AiSite {
        id: id.into(),
        residency: residency.into(),
        latency_ms: 10,
        cost_class: 1,
        gpu_free: gpu,
        reachable: true,
        models: vec!["qwen".into()],
        last_sync_unix: 1,
        generation: 3,
    }
}

#[test]
fn spillover_stays_inside_residency_and_failover() {
    let sites = vec![
        site("pune-1", "india", 0),
        site("bhubaneswar-1", "india", 2),
        site("frankfurt-1", "eu", 8),
    ];
    let allowed = vec!["pune-1".into(), "bhubaneswar-1".into()];
    let failover = vec!["bhubaneswar-1".into(), "frankfurt-1".into()];
    let policy = SitePolicy {
        residency: Some("india"),
        allowed: &allowed,
        preferred: Some("pune-1"),
        failover: &failover,
    };
    assert_eq!(pick_site(&policy, &sites, true).unwrap(), "bhubaneswar-1");
    assert!(pick_site(&policy, &sites[..1], true).is_err());
}

#[test]
fn edge_fails_closed_after_the_snapshot_expires() {
    let snap = EdgeSnapshot {
        generation: 4,
        model_digest: "abc".into(),
        fail_closed_unix: 1_000,
    };
    assert!(edge_may_serve(&snap, 999));
    assert!(!edge_may_serve(&snap, 1_000));
    assert!(meets_minimum_sites(2, 2));
    assert!(!meets_minimum_sites(1, 2));
}

#[test]
fn unreachable_or_out_of_residency_sites_are_not_eligible() {
    let empty: Vec<String> = vec![];
    let policy = SitePolicy {
        residency: Some("eu"),
        allowed: &empty,
        preferred: None,
        failover: &empty,
    };
    let mut s = site("frankfurt-1", "eu", 1);
    assert!(eligible(&s, &policy));
    s.reachable = false;
    assert!(!eligible(&s, &policy));
    assert!(!eligible(&site("pune-1", "india", 4), &policy));
    assert!(!eligible(&site("berlin-1", "eu", 0), &policy));
}

#[test]
fn a_generation_zero_snapshot_never_serves() {
    let snap = EdgeSnapshot {
        generation: 0,
        model_digest: "abc".into(),
        fail_closed_unix: 1_000,
    };
    assert!(!edge_may_serve(&snap, 1));
    assert!(meets_minimum_sites(0, 0));
}

#[test]
fn chargeback_multiplies_usage() {
    assert_eq!(gpu_seconds(2, 30), 60);
    assert_eq!(token_charge(10, 4, 2, 3), 32);
}

#[test]
fn chargeback_saturates() {
    assert_eq!(gpu_seconds(2, u64::MAX), u64::MAX);
    assert_eq!(token_charge(u64::MAX, 1, 2, 1), u64::MAX);
}
