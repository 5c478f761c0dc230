use zyvor_fabricd::ai::autoscaling::{
    next_replicas, scale_decision, scale_out_demand, scale_plan, ScaleAction, ScalePlan,
    ScaleReason,
};
use zyvor_fabricd::ai::eligibility::{metrics_fresh, replica_serving};
use zyvor_fabricd::ai::explain::{failure_reasons, replica_label, wait_seconds};
use zyvor_fabricd::ai::maglev::{
    build_maglev_service_spec, build_maglev_service_spec_weighted, drain_backend, drain_endpoint_spec,
    maglev_backends,
};
use zyvor_fabricd::ai::routing::{
    apply_named_weights, compute_site_local_weights, routing_exclusion, compute_weights,
    filter_replicas_for_endpoint, metric_kind, prom_sample, split_prom_line, throughput_metric,
    MetricKind,
};
use zyvor_fabricd::ai::types::{
    AutoscalingPolicy, InferenceEndpoint, InferenceReplica, ReplicaMetrics, RoutingStrategy,
};

const NOW: i64 = 1_700_000_000;

fn metrics(source: &str, age_secs: i64) -> ReplicaMetrics {
    ReplicaMetrics {
        queue_depth: 0,
        active_requests: 0,
        scraped_at: Some(NOW - age_secs),
        source: Some(source.into()),
    }
}

fn rep(name: &str, queue: u32) -> InferenceReplica {
    InferenceReplica {
        replica_id: name.into(),
        ordinal: 0,
        vm_name: name.into(),
        bdf: "0000:01:00.0".into(),
        ready: true,
        address: Some("10.0.0.1".into()),
        metrics: Some(ReplicaMetrics {
            queue_depth: queue,
            active_requests: 0,
            scraped_at: None,
            source: None,
        }),
        maglev_weight: None,
        site: None,
        cost_tier: None,
        draining: false,
        unhealthy_streak: 0,
        deployment: String::new(),
        revision: 0,
        model_digest: String::new(),
        profile_digest: String::new(),
        host: String::new(),
        generation: 0,
        lifecycle: String::new(),
        health: String::new(),
        created_at: None,
    }
}

fn endpoint(residency: Option<&str>, allowed: Vec<String>) -> InferenceEndpoint {
    InferenceEndpoint {
        name: "ep".into(),
        deployment: "dep".into(),
        protocol: "openai".into(),
        port: 8000,
        service_id: None,
        vip: None,
        routing_strategy: RoutingStrategy::LeastQueue,
        tenant: None,
        preferred_site: None,
        allowed_sites: allowed,
        residency: residency.map(str::to_string),
        phase: String::new(),
        created: 0,
        updated: 0,
    }
}

#[test]
fn least_queue_prefers_idle() {
    let a = rep("a", 0);
    let b = rep("b", 30);
    let ready = vec![&a, &b];
    let w = compute_weights(RoutingStrategy::LeastQueue, &ready, &[1, 1]);
    assert_eq!(w[0], 32);
    assert_eq!(w[1], 3); // 33 - 30
    assert!(w[0] > w[1]);
}

#[test]
fn equal_is_one() {
    let a = rep("a", 5);
    let w = compute_weights(RoutingStrategy::Equal, &[&a], &[9]);
    assert_eq!(w, vec![1]);
}

#[test]
fn measured_strategies_take_the_measured_weight() {
    let a = rep("a", 0);
    let b = rep("b", 31);
    let w = compute_weights(RoutingStrategy::MostFreeVram, &[&a, &b], &[29, 4]);
    assert_eq!(w, vec![29, 4]);
    let w = compute_weights(RoutingStrategy::WeightedCapacity, &[&a, &b], &[32, 2]);
    assert_eq!(w, vec![32, 2]);
    let deep = rep("deep", 500);
    assert_eq!(compute_weights(RoutingStrategy::LeastQueue, &[&deep], &[1]), vec![1]);
}

#[test]
fn site_local_prefers_the_named_site() {
    let mut a = rep("a", 0);
    a.site = Some("pune-1".into());
    let mut b = rep("b", 0);
    b.site = Some("blr-1".into());
    assert_eq!(compute_site_local_weights(&[&a, &b], Some("blr-1")), vec![4, 32]);
    assert_eq!(compute_site_local_weights(&[&a, &b], None), vec![16, 16]);
    let c = rep("c", 0);
    assert_eq!(compute_site_local_weights(&[&c], Some("blr-1")), vec![8]);
}

#[test]
fn residency_excludes_untagged_replicas() {
    let mut tagged = rep("tagged", 0);
    tagged.site = Some("lab".into());
    tagged.metrics = Some(metrics("vllm_prometheus", 0));
    let mut untagged = rep("untagged", 0);
    untagged.metrics = Some(metrics("vllm_prometheus", 0));
    let ep = endpoint(Some("lab"), Vec::new());
    let replicas = [tagged, untagged];
    let kept = filter_replicas_for_endpoint(&ep, &replicas, NOW);
    assert_eq!(kept.len(), 1);
    assert_eq!(kept[0].vm_name, "tagged");
}

#[test]
fn allowed_sites_filter_and_stale_replicas_drop_out() {
    let mut outside = rep("d-0", 0);
    outside.site = Some("mumbai-1".into());
    outside.metrics = Some(metrics("vllm_prometheus", 0));
    let mut inside = rep("d-1", 0);
    inside.site = Some("pune-1".into());
    inside.metrics = Some(metrics("vllm_prometheus", 0));
    let mut stale = rep("d-2", 0);
    stale.site = Some("pune-1".into());
    stale.metrics = Some(metrics("vllm_prometheus", 120));
    let ep = endpoint(None, vec!["pune-1".into()]);
    let replicas = [outside, inside, stale];
    let kept = filter_replicas_for_endpoint(&ep, &replicas, NOW);
    assert_eq!(kept.len(), 1);
    assert_eq!(kept[0].vm_name, "d-1");
}

#[test]
fn exposition_lines_split_into_name_and_value() {
    assert_eq!(
        prom_sample("vllm:num_requests_waiting 7"),
        Some(("vllm:num_requests_waiting".to_string(), "7".to_string()))
    );
    assert_eq!(prom_sample("# HELP vllm:num_requests_waiting ..."), None);
    assert_eq!(prom_sample("   "), None);
    assert_eq!(
        split_prom_line("x{a=\"b c\"} 0.42"),
        Some(("x".to_string(), "0.42".to_string()))
    );
    assert_eq!(metric_kind("vllm:num_requests_waiting"), MetricKind::Waiting);
    assert_eq!(metric_kind("vllm:num_requests_running"), MetricKind::Running);
    assert_eq!(metric_kind("vllm:gpu_cache_usage_perc"), MetricKind::CacheUsage);
    assert_eq!(metric_kind("vllm:something_else"), MetricKind::Other);
    assert!(throughput_metric("vllm:avg_prompt_throughput_toks_per_s"));
}

#[test]
fn named_weights_reach_serving_replicas_only() {
    let mut a = rep("a", 0);
    a.metrics = Some(metrics("vllm_prometheus", 0));
    let mut b = rep("b", 0);
    b.metrics = Some(metrics("scrape_failed", 0));
    b.maglev_weight = Some(9);
    let mut replicas = vec![a, b];
    apply_named_weights(&mut replicas, &[("a".into(), 12), ("b".into(), 5)], NOW);
    assert_eq!(replicas[0].maglev_weight, Some(12));
    assert_eq!(replicas[1].maglev_weight, None);
}

#[test]
fn stale_or_failed_is_unhealthy() {
    assert!(!metrics_fresh(None, NOW));
    assert!(!metrics_fresh(Some(&metrics("scrape_failed", 0)), NOW));
    assert!(!metrics_fresh(Some(&metrics("vllm_prometheus", 120)), NOW));
    assert!(metrics_fresh(Some(&metrics("vllm_prometheus", 1)), NOW));
}

#[test]
fn serving_needs_ready_undrained_and_fresh() {
    let mut r = rep("a", 0);
    r.metrics = Some(metrics("vllm_prometheus", 1));
    assert!(replica_serving(&r, NOW));
    r.draining = true;
    assert!(!replica_serving(&r, NOW));
    assert!(!metrics_fresh(Some(&metrics("vllm_prometheus", 30)), NOW));
}

#[test]
fn weighted_uses_replica_maglev_weight() {
    let mut a = rep("a", 0);
    a.maglev_weight = Some(8);
    let spec = build_maglev_service_spec_weighted("ai-llm", "10.96.0.50", 8000, &[a], None);
    assert_eq!(spec.backends[0].weight, 8);
}

#[test]
fn equal_weights_only_ready_with_address() {
    let a = rep("a", 0);
    let mut b = rep("b", 0);
    b.ready = false;
    b.address = Some("10.0.0.2".into());
    let mut c = rep("c", 0);
    c.address = None;
    let spec = build_maglev_service_spec("ai-llm", "10.96.0.50", 8000, &[a, b, c], Some(1000));
    let backends = spec.backends;
    assert_eq!(backends.len(), 1);
    assert_eq!(backends[0].weight, 1);
    assert_eq!(backends[0].address, "10.0.0.1");
    assert_eq!(backends[0].port, 8000);
    assert_eq!(spec.max_egress_mbps, Some(1000));
    assert_eq!(spec.name, "ai-llm");
    assert_eq!(spec.vip, "10.96.0.50");
    let mut heavy = rep("h", 0);
    heavy.maglev_weight = Some(200);
    assert_eq!(maglev_backends(80, &[heavy])[0].weight, 32);
}

#[test]
fn drain_marks_backend() {
    let mut backends = maglev_backends(8000, &[rep("a", 0)]);
    drain_backend(&mut backends, "10.0.0.1", 1_000);
    assert!(!backends[0].enabled);
    assert!(backends[0].draining);
    assert_eq!(backends[0].drain_until_unix_ms, Some(31_000));
    let mut other = maglev_backends(8000, &[rep("b", 0)]);
    drain_backend(&mut other, "10.9.9.9", 1_000);
    assert!(other[0].enabled);
}

#[test]
fn a_drained_deployment_holds_its_backend_for_the_grace() {
    let mut b = rep("b", 0);
    b.address = Some("10.0.0.2".into());
    let spec = drain_endpoint_spec("ep", "10.96.0.9", 8000, &[rep("a", 0), b], "10.0.0.1", 5_000, 45);
    assert_eq!(spec.backends.len(), 2);
    assert!(!spec.backends[0].enabled);
    assert!(spec.backends[0].draining);
    assert_eq!(spec.backends[0].drain_until_unix_ms, Some(50_000));
    assert!(spec.backends[1].enabled);
    assert_eq!(spec.backends[1].drain_until_unix_ms, None);
    assert_eq!(spec.max_egress_mbps, None);
}

#[test]
fn failure_lists_pending_replica() {
    let mut r = rep("d-0", 0);
    r.ready = false;
    r.address = None;
    r.host.clear();
    let reasons = failure_reasons(&r);
    assert!(reasons.contains(&"not ready"));
    assert!(reasons.contains(&"no host"));
    assert!(reasons.contains(&"no address"));
}

#[test]
fn a_healthy_replica_has_no_recorded_failure() {
    let mut r = rep("d-0", 0);
    r.host = "node-a".into();
    assert_eq!(failure_reasons(&r), vec!["no failure recorded"]);
    r.replica_id.clear();
    assert_eq!(replica_label(&r), "d-0");
    let p = AutoscalingPolicy::default();
    assert_eq!(wait_seconds(ScaleAction::Hold, &p), 0);
    assert_eq!(wait_seconds(ScaleAction::ScaleOut, &p), p.scale_out_seconds);
}

#[test]
fn next_respects_bounds() {
    let mut p = AutoscalingPolicy::default();
    p.min_replicas = 1;
    p.max_replicas = 3;
    assert_eq!(next_replicas(1, &p, -1), 1);
    assert_eq!(next_replicas(3, &p, 1), 3);
    assert_eq!(next_replicas(2, &p, 1), 3);
}

#[test]
fn scale_to_zero() {
    let mut p = AutoscalingPolicy::default();
    p.min_replicas = 1;
    p.scale_to_zero = true;
    p.max_replicas = 2;
    assert_eq!(next_replicas(1, &p, -1), 0);
}

#[test]
fn warm_standby_adds_one_above_max() {
    let mut p = AutoscalingPolicy::default();
    p.max_replicas = 2;
    p.warm_standby = true;
    assert_eq!(next_replicas(2, &p, 1), 3);
    assert_eq!(next_replicas(3, &p, 1), 3);
}

#[test]
fn scale_reading_holds_when_disabled_and_scales_on_queue() {
    let mut p = AutoscalingPolicy::default();
    let (action, reason, next) = scale_decision(&p, 1, 1, true, false, false);
    assert_eq!((action, reason, next), (ScaleAction::Hold, ScaleReason::Disabled, 1));
    assert_eq!(reason.as_str(), "autoscaling disabled");
    p.enabled = true;
    let (action, _, next) = scale_decision(&p, 1, 1, true, false, false);
    assert_eq!(action.as_str(), "scale_out");
    assert_eq!(next, 2);
    let (action, reason, _) = scale_decision(&p, 2, 2, false, true, true);
    assert_eq!((action, reason), (ScaleAction::Hold, ScaleReason::StaleMetrics));
}

#[test]
fn scale_plans_and_demand() {
    assert_eq!(scale_plan(2, 2, false), ScalePlan::Unchanged);
    assert_eq!(scale_plan(3, 2, true), ScalePlan::SkipStale);
    assert_eq!(scale_plan(3, 2, false), ScalePlan::Apply);
    assert_eq!(scale_plan(2, 3, true), ScalePlan::CheckQuota);
    assert_eq!(scale_out_demand(2, 4, Some((8, 32))), (16, 65_536, 8));
    assert_eq!(scale_out_demand(3, 0, None), (0, 0, 3));
}

#[test]
fn routing_excludes_residency_mismatch() {
    let mut ep = endpoint(Some("india"), vec!["pune-1".into()]);
    ep.deployment = "d".into();
    let mut outside = rep("d-0", 30);
    outside.site = Some("mumbai-1".into());
    outside.metrics = Some(metrics("vllm_prometheus", 0));
    assert_eq!(routing_exclusion(&ep, &outside, NOW), Some("outside residency"));
    let mut local = rep("d-1", 30);
    local.site = Some("india".into());
    local.metrics = Some(metrics("vllm_prometheus", 0));
    assert_eq!(routing_exclusion(&ep, &local, NOW), Some("site not allowed"));
}

#[test]
fn routing_exclusion_names_serving_problems_first() {
    let ep = endpoint(None, vec![]);
    let mut r = rep("d-0", 0);
    r.metrics = Some(metrics("vllm_prometheus", 0));
    assert_eq!(routing_exclusion(&ep, &r, NOW), None);
    r.draining = true;
    assert_eq!(routing_exclusion(&ep, &r, NOW), Some("draining"));
    r.ready = false;
    assert_eq!(routing_exclusion(&ep, &r, NOW), Some("not ready"));
    let mut stale = rep("d-1", 0);
    stale.metrics = Some(metrics("vllm_prometheus", 300));
    assert_eq!(routing_exclusion(&ep, &stale, NOW), Some("metrics missing or stale"));
}
