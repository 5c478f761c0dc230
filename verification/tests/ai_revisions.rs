use zyvor_fabricd::ai::revisions::{
    advance_rollout, apply_weights, blue_green_cutover, canary_weights, default_canary_steps,
    next_revision, note_revision_states, plan_rollback, protect_last_healthy, replica_set_id,
    restore_old_weights, retain_second_fleet, revision_id, step_rolling, FleetCounts,
    RollingAction,
};
use zyvor_fabricd::ai::types::{
    CanaryStep, InferenceReplica, RevisionState, RolloutPhase, RolloutRun, RolloutStrategy,
};

fn rep(revision: u64, ready: bool) -> InferenceReplica {
    InferenceReplica {
        replica_id: format!("r{revision}"),
        ordinal: revision as u32,
        vm_name: format!("dep-{revision}"),
        bdf: "dry-run".into(),
        ready,
        address: None,
        metrics: None,
        maglev_weight: None,
        site: None,
        cost_tier: None,
        draining: false,
        unhealthy_streak: 0,
        deployment: "dep".into(),
        revision,
        model_digest: "m".into(),
        profile_digest: "p".into(),
        host: String::new(),
        generation: 1,
        lifecycle: "ready".into(),
        health: if ready { "healthy" } else { "unhealthy" }.into(),
        created_at: None,
    }
}

#[test]
fn rolling_keeps_old_and_new_and_refuses_the_last_healthy() {
    let action = step_rolling(
        1,
        1,
        FleetCounts {
            old_total: 1,
            old_ready: 1,
            new_total: 0,
            new_ready: 0,
            new_ready_long_enough: 0,
            old_draining: 0,
            desired: 1,
        },
    );
    assert_eq!(action, RollingAction::AddNew);
    assert!(protect_last_healthy(1, 0));
    assert_eq!(
        step_rolling(
            1,
            1,
            FleetCounts {
                old_total: 1,
                old_ready: 1,
                new_total: 1,
                new_ready: 0,
                new_ready_long_enough: 0,
                old_draining: 0,
                desired: 1,
            },
        ),
        RollingAction::WaitHealthy
    );
}

#[test]
fn restart_repeats_the_stored_step() {
    let fleet = FleetCounts {
        old_total: 1,
        old_ready: 1,
        new_total: 1,
        new_ready: 1,
        new_ready_long_enough: 1,
        old_draining: 0,
        desired: 1,
    };
    let first = step_rolling(1, 1, fleet);
    let second = step_rolling(1, 1, fleet);
    assert_eq!(first, second);
    assert_eq!(first, RollingAction::DrainOld);
}

#[test]
fn rolling_completes_once_the_old_fleet_is_gone() {
    let done = FleetCounts {
        old_total: 0,
        old_ready: 0,
        new_total: 2,
        new_ready: 2,
        new_ready_long_enough: 2,
        old_draining: 0,
        desired: 2,
    };
    assert_eq!(step_rolling(1, 1, done), RollingAction::Complete);
    assert!(!protect_last_healthy(2, 0));
    assert!(!protect_last_healthy(1, 1));
}

#[test]
fn canary_weights_follow_the_new_revision() {
    let (old, new) = canary_weights(5);
    assert!(new < old);
    let (old, new) = canary_weights(100);
    assert_eq!(new, 32);
    assert_eq!(old, 1);
}

#[test]
fn canary_weights_exact_values() {
    assert_eq!(canary_weights(5), (30, 1));
    assert_eq!(canary_weights(50), (16, 16));
    assert_eq!(canary_weights(0), canary_weights(1));
    assert_eq!(canary_weights(200), (1, 32));
}

#[test]
fn rollback_restores_the_previous_revision() {
    let (active, phase) = plan_rollback(3, 4);
    assert_eq!(active, 3);
    assert_eq!(phase, RolloutPhase::RollingBack);
    let mut replicas = vec![rep(3, true), rep(4, true)];
    restore_old_weights(&mut replicas, 3, 4);
    assert_eq!(replicas[0].maglev_weight, Some(32));
    assert!(!replicas[0].draining);
    assert!(replicas[1].draining);
    assert_eq!(replicas.iter().filter(|r| r.revision == 3).count(), 1);
}

#[test]
fn blue_green_waits_until_the_new_fleet_is_ready() {
    let mut replicas = vec![rep(1, true), rep(2, false)];
    assert!(!blue_green_cutover(&mut replicas, 1, 2));
    replicas[1].ready = true;
    assert!(blue_green_cutover(&mut replicas, 1, 2));
    assert_eq!(replicas[1].maglev_weight, Some(32));
    assert!(replicas[0].draining);
}

fn sample_run(strategy: RolloutStrategy) -> RolloutRun {
    RolloutRun {
        id: "dep--rollout-2".into(),
        deployment: "dep".into(),
        strategy,
        from_revision: 1,
        to_revision: 2,
        max_surge: 1,
        max_unavailable: 1,
        min_ready_secs: 0,
        phase: RolloutPhase::Progressing,
        step_index: 0,
        steps: vec![CanaryStep {
            weight: 5,
            duration_secs: 300,
        }],
        rollback_window_secs: 600,
        step_started_unix: 0,
        promoted_at: None,
        message: None,
        created_at: 0,
        updated_at: 0,
    }
}

/// The rollback thresholds that `sample_run` stands for: error rate 0.15, TTFT 2000 ms.
fn over_thresholds(error_rate: f64, ttft_ms: f64) -> bool {
    let rollback_error_rate = 0.15;
    let rollback_ttft_ms = 2000.0;
    error_rate > rollback_error_rate || ttft_ms > rollback_ttft_ms
}

#[test]
fn canary_holds_the_step_for_its_duration() {
    let mut run = sample_run(RolloutStrategy::Canary);
    let mut replicas = vec![rep(1, true), rep(2, true)];
    assert!(!advance_rollout(
        &mut run,
        &mut replicas,
        1_000,
        1,
        over_thresholds(0.0, 0.0)
    ));
    assert_eq!(run.step_index, 0);
    assert_eq!(run.phase, RolloutPhase::Progressing);
    assert!(!advance_rollout(
        &mut run,
        &mut replicas,
        1_100,
        1,
        over_thresholds(0.0, 0.0)
    ));
    assert_eq!(run.step_index, 0);
    let (old_w, new_w) = canary_weights(5);
    assert_eq!(replicas[0].maglev_weight, Some(old_w));
    assert_eq!(replicas[1].maglev_weight, Some(new_w));
}

#[test]
fn threshold_pauses_instead_of_dropping_the_old_replica() {
    let mut run = sample_run(RolloutStrategy::Canary);
    let mut replicas = vec![rep(1, true), rep(2, true)];
    assert!(!advance_rollout(
        &mut run,
        &mut replicas,
        1_000,
        1,
        over_thresholds(0.9, 0.0)
    ));
    assert_eq!(run.phase, RolloutPhase::Paused);
    assert_eq!(replicas.iter().filter(|r| r.revision == 1).count(), 1);
    assert!(!replicas[0].draining);
}

#[test]
fn a_paused_run_does_not_move() {
    let mut run = sample_run(RolloutStrategy::Canary);
    run.phase = RolloutPhase::Paused;
    let mut replicas = vec![rep(1, true), rep(2, true)];
    assert!(!advance_rollout(&mut run, &mut replicas, 5_000, 1, false));
    assert_eq!(run.phase, RolloutPhase::Paused);
    assert_eq!(replicas[0].maglev_weight, None);
    assert_eq!(replicas[1].maglev_weight, None);
}

#[test]
fn weights_and_ids() {
    let mut replicas = vec![rep(1, true), rep(2, true)];
    apply_weights(&mut replicas, 2, 7);
    assert_eq!(replicas[0].maglev_weight, None);
    assert_eq!(replicas[1].maglev_weight, Some(7));
    assert_eq!(revision_id("dep", 12), "dep--12");
    assert_eq!(replica_set_id("dep", 3), "dep--set-3");
    assert_eq!(default_canary_steps().len(), 4);
    assert_eq!(default_canary_steps()[3].weight, 100);
    assert_eq!(next_revision(&[], 4), 5);
    assert_eq!(next_revision(&[2, 9, 3], 1), 10);
    let notes = note_revision_states("dep", 1, 2, RevisionState::Superseded, RevisionState::Active);
    assert_eq!(notes[0], ("dep--1".to_string(), RevisionState::Superseded));
    assert_eq!(notes[1], ("dep--2".to_string(), RevisionState::Active));
}

#[test]
fn a_second_fleet_is_kept_while_a_run_is_open() {
    let run = sample_run(RolloutStrategy::Canary);
    assert!(retain_second_fleet(&run, 10));
    let mut done = sample_run(RolloutStrategy::Canary);
    done.phase = RolloutPhase::Succeeded;
    assert!(!retain_second_fleet(&done, 10));
}

#[test]
fn every_rollout_tick_keeps_the_replicas_in_place() {
    for strategy in [RolloutStrategy::Canary, RolloutStrategy::BlueGreen, RolloutStrategy::Rolling] {
        let mut run = sample_run(strategy);
        let mut replicas = vec![rep(1, true), rep(2, true), rep(1, false), rep(2, true)];
        let before: Vec<(u64, bool, String)> =
            replicas.iter().map(|r| (r.revision, r.ready, r.vm_name.clone())).collect();
        for t in [1_000i64, 2_000, 5_000, 20_000, 40_000] {
            let moved = advance_rollout(&mut run, &mut replicas, t, 2, false);
            let now: Vec<(u64, bool, String)> =
                replicas.iter().map(|r| (r.revision, r.ready, r.vm_name.clone())).collect();
            assert_eq!(now, before);
            if moved {
                assert_eq!(run.phase, RolloutPhase::Succeeded);
            }
        }
    }
}
