//! Immutable deployment revisions and the rollout step function.
//!
//! A deployment keeps one active revision and may run a second one during a
//! rollout.
use vstd::prelude::*;

use super::types::{
    copy_replica, same_replica, CanaryStep, InferenceDeployment, InferenceDeploymentRevision,
    InferenceDeploymentStatus, InferenceReplica, InferenceReplicaSet, RevisionState, RolloutPhase,
    RolloutRun, RolloutStrategy,
};
use crate::num::{clamp, sat_sub_i64};
use crate::text::{dec, dec_int, owned, push_dec, push_dec_i64, str_eq};
use vstd::string::*;

verus! {

/// `"{deployment}--{revision}"`.
pub fn revision_id(deployment: &str, revision: u64) -> (r: String)
    ensures
        r@ == deployment@ + "--"@ + dec(revision as nat),
{
    let mut r = deployment.to_owned();
    r.append("--");
    push_dec(&mut r, revision);
    r
}

/// `"{deployment}--set-{revision}"`.
pub fn replica_set_id(deployment: &str, revision: u64) -> (r: String)
    ensures
        r@ == deployment@ + "--set-"@ + dec(revision as nat),
{
    let mut r = deployment.to_owned();
    r.append("--set-");
    push_dec(&mut r, revision);
    r
}

/// 5% for 5 minutes, 20% for 10, 50% for 15, then everything.
pub fn default_canary_steps() -> (r: Vec<CanaryStep>)
    ensures
        r@ == seq![
            CanaryStep { weight: 5, duration_secs: 300 },
            CanaryStep { weight: 20, duration_secs: 600 },
            CanaryStep { weight: 50, duration_secs: 900 },
            CanaryStep { weight: 100, duration_secs: 0 },
        ],
{
    let mut v: Vec<CanaryStep> = Vec::new();
    v.push(CanaryStep { weight: 5, duration_secs: 300 });
    v.push(CanaryStep { weight: 20, duration_secs: 600 });
    v.push(CanaryStep { weight: 50, duration_secs: 900 });
    v.push(CanaryStep { weight: 100, duration_secs: 0 });
    assert(v@ =~= seq![
        CanaryStep { weight: 5, duration_secs: 300 },
        CanaryStep { weight: 20, duration_secs: 600 },
        CanaryStep { weight: 50, duration_secs: 900 },
        CanaryStep { weight: 100, duration_secs: 0 },
    ]);
    v
}

#[derive(Debug, Clone, Copy, PartialEq, Eq, Structural)]
pub enum RollingAction {
    AddNew,
    WaitHealthy,
    DrainOld,
    /// A drained old replica can be removed.
    RemoveDrained,
    Complete,
    /// A failed new revision must not remove the last ready old replica.
    KeepLastHealthy,
}

#[derive(Debug, Clone, Copy)]
pub struct FleetCounts {
    pub old_total: u32,
    pub old_ready: u32,
    pub new_total: u32,
    pub new_ready: u32,
    pub new_ready_long_enough: u32,
    pub old_draining: u32,
    pub desired: u32,
}

pub open spec fn sat(v: int) -> int {
    if v < 0 {
        0
    } else if v > u32::MAX {
        u32::MAX as int
    } else {
        v
    }
}

pub open spec fn protect_spec(old_ready: u32, new_ready: u32) -> bool {
    old_ready <= 1 && new_ready == 0
}

/// Room left for new replicas under `desired + max(max_surge, 1)`.
pub open spec fn surge_room(max_surge: u32, fleet: FleetCounts) -> int {
    sat(sat(fleet.desired + (if max_surge > 1 { max_surge as int } else { 1 })) - sat(
        fleet.old_total + fleet.new_total,
    ))
}

/// One rolling step, as a function of the fleet alone.
pub open spec fn step_spec(max_surge: u32, max_unavailable: u32, fleet: FleetCounts) -> RollingAction {
    if fleet.new_total >= fleet.desired && fleet.old_total == 0 && fleet.new_ready >= fleet.desired {
        RollingAction::Complete
    } else if fleet.new_total < fleet.desired && surge_room(max_surge, fleet) > 0
        && fleet.new_ready_long_enough == fleet.new_total {
        RollingAction::AddNew
    } else if fleet.new_total > fleet.new_ready_long_enough {
        RollingAction::WaitHealthy
    } else if fleet.old_total > 0 {
        if protect_spec(fleet.old_ready, fleet.new_ready) {
            RollingAction::KeepLastHealthy
        } else if fleet.old_draining > 0 {
            RollingAction::RemoveDrained
        } else if sat(fleet.old_total - fleet.old_ready) < (if max_unavailable > 1 {
            max_unavailable as int
        } else {
            1
        }) || fleet.new_ready > 0 {
            if fleet.old_ready == 0 {
                RollingAction::KeepLastHealthy
            } else {
                RollingAction::DrainOld
            }
        } else {
            RollingAction::WaitHealthy
        }
    } else if fleet.new_ready >= fleet.desired {
        RollingAction::Complete
    } else {
        RollingAction::WaitHealthy
    }
}

/// One rolling step. Calling it again with the same fleet repeats the same
/// action, so a restart resumes instead of resetting.
pub fn step_rolling(max_surge: u32, max_unavailable: u32, fleet: FleetCounts) -> (r: RollingAction)
    ensures
        r == step_spec(max_surge, max_unavailable, fleet),
{
    if fleet.new_total >= fleet.desired && fleet.old_total == 0 && fleet.new_ready >= fleet.desired {
        return RollingAction::Complete;
    }
    let surge = if max_surge > 1 {
        max_surge
    } else {
        1
    };
    let surge_room = fleet.desired.saturating_add(surge).saturating_sub(
        fleet.old_total.saturating_add(fleet.new_total),
    );
    if fleet.new_total < fleet.desired && surge_room > 0 && fleet.new_ready_long_enough
        == fleet.new_total {
        return RollingAction::AddNew;
    }
    if fleet.new_total > fleet.new_ready_long_enough {
        return RollingAction::WaitHealthy;
    }
    if fleet.old_total > 0 {
        if protect_last_healthy(fleet.old_ready, fleet.new_ready) {
            return RollingAction::KeepLastHealthy;
        }
        if fleet.old_draining > 0 {
            return RollingAction::RemoveDrained;
        }
        let unavailable = fleet.old_total.saturating_sub(fleet.old_ready);
        let allowed = if max_unavailable > 1 {
            max_unavailable
        } else {
            1
        };
        if unavailable < allowed || fleet.new_ready > 0 {
            if fleet.old_ready == 0 {
                return RollingAction::KeepLastHealthy;
            }
            return RollingAction::DrainOld;
        }
        return RollingAction::WaitHealthy;
    }
    if fleet.new_ready >= fleet.desired {
        RollingAction::Complete
    } else {
        RollingAction::WaitHealthy
    }
}

/// True when removing one more old replica would leave no ready replica.
pub fn protect_last_healthy(old_ready: u32, new_ready: u32) -> (r: bool)
    ensures
        r == protect_spec(old_ready, new_ready),
{
    old_ready <= 1 && new_ready == 0
}

/// The rolling step never drains or removes the last ready old replica
/// while the new revision has none ready, it only adds replicas below the
/// desired count, and it completes only once no old replica is left and
/// the new revision has the desired count ready.
pub proof fn lemma_rolling_keeps_a_ready_replica(max_surge: u32, max_unavailable: u32, fleet: FleetCounts)
    ensures
        ({
            let a = step_spec(max_surge, max_unavailable, fleet);
            &&& protect_spec(fleet.old_ready, fleet.new_ready) ==> a != RollingAction::DrainOld
                && a != RollingAction::RemoveDrained
            &&& a == RollingAction::DrainOld ==> fleet.old_ready > 0
            &&& a == RollingAction::AddNew ==> fleet.new_total < fleet.desired
            &&& a == RollingAction::Complete ==> fleet.old_total == 0 && fleet.new_ready >= fleet.desired
        }),
{
}

/// Maglev weights `(old, new)` for a canary step; `step_weight` is the
/// percent of traffic for the new revision, clamped to 1–100.
pub open spec fn canary_pct(step_weight: u8) -> int {
    if step_weight < 1 {
        1
    } else if step_weight > 100 {
        100
    } else {
        step_weight as int
    }
}

pub open spec fn at_least_one(v: int) -> int {
    if v < 1 {
        1
    } else {
        v
    }
}

pub fn canary_weights(step_weight: u8) -> (r: (u16, u16))
    ensures
        r.0 == at_least_one((100 - canary_pct(step_weight)) * 32 / 100),
        r.1 == at_least_one(canary_pct(step_weight) * 32 / 100),
{
    let pct: u32 = if step_weight < 1 {
        1
    } else if step_weight > 100 {
        100
    } else {
        step_weight as u32
    };
    let n = (pct * 32) / 100;
    let o = ((100 - pct) * 32) / 100;
    let new_w: u16 = if n < 1 {
        1
    } else {
        n as u16
    };
    let old_w: u16 = if o < 1 {
        1
    } else {
        o as u16
    };
    (old_w, new_w)
}

/// Canary weights stay within Maglev's 1–32 range, and a larger step never
/// gives the new revision less weight or the old one more.
pub proof fn lemma_canary_weights_bounded_and_monotone(a: u8, b: u8)
    ensures
        1 <= at_least_one(canary_pct(a) * 32 / 100) <= 32,
        1 <= at_least_one((100 - canary_pct(a)) * 32 / 100) <= 32,
        a <= b ==> at_least_one(canary_pct(a) * 32 / 100) <= at_least_one(canary_pct(b) * 32 / 100),
        a <= b ==> at_least_one((100 - canary_pct(b)) * 32 / 100) <= at_least_one(
            (100 - canary_pct(a)) * 32 / 100,
        ),
{
    let pa = canary_pct(a);
    let pb = canary_pct(b);
    assert(pa * 32 / 100 <= 32) by (nonlinear_arith)
        requires
            1 <= pa <= 100,
    ;
    assert((100 - pa) * 32 / 100 <= 32) by (nonlinear_arith)
        requires
            1 <= pa <= 100,
    ;
    if a <= b {
        assert(pa * 32 / 100 <= pb * 32 / 100) by (nonlinear_arith)
            requires
                1 <= pa <= pb <= 100,
        ;
        assert((100 - pb) * 32 / 100 <= (100 - pa) * 32 / 100) by (nonlinear_arith)
            requires
                1 <= pa <= pb <= 100,
        ;
    }
}

/// A rollback makes the previous revision active again and marks the run
/// rolling back.
pub fn plan_rollback(from_revision: u64, to_revision: u64) -> (r: (u64, RolloutPhase))
    ensures
        r == (from_revision, RolloutPhase::RollingBack),
{
    (from_revision, RolloutPhase::RollingBack)
}

// ---------------------------------------------------------------------------
// Replica weight changes
// ---------------------------------------------------------------------------
/// `rep` after `apply_weights(.., revision, weight)`.
pub open spec fn weighted(rep: InferenceReplica, revision: u64, weight: u16) -> InferenceReplica {
    if rep.revision == revision && !rep.draining {
        InferenceReplica { maglev_weight: Some(weight), ..rep }
    } else {
        rep
    }
}

/// Sets `weight` on every replica of `revision` that is not draining.
pub fn apply_weights(replicas: &mut Vec<InferenceReplica>, revision: u64, weight: u16)
    ensures
        final(replicas)@ == old(replicas)@.map_values(
            |r: InferenceReplica| weighted(r, revision, weight),
        ),
{
    let ghost orig = replicas@;
    let mut i: usize = 0;
    while i < replicas.len()
        invariant
            replicas@.len() == orig.len(),
            i <= orig.len(),
            forall|j: int| 0 <= j < i ==> replicas@[j] == weighted(orig[j], revision, weight),
            forall|j: int| i <= j < orig.len() ==> replicas@[j] == orig[j],
        decreases orig.len() - i,
    {
        if replicas[i].revision == revision && !replicas[i].draining {
            replicas[i].maglev_weight = Some(weight);
        }
        i = i + 1;
    }
    assert(replicas@ =~= orig.map_values(|r: InferenceReplica| weighted(r, revision, weight)));
}

/// Some replica of revision `to` exists, and every one of them is ready.
pub open spec fn fleet_all_ready(reps: Seq<InferenceReplica>, to: u64) -> bool {
    &&& exists|i: int| 0 <= i < reps.len() && (#[trigger] reps[i]).revision == to
    &&& forall|i: int| 0 <= i < reps.len() && (#[trigger] reps[i]).revision == to ==> reps[i].ready
}

/// `rep` after a blue/green cutover from `from` to `to`.
pub open spec fn cut_over(rep: InferenceReplica, from: u64, to: u64) -> InferenceReplica {
    if rep.revision == from {
        InferenceReplica { draining: true, maglev_weight: Some(1), ..rep }
    } else if rep.revision == to {
        InferenceReplica { draining: false, maglev_weight: Some(32), ..rep }
    } else {
        rep
    }
}

/// Blue/green cuts traffic in one assignment once the whole new fleet is
/// ready: old replicas drain at weight 1, new ones take weight 32.
pub fn blue_green_cutover(replicas: &mut Vec<InferenceReplica>, from: u64, to: u64) -> (r: bool)
    ensures
        r == fleet_all_ready(old(replicas)@, to),
        r ==> final(replicas)@ == old(replicas)@.map_values(|x: InferenceReplica| cut_over(x, from, to)),
        !r ==> final(replicas)@ == old(replicas)@,
{
    let ghost orig = replicas@;
    let mut any = false;
    let mut all = true;
    let mut i: usize = 0;
    while i < replicas.len()
        invariant
            replicas@ == orig,
            i <= orig.len(),
            any == exists|j: int| 0 <= j < i && (#[trigger] orig[j]).revision == to,
            all == forall|j: int| 0 <= j < i && (#[trigger] orig[j]).revision == to ==> orig[j].ready,
        decreases orig.len() - i,
    {
        if replicas[i].revision == to {
            any = true;
            if !replicas[i].ready {
                all = false;
            }
        }
        i = i + 1;
    }
    if !any || !all {
        return false;
    }
    let mut k: usize = 0;
    while k < replicas.len()
        invariant
            replicas@.len() == orig.len(),
            k <= orig.len(),
            forall|j: int| 0 <= j < k ==> replicas@[j] == cut_over(orig[j], from, to),
            forall|j: int| k <= j < orig.len() ==> replicas@[j] == orig[j],
        decreases orig.len() - k,
    {
        if replicas[k].revision == from {
            replicas[k].draining = true;
            replicas[k].maglev_weight = Some(1);
        } else if replicas[k].revision == to {
            replicas[k].draining = false;
            replicas[k].maglev_weight = Some(32);
        }
        k = k + 1;
    }
    assert(replicas@ =~= orig.map_values(|x: InferenceReplica| cut_over(x, from, to)));
    true
}

/// `b` is `a` with drain flag, weight and lifecycle set as given.
pub open spec fn relabeled(a: InferenceReplica, b: InferenceReplica, draining: bool, weight: u16, lifecycle: Seq<char>) -> bool {
    b == (InferenceReplica { draining, maglev_weight: Some(weight), lifecycle: b.lifecycle, ..a })
        && b.lifecycle@ == lifecycle
}

/// `b` is `a` after rolling back a run from revision `from` to revision `to`.
pub open spec fn restored(a: InferenceReplica, b: InferenceReplica, from: u64, to: u64) -> bool {
    if a.revision == from {
        relabeled(a, b, false, 32, "ready"@)
    } else if a.revision == to {
        relabeled(a, b, true, 1, "draining"@)
    } else {
        b == a
    }
}

/// Rollback: the previous revision takes full weight again and the new one drains.
pub fn restore_old_weights(replicas: &mut Vec<InferenceReplica>, from: u64, to: u64)
    ensures
        final(replicas)@.len() == old(replicas)@.len(),
        forall|j: int|
            0 <= j < old(replicas)@.len() ==> restored(
                #[trigger] old(replicas)@[j],
                final(replicas)@[j],
                from,
                to,
            ),
{
    let ghost orig = replicas@;
    let mut k: usize = 0;
    while k < replicas.len()
        invariant
            replicas@.len() == orig.len(),
            k <= orig.len(),
            forall|j: int| 0 <= j < k ==> restored(#[trigger] orig[j], replicas@[j], from, to),
            forall|j: int| k <= j < orig.len() ==> replicas@[j] == orig[j],
        decreases orig.len() - k,
    {
        if replicas[k].revision == from {
            replicas[k].draining = false;
            replicas[k].maglev_weight = Some(32);
            replicas[k].lifecycle = owned("ready");
        } else if replicas[k].revision == to {
            replicas[k].draining = true;
            replicas[k].maglev_weight = Some(1);
            replicas[k].lifecycle = owned("draining");
        }
        k = k + 1;
    }
}

// ---------------------------------------------------------------------------
// The rollout step
// ---------------------------------------------------------------------------
/// Keep the previous replica set while a rollout is in progress, paused or
/// rolling back, and inside the rollback window after a blue/green promotion.
pub fn retain_second_fleet(run: &RolloutRun, now_unix: i64) -> (r: bool)
    ensures
        r == (match run.phase {
            RolloutPhase::Progressing | RolloutPhase::Paused | RolloutPhase::RollingBack => true,
            RolloutPhase::Succeeded => run.strategy == RolloutStrategy::BlueGreen && clamp(
                now_unix - (match run.promoted_at {
                    Some(t) => t,
                    None => run.updated_at,
                }),
                i64::MIN as int,
                i64::MAX as int,
            ) < (run.rollback_window_secs as i64),
            _ => false,
        }),
{
    match run.phase {
        RolloutPhase::Progressing | RolloutPhase::Paused | RolloutPhase::RollingBack => true,
        RolloutPhase::Succeeded => {
            if run.strategy == RolloutStrategy::BlueGreen {
                let started = match run.promoted_at {
                    Some(t) => t,
                    None => run.updated_at,
                };
                sat_sub_i64(now_unix, started) < run.rollback_window_secs as i64
            } else {
                false
            }
        },
        _ => false,
    }
}

/// Ready for at least `min_secs`, or of unknown age, or no minimum set.
pub open spec fn long_enough(rep: InferenceReplica, min_secs: u64, now: i64) -> bool {
    min_secs == 0 || rep.created_at is None || clamp(
        now - rep.created_at->0,
        i64::MIN as int,
        i64::MAX as int,
    ) >= (min_secs as i64)
}

fn ready_long_enough(rep: &InferenceReplica, min_secs: u64, now_unix: i64) -> (r: bool)
    ensures
        r == long_enough(*rep, min_secs, now_unix),
{
    if min_secs == 0 {
        return true;
    }
    match rep.created_at {
        None => true,
        Some(created) => sat_sub_i64(now_unix, created) >= min_secs as i64,
    }
}

/// How many replicas satisfy `p`.
pub open spec fn count_where(s: Seq<InferenceReplica>, p: spec_fn(InferenceReplica) -> bool) -> nat
    decreases s.len(),
{
    if s.len() == 0 {
        0
    } else {
        count_where(s.drop_last(), p) + if p(s.last()) {
            1nat
        } else {
            0nat
        }
    }
}

pub open spec fn of_rev(rev: u64) -> spec_fn(InferenceReplica) -> bool {
    |r: InferenceReplica| r.revision == rev
}

pub open spec fn ready_of_rev(rev: u64) -> spec_fn(InferenceReplica) -> bool {
    |r: InferenceReplica| r.revision == rev && r.ready
}

pub open spec fn serving_of_rev(rev: u64) -> spec_fn(InferenceReplica) -> bool {
    |r: InferenceReplica| r.revision == rev && r.ready && !r.draining
}

pub open spec fn draining_of_rev(rev: u64) -> spec_fn(InferenceReplica) -> bool {
    |r: InferenceReplica| r.revision == rev && r.draining
}

pub open spec fn settled_of_rev(rev: u64, min_secs: u64, now: i64) -> spec_fn(InferenceReplica) -> bool {
    |r: InferenceReplica| r.revision == rev && r.ready && long_enough(r, min_secs, now)
}

/// The old and new fleets of a run, counted over `reps`.
pub open spec fn fleet_of(run: RolloutRun, reps: Seq<InferenceReplica>, now: i64, desired: u32) -> FleetCounts {
    FleetCounts {
        old_total: count_where(reps, of_rev(run.from_revision)) as u32,
        old_ready: count_where(reps, serving_of_rev(run.from_revision)) as u32,
        new_total: count_where(reps, of_rev(run.to_revision)) as u32,
        new_ready: count_where(reps, ready_of_rev(run.to_revision)) as u32,
        new_ready_long_enough: count_where(
            reps,
            settled_of_rev(run.to_revision, run.min_ready_secs, now),
        ) as u32,
        old_draining: count_where(reps, draining_of_rev(run.from_revision)) as u32,
        desired: if desired > 1 {
            desired
        } else {
            1
        },
    }
}

proof fn lemma_count_step(s: Seq<InferenceReplica>, i: int, p: spec_fn(InferenceReplica) -> bool)
    requires
        0 <= i < s.len(),
    ensures
        count_where(s.subrange(0, i + 1), p) == count_where(s.subrange(0, i), p) + if p(s[i]) {
            1nat
        } else {
            0nat
        },
        count_where(s.subrange(0, i), p) <= i,
    decreases i,
{
    let t = s.subrange(0, i + 1);
    assert(t.drop_last() =~= s.subrange(0, i));
    if i > 0 {
        lemma_count_step(s, i - 1, p);
    } else {
        assert(s.subrange(0, 0).len() == 0);
    }
}

fn fleet_counts(run: &RolloutRun, replicas: &Vec<InferenceReplica>, now_unix: i64, desired: u32) -> (r: FleetCounts)
    ensures
        r == fleet_of(*run, replicas@, now_unix, desired),
{
    let ghost s = replicas@;
    let from = run.from_revision;
    let to = run.to_revision;
    let mut old_total: usize = 0;
    let mut old_ready: usize = 0;
    let mut new_total: usize = 0;
    let mut new_ready: usize = 0;
    let mut settled: usize = 0;
    let mut old_draining: usize = 0;
    let mut i: usize = 0;
    while i < replicas.len()
        invariant
            s == replicas@,
            i <= s.len(),
            from == run.from_revision,
            to == run.to_revision,
            old_total == count_where(s.subrange(0, i as int), of_rev(from)),
            old_ready == count_where(s.subrange(0, i as int), serving_of_rev(from)),
            new_total == count_where(s.subrange(0, i as int), of_rev(to)),
            new_ready == count_where(s.subrange(0, i as int), ready_of_rev(to)),
            settled == count_where(
                s.subrange(0, i as int),
                settled_of_rev(to, run.min_ready_secs, now_unix),
            ),
            old_draining == count_where(s.subrange(0, i as int), draining_of_rev(from)),
        decreases s.len() - i,
    {
        proof {
            lemma_count_step(s, i as int, of_rev(from));
            lemma_count_step(s, i as int, serving_of_rev(from));
            lemma_count_step(s, i as int, of_rev(to));
            lemma_count_step(s, i as int, ready_of_rev(to));
            lemma_count_step(s, i as int, settled_of_rev(to, run.min_ready_secs, now_unix));
            lemma_count_step(s, i as int, draining_of_rev(from));
        }
        let rep = &replicas[i];
        if rep.revision == from {
            old_total = old_total + 1;
            if rep.ready && !rep.draining {
                old_ready = old_ready + 1;
            }
            if rep.draining {
                old_draining = old_draining + 1;
            }
        }
        if rep.revision == to {
            new_total = new_total + 1;
            if rep.ready {
                new_ready = new_ready + 1;
                if ready_long_enough(rep, run.min_ready_secs, now_unix) {
                    settled = settled + 1;
                }
            }
        }
        i = i + 1;
    }
    proof {
        assert(s.subrange(0, s.len() as int) =~= s);
    }
    FleetCounts {
        old_total: old_total as u32,
        old_ready: old_ready as u32,
        new_total: new_total as u32,
        new_ready: new_ready as u32,
        new_ready_long_enough: settled as u32,
        old_draining: old_draining as u32,
        desired: if desired > 1 {
            desired
        } else {
            1
        },
    }
}

/// The parts of a rollout run that a step may change.
pub struct RunState {
    pub phase: RolloutPhase,
    pub step_index: u32,
    pub steps: Seq<CanaryStep>,
    pub step_started_unix: i64,
    pub promoted_at: Option<i64>,
    pub message: Option<Seq<char>>,
}

pub open spec fn run_state(run: RolloutRun) -> RunState {
    RunState {
        phase: run.phase,
        step_index: run.step_index,
        steps: run.steps@,
        step_started_unix: run.step_started_unix,
        promoted_at: run.promoted_at,
        message: match run.message {
            Some(m) => Some(m@),
            None => None,
        },
    }
}

/// The parts of a run that a step never changes.
pub open spec fn same_config(a: RolloutRun, b: RolloutRun) -> bool {
    &&& a.id == b.id
    &&& a.deployment == b.deployment
    &&& a.strategy == b.strategy
    &&& a.from_revision == b.from_revision
    &&& a.to_revision == b.to_revision
    &&& a.max_surge == b.max_surge
    &&& a.max_unavailable == b.max_unavailable
    &&& a.min_ready_secs == b.min_ready_secs
    &&& a.rollback_window_secs == b.rollback_window_secs
    &&& a.created_at == b.created_at
    &&& a.updated_at == b.updated_at
}

/// What a step does to the replicas.
#[derive(Debug, Clone)]
pub enum ReplicaChange {
    Unchanged,
    /// Canary weights: the old revision, its weight, the new one, its weight.
    Weighted(u64, u16, u64, u16),
    /// Blue/green cutover from the first revision to the second.
    CutOver(u64, u64),
    /// Drain the first ready, not yet draining replica of the revision.
    DrainOne(u64),
}

/// The first ready, not yet draining replica of `rev`, from index `i` on.
pub open spec fn first_drainable(reps: Seq<InferenceReplica>, rev: u64, i: int) -> Option<int>
    decreases reps.len() - i,
{
    if i < 0 || i >= reps.len() {
        None
    } else if reps[i].revision == rev && !reps[i].draining && reps[i].ready {
        Some(i)
    } else {
        first_drainable(reps, rev, i + 1)
    }
}

/// `b` is `a` after `c`.
pub open spec fn changed(a: Seq<InferenceReplica>, b: Seq<InferenceReplica>, c: ReplicaChange) -> bool {
    match c {
        ReplicaChange::Unchanged => b == a,
        ReplicaChange::Weighted(from, old_w, to, new_w) => b == a.map_values(
            |r: InferenceReplica| weighted(r, from, old_w),
        ).map_values(|r: InferenceReplica| weighted(r, to, new_w)),
        ReplicaChange::CutOver(from, to) => b == a.map_values(
            |r: InferenceReplica| cut_over(r, from, to),
        ),
        ReplicaChange::DrainOne(rev) => match first_drainable(a, rev, 0) {
            None => b == a,
            Some(i) => b.len() == a.len() && relabeled(a[i], b[i], true, 1, "draining"@) && forall|
                j: int,
            | 0 <= j < a.len() && j != i ==> #[trigger] b[j] == a[j],
        },
    }
}

/// The steps a canary follows: the run's own, or the default ones.
pub open spec fn canary_steps(run: RolloutRun) -> Seq<CanaryStep> {
    if run.steps@.len() == 0 {
        seq![
            CanaryStep { weight: 5, duration_secs: 300 },
            CanaryStep { weight: 20, duration_secs: 600 },
            CanaryStep { weight: 50, duration_secs: 900 },
            CanaryStep { weight: 100, duration_secs: 0 },
        ]
    } else {
        run.steps@
    }
}

/// Some replica of `rev` is ready.
pub open spec fn any_ready(reps: Seq<InferenceReplica>, rev: u64) -> bool {
    exists|i: int| 0 <= i < reps.len() && (#[trigger] reps[i]).revision == rev && reps[i].ready
}

/// One canary tick: the new run state, what happens to the replicas, and
/// whether the deployment moves to the new revision.
pub open spec fn canary_next(run: RolloutRun, reps: Seq<InferenceReplica>, now: i64) -> (RunState, ReplicaChange, bool) {
    let steps = canary_steps(run);
    let s1 = RunState { steps, ..run_state(run) };
    if !any_ready(reps, run.to_revision) {
        (RunState { message: Some("waiting for the new fleet"@), ..s1 }, ReplicaChange::Unchanged, false)
    } else if run.step_index >= steps.len() {
        (
            RunState { phase: RolloutPhase::Succeeded, message: Some("canary promoted"@), ..s1 },
            ReplicaChange::Unchanged,
            true,
        )
    } else {
        let step = steps[run.step_index as int];
        let change = ReplicaChange::Weighted(
            run.from_revision,
            at_least_one((100 - canary_pct(step.weight)) * 32 / 100) as u16,
            run.to_revision,
            at_least_one(canary_pct(step.weight) * 32 / 100) as u16,
        );
        let started = if run.step_started_unix == 0 {
            now
        } else {
            run.step_started_unix
        };
        let held = clamp(now - started, i64::MIN as int, i64::MAX as int);
        let shown = "canary weight "@ + dec(step.weight as nat);
        if step.duration_secs > 0 && held < (step.duration_secs as i64) {
            (
                RunState {
                    step_started_unix: started,
                    message: Some(shown + " held for "@ + dec_int(held) + "s"@),
                    ..s1
                },
                change,
                false,
            )
        } else if step.weight >= 100 {
            (
                RunState {
                    step_started_unix: started,
                    phase: RolloutPhase::Succeeded,
                    promoted_at: Some(now),
                    message: Some(shown),
                    ..s1
                },
                change,
                true,
            )
        } else {
            (
                RunState {
                    step_index: clamp(run.step_index + 1, 0, u32::MAX as int) as u32,
                    step_started_unix: now,
                    message: Some(shown),
                    ..s1
                },
                change,
                false,
            )
        }
    }
}

/// One rolling tick over the fleet counted before the tick.
pub open spec fn rolling_next(run: RolloutRun, reps: Seq<InferenceReplica>, now: i64, desired: u32) -> (RunState, ReplicaChange, bool) {
    let f = fleet_of(run, reps, now, desired);
    let s0 = run_state(run);
    let keep = (RunState { message: Some("keeping the last healthy old replica"@), ..s0 }, ReplicaChange::Unchanged, false);
    match step_spec(run.max_surge, run.max_unavailable, f) {
        RollingAction::AddNew => (
            RunState { message: Some("create one new-revision replica"@), ..s0 },
            ReplicaChange::Unchanged,
            false,
        ),
        RollingAction::WaitHealthy => (
            RunState { message: Some("waiting for minimum healthy duration"@), ..s0 },
            ReplicaChange::Unchanged,
            false,
        ),
        RollingAction::DrainOld => if protect_spec(f.old_ready, f.new_ready) {
            keep
        } else {
            (
                RunState { message: Some("draining one old replica"@), ..s0 },
                ReplicaChange::DrainOne(run.from_revision),
                false,
            )
        },
        RollingAction::RemoveDrained => (
            RunState { message: Some("remove one drained old replica"@), ..s0 },
            ReplicaChange::Unchanged,
            false,
        ),
        RollingAction::KeepLastHealthy => keep,
        RollingAction::Complete => (
            RunState {
                phase: RolloutPhase::Succeeded,
                message: Some("rolling update complete"@),
                ..s0
            },
            ReplicaChange::Unchanged,
            true,
        ),
    }
}

/// One tick of a stored rollout. `breached` says whether the live error
/// rate or TTFT is over the run's rollback thresholds.
pub open spec fn rollout_next(run: RolloutRun, reps: Seq<InferenceReplica>, now: i64, desired: u32, breached: bool) -> (RunState, ReplicaChange, bool) {
    let s0 = run_state(run);
    if run.phase == RolloutPhase::Paused || run.phase == RolloutPhase::Succeeded {
        (s0, ReplicaChange::Unchanged, false)
    } else if breached {
        (
            RunState {
                phase: RolloutPhase::Paused,
                message: Some("paused: error rate or TTFT exceeded rollback thresholds"@),
                ..s0
            },
            ReplicaChange::Unchanged,
            false,
        )
    } else {
        match run.strategy {
            RolloutStrategy::Canary => canary_next(run, reps, now),
            RolloutStrategy::BlueGreen => if fleet_all_ready(reps, run.to_revision) {
                (
                    RunState {
                        phase: RolloutPhase::Succeeded,
                        promoted_at: Some(now),
                        message: Some("blue/green cutover; old fleet retained"@),
                        ..s0
                    },
                    ReplicaChange::CutOver(run.from_revision, run.to_revision),
                    true,
                )
            } else {
                (
                    RunState { message: Some("waiting for the new fleet"@), ..s0 },
                    ReplicaChange::Unchanged,
                    false,
                )
            },
            RolloutStrategy::Rolling => rolling_next(run, reps, now, desired),
        }
    }
}

fn set_message(run: &mut RolloutRun, text: &str)
    ensures
        *final(run) == (RolloutRun { message: final(run).message, ..*old(run) }),
        final(run).message matches Some(m) && m@ == text@,
{
    run.message = Some(owned(text));
}

fn any_ready_of(replicas: &Vec<InferenceReplica>, rev: u64) -> (r: bool)
    ensures
        r == any_ready(replicas@, rev),
{
    let mut i: usize = 0;
    while i < replicas.len()
        invariant
            i <= replicas@.len(),
            forall|j: int| 0 <= j < i ==> !((#[trigger] replicas@[j]).revision == rev && replicas@[j].ready),
        decreases replicas.len() - i,
    {
        if replicas[i].revision == rev && replicas[i].ready {
            assert(replicas@[i as int].revision == rev);
            return true;
        }
        i = i + 1;
    }
    false
}

fn advance_canary(run: &mut RolloutRun, replicas: &mut Vec<InferenceReplica>, now_unix: i64) -> (r: bool)
    ensures
        ({
            let (st, ch, moved) = canary_next(*old(run), old(replicas)@, now_unix);
            &&& r == moved
            &&& run_state(*final(run)) == st
            &&& same_config(*old(run), *final(run))
            &&& changed(old(replicas)@, final(replicas)@, ch)
        }),
{
    let ghost r0 = *run;
    if run.steps.len() == 0 {
        run.steps = default_canary_steps();
    }
    assert(run.steps@ == canary_steps(r0));
    if !any_ready_of(replicas, run.to_revision) {
        set_message(run, "waiting for the new fleet");
        return false;
    }
    let idx = run.step_index as usize;
    if idx >= run.steps.len() {
        run.phase = RolloutPhase::Succeeded;
        set_message(run, "canary promoted");
        return true;
    }
    let step = run.steps[idx];
    let (old_w, new_w) = canary_weights(step.weight);
    apply_weights(replicas, run.from_revision, old_w);
    apply_weights(replicas, run.to_revision, new_w);
    if run.step_started_unix == 0 {
        run.step_started_unix = now_unix;
    }
    let held = sat_sub_i64(now_unix, run.step_started_unix);
    let mut shown = owned("canary weight ");
    push_dec(&mut shown, step.weight as u64);
    if step.duration_secs > 0 && held < step.duration_secs as i64 {
        shown.append(" held for ");
        push_dec_i64(&mut shown, held);
        shown.append("s");
        run.message = Some(shown);
        return false;
    }
    run.message = Some(shown);
    if step.weight >= 100 {
        run.phase = RolloutPhase::Succeeded;
        run.promoted_at = Some(now_unix);
        return true;
    }
    run.step_index = run.step_index.saturating_add(1);
    run.step_started_unix = now_unix;
    false
}

fn drain_one_old(replicas: &mut Vec<InferenceReplica>, rev: u64)
    ensures
        changed(old(replicas)@, final(replicas)@, ReplicaChange::DrainOne(rev)),
{
    let ghost orig = replicas@;
    let mut i: usize = 0;
    while i < replicas.len()
        invariant
            replicas@ == orig,
            orig == old(replicas)@,
            i <= orig.len(),
            first_drainable(orig, rev, 0) == first_drainable(orig, rev, i as int),
        decreases orig.len() - i,
    {
        if replicas[i].revision == rev && !replicas[i].draining && replicas[i].ready {
            replicas[i].draining = true;
            replicas[i].maglev_weight = Some(1);
            replicas[i].lifecycle = owned("draining");
            proof {
                assert(first_drainable(orig, rev, i as int) == Some(i as int));
                assert(relabeled(orig[i as int], replicas@[i as int], true, 1, "draining"@));
                assert forall|j: int| 0 <= j < orig.len() && j != i implies #[trigger] replicas@[j]
                    == orig[j] by {}
            }
            return;
        }
        i = i + 1;
    }
}

/// Advances a stored rollout one tick and says whether the deployment's
/// model pointer moves to the new revision. `desired` is the deployment's
/// replica count; `breached` says whether live error rate or TTFT is over
/// the run's rollback thresholds.
pub fn advance_rollout(
    run: &mut RolloutRun,
    replicas: &mut Vec<InferenceReplica>,
    now_unix: i64,
    desired: u32,
    breached: bool,
) -> (r: bool)
    ensures
        ({
            let (st, ch, moved) = rollout_next(*old(run), old(replicas)@, now_unix, desired, breached);
            &&& r == moved
            &&& run_state(*final(run)) == st
            &&& same_config(*old(run), *final(run))
            &&& changed(old(replicas)@, final(replicas)@, ch)
        }),
{
    if run.phase == RolloutPhase::Paused || run.phase == RolloutPhase::Succeeded {
        return false;
    }
    if breached {
        run.phase = RolloutPhase::Paused;
        set_message(run, "paused: error rate or TTFT exceeded rollback thresholds");
        return false;
    }
    let fleet = fleet_counts(run, replicas, now_unix, desired);
    match run.strategy {
        RolloutStrategy::Canary => advance_canary(run, replicas, now_unix),
        RolloutStrategy::BlueGreen => {
            let from = run.from_revision;
            let to = run.to_revision;
            if blue_green_cutover(replicas, from, to) {
                run.phase = RolloutPhase::Succeeded;
                run.promoted_at = Some(now_unix);
                set_message(run, "blue/green cutover; old fleet retained");
                true
            } else {
                set_message(run, "waiting for the new fleet");
                false
            }
        },
        RolloutStrategy::Rolling => match step_rolling(run.max_surge, run.max_unavailable, fleet) {
            RollingAction::AddNew => {
                set_message(run, "create one new-revision replica");
                false
            },
            RollingAction::WaitHealthy => {
                set_message(run, "waiting for minimum healthy duration");
                false
            },
            RollingAction::DrainOld => {
                if protect_last_healthy(fleet.old_ready, fleet.new_ready) {
                    set_message(run, "keeping the last healthy old replica");
                    return false;
                }
                let from = run.from_revision;
                drain_one_old(replicas, from);
                set_message(run, "draining one old replica");
                false
            },
            RollingAction::RemoveDrained => {
                set_message(run, "remove one drained old replica");
                false
            },
            RollingAction::KeepLastHealthy => {
                set_message(run, "keeping the last healthy old replica");
                false
            },
            RollingAction::Complete => {
                run.phase = RolloutPhase::Succeeded;
                set_message(run, "rolling update complete");
                true
            },
        },
    }
}

/// A paused or finished rollout stays as it is: a tick changes neither the
/// run nor the replicas and does not move the deployment.
pub proof fn lemma_settled_run_is_unchanged(run: RolloutRun, reps: Seq<InferenceReplica>, now: i64, desired: u32, breached: bool)
    requires
        run.phase == RolloutPhase::Paused || run.phase == RolloutPhase::Succeeded,
    ensures
        rollout_next(run, reps, now, desired, breached) == (run_state(run), ReplicaChange::Unchanged, false),
{
}

/// A rolling tick drains an old replica only when one more ready replica
/// remains: more than one old replica serving, or a ready new one.
pub proof fn lemma_rolling_drain_keeps_service(run: RolloutRun, reps: Seq<InferenceReplica>, now: i64, desired: u32)
    ensures
        rolling_next(run, reps, now, desired).1 is DrainOne ==> ({
            let f = fleet_of(run, reps, now, desired);
            f.old_ready > 1 || f.new_ready > 0
        }),
{
}

/// A breached threshold pauses a running rollout before anything else.
pub proof fn lemma_breach_pauses(run: RolloutRun, reps: Seq<InferenceReplica>, now: i64, desired: u32)
    requires
        run.phase != RolloutPhase::Paused && run.phase != RolloutPhase::Succeeded,
    ensures
        rollout_next(run, reps, now, desired, true).0.phase == RolloutPhase::Paused,
        rollout_next(run, reps, now, desired, true).1 is Unchanged,
        !rollout_next(run, reps, now, desired, true).2,
{
}

/// The revision records to update after a rollout step: the old revision's
/// id with `from_state`, then the new one's with `to_state`.
pub fn note_revision_states(
    deployment: &str,
    from: u64,
    to: u64,
    from_state: RevisionState,
    to_state: RevisionState,
) -> (r: Vec<(String, RevisionState)>)
    ensures
        r@.len() == 2,
        r@[0].0@ == deployment@ + "--"@ + dec(from as nat),
        r@[0].1 == from_state,
        r@[1].0@ == deployment@ + "--"@ + dec(to as nat),
        r@[1].1 == to_state,
{
    let mut out: Vec<(String, RevisionState)> = Vec::new();
    out.push((revision_id(deployment, from), from_state));
    out.push((revision_id(deployment, to), to_state));
    out
}

/// The number of a new revision: one past the highest stored revision, or
/// past the deployment's own when none is stored.
pub fn next_revision(stored: &[u64], current: u64) -> (r: u64)
    ensures
        stored@.len() == 0 ==> r == clamp(current + 1, 0, u64::MAX as int),
        stored@.len() > 0 ==> (exists|i: int| 0 <= i < stored@.len() && r == clamp(#[trigger] stored@[i] + 1, 0, u64::MAX as int)),
        stored@.len() > 0 ==> forall|i: int| 0 <= i < stored@.len() ==> #[trigger] stored@[i] < r || r == u64::MAX,
{
    if stored.len() == 0 {
        return current.saturating_add(1);
    }
    let mut best: u64 = stored[0];
    let mut k: usize = 1;
    while k < stored.len()
        invariant
            1 <= k <= stored@.len(),
            exists|i: int| 0 <= i < k && best == #[trigger] stored@[i],
            forall|i: int| 0 <= i < k ==> #[trigger] stored@[i] <= best,
        decreases stored.len() - k,
    {
        if stored[k] > best {
            best = stored[k];
        }
        k = k + 1;
    }
    best.saturating_add(1)
}

// ---------------------------------------------------------------------------
// Stored revisions and replica sets
// ---------------------------------------------------------------------------

/// The first record of a new revision: provisioning, with an empty replica
/// set that wants the deployment's replica count.
pub fn seed_revision(dep: &InferenceDeployment, model_digest: &str) -> (r: (
    InferenceDeploymentRevision,
    InferenceReplicaSet,
))
    ensures
        r.0.id@ == dep.name@ + "--"@ + dec(dep.revision as nat),
        r.0.deployment@ == dep.name@ && r.0.revision == dep.revision,
        r.0.model@ == dep.model@ && r.0.model_digest@ == model_digest@ && r.0.profile@ == dep.profile@,
        r.0.runtime_config_digest@ == Seq::<char>::empty(),
        r.0.desired_replicas == dep.replicas && r.0.created_at == dep.created,
        r.0.state == RevisionState::Provisioning,
        r.1.id@ == dep.name@ + "--set-"@ + dec(dep.revision as nat),
        r.1.deployment@ == dep.name@ && r.1.revision == dep.revision,
        r.1.desired == dep.replicas && r.1.ready == 0 && r.1.replicas@.len() == 0,
{
    let rev = InferenceDeploymentRevision {
        id: revision_id(dep.name.as_str(), dep.revision),
        deployment: owned(dep.name.as_str()),
        revision: dep.revision,
        model: owned(dep.model.as_str()),
        model_digest: owned(model_digest),
        profile: owned(dep.profile.as_str()),
        runtime_config_digest: String::new(),
        desired_replicas: dep.replicas,
        created_at: dep.created,
        state: RevisionState::Provisioning,
    };
    let set = InferenceReplicaSet {
        id: replica_set_id(dep.name.as_str(), dep.revision),
        deployment: owned(dep.name.as_str()),
        revision: dep.revision,
        desired: dep.replicas,
        ready: 0,
        replicas: Vec::new(),
    };
    (rev, set)
}

/// The revision a stored replica belongs to; records written before
/// revisions existed belong to the deployment's current one.
pub open spec fn rev_key(a: InferenceReplica, current: u64) -> u64 {
    if a.revision == 0 {
        current
    } else {
        a.revision
    }
}

/// `b` is replica `a` with its revision and deployment filled in.
pub open spec fn normal_of(a: InferenceReplica, b: InferenceReplica, name: Seq<char>, current: u64) -> bool {
    &&& same_replica(InferenceReplica { revision: rev_key(a, current), deployment: b.deployment, ..a }, b)
    &&& b.deployment@ == (if a.deployment@.len() == 0 {
        name
    } else {
        a.deployment@
    })
}

/// The replicas of `reps` that belong to revision `rev`, in order.
pub open spec fn of_revision(reps: Seq<InferenceReplica>, rev: u64, current: u64) -> Seq<InferenceReplica>
    decreases reps.len(),
{
    if reps.len() == 0 {
        Seq::empty()
    } else {
        of_revision(reps.drop_last(), rev, current) + if rev_key(reps.last(), current) == rev {
            seq![reps.last()]
        } else {
            Seq::empty()
        }
    }
}

/// The replicas of each revision in `revs`, one revision after another.
pub open spec fn grouped(reps: Seq<InferenceReplica>, revs: Seq<u64>, current: u64) -> Seq<InferenceReplica>
    decreases revs.len(),
{
    if revs.len() == 0 {
        Seq::empty()
    } else {
        grouped(reps, revs.drop_last(), current) + of_revision(reps, revs.last(), current)
    }
}

/// The `desired` of the first stored set with this id, else 0.
pub open spec fn stored_desired(stored: Seq<InferenceReplicaSet>, id: Seq<char>) -> u32
    decreases stored.len(),
{
    if stored.len() == 0 {
        0
    } else if stored[0].id@ == id {
        stored[0].desired
    } else {
        stored_desired(stored.drop_first(), id)
    }
}

pub open spec fn is_ready() -> spec_fn(InferenceReplica) -> bool {
    |r: InferenceReplica| r.ready
}

/// `s` is the replica set of revision `s.revision` of deployment `name`,
/// made from `group`: its replicas filled in, how many are ready, and as
/// many wanted as it has or as were stored, whichever is more.
pub open spec fn set_of(
    s: InferenceReplicaSet,
    group: Seq<InferenceReplica>,
    name: Seq<char>,
    current: u64,
    stored: Seq<InferenceReplicaSet>,
) -> bool {
    &&& s.id@ == name + "--set-"@ + dec(s.revision as nat)
    &&& s.deployment@ == name
    &&& s.replicas@.len() == group.len()
    &&& forall|m: int| 0 <= m < group.len() ==> normal_of(group[m], #[trigger] s.replicas@[m], name, current)
    &&& s.ready == count_where(group, is_ready()) as u32
    &&& s.desired == (if group.len() as u32 >= stored_desired(stored, s.id@) {
        group.len() as u32
    } else {
        stored_desired(stored, s.id@)
    })
}

fn find_desired(stored: &[InferenceReplicaSet], id: &str) -> (r: u32)
    ensures
        r == stored_desired(stored@, id@),
{
    let mut i: usize = 0;
    assert(stored@.subrange(0, stored@.len() as int) =~= stored@);
    while i < stored.len()
        invariant
            i <= stored@.len(),
            stored_desired(stored@, id@) == stored_desired(stored@.subrange(i as int, stored@.len() as int), id@),
        decreases stored.len() - i,
    {
        proof {
            let t = stored@.subrange(i as int, stored@.len() as int);
            assert(t.drop_first() =~= stored@.subrange(i + 1, stored@.len() as int));
        }
        if str_eq(stored[i].id.as_str(), id) {
            return stored[i].desired;
        }
        i = i + 1;
    }
    0
}

/// Adds `r` to the strictly increasing list `revs`, keeping it so.
fn insert_revision(sorted: Vec<u64>, r: u64) -> (out: Vec<u64>)
    requires
        forall|i: int, j: int| 0 <= i < j < sorted@.len() ==> sorted@[i] < sorted@[j],
    ensures
        forall|i: int, j: int| 0 <= i < j < out@.len() ==> out@[i] < out@[j],
        forall|x: u64| out@.contains(x) <==> (sorted@.contains(x) || x == r),
{
    let mut revs = sorted;
    let mut j: usize = 0;
    while j < revs.len() && revs[j] < r
        invariant
            revs@ == sorted@,
            j <= revs@.len(),
            forall|k: int| 0 <= k < j ==> revs@[k] < r,
        decreases revs.len() - j,
    {
        j = j + 1;
    }
    if j < revs.len() && revs[j] == r {
        proof {
            assert(revs@[j as int] == r);
        }
        return revs;
    }
    let ghost before = revs@;
    revs.insert(j, r);
    proof {
        assert(revs@ =~= before.subrange(0, j as int).push(r) + before.subrange(j as int, before.len() as int));
        assert forall|x: u64| #[trigger] revs@.contains(x) <==> (sorted@.contains(x) || x == r) by {
            if before.contains(x) {
                let k = choose|k: int| 0 <= k < before.len() && before[k] == x;
                if k < j {
                    assert(revs@[k] == x);
                } else {
                    assert(revs@[k + 1] == x);
                }
            }
            if x == r {
                assert(revs@[j as int] == r);
            }
            if revs@.contains(x) {
                let k = choose|k: int| 0 <= k < revs@.len() && revs@[k] == x;
                if k < j {
                    assert(before[k] == x);
                } else if k > j {
                    assert(before[k - 1] == x);
                }
            }
        }
    }
    revs
}

proof fn lemma_grouped_push(reps: Seq<InferenceReplica>, revs: Seq<u64>, rev: u64, current: u64)
    ensures
        grouped(reps, revs.push(rev), current) == grouped(reps, revs, current) + of_revision(reps, rev, current),
{
    assert(revs.push(rev).drop_last() =~= revs);
}

proof fn lemma_of_revision_push(reps: Seq<InferenceReplica>, a: InferenceReplica, rev: u64, current: u64)
    ensures
        of_revision(reps.push(a), rev, current) == of_revision(reps, rev, current) + if rev_key(a, current) == rev {
            seq![a]
        } else {
            Seq::empty()
        },
{
    assert(reps.push(a).drop_last() =~= reps);
}

proof fn lemma_count_push(s: Seq<InferenceReplica>, a: InferenceReplica)
    ensures
        count_where(s.push(a), is_ready()) == count_where(s, is_ready()) + if a.ready {
            1nat
        } else {
            0nat
        },
{
    assert(s.push(a).drop_last() =~= s);
}

proof fn lemma_of_revision_len(s: Seq<InferenceReplica>, rev: u64, current: u64)
    ensures
        of_revision(s, rev, current).len() <= s.len(),
    decreases s.len(),
{
    if s.len() > 0 {
        lemma_of_revision_len(s.drop_last(), rev, current);
    }
}

proof fn lemma_count_bound(s: Seq<InferenceReplica>)
    ensures
        count_where(s, is_ready()) <= s.len(),
    decreases s.len(),
{
    if s.len() > 0 {
        lemma_count_bound(s.drop_last());
    }
}

/// Splits the deployment's replicas into one set per revision, in
/// increasing revision order, and puts their union back on the status.
/// A replica without a revision joins the current one, and one without a
/// deployment name gets this one's; a deployment without replicas still
/// gets the empty set of its current revision. `stored` are the sets kept
/// from before, whose `desired` a set keeps when it has fewer replicas.
pub fn sync_replica_sets(dep: &mut InferenceDeployment, stored: &[InferenceReplicaSet]) -> (sets: Vec<
    InferenceReplicaSet,
>)
    ensures
        ({
            let orig = old(dep).status.replicas@;
            let name = old(dep).name@;
            let current = old(dep).revision;
            let revs = sets@.map_values(|s: InferenceReplicaSet| s.revision);
            &&& *final(dep) == (InferenceDeployment {
                status: InferenceDeploymentStatus { replicas: final(dep).status.replicas, ..old(dep).status },
                ..*old(dep)
            })
            &&& forall|i: int, j: int| 0 <= i < j < revs.len() ==> revs[i] < revs[j]
            &&& forall|x: u64|
                revs.contains(x) <==> (if orig.len() == 0 {
                    x == current
                } else {
                    exists|i: int| 0 <= i < orig.len() && rev_key(#[trigger] orig[i], current) == x
                })
            &&& forall|k: int|
                0 <= k < sets@.len() ==> set_of(
                    #[trigger] sets@[k],
                    of_revision(orig, sets@[k].revision, current),
                    name,
                    current,
                    stored@,
                )
            &&& final(dep).status.replicas@.len() == grouped(orig, revs, current).len()
            &&& forall|m: int|
                0 <= m < final(dep).status.replicas@.len() ==> normal_of(
                    grouped(orig, revs, current)[m],
                    #[trigger] final(dep).status.replicas@[m],
                    name,
                    current,
                )
        }),
{
    let ghost orig = dep.status.replicas@;
    let current = dep.revision;
    let mut norm: Vec<InferenceReplica> = Vec::new();
    std::mem::swap(&mut norm, &mut dep.status.replicas);
    assert(norm@ == orig);
    // Fill in the revision and the deployment name.
    let mut i: usize = 0;
    while i < norm.len()
        invariant
            norm@.len() == orig.len(),
            i <= orig.len(),
            current == dep.revision,
            forall|k: int| 0 <= k < i ==> normal_of(orig[k], #[trigger] norm@[k], dep.name@, current),
            forall|k: int| i <= k < orig.len() ==> #[trigger] norm@[k] == orig[k],
        decreases orig.len() - i,
    {
        if norm[i].revision == 0 {
            norm[i].revision = current;
        }
        if norm[i].deployment.unicode_len() == 0 {
            norm[i].deployment = owned(dep.name.as_str());
        }
        i = i + 1;
    }
    // The revisions present, in increasing order.
    let mut revs: Vec<u64> = Vec::new();
    let mut i: usize = 0;
    while i < norm.len()
        invariant
            norm@.len() == orig.len(),
            i <= orig.len(),
            forall|k: int| 0 <= k < orig.len() ==> normal_of(orig[k], #[trigger] norm@[k], dep.name@, current),
            forall|a: int, b: int| 0 <= a < b < revs@.len() ==> revs@[a] < revs@[b],
            forall|x: u64|
                revs@.contains(x) <==> exists|k: int| 0 <= k < i && rev_key(#[trigger] orig[k], current) == x,
        decreases orig.len() - i,
    {
        let ghost before = revs@;
        revs = insert_revision(revs, norm[i].revision);
        proof {
            assert(norm@[i as int].revision == rev_key(orig[i as int], current));
            assert forall|x: u64|
                revs@.contains(x) <==> exists|k: int| 0 <= k < i + 1 && rev_key(#[trigger] orig[k], current) == x by {
                if revs@.contains(x) && !before.contains(x) {
                    assert(rev_key(orig[i as int], current) == x);
                }
            }
        }
        i = i + 1;
    }
    let ghost r0 = revs@;
    if revs.len() == 0 {
        revs.push(current);
    }
    proof {
        if orig.len() > 0 {
            let x0 = rev_key(orig[0], current);
            assert(r0.contains(x0));
            assert(revs@ == r0);
        } else {
            if r0.len() > 0 {
                assert(r0.contains(r0[0]));
            }
            assert(revs@ =~= seq![current]);
        }
    }
    assert forall|x: u64|
        revs@.contains(x) <==> (if orig.len() == 0 {
            x == current
        } else {
            exists|k: int| 0 <= k < orig.len() && rev_key(#[trigger] orig[k], current) == x
        }) by {
        if orig.len() == 0 && x == current {
            assert(revs@[0] == x);
        }
    }
    // One set per revision, and their union.
    let mut sets: Vec<InferenceReplicaSet> = Vec::new();
    let mut union: Vec<InferenceReplica> = Vec::new();
    let mut k: usize = 0;
    while k < revs.len()
        invariant
            norm@.len() == orig.len(),
            k <= revs@.len(),
            sets@.len() == k,
            forall|a: int| 0 <= a < orig.len() ==> normal_of(orig[a], #[trigger] norm@[a], dep.name@, current),
            forall|a: int| 0 <= a < k ==> (#[trigger] sets@[a]).revision == revs@[a],
            forall|a: int|
                0 <= a < k ==> set_of(
                    #[trigger] sets@[a],
                    of_revision(orig, sets@[a].revision, current),
                    dep.name@,
                    current,
                    stored@,
                ),
            union@.len() == grouped(orig, revs@.subrange(0, k as int), current).len(),
            forall|m: int|
                0 <= m < union@.len() ==> normal_of(
                    grouped(orig, revs@.subrange(0, k as int), current)[m],
                    #[trigger] union@[m],
                    dep.name@,
                    current,
                ),
        decreases revs.len() - k,
    {
        let rev = revs[k];
        let mut group: Vec<InferenceReplica> = Vec::new();
        let mut ready: usize = 0;
        let mut i: usize = 0;
        while i < norm.len()
            invariant
                norm@.len() == orig.len(),
                i <= orig.len(),
                forall|a: int| 0 <= a < orig.len() ==> normal_of(orig[a], #[trigger] norm@[a], dep.name@, current),
                group@.len() == of_revision(orig.subrange(0, i as int), rev, current).len(),
                forall|m: int|
                    0 <= m < group@.len() ==> normal_of(
                        of_revision(orig.subrange(0, i as int), rev, current)[m],
                        #[trigger] group@[m],
                        dep.name@,
                        current,
                    ),
                ready == count_where(of_revision(orig.subrange(0, i as int), rev, current), is_ready()),
            decreases orig.len() - i,
        {
            let ghost g0 = of_revision(orig.subrange(0, i as int), rev, current);
            proof {
                assert(orig.subrange(0, i + 1) =~= orig.subrange(0, i as int).push(orig[i as int]));
                lemma_of_revision_push(orig.subrange(0, i as int), orig[i as int], rev, current);
                lemma_count_bound(g0);
                lemma_of_revision_len(orig.subrange(0, i as int), rev, current);
                assert(g0 + seq![orig[i as int]] =~= g0.push(orig[i as int]));
                assert(g0 + Seq::<InferenceReplica>::empty() =~= g0);
                assert(norm@[i as int].revision == rev_key(orig[i as int], current));
                assert(norm@[i as int].ready == orig[i as int].ready);
            }
            if norm[i].revision == rev {
                let c = copy_replica(&norm[i]);
                if c.ready {
                    ready = ready + 1;
                }
                group.push(c);
                proof {
                    lemma_count_push(g0, orig[i as int]);
                }
            }
            i = i + 1;
        }
        assert(orig.subrange(0, orig.len() as int) =~= orig);
        let id = replica_set_id(dep.name.as_str(), rev);
        let kept = find_desired(stored, id.as_str());
        let desired: u32 = if group.len() as u32 >= kept {
            group.len() as u32
        } else {
            kept
        };
        // The union gets its own copies.
        let ghost u0 = union@;
        let ghost g = of_revision(orig, rev, current);
        let mut m: usize = 0;
        while m < group.len()
            invariant
                m <= group@.len(),
                group@.len() == g.len(),
                union@.len() == u0.len() + m,
                forall|a: int| 0 <= a < g.len() ==> normal_of(g[a], #[trigger] group@[a], dep.name@, current),
                forall|a: int| 0 <= a < u0.len() ==> #[trigger] union@[a] == u0[a],
                forall|a: int|
                    0 <= a < m ==> normal_of(g[a], #[trigger] union@[u0.len() + a], dep.name@, current),
            decreases group.len() - m,
        {
            let c = copy_replica(&group[m]);
            union.push(c);
            m = m + 1;
        }
        let set = InferenceReplicaSet {
            id,
            deployment: owned(dep.name.as_str()),
            revision: rev,
            desired,
            ready: ready as u32,
            replicas: group,
        };
        sets.push(set);
        proof {
            let rk = revs@.subrange(0, k + 1);
            assert(rk =~= revs@.subrange(0, k as int).push(rev));
            lemma_grouped_push(orig, revs@.subrange(0, k as int), rev, current);
            assert forall|m: int|
                0 <= m < union@.len() implies normal_of(
                grouped(orig, rk, current)[m],
                #[trigger] union@[m],
                dep.name@,
                current,
            ) by {
                if m >= u0.len() {
                    assert(union@[m] == union@[u0.len() + (m - u0.len())]);
                }
            }
        }
        k = k + 1;
    }
    proof {
        assert(revs@.subrange(0, revs@.len() as int) =~= revs@);
        let rv = sets@.map_values(|s: InferenceReplicaSet| s.revision);
        assert(rv =~= revs@);
    }
    dep.status.replicas = union;
    sets
}

/// The stored revisions of `deployment`, by increasing revision; records
/// with equal revisions keep their stored order.
pub open spec fn by_revision(rows: Seq<InferenceDeploymentRevision>, deployment: Seq<char>) -> Seq<
    InferenceDeploymentRevision,
>
    decreases rows.len(),
{
    if rows.len() == 0 {
        Seq::empty()
    } else if rows.last().deployment@ == deployment {
        insert_by_revision(by_revision(rows.drop_last(), deployment), rows.last())
    } else {
        by_revision(rows.drop_last(), deployment)
    }
}

/// `x` placed into `s` after every record whose revision is not above its own.
pub open spec fn insert_by_revision(s: Seq<InferenceDeploymentRevision>, x: InferenceDeploymentRevision) -> Seq<
    InferenceDeploymentRevision,
>
    decreases s.len(),
{
    if s.len() == 0 || s.last().revision <= x.revision {
        s.push(x)
    } else {
        insert_by_revision(s.drop_last(), x).push(s.last())
    }
}

proof fn lemma_insert_at(s: Seq<InferenceDeploymentRevision>, x: InferenceDeploymentRevision, j: int)
    requires
        0 <= j <= s.len(),
        j == 0 || s[j - 1].revision <= x.revision,
        forall|k: int| j <= k < s.len() ==> s[k].revision > x.revision,
    ensures
        insert_by_revision(s, x) == s.subrange(0, j).push(x) + s.subrange(j, s.len() as int),
    decreases s.len(),
{
    if s.len() == 0 || s.last().revision <= x.revision {
        assert(s.subrange(j, s.len() as int).len() == 0);
        assert(s.subrange(0, j) =~= s);
        assert(s.subrange(0, j).push(x) + s.subrange(j, s.len() as int) =~= s.push(x));
    } else {
        let p = s.drop_last();
        lemma_insert_at(p, x, j);
        assert(p.subrange(0, j) =~= s.subrange(0, j));
        assert(s.subrange(0, j).push(x) + s.subrange(j, s.len() as int) =~= (p.subrange(0, j).push(x)
            + p.subrange(j, p.len() as int)).push(s.last()));
    }
}

/// The stored revisions of one deployment, ordered by revision.
pub fn list_revisions(rows: Vec<InferenceDeploymentRevision>, deployment: &str) -> (r: Vec<InferenceDeploymentRevision>)
    ensures
        r@ == by_revision(rows@, deployment@),
{
    let ghost all = rows@;
    let total = rows.len();
    let mut rest = rows;
    let mut out: Vec<InferenceDeploymentRevision> = Vec::new();
    let mut done: usize = 0;
    while rest.len() > 0
        invariant
            total == all.len(),
            done + rest@.len() == all.len(),
            rest@ == all.subrange(done as int, all.len() as int),
            out@ == by_revision(all.subrange(0, done as int), deployment@),
            forall|a: int, b: int| 0 <= a < b < out@.len() ==> out@[a].revision <= out@[b].revision,
        decreases rest.len(),
    {
        let x = rest.remove(0);
        proof {
            let t = all.subrange(0, done + 1);
            assert(t.drop_last() =~= all.subrange(0, done as int));
            assert(x == all[done as int]);
        }
        if str_eq(x.deployment.as_str(), deployment) {
            let mut j: usize = out.len();
            while j > 0 && out[j - 1].revision > x.revision
                invariant
                    j <= out@.len(),
                    forall|k: int| j <= k < out@.len() ==> out@[k].revision > x.revision,
                decreases j,
            {
                j = j - 1;
            }
            let ghost before = out@;
            proof {
                lemma_insert_at(before, x, j as int);
            }
            out.insert(j, x);
            proof {
                assert(out@ =~= before.subrange(0, j as int).push(x) + before.subrange(j as int, before.len() as int));
            }
        }
        done = done + 1;
    }
    proof {
        assert(all.subrange(0, all.len() as int) =~= all);
    }
    out
}

/// The position of the last rollout of `deployment` still progressing.
pub open spec fn is_active_of(rows: Seq<RolloutRun>, deployment: Seq<char>, i: int) -> bool {
    &&& 0 <= i < rows.len()
    &&& rows[i].deployment@ == deployment && rows[i].phase == RolloutPhase::Progressing
    &&& forall|j: int|
        i < j < rows.len() ==> !((#[trigger] rows[j]).deployment@ == deployment && rows[j].phase
            == RolloutPhase::Progressing)
}

/// The rollout of `deployment` in progress: the last such stored record.
pub fn active_rollout(rows: Vec<RolloutRun>, deployment: &str) -> (r: Option<RolloutRun>)
    ensures
        match r {
            Some(run) => exists|i: int| is_active_of(rows@, deployment@, i) && rows@[i] == run,
            None => forall|j: int|
                0 <= j < rows@.len() ==> !((#[trigger] rows@[j]).deployment@ == deployment@ && rows@[j].phase
                    == RolloutPhase::Progressing),
        },
{
    let ghost all = rows@;
    let mut rest = rows;
    while rest.len() > 0
        invariant
            all == rows@,
            all.len() >= rest@.len(),
            rest@ == all.subrange(0, rest@.len() as int),
            forall|j: int|
                rest@.len() <= j < all.len() ==> !((#[trigger] all[j]).deployment@ == deployment@ && all[j].phase
                    == RolloutPhase::Progressing),
        decreases rest.len(),
    {
        let ghost n = rest@.len();
        let run = rest.pop().unwrap();
        if str_eq(run.deployment.as_str(), deployment) && run.phase == RolloutPhase::Progressing {
            proof {
                assert(all[n - 1] == run);
                assert(is_active_of(all, deployment@, n - 1));

            }
            return Some(run);
        }
        proof {
            assert(rest@ =~= all.subrange(0, rest@.len() as int));
        }
    }
    None
}

/// The position of the rollout of `deployment` with the highest target
/// revision; among equals, the last stored.
pub open spec fn is_latest_of(rows: Seq<RolloutRun>, deployment: Seq<char>, i: int) -> bool {
    &&& 0 <= i < rows.len()
    &&& rows[i].deployment@ == deployment
    &&& forall|j: int|
        0 <= j < rows.len() && (#[trigger] rows[j]).deployment@ == deployment ==> rows[j].to_revision
            <= rows[i].to_revision
    &&& forall|j: int|
        i < j < rows.len() && (#[trigger] rows[j]).deployment@ == deployment ==> rows[j].to_revision
            < rows[i].to_revision
}

/// The newest rollout of `deployment`, by target revision.
pub fn latest_rollout(rows: Vec<RolloutRun>, deployment: &str) -> (r: Option<RolloutRun>)
    ensures
        match r {
            Some(run) => exists|i: int| is_latest_of(rows@, deployment@, i) && rows@[i] == run,
            None => forall|j: int| 0 <= j < rows@.len() ==> (#[trigger] rows@[j]).deployment@ != deployment@,
        },
{
    let ghost all = rows@;
    let total = rows.len();
    let mut rest = rows;
    let mut best: Option<RolloutRun> = None;
    let ghost mut at: int = -1;
    let mut done: usize = 0;
    while rest.len() > 0
        invariant
            total == all.len(),
            done + rest@.len() == all.len(),
            rest@ == all.subrange(done as int, all.len() as int),
            match best {
                Some(b) => 0 <= at < done && all[at] == b && is_latest_of(all.subrange(0, done as int), deployment@, at),
                None => forall|j: int| 0 <= j < done ==> (#[trigger] all[j]).deployment@ != deployment@,
            },
        decreases rest.len(),
    {
        let run = rest.remove(0);
        proof {
            assert(run == all[done as int]);
        }
        let ghost prev = all.subrange(0, done as int);
        let ghost now = all.subrange(0, done + 1);
        if str_eq(run.deployment.as_str(), deployment) {
            let take = match &best {
                Some(b) => run.to_revision >= b.to_revision,
                None => true,
            };
            if take {
                best = Some(run);
                proof {
                    at = done as int;
                    assert forall|j: int|
                        0 <= j < now.len() && (#[trigger] now[j]).deployment@ == deployment@ implies now[j].to_revision
                        <= now[at].to_revision by {
                        if j < done {
                            assert(now[j] == prev[j]);
                        }
                    }
                }
            } else {
                proof {
                    assert forall|j: int|
                        0 <= j < now.len() && (#[trigger] now[j]).deployment@ == deployment@ implies now[j].to_revision
                        <= now[at].to_revision by {
                        if j < done {
                            assert(now[j] == prev[j]);
                        }
                    }
                    assert forall|j: int|
                        at < j < now.len() && (#[trigger] now[j]).deployment@ == deployment@ implies now[j].to_revision
                        < now[at].to_revision by {
                        if j < done {
                            assert(now[j] == prev[j]);
                        }
                    }
                }
            }
        } else {
            proof {
                if best is Some {
                    assert forall|j: int|
                        0 <= j < now.len() && (#[trigger] now[j]).deployment@ == deployment@ implies now[j].to_revision
                        <= now[at].to_revision by {
                        assert(now[j] == prev[j]);
                    }
                    assert forall|j: int|
                        at < j < now.len() && (#[trigger] now[j]).deployment@ == deployment@ implies now[j].to_revision
                        < now[at].to_revision by {
                        assert(now[j] == prev[j]);
                    }
                }
            }
        }
        done = done + 1;
    }
    proof {
        assert(all.subrange(0, all.len() as int) =~= all);
    }
    best
}

/// `b` is the replica `a` still: the same VM, replica id, host, revision
/// and readiness (a rollout step only relabels weight, draining and
/// lifecycle).
pub open spec fn same_place(a: InferenceReplica, b: InferenceReplica) -> bool {
    &&& b.replica_id == a.replica_id
    &&& b.vm_name == a.vm_name
    &&& b.host == a.host
    &&& b.revision == a.revision
    &&& b.ready == a.ready
}

proof fn lemma_first_drainable_in(reps: Seq<InferenceReplica>, rev: u64, i: int)
    ensures
        first_drainable(reps, rev, i) matches Some(k) ==> 0 <= k < reps.len(),
    decreases reps.len() - i,
{
    if 0 <= i < reps.len() {
        lemma_first_drainable_in(reps, rev, i + 1);
    }
}

proof fn lemma_change_keeps_replicas(a: Seq<InferenceReplica>, b: Seq<InferenceReplica>, c: ReplicaChange)
    requires
        changed(a, b, c),
    ensures
        b.len() == a.len(),
        forall|i: int| 0 <= i < a.len() ==> same_place(#[trigger] a[i], b[i]),
{
    match c {
        ReplicaChange::DrainOne(rev) => {
            if let Some(k) = first_drainable(a, rev, 0) {
                lemma_first_drainable_in(a, rev, 0);
                assert forall|i: int| 0 <= i < a.len() implies same_place(#[trigger] a[i], b[i]) by {
                    if i != k {
                        assert(b[i] == a[i]);
                    }
                }
            }
        },
        _ => {},
    }
}

/// Every rollout step keeps the replicas: from any run and fleet, the
/// replicas after a step are as many, in the same order, each the same
/// VM with the same revision and readiness. A step that moves the
/// deployment to the new revision leaves the run Succeeded, and a run
/// that is paused or has succeeded is left as it was, replicas included,
/// without moving anything.
pub proof fn lemma_rollout_step_keeps_replicas(
    run: RolloutRun,
    reps: Seq<InferenceReplica>,
    after: Seq<InferenceReplica>,
    now: i64,
    desired: u32,
    breached: bool,
)
    requires
        changed(reps, after, rollout_next(run, reps, now, desired, breached).1),
    ensures
        after.len() == reps.len(),
        forall|i: int| 0 <= i < reps.len() ==> same_place(#[trigger] reps[i], after[i]),
        rollout_next(run, reps, now, desired, breached).2 ==> rollout_next(run, reps, now, desired, breached).0.phase
            == RolloutPhase::Succeeded,
        (run.phase == RolloutPhase::Paused || run.phase == RolloutPhase::Succeeded) ==> {
            &&& after == reps
            &&& !rollout_next(run, reps, now, desired, breached).2
            &&& rollout_next(run, reps, now, desired, breached).0 == run_state(run)
        },
{
    lemma_change_keeps_replicas(reps, after, rollout_next(run, reps, now, desired, breached).1);
}

/// A rolling step never grows the fleet past the surge allowance: it adds
/// a new replica only while there are fewer new replicas than desired, all
/// of them ready long enough, and old and new together stay below
/// `desired + max(max_surge, 1)`, so the fleet after the addition is at
/// most that.
pub proof fn lemma_rolling_add_stays_within_surge(max_surge: u32, max_unavailable: u32, fleet: FleetCounts)
    requires
        step_spec(max_surge, max_unavailable, fleet) == RollingAction::AddNew,
    ensures
        fleet.old_total + fleet.new_total < fleet.desired + (if max_surge > 1 { max_surge as int } else { 1 }),
        fleet.old_total + fleet.new_total + 1 <= fleet.desired + (if max_surge > 1 { max_surge as int } else { 1 }),
        fleet.new_total < fleet.desired,
        fleet.new_ready_long_enough == fleet.new_total,
{
}

} // verus!
