//! Queue-driven inference autoscaling: bounded replica steps, the scale
//! signal, and the demand a scale-out puts on quota.
use vstd::prelude::*;

use super::types::{AutoscalingPolicy, InferenceDeployment, InferenceDeploymentStatus};
use crate::num::{clamp, sat_mul_u32, sat_mul_u64};
use crate::text::{dec, owned, push_dec};
use vstd::string::*;

verus! {

/// The replica count after a `delta` step, within `[min, max]` where min is
/// 0 under scale-to-zero and max has one more for a warm standby.
pub open spec fn next_count(current: u32, policy: AutoscalingPolicy, delta: i32) -> u32 {
    let min: int = if policy.scale_to_zero {
        0
    } else {
        policy.min_replicas as int
    };
    let max: int = if policy.max_replicas >= min {
        policy.max_replicas as int
    } else {
        min
    };
    let eff_max = clamp(max + if policy.warm_standby {
        1int
    } else {
        0int
    }, 0, u32::MAX as int);
    clamp(current + delta, min, eff_max) as u32
}

/// The next desired replica count after a ±1 step.
pub fn next_replicas(current: u32, policy: &AutoscalingPolicy, delta: i32) -> (r: u32)
    ensures
        r == next_count(current, *policy, delta),
{
    let min: u32 = if policy.scale_to_zero {
        0
    } else {
        policy.min_replicas
    };
    let max: u32 = if policy.max_replicas >= min {
        policy.max_replicas
    } else {
        min
    };
    let standby: u32 = if policy.warm_standby {
        1
    } else {
        0
    };
    let eff_max = max.saturating_add(standby);
    let next: i64 = current as i64 + delta as i64;
    let bounded: i64 = if next < min as i64 {
        min as i64
    } else if next > eff_max as i64 {
        eff_max as i64
    } else {
        next
    };
    bounded as u32
}

/// A scale reading: what the autoscaler would do now, why, and to how many.
#[derive(Debug, Clone, Copy, PartialEq, Eq, Structural)]
pub enum ScaleAction {
    Hold,
    ScaleOut,
    ScaleIn,
}

/// Why the reading is what it is.
#[derive(Debug, Clone, Copy, PartialEq, Eq, Structural)]
pub enum ScaleReason {
    Disabled,
    AtMax,
    AboveThreshold,
    StaleMetrics,
    AtMin,
    BelowThreshold,
    NoReadyReplica,
    InsideBand,
}

impl ScaleAction {
    /// The action's name.
    pub fn as_str(&self) -> (r: &'static str)
        ensures
            r@ == (match *self {
                ScaleAction::Hold => "hold"@,
                ScaleAction::ScaleOut => "scale_out"@,
                ScaleAction::ScaleIn => "scale_in"@,
            }),
    {
        match self {
            ScaleAction::Hold => "hold",
            ScaleAction::ScaleOut => "scale_out",
            ScaleAction::ScaleIn => "scale_in",
        }
    }
}

impl ScaleReason {
    /// The reason as shown to an operator.
    pub fn as_str(&self) -> (r: &'static str)
        ensures
            r@ == (match *self {
                ScaleReason::Disabled => "autoscaling disabled"@,
                ScaleReason::AtMax => "already at max replicas"@,
                ScaleReason::AboveThreshold => "queue or TTFT is above the scale-out threshold"@,
                ScaleReason::StaleMetrics => "scale-in skipped: replica metrics missing or stale"@,
                ScaleReason::AtMin => "already at min replicas"@,
                ScaleReason::BelowThreshold => "queue and TTFT are below the scale-in threshold"@,
                ScaleReason::NoReadyReplica => "no ready replica"@,
                ScaleReason::InsideBand => "queue and TTFT are inside the hold band"@,
            }),
    {
        match self {
            ScaleReason::Disabled => "autoscaling disabled",
            ScaleReason::AtMax => "already at max replicas",
            ScaleReason::AboveThreshold => "queue or TTFT is above the scale-out threshold",
            ScaleReason::StaleMetrics => "scale-in skipped: replica metrics missing or stale",
            ScaleReason::AtMin => "already at min replicas",
            ScaleReason::BelowThreshold => "queue and TTFT are below the scale-in threshold",
            ScaleReason::NoReadyReplica => "no ready replica",
            ScaleReason::InsideBand => "queue and TTFT are inside the hold band",
        }
    }
}

/// The instantaneous scale reading. `want_out` and `want_in` compare the
/// fleet's mean queue and TTFT with the policy; `ready` counts ready
/// replicas and `stale` says whether a ready one lacks fresh metrics.
pub open spec fn scale_reading(
    policy: AutoscalingPolicy,
    current: u32,
    ready: usize,
    want_out: bool,
    want_in: bool,
    stale: bool,
) -> (ScaleAction, ScaleReason, u32) {
    if !policy.enabled {
        (ScaleAction::Hold, ScaleReason::Disabled, current)
    } else if want_out {
        let next = next_count(current, policy, 1i32);
        if next <= current {
            (ScaleAction::Hold, ScaleReason::AtMax, current)
        } else {
            (ScaleAction::ScaleOut, ScaleReason::AboveThreshold, next)
        }
    } else if want_in {
        let next = next_count(current, policy, -1i32);
        if stale {
            (ScaleAction::Hold, ScaleReason::StaleMetrics, current)
        } else if next >= current {
            (ScaleAction::Hold, ScaleReason::AtMin, current)
        } else {
            (ScaleAction::ScaleIn, ScaleReason::BelowThreshold, next)
        }
    } else if ready == 0 {
        (ScaleAction::Hold, ScaleReason::NoReadyReplica, current)
    } else {
        (ScaleAction::Hold, ScaleReason::InsideBand, current)
    }
}

/// The autoscaler's reading for a deployment; the live loop still waits
/// out the policy's durations before it changes the replica count.
pub fn scale_decision(
    policy: &AutoscalingPolicy,
    current: u32,
    ready: usize,
    want_out: bool,
    want_in: bool,
    stale: bool,
) -> (r: (ScaleAction, ScaleReason, u32))
    ensures
        r == scale_reading(*policy, current, ready, want_out, want_in, stale),
{
    if !policy.enabled {
        return (ScaleAction::Hold, ScaleReason::Disabled, current);
    }
    if want_out {
        let next = next_replicas(current, policy, 1);
        if next <= current {
            return (ScaleAction::Hold, ScaleReason::AtMax, current);
        }
        return (ScaleAction::ScaleOut, ScaleReason::AboveThreshold, next);
    }
    if want_in {
        if stale {
            return (ScaleAction::Hold, ScaleReason::StaleMetrics, current);
        }
        let next = next_replicas(current, policy, -1);
        if next >= current {
            return (ScaleAction::Hold, ScaleReason::AtMin, current);
        }
        return (ScaleAction::ScaleIn, ScaleReason::BelowThreshold, next);
    }
    if ready == 0 {
        return (ScaleAction::Hold, ScaleReason::NoReadyReplica, current);
    }
    (ScaleAction::Hold, ScaleReason::InsideBand, current)
}

/// What applying a new replica count does.
#[derive(Debug, Clone, Copy, PartialEq, Eq, Structural)]
pub enum ScalePlan {
    /// Already at that count.
    Unchanged,
    /// A scale-in waits: a ready replica lacks fresh metrics.
    SkipStale,
    /// A scale-out needs a quota check first.
    CheckQuota,
    /// A scale-in applies directly.
    Apply,
}

/// How a change from `current` to `target` replicas proceeds.
pub open spec fn scale_plan_spec(current: u32, target: u32, stale: bool) -> ScalePlan {
    if current == target {
        ScalePlan::Unchanged
    } else if target < current && stale {
        ScalePlan::SkipStale
    } else if target > current {
        ScalePlan::CheckQuota
    } else {
        ScalePlan::Apply
    }
}

/// How a change from `current` to `target` replicas proceeds.
pub fn scale_plan(current: u32, target: u32, stale: bool) -> (r: ScalePlan)
    ensures
        r == scale_plan_spec(current, target, stale),
{
    if current == target {
        ScalePlan::Unchanged
    } else if target < current && stale {
        ScalePlan::SkipStale
    } else if target > current {
        ScalePlan::CheckQuota
    } else {
        ScalePlan::Apply
    }
}

/// Quota demand of `replicas` replicas: CPUs and memory (MiB) from the
/// profile when known, else none, and GPUs at `gpus_per_replica` (at least
/// one) each; all saturating.
pub fn scale_out_demand(replicas: u32, gpus_per_replica: u32, profile: Option<(u32, u32)>) -> (r: (
    u32,
    u64,
    u32,
))
    ensures
        r.2 == clamp(replicas * (if gpus_per_replica > 1 {
            gpus_per_replica as int
        } else {
            1
        }), 0, u32::MAX as int),
        profile is None ==> r.0 == 0 && r.1 == 0,
        profile matches Some((cpu, mem_gib)) ==> r.0 == clamp(cpu * replicas, 0, u32::MAX as int)
            && r.1 == clamp(clamp(mem_gib * 1024, 0, u64::MAX as int) * replicas, 0, u64::MAX as int),
{
    let per: u32 = if gpus_per_replica > 1 {
        gpus_per_replica
    } else {
        1
    };
    let gpus = sat_mul_u32(replicas, per);
    match profile {
        Some((cpu, mem_gib)) => {
            let cpus = sat_mul_u32(cpu, replicas);
            let mem = sat_mul_u64(sat_mul_u64(mem_gib as u64, 1024), replicas as u64);
            (cpus, mem, gpus)
        },
        None => (0, 0, gpus),
    }
}

/// A step never leaves the policy's bounds: the count stays at or above the
/// minimum (0 under scale-to-zero) and at or below the maximum plus standby.
pub proof fn lemma_next_count_bounded(current: u32, policy: AutoscalingPolicy, delta: i32)
    ensures
        next_count(current, policy, delta) >= (if policy.scale_to_zero {
            0
        } else {
            policy.min_replicas
        }),
        next_count(current, policy, delta) <= clamp(
            (if policy.max_replicas >= (if policy.scale_to_zero {
                0
            } else {
                policy.min_replicas
            }) {
                policy.max_replicas as int
            } else {
                policy.min_replicas as int
            }) + if policy.warm_standby {
                1int
            } else {
                0int
            },
            0,
            u32::MAX as int,
        ),
{
}

/// Applies an autoscaler step to `replicas` on the stored deployment and
/// says whether a reconcile is to follow. A scale-in waits while a ready
/// replica lacks fresh metrics (`stale`); a scale-out waits when the quota
/// check refused it (`quota_refusal`, asked only for a scale-out). Each
/// wait is noted in the status message. A step that goes ahead sets the
/// count, bumps the revision and marks the deployment `Scaling`.
pub fn apply_scale(
    dep: &mut InferenceDeployment,
    replicas: u32,
    reason: &str,
    stale: bool,
    quota_refusal: Option<&str>,
    now: i64,
) -> (r: bool)
    ensures
        match scale_plan_spec(old(dep).replicas, replicas, stale) {
            ScalePlan::Unchanged => !r && *final(dep) == *old(dep),
            ScalePlan::SkipStale => {
                &&& !r
                &&& *final(dep) == (InferenceDeployment {
                    status: InferenceDeploymentStatus { message: final(dep).status.message, ..old(dep).status },
                    updated: now,
                    ..*old(dep)
                })
                &&& final(dep).status.message matches Some(m) && m@
                    == "autoscaler skipped scale-in: replica metrics missing or stale"@
            },
            plan => if plan == ScalePlan::CheckQuota && quota_refusal is Some {
                &&& !r
                &&& *final(dep) == (InferenceDeployment {
                    status: InferenceDeploymentStatus { message: final(dep).status.message, ..old(dep).status },
                    updated: now,
                    ..*old(dep)
                })
                &&& final(dep).status.message matches Some(m) && m@ == "autoscaler skipped scale-out: "@
                    + quota_refusal->0@
            } else {
                &&& r
                &&& *final(dep) == (InferenceDeployment {
                    replicas,
                    revision: clamp(old(dep).revision + 1, 0, u64::MAX as int) as u64,
                    status: InferenceDeploymentStatus {
                        phase: final(dep).status.phase,
                        message: final(dep).status.message,
                        ..old(dep).status
                    },
                    updated: now,
                    ..*old(dep)
                })
                &&& final(dep).status.phase@ == "Scaling"@
                &&& final(dep).status.message matches Some(m) && m@ == "autoscaler "@ + reason@ + " → "@ + dec(
                    replicas as nat,
                )
            },
        },
{
    match scale_plan(dep.replicas, replicas, stale) {
        ScalePlan::Unchanged => false,
        ScalePlan::SkipStale => {
            dep.status.message = Some(owned("autoscaler skipped scale-in: replica metrics missing or stale"));
            dep.updated = now;
            false
        },
        plan => {
            if plan == ScalePlan::CheckQuota {
                if let Some(e) = quota_refusal {
                    let mut m = owned("autoscaler skipped scale-out: ");
                    m.append(e);
                    dep.status.message = Some(m);
                    dep.updated = now;
                    return false;
                }
            }
            dep.replicas = replicas;
            dep.revision = dep.revision.saturating_add(1);
            dep.status.phase = owned("Scaling");
            let mut m = owned("autoscaler ");
            m.append(reason);
            m.append(" → ");
            push_dec(&mut m, replicas as u64);
            dep.status.message = Some(m);
            dep.updated = now;
            true
        },
    }
}

/// The autoscaler stays within the policy's bounds and moves one step at a
/// time: with `lo` the floor (zero when scaling to zero is allowed, else
/// the minimum) and `hi` the ceiling (the maximum, at least `lo`, plus one
/// warm standby), a hold keeps the count; a scale-in goes strictly down but
/// never below `lo`, to one fewer unless that is still above `hi`; a
/// scale-out goes strictly up but never above `hi`, to one more unless that
/// is still below `lo`. A deployment already at or below its floor is
/// never scaled in.
pub proof fn lemma_scaling_respects_bounds(
    policy: AutoscalingPolicy,
    current: u32,
    ready: usize,
    want_out: bool,
    want_in: bool,
    stale: bool,
)
    ensures
        ({
            let (action, _reason, next) = scale_reading(policy, current, ready, want_out, want_in, stale);
            let lo: int = if policy.scale_to_zero { 0 } else { policy.min_replicas as int };
            let top: int = if policy.max_replicas >= lo { policy.max_replicas as int } else { lo };
            let hi: int = if policy.warm_standby { top + 1 } else { top };
            &&& action == ScaleAction::Hold ==> next == current
            &&& action == ScaleAction::ScaleIn ==> lo <= next < current && next <= hi && (next == current - 1
                || next == hi)
            &&& action == ScaleAction::ScaleOut ==> current < next <= hi && lo <= next && (next == current + 1
                || next == lo)
            &&& current <= lo ==> action != ScaleAction::ScaleIn
            &&& current >= hi ==> action != ScaleAction::ScaleOut
        }),
{
}

} // verus!
