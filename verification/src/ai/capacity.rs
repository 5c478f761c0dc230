//! GPU capacity arithmetic and the fleet counts reported beside it.
use vstd::prelude::*;

use super::types::{InferenceDeployment, InferenceReplica};
use crate::num::clamp;
use crate::text::starts_with;

verus! {

/// Free GPUs: `total - allocated`, never below zero.
pub fn free_gpus(total: u32, allocated: u32) -> (r: u32)
    ensures
        r == if total >= allocated {
            total - allocated
        } else {
            0
        },
{
    total.saturating_sub(allocated)
}

/// A replica that holds a real device (a BDF that is set and not a dry run).
pub open spec fn holds_device(r: InferenceReplica) -> bool {
    r.bdf@.len() > 0 && !"dry-run"@.is_prefix_of(r.bdf@)
}

/// The number of replicas of `s` for which `p` holds.
pub open spec fn count_where(s: Seq<InferenceReplica>, p: spec_fn(InferenceReplica) -> bool) -> nat
    decreases s.len(),
{
    if s.len() == 0 {
        0
    } else {
        count_where(s.drop_last(), p) + if p(s.last()) {
            1nat
        } else {
            0nat
        }
    }
}

/// `f` summed over the deployments with `u32` saturation at each step.
pub open spec fn saturating_total(deps: Seq<InferenceDeployment>, f: spec_fn(InferenceDeployment) -> int) -> u32
    decreases deps.len(),
{
    if deps.len() == 0 {
        0
    } else {
        clamp(saturating_total(deps.drop_last(), f) + f(deps.last()), 0, u32::MAX as int) as u32
    }
}

pub open spec fn desired_of(d: InferenceDeployment) -> int {
    d.replicas as int
}

pub open spec fn ready_of(d: InferenceDeployment) -> int {
    (count_where(d.status.replicas@, |r: InferenceReplica| r.ready) as usize) as u32 as int
}

pub open spec fn allocated_of(d: InferenceDeployment) -> int {
    (count_where(d.status.replicas@, |r: InferenceReplica| holds_device(r)) as usize) as u32 as int
}

/// The GPU and replica counts of a host's AI fleet.
#[derive(Debug, Clone, Copy, PartialEq, Eq)]
pub struct CapacityCounts {
    pub total_gpus: u32,
    pub allocated: u32,
    pub free: u32,
    pub desired_replicas: u32,
    pub ready_replicas: u32,
}

fn count_replicas(reps: &Vec<InferenceReplica>, devices: bool) -> (r: usize)
    ensures
        devices ==> r == count_where(reps@, |x: InferenceReplica| holds_device(x)),
        !devices ==> r == count_where(reps@, |x: InferenceReplica| x.ready),
{
    let mut n: usize = 0;
    let mut i: usize = 0;
    while i < reps.len()
        invariant
            i <= reps@.len(),
            n <= i,
            devices ==> n == count_where(reps@.subrange(0, i as int), |x: InferenceReplica| holds_device(x)),
            !devices ==> n == count_where(reps@.subrange(0, i as int), |x: InferenceReplica| x.ready),
        decreases reps.len() - i,
    {
        let r = &reps[i];
        let hit = if devices {
            r.bdf.unicode_len() > 0 && !starts_with(r.bdf.as_str(), "dry-run")
        } else {
            r.ready
        };
        proof {
            assert(reps@.subrange(0, i + 1).drop_last() =~= reps@.subrange(0, i as int));
        }
        if hit {
            n = n + 1;
        }
        i = i + 1;
    }
    proof {
        assert(reps@.subrange(0, reps@.len() as int) =~= reps@);
    }
    n
}

/// Desired and ready replicas and held devices across the deployments,
/// against `total_gpus` devices in the host inventory.
pub fn capacity_counts(deployments: &[InferenceDeployment], total_gpus: u32) -> (r: CapacityCounts)
    ensures
        r.total_gpus == total_gpus,
        r.desired_replicas == saturating_total(deployments@, |d: InferenceDeployment| desired_of(d)),
        r.ready_replicas == saturating_total(deployments@, |d: InferenceDeployment| ready_of(d)),
        r.allocated == saturating_total(deployments@, |d: InferenceDeployment| allocated_of(d)),
        r.free == clamp(total_gpus - r.allocated, 0, u32::MAX as int),
{
    let mut desired: u32 = 0;
    let mut ready: u32 = 0;
    let mut allocated: u32 = 0;
    let mut i: usize = 0;
    while i < deployments.len()
        invariant
            i <= deployments@.len(),
            desired == saturating_total(deployments@.subrange(0, i as int), |d: InferenceDeployment| desired_of(d)),
            ready == saturating_total(deployments@.subrange(0, i as int), |d: InferenceDeployment| ready_of(d)),
            allocated == saturating_total(deployments@.subrange(0, i as int), |d: InferenceDeployment| allocated_of(d)),
        decreases deployments.len() - i,
    {
        let d = &deployments[i];
        proof {
            assert(deployments@.subrange(0, i + 1).drop_last() =~= deployments@.subrange(0, i as int));
        }
        desired = desired.saturating_add(d.replicas);
        let nr = count_replicas(&d.status.replicas, false);
        ready = ready.saturating_add(nr as u32);
        let na = count_replicas(&d.status.replicas, true);
        allocated = allocated.saturating_add(na as u32);
        i = i + 1;
    }
    proof {
        assert(deployments@.subrange(0, deployments@.len() as int) =~= deployments@);
    }
    CapacityCounts {
        total_gpus,
        allocated,
        free: free_gpus(total_gpus, allocated),
        desired_replicas: desired,
        ready_replicas: ready,
    }
}

} // verus!
