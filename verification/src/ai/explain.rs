//! Answers to "why": the recorded reasons a replica is not serving, and how
//! long a scale reading waits before it acts.
use vstd::prelude::*;

use super::autoscaling::ScaleAction;
use super::types::{AutoscalingPolicy, InferenceReplica};
use crate::text::str_eq;
use vstd::string::*;

verus! {

/// The reasons, in order, that a replica is not a healthy serving backend;
/// a replica with none recorded gets `no failure recorded`.
pub open spec fn reasons_of(rep: InferenceReplica) -> Seq<Seq<char>> {
    let r = (if !rep.ready { seq!["not ready"@] } else { Seq::empty() })
        + (if rep.draining { seq!["draining"@] } else { Seq::empty() })
        + (if rep.unhealthy_streak > 0 { seq!["health probe failures"@] } else { Seq::empty() })
        + (if rep.lifecycle@ == "failed"@ { seq!["lifecycle failed"@] } else { Seq::empty() })
        + (if rep.health@ == "unhealthy"@ { seq!["health unhealthy"@] } else { Seq::empty() })
        + (if rep.host@.len() == 0 { seq!["no host"@] } else { Seq::empty() })
        + (if rep.address is None { seq!["no address"@] } else { Seq::empty() });
    if r.len() == 0 {
        seq!["no failure recorded"@]
    } else {
        r
    }
}

fn push_if(out: &mut Vec<&'static str>, cond: bool, reason: &'static str)
    ensures
        final(out)@.map_values(|s: &str| s@) == old(out)@.map_values(|s: &str| s@) + if cond {
            seq![reason@]
        } else {
            Seq::empty()
        },
{
    let ghost before = out@.map_values(|s: &str| s@);
    if cond {
        out.push(reason);
        assert(out@.map_values(|s: &str| s@) =~= before + seq![reason@]);
    } else {
        assert(out@.map_values(|s: &str| s@) =~= before + Seq::<Seq<char>>::empty());
    }
}

/// Recorded reasons a replica is not a healthy serving backend.
pub fn failure_reasons(rep: &InferenceReplica) -> (r: Vec<&'static str>)
    ensures
        r@.map_values(|s: &str| s@) == reasons_of(*rep),
{
    let mut out: Vec<&'static str> = Vec::new();
    assert(out@.map_values(|s: &str| s@) =~= Seq::<Seq<char>>::empty());
    push_if(&mut out, !rep.ready, "not ready");
    push_if(&mut out, rep.draining, "draining");
    push_if(&mut out, rep.unhealthy_streak > 0, "health probe failures");
    push_if(&mut out, str_eq(rep.lifecycle.as_str(), "failed"), "lifecycle failed");
    push_if(&mut out, str_eq(rep.health.as_str(), "unhealthy"), "health unhealthy");
    push_if(&mut out, rep.host.unicode_len() == 0, "no host");
    push_if(&mut out, rep.address.is_none(), "no address");
    if out.len() == 0 {
        out.push("no failure recorded");
        assert(out@.map_values(|s: &str| s@) =~= seq!["no failure recorded"@]);
    } else {
        assert(Seq::<Seq<char>>::empty() + out@.map_values(|s: &str| s@) =~= out@.map_values(|s: &str| s@));
    }
    out
}

/// How a replica is named: its id, or its VM name on older records.
pub fn replica_label(rep: &InferenceReplica) -> (r: &str)
    ensures
        r@ == (if rep.replica_id@.len() == 0 {
            rep.vm_name@
        } else {
            rep.replica_id@
        }),
{
    if rep.replica_id.unicode_len() == 0 {
        rep.vm_name.as_str()
    } else {
        rep.replica_id.as_str()
    }
}

/// How long the autoscaler waits before acting on a reading.
pub fn wait_seconds(action: ScaleAction, policy: &AutoscalingPolicy) -> (r: u64)
    ensures
        r == (match action {
            ScaleAction::ScaleOut => policy.scale_out_seconds,
            ScaleAction::ScaleIn => policy.scale_in_seconds,
            ScaleAction::Hold => 0,
        }),
{
    match action {
        ScaleAction::ScaleOut => policy.scale_out_seconds,
        ScaleAction::ScaleIn => policy.scale_in_seconds,
        ScaleAction::Hold => 0,
    }
}

} // verus!
