//! Draining a deployment's replicas and starting a rollout: what each does
//! to the stored deployment before the reconcile loop acts on it.
use vstd::prelude::*;

use super::types::{InferenceDeployment, InferenceDeploymentStatus, InferenceReplica, RolloutSpec, RolloutStrategy};
use crate::num::clamp;
use crate::text::{dec, owned, push_dec, str_eq};
use vstd::string::*;

verus! {

/// Whether a drain of `replica` (all replicas when `None`) takes `r`.
pub open spec fn drain_target(r: InferenceReplica, replica: Option<Seq<char>>) -> bool {
    match replica {
        Some(n) => r.vm_name@ == n,
        None => true,
    }
}

/// The addresses of the drained replicas that have one, in order.
pub open spec fn drained_addresses(reps: Seq<InferenceReplica>, replica: Option<Seq<char>>) -> Seq<Seq<char>>
    decreases reps.len(),
{
    if reps.len() == 0 {
        Seq::empty()
    } else {
        drained_addresses(reps.drop_last(), replica) + match reps.last().address {
            Some(a) => if drain_target(reps.last(), replica) {
                seq![a@]
            } else {
                Seq::empty()
            },
            None => Seq::empty(),
        }
    }
}

pub open spec fn opt_view(o: Option<&str>) -> Option<Seq<char>> {
    match o {
        Some(s) => Some(s@),
        None => None,
    }
}

/// Drains one replica by VM name, or every replica: each drained replica
/// gets weight 1 and the drain flag, the deployment phase `Draining` and a
/// new revision. Returns the addresses whose Maglev backends are to be
/// drained, or the 404 message when the named replica does not exist.
pub fn drain_deployment(dep: &mut InferenceDeployment, replica: Option<&str>, now: i64) -> (r: Result<
    Vec<String>,
    String,
>)
    ensures
        ({
            let orig = old(dep).status.replicas@;
            let target = opt_view(replica);
            let missing = match replica {
                Some(n) => forall|i: int| 0 <= i < orig.len() ==> (#[trigger] orig[i]).vm_name@ != n@,
                None => false,
            };
            if missing {
                &&& r matches Err(m) && m@ == "replica '"@ + replica->0@ + "' not found"@
                &&& *final(dep) == *old(dep)
            } else {
                &&& r matches Ok(addrs) && addrs@.map_values(|a: String| a@) == drained_addresses(orig, target)
                &&& *final(dep) == (InferenceDeployment {
                    status: InferenceDeploymentStatus {
                        replicas: final(dep).status.replicas,
                        phase: final(dep).status.phase,
                        message: final(dep).status.message,
                    },
                    revision: clamp(old(dep).revision + 1, 0, u64::MAX as int) as u64,
                    updated: now,
                    ..*old(dep)
                })
                &&& final(dep).status.replicas@.len() == orig.len()
                &&& forall|k: int|
                    0 <= k < orig.len() ==> #[trigger] final(dep).status.replicas@[k] == if drain_target(
                        orig[k],
                        target,
                    ) {
                        InferenceReplica { draining: true, maglev_weight: Some(1u16), ..orig[k] }
                    } else {
                        orig[k]
                    }
                &&& final(dep).status.phase@ == "Draining"@
                &&& final(dep).status.message matches Some(m) && m@ == "draining "@ + dec(
                    (if replica is Some {
                        1
                    } else {
                        orig.len()
                    }) as nat,
                ) + " replica(s)"@
            }
        }),
{
    let ghost orig = dep.status.replicas@;
    let ghost target = opt_view(replica);
    if let Some(n) = replica {
        let mut found = false;
        let mut i: usize = 0;
        while i < dep.status.replicas.len()
            invariant
                dep.status.replicas@ == orig,
                i <= orig.len(),
                !found ==> forall|j: int| 0 <= j < i ==> (#[trigger] orig[j]).vm_name@ != n@,
                found ==> exists|j: int| 0 <= j < i && (#[trigger] orig[j]).vm_name@ == n@,
            decreases orig.len() - i,
        {
            if str_eq(dep.status.replicas[i].vm_name.as_str(), n) {
                found = true;
                assert(orig[i as int].vm_name@ == n@);
            }
            i = i + 1;
        }
        if !found {
            let mut m = owned("replica '");
            m.append(n);
            m.append("' not found");
            return Err(m);
        }
    }
    let count: usize = match replica {
        Some(_) => 1,
        None => dep.status.replicas.len(),
    };
    let mut addrs: Vec<String> = Vec::new();
    let mut k: usize = 0;
    while k < dep.status.replicas.len()
        invariant
            dep.status.replicas@.len() == orig.len(),
            k <= orig.len(),
            target == opt_view(replica),
            forall|j: int|
                0 <= j < k ==> #[trigger] dep.status.replicas@[j] == if drain_target(orig[j], target) {
                    InferenceReplica { draining: true, maglev_weight: Some(1u16), ..orig[j] }
                } else {
                    orig[j]
                },
            forall|j: int| k <= j < orig.len() ==> #[trigger] dep.status.replicas@[j] == orig[j],
            addrs@.map_values(|a: String| a@) == drained_addresses(orig.subrange(0, k as int), target),
            dep.name == old(dep).name && dep.revision == old(dep).revision && dep.status.phase == old(dep).status.phase,
            *dep == (InferenceDeployment {
                status: InferenceDeploymentStatus { replicas: dep.status.replicas, ..old(dep).status },
                ..*old(dep)
            }),
        decreases orig.len() - k,
    {
        let take = match replica {
            Some(n) => str_eq(dep.status.replicas[k].vm_name.as_str(), n),
            None => true,
        };
        proof {
            let t = orig.subrange(0, k + 1);
            assert(t.drop_last() =~= orig.subrange(0, k as int));
            assert(t.last() == orig[k as int]);
        }
        if take {
            dep.status.replicas[k].draining = true;
            dep.status.replicas[k].maglev_weight = Some(1);
            match &dep.status.replicas[k].address {
                Some(a) => {
                    addrs.push(owned(a.as_str()));
                },
                None => {},
            }
        }
        proof {
            assert(addrs@.map_values(|a: String| a@) =~= drained_addresses(orig.subrange(0, k + 1), target));
        }
        k = k + 1;
    }
    proof {
        assert(orig.subrange(0, orig.len() as int) =~= orig);
    }
    dep.status.phase = owned("Draining");
    let mut m = owned("draining ");
    push_dec(&mut m, count as u64);
    m.append(" replica(s)");
    dep.status.message = Some(m);
    dep.revision = dep.revision.saturating_add(1);
    dep.updated = now;
    Ok(addrs)
}

/// The canary share of a rollout: the requested percent clamped into
/// `1..=50` for a canary, else 0.
pub open spec fn canary_share(strategy: RolloutStrategy, percent: u8) -> u8 {
    if strategy == RolloutStrategy::Canary {
        clamp(percent as int, 1, 50) as u8
    } else {
        0
    }
}

/// How many of `n` replicas carry the canary: `share` percent of them,
/// rounded down, and at least one.
pub open spec fn canary_count(n: nat, share: u8) -> int {
    let c = ((n as u32) as int * share as int) / 100;
    if c < 1 {
        1
    } else {
        c
    }
}

/// The replica `b` is `a` after the rollout started.
pub open spec fn rolled_replica(a: InferenceReplica, b: InferenceReplica, strategy: RolloutStrategy, k: int, n: nat, share: u8) -> bool {
    match strategy {
        RolloutStrategy::Canary => b == (InferenceReplica {
            maglev_weight: Some(if k < canary_count(n, share) { 32u16 } else { 1u16 }),
            ..a
        }),
        RolloutStrategy::BlueGreen => b == (InferenceReplica { draining: true, maglev_weight: Some(1u16), ..a }),
        RolloutStrategy::Rolling => b == a,
    }
}

/// Starts a rollout to `strategy`, optionally to another model.
///
/// Refused with 400 when the target model is not registered
/// (`target_known`), and with 409 when the live metrics already breach
/// the rollback thresholds (`breached`); the latter also marks the
/// deployment `Rollback`. Otherwise the deployment records the rollout and
/// the new model, and its fleet is prepared: a canary gives its share of
/// the replicas weight 32 and the rest weight 1; blue/green drains the
/// whole current fleet and asks for as many replicas again (at least one);
/// rolling leaves the fleet to the reconcile loop. The revision goes up by
/// one.
pub fn rollout_deployment(
    dep: &mut InferenceDeployment,
    strategy: RolloutStrategy,
    canary_percent: u8,
    target_model: Option<String>,
    target_known: bool,
    breached: bool,
    now: i64,
) -> (r: Result<(), (u16, String)>)
    requires
        strategy == RolloutStrategy::Canary && old(dep).status.replicas@.len() > 0 ==> (old(
            dep,
        ).status.replicas@.len() as u32) as int * canary_share(strategy, canary_percent) as int <= u32::MAX,
    ensures
        ({
            let orig = old(dep).status.replicas@;
            let share = canary_share(strategy, canary_percent);
            if target_model is Some && !target_known {
                &&& r matches Err((code, m)) && code == 400 && m@ == "target model '"@ + target_model->0@
                    + "' not found"@
                &&& *final(dep) == *old(dep)
            } else if breached {
                &&& r matches Err((code, m)) && code == 409 && m@
                    == "rollout aborted: live metrics exceed rollback thresholds"@
                &&& *final(dep) == (InferenceDeployment {
                    status: InferenceDeploymentStatus {
                        phase: final(dep).status.phase,
                        message: final(dep).status.message,
                        ..old(dep).status
                    },
                    updated: now,
                    ..*old(dep)
                })
                &&& final(dep).status.phase@ == "Rollback"@
                &&& final(dep).status.message matches Some(m) && m@
                    == "rollout aborted: error/TTFT threshold exceeded"@
            } else {
                &&& r is Ok
                &&& *final(dep) == (InferenceDeployment {
                    model: final(dep).model,
                    replicas: final(dep).replicas,
                    rollout: Some(RolloutSpec { strategy, canary_percent: share, target_model }),
                    status: InferenceDeploymentStatus {
                        replicas: final(dep).status.replicas,
                        phase: final(dep).status.phase,
                        message: final(dep).status.message,
                    },
                    revision: clamp(old(dep).revision + 1, 0, u64::MAX as int) as u64,
                    updated: now,
                    ..*old(dep)
                })
                &&& final(dep).model@ == (match target_model {
                    Some(t) => t@,
                    None => old(dep).model@,
                })
                &&& final(dep).replicas == (if strategy == RolloutStrategy::BlueGreen {
                    clamp(old(dep).replicas + (if old(dep).replicas < 1 { 1 } else { old(dep).replicas }), 0, u32::MAX as int) as u32
                } else {
                    old(dep).replicas
                })
                &&& final(dep).status.replicas@.len() == orig.len()
                &&& forall|k: int|
                    0 <= k < orig.len() ==> rolled_replica(
                        orig[k],
                        #[trigger] final(dep).status.replicas@[k],
                        strategy,
                        k,
                        orig.len(),
                        share,
                    )
                &&& final(dep).status.phase@ == (match strategy {
                    RolloutStrategy::Canary => "Canary"@,
                    RolloutStrategy::BlueGreen => "BlueGreen"@,
                    RolloutStrategy::Rolling => "Rolling"@,
                })
                &&& final(dep).status.message matches Some(m) && m@ == (match strategy {
                    RolloutStrategy::Canary => "canary "@ + dec(share as nat) + "% traffic on new revision"@,
                    RolloutStrategy::BlueGreen => "blue/green: scaling green fleet"@,
                    RolloutStrategy::Rolling => "rolling update enqueued"@,
                })
            }
        }),
{
    let ghost orig = dep.status.replicas@;
    if let Some(t) = &target_model {
        if !target_known {
            let mut m = owned("target model '");
            m.append(t.as_str());
            m.append("' not found");
            return Err((400, m));
        }
    }
    if breached {
        dep.status.phase = owned("Rollback");
        dep.status.message = Some(owned("rollout aborted: error/TTFT threshold exceeded"));
        dep.updated = now;
        return Err((409, owned("rollout aborted: live metrics exceed rollback thresholds")));
    }
    let share: u8 = match strategy {
        RolloutStrategy::Canary => if canary_percent < 1 {
            1
        } else if canary_percent > 50 {
            50
        } else {
            canary_percent
        },
        _ => 0,
    };
    if let Some(t) = &target_model {
        dep.model = owned(t.as_str());
    }
    dep.rollout = Some(RolloutSpec { strategy, canary_percent: share, target_model });
    let ghost mid = *dep;
    let n = dep.status.replicas.len();
    match strategy {
        RolloutStrategy::Canary => {
            if n > 0 {
                let scaled: u32 = (n as u32) * (share as u32) / 100;
                let canary_n: u32 = if scaled < 1 {
                    1
                } else {
                    scaled
                };
                let mut k: usize = 0;
                while k < dep.status.replicas.len()
                    invariant
                        dep.status.replicas@.len() == orig.len(),
                        n == orig.len(),
                        canary_n as int == canary_count(n as nat, share),
                        k <= orig.len(),
                        forall|j: int|
                            0 <= j < k ==> #[trigger] dep.status.replicas@[j] == (InferenceReplica {
                                maglev_weight: Some(if j < canary_n { 32u16 } else { 1u16 }),
                                ..orig[j]
                            }),
                        forall|j: int| k <= j < orig.len() ==> #[trigger] dep.status.replicas@[j] == orig[j],
                        *dep == (InferenceDeployment {
                            status: InferenceDeploymentStatus { replicas: dep.status.replicas, ..mid.status },
                            ..mid
                        }),
                    decreases orig.len() - k,
                {
                    if (k as u64) < (canary_n as u64) {
                        dep.status.replicas[k].maglev_weight = Some(32);
                    } else {
                        dep.status.replicas[k].maglev_weight = Some(1);
                    }
                    k = k + 1;
                }
            }
            dep.status.phase = owned("Canary");
            let mut m = owned("canary ");
            push_dec(&mut m, share as u64);
            m.append("% traffic on new revision");
            dep.status.message = Some(m);
        },
        RolloutStrategy::BlueGreen => {
            let mut k: usize = 0;
            while k < dep.status.replicas.len()
                invariant
                    dep.status.replicas@.len() == orig.len(),
                    k <= orig.len(),
                    forall|j: int|
                        0 <= j < k ==> #[trigger] dep.status.replicas@[j] == (InferenceReplica {
                            draining: true,
                            maglev_weight: Some(1u16),
                            ..orig[j]
                        }),
                    forall|j: int| k <= j < orig.len() ==> #[trigger] dep.status.replicas@[j] == orig[j],
                    *dep == (InferenceDeployment {
                        status: InferenceDeploymentStatus { replicas: dep.status.replicas, ..mid.status },
                        ..mid
                    }),
                decreases orig.len() - k,
            {
                dep.status.replicas[k].draining = true;
                dep.status.replicas[k].maglev_weight = Some(1);
                k = k + 1;
            }
            let green: u32 = if dep.replicas < 1 {
                1
            } else {
                dep.replicas
            };
            dep.replicas = dep.replicas.saturating_add(green);
            dep.status.phase = owned("BlueGreen");
            dep.status.message = Some(owned("blue/green: scaling green fleet"));
        },
        RolloutStrategy::Rolling => {
            dep.status.phase = owned("Rolling");
            dep.status.message = Some(owned("rolling update enqueued"));
        },
    }
    dep.revision = dep.revision.saturating_add(1);
    dep.updated = now;
    Ok(())
}

} // verus!
