//! Deployment reconciliation decisions: which replicas survive a VM
//! listing, what the status line says, and the guest service unit.
use vstd::prelude::*;

use super::federation::slice_has;
use super::scheduler::has_string;
use super::types::InferenceReplica;
use crate::text::{
    dec, eq_ignore_ascii_case, eq_ignore_case, lower_seq, owned, push_dec, starts_with, str_eq, to_lower,
};
use vstd::string::*;

verus! {

/// Whether the dry-run setting is on: `1` or `true` in any case.
pub fn dry_run_enabled(setting: Option<&str>) -> (r: bool)
    ensures
        r == (match setting {
            Some(v) => v@ == "1"@ || eq_ignore_case(v@, "true"@),
            None => false,
        }),
{
    match setting {
        Some(v) => str_eq(v, "1") || eq_ignore_ascii_case(v, "true"),
        None => false,
    }
}

/// The VM name of replica `idx` of a deployment.
pub fn replica_vm_name(deployment: &str, idx: usize) -> (r: String)
    ensures
        r@ == deployment@ + "-"@ + dec(idx as nat),
{
    let mut r = owned(deployment);
    r.append("-");
    push_dec(&mut r, idx as u64);
    r
}

/// A GPU that was really bound: neither empty nor a dry-run placeholder.
pub fn is_bound_bdf(bdf: &str) -> (r: bool)
    ensures
        r == (bdf@.len() > 0 && !"dry-run-"@.is_prefix_of(bdf@)),
{
    bdf.unicode_len() > 0 && !starts_with(bdf, "dry-run-")
}

/// Index of the first listed VM named `name`.
pub open spec fn first_vm(live: Seq<(String, Option<String>)>, name: Seq<char>, i: int) -> Option<int>
    decreases live.len() - i,
{
    if i < 0 || i >= live.len() {
        None
    } else if live[i].0@ == name {
        Some(i)
    } else {
        first_vm(live, name, i + 1)
    }
}

/// `b` is kept replica `a` after the listing: with a missing address
/// filled from the first listed VM of its name, when that VM has one.
pub open spec fn refreshed(a: InferenceReplica, b: InferenceReplica, live: Seq<(String, Option<String>)>) -> bool {
    match first_vm(live, a.vm_name@, 0) {
        Some(i) => if a.address is None && live[i].1 is Some {
            b == (InferenceReplica { address: b.address, ..a }) && b.address is Some && b.address->0@
                == live[i].1->0@
        } else {
            b == a
        },
        None => b == a,
    }
}

/// The replicas whose VM is still listed, in order.
pub open spec fn kept_of(reps: Seq<InferenceReplica>, live: Seq<(String, Option<String>)>) -> Seq<InferenceReplica>
    decreases reps.len(),
{
    if reps.len() == 0 {
        Seq::empty()
    } else {
        kept_of(reps.drop_last(), live) + if first_vm(live, reps.last().vm_name@, 0) is Some {
            seq![reps.last()]
        } else {
            Seq::empty()
        }
    }
}

/// The replicas whose VM disappeared, in order.
pub open spec fn gone_of(reps: Seq<InferenceReplica>, live: Seq<(String, Option<String>)>) -> Seq<InferenceReplica>
    decreases reps.len(),
{
    if reps.len() == 0 {
        Seq::empty()
    } else {
        gone_of(reps.drop_last(), live) + if first_vm(live, reps.last().vm_name@, 0) is None {
            seq![reps.last()]
        } else {
            Seq::empty()
        }
    }
}

fn find_vm(live: &[(String, Option<String>)], name: &str) -> (r: Option<usize>)
    ensures
        first_vm(live@, name@, 0) == (match r {
            Some(i) => Some(i as int),
            None => None::<int>,
        }),
        r matches Some(i) ==> i < live@.len(),
{
    let mut i: usize = 0;
    while i < live.len()
        invariant
            i <= live@.len(),
            first_vm(live@, name@, 0) == first_vm(live@, name@, i as int),
        decreases live.len() - i,
    {
        if str_eq(live[i].0.as_str(), name) {
            return Some(i);
        }
        i = i + 1;
    }
    None
}

/// Splits the replicas by the VM listing `(name, guest ip)`: those whose VM
/// is listed stay, with a missing address filled from the listing; the
/// others are returned for their reservations to be released.
pub fn keep_live(replicas: Vec<InferenceReplica>, live: &[(String, Option<String>)]) -> (r: (
    Vec<InferenceReplica>,
    Vec<InferenceReplica>,
))
    ensures
        r.0@.len() == kept_of(replicas@, live@).len(),
        forall|k: int|
            0 <= k < r.0@.len() ==> refreshed(kept_of(replicas@, live@)[k], #[trigger] r.0@[k], live@),
        r.1@ == gone_of(replicas@, live@),
{
    let ghost orig = replicas@;
    let total = replicas.len();
    let mut rest = replicas;
    let mut kept: Vec<InferenceReplica> = Vec::new();
    let mut gone: Vec<InferenceReplica> = Vec::new();
    let mut done: usize = 0;
    while rest.len() > 0
        invariant
            done + rest@.len() == orig.len(),
            total == orig.len(),
            rest@ == orig.subrange(done as int, orig.len() as int),
            kept@.len() == kept_of(orig.subrange(0, done as int), live@).len(),
            forall|k: int|
                0 <= k < kept@.len() ==> refreshed(
                    kept_of(orig.subrange(0, done as int), live@)[k],
                    #[trigger] kept@[k],
                    live@,
                ),
            gone@ == gone_of(orig.subrange(0, done as int), live@),
        decreases rest.len(),
    {
        let mut rep = rest.remove(0);
        proof {
            assert(rep == orig[done as int]);
            let t = orig.subrange(0, done + 1);
            assert(t.drop_last() =~= orig.subrange(0, done as int));
            assert(t.last() == orig[done as int]);
        }
        match find_vm(live, rep.vm_name.as_str()) {
            Some(i) => {
                if rep.address.is_none() {
                    match &live[i].1 {
                        Some(ip) => {
                            rep.address = Some(owned(ip.as_str()));
                        },
                        None => {},
                    }
                }
                kept.push(rep);
            },
            None => {
                gone.push(rep);
            },
        }
        proof {
            let t = orig.subrange(0, done + 1);
            let prev = kept_of(orig.subrange(0, done as int), live@);
            let now = kept_of(t, live@);
            assert(now.subrange(0, prev.len() as int) =~= prev);
            assert forall|k: int| 0 <= k < kept@.len() implies refreshed(
                now[k],
                #[trigger] kept@[k],
                live@,
            ) by {
                if k < prev.len() {
                    assert(now[k] == prev[k]);
                }
            }
            assert(gone@ =~= gone_of(t, live@));
            assert(rest@ =~= orig.subrange(done + 1, orig.len() as int));
        }
        done = done + 1;
    }
    proof {
        assert(orig.subrange(0, orig.len() as int) =~= orig);
    }
    (kept, gone)
}

/// A bound address, lower-cased, is in the allocation set.
pub open spec fn allocated_from(bdfs: Seq<String>, key: Seq<char>) -> bool {
    exists|i: int|
        0 <= i < bdfs.len() && (#[trigger] bdfs[i])@.len() > 0 && !"dry-run-"@.is_prefix_of(bdfs[i]@)
            && lower_seq(bdfs[i]@) == key
}

/// No two entries of `v` have the same text.
pub open spec fn distinct_strings(v: Seq<String>) -> bool {
    forall|i: int, j: int| 0 <= i < j < v.len() ==> (#[trigger] v[i])@ != (#[trigger] v[j])@
}

/// Adds the bound addresses of `bdfs`, lower-cased, to the set `out`.
#[verifier::spinoff_prover]
fn add_bound(set: Vec<String>, bdfs: &[String]) -> (out: Vec<String>)
    requires
        distinct_strings(set@),
    ensures
        distinct_strings(out@),
        forall|k: Seq<char>| has_string(out@, k) <==> (has_string(set@, k) || allocated_from(bdfs@, k)),
{
    let mut out = set;
    let ghost start = out@;
    let mut i: usize = 0;
    while i < bdfs.len()
        invariant
            i <= bdfs@.len(),
            distinct_strings(out@),
            forall|k: Seq<char>|
                has_string(out@, k) <==> (has_string(start, k) || allocated_from(bdfs@.subrange(0, i as int), k)),
        decreases bdfs.len() - i,
    {
        let b = bdfs[i].as_str();
        let ghost before = out@;
        if b.unicode_len() > 0 && !starts_with(b, "dry-run-") {
            let key = to_lower(b);
            if !slice_has(out.as_slice(), key.as_str()) {
                out.push(key);
                proof {
                    assert forall|x: int, y: int| 0 <= x < y < out@.len() implies (#[trigger] out@[x])@
                        != (#[trigger] out@[y])@ by {
                        if y == out@.len() - 1 {
                            assert(before[x] == out@[x]);
                        } else {
                            assert(before[x] == out@[x] && before[y] == out@[y]);
                        }
                    }
                }
            }
        }
        proof {
            let pre = bdfs@.subrange(0, i as int);
            let now = bdfs@.subrange(0, i + 1);
            assert forall|k: Seq<char>| has_string(out@, k) <==> (has_string(start, k) || allocated_from(now, k)) by {
                if allocated_from(now, k) && !allocated_from(pre, k) {
                    let w = choose|w: int|
                        0 <= w < now.len() && (#[trigger] now[w])@.len() > 0 && !"dry-run-"@.is_prefix_of(now[w]@)
                            && lower_seq(now[w]@) == k;
                    if w < i {
                        assert(pre[w] == now[w]);
                    }
                    assert(has_string(out@, k)) by {
                        if !has_string(before, k) {
                            assert(out@[out@.len() - 1]@ == k);
                        } else {
                            let v = choose|v: int| 0 <= v < before.len() && (#[trigger] before[v])@ == k;
                            assert(out@[v] == before[v]);
                        }
                    }
                }
                if allocated_from(pre, k) {
                    let w = choose|w: int|
                        0 <= w < pre.len() && (#[trigger] pre[w])@.len() > 0 && !"dry-run-"@.is_prefix_of(pre[w]@)
                            && lower_seq(pre[w]@) == k;
                    assert(now[w] == pre[w]);
                }
                if has_string(out@, k) && !has_string(before, k) {
                    let v = choose|v: int| 0 <= v < out@.len() && (#[trigger] out@[v])@ == k;
                    if v < before.len() {
                        assert(out@[v] == before[v]);
                    }
                    assert(now[i as int] == bdfs@[i as int]);
                }
                if has_string(before, k) {
                    let v = choose|v: int| 0 <= v < before.len() && (#[trigger] before[v])@ == k;
                    assert(out@[v] == before[v]);
                }
            }
        }
        i = i + 1;
    }
    proof {
        assert(bdfs@.subrange(0, bdfs@.len() as int) =~= bdfs@);
    }
    out
}

/// The GPUs already taken: the bound addresses of the deployments'
/// replicas and of the stored reservations, lower-cased, each once.
pub fn allocated_bdfs(replica_bdfs: &[String], reserved_bdfs: &[String]) -> (r: Vec<String>)
    ensures
        distinct_strings(r@),
        forall|k: Seq<char>|
            has_string(r@, k) <==> (allocated_from(replica_bdfs@, k) || allocated_from(reserved_bdfs@, k)),
{
    let empty: Vec<String> = Vec::new();
    let mid = add_bound(empty, replica_bdfs);
    let out = add_bound(mid, reserved_bdfs);
    assert forall|k: Seq<char>|
        has_string(out@, k) <==> (allocated_from(replica_bdfs@, k) || allocated_from(reserved_bdfs@, k)) by {
        assert(!has_string(empty@, k));
        assert(has_string(mid@, k) <==> (has_string(empty@, k) || allocated_from(replica_bdfs@, k)));
        assert(has_string(out@, k) <==> (has_string(mid@, k) || allocated_from(reserved_bdfs@, k)));
    }
    out
}

/// The positions of the records whose owner is not among `present`.
pub open spec fn orphans_of(owners: Seq<String>, present: Seq<String>) -> Seq<int>
    decreases owners.len(),
{
    if owners.len() == 0 {
        Seq::empty()
    } else {
        orphans_of(owners.drop_last(), present) + if has_string(present, owners.last()@) {
            Seq::empty()
        } else {
            seq![owners.len() - 1]
        }
    }
}

/// The records to sweep: the positions, in order, of those whose owning
/// deployment or endpoint no longer exists.
pub fn orphaned(owners: &[String], present: &[String]) -> (r: Vec<usize>)
    ensures
        r@.map_values(|i: usize| i as int) == orphans_of(owners@, present@),
{
    let mut out: Vec<usize> = Vec::new();
    let mut i: usize = 0;
    while i < owners.len()
        invariant
            i <= owners@.len(),
            out@.map_values(|x: usize| x as int) == orphans_of(owners@.subrange(0, i as int), present@),
        decreases owners.len() - i,
    {
        let ghost pre = out@;
        if !slice_has(present, owners[i].as_str()) {
            out.push(i);
        }
        proof {
            let t = owners@.subrange(0, i + 1);
            assert(t.drop_last() =~= owners@.subrange(0, i as int));
            assert(t.last() == owners@[i as int]);
            assert(out@.map_values(|x: usize| x as int) =~= orphans_of(t, present@));
        }
        i = i + 1;
    }
    proof {
        assert(owners@.subrange(0, owners@.len() as int) =~= owners@);
    }
    out
}

/// The site a new replica is tagged with: the deployment's preferred site,
/// else the configured site of this host.
pub fn replica_site(preferred: Option<&str>, configured: Option<&str>) -> (r: Option<String>)
    ensures
        match (r, preferred, configured) {
            (Some(s), Some(p), _) => s@ == p@,
            (Some(s), None, Some(c)) => s@ == c@,
            (None, None, None) => true,
            _ => false,
        },
{
    match preferred {
        Some(p) => Some(owned(p)),
        None => match configured {
            Some(c) => Some(owned(c)),
            None => None,
        },
    }
}

/// The replica record of a fresh VM: not ready until its health probe
/// passes, cost tier one, every other field at its empty value.
pub open spec fn fresh_replica(r: InferenceReplica, vm_name: Seq<char>, bdf: Seq<char>, ready: bool, site: Option<Seq<char>>) -> bool {
    &&& r.replica_id@ == Seq::<char>::empty() && r.ordinal == 0
    &&& r.vm_name@ == vm_name && r.bdf@ == bdf && r.ready == ready
    &&& r.metrics is None && r.maglev_weight is None
    &&& (match (r.site, site) {
        (Some(a), Some(b)) => a@ == b,
        (None, None) => true,
        _ => false,
    })
    &&& r.cost_tier == Some(1u8) && !r.draining && r.unhealthy_streak == 0
    &&& r.deployment@ == Seq::<char>::empty() && r.revision == 0
    &&& r.model_digest@ == Seq::<char>::empty() && r.profile_digest@ == Seq::<char>::empty()
    &&& r.host@ == Seq::<char>::empty() && r.generation == 0
    &&& r.lifecycle@ == Seq::<char>::empty() && r.health@ == Seq::<char>::empty()
    &&& r.created_at is None
}

fn blank_replica(vm_name: String, bdf: String, ready: bool, address: Option<String>, site: Option<String>) -> (r: InferenceReplica)
    ensures
        r.vm_name == vm_name && r.bdf == bdf && r.address == address && r.site == site,
        r.ready == ready,
        r.replica_id@ == Seq::<char>::empty() && r.ordinal == 0,
        r.metrics is None && r.maglev_weight is None,
        r.cost_tier == Some(1u8) && !r.draining && r.unhealthy_streak == 0,
        r.deployment@ == Seq::<char>::empty() && r.revision == 0,
        r.model_digest@ == Seq::<char>::empty() && r.profile_digest@ == Seq::<char>::empty(),
        r.host@ == Seq::<char>::empty() && r.generation == 0,
        r.lifecycle@ == Seq::<char>::empty() && r.health@ == Seq::<char>::empty(),
        r.created_at is None,
{
    InferenceReplica {
        replica_id: String::new(),
        ordinal: 0,
        vm_name,
        bdf,
        ready,
        address,
        metrics: None,
        maglev_weight: None,
        site,
        cost_tier: Some(1),
        draining: false,
        unhealthy_streak: 0,
        deployment: String::new(),
        revision: 0,
        model_digest: String::new(),
        profile_digest: String::new(),
        host: String::new(),
        generation: 0,
        lifecycle: String::new(),
        health: String::new(),
        created_at: None,
    }
}

/// The replica that dry-run mode reports for slot `idx`: ready at once,
/// with placeholder device `dry-run-{idx}` and address `10.255.0.{idx+1}`.
pub fn dry_run_replica(deployment: &str, idx: usize, site: Option<String>) -> (r: InferenceReplica)
    requires
        idx < usize::MAX,
    ensures
        fresh_replica(r, deployment@ + "-"@ + dec(idx as nat), "dry-run-"@ + dec(idx as nat), true, match site {
            Some(s) => Some(s@),
            None => None,
        }),
        r.address matches Some(a) && a@ == "10.255.0."@ + dec((idx + 1) as nat),
{
    let vm_name = replica_vm_name(deployment, idx);
    let mut bdf = owned("dry-run-");
    push_dec(&mut bdf, idx as u64);
    let mut addr = owned("10.255.0.");
    push_dec(&mut addr, (idx + 1) as u64);
    blank_replica(vm_name, bdf, true, Some(addr), site)
}

/// The replica of a VM started on GPU `bdf`: not ready until its health
/// probe passes; `address` is the guest IP if the VM record has one yet.
pub fn placed_replica(vm_name: String, bdf: String, address: Option<String>, site: Option<String>) -> (r: InferenceReplica)
    ensures
        fresh_replica(r, vm_name@, bdf@, false, match site {
            Some(s) => Some(s@),
            None => None,
        }),
        r.address == address,
{
    blank_replica(vm_name, bdf, false, address, site)
}

/// The deployment's phase and status line after a reconcile pass.
pub fn deployment_status(ready: usize, desired: u32, dry_run: bool) -> (r: (String, String))
    ensures
        r.0@ == (if ready == desired && desired > 0 {
            "Ready"@
        } else if dry_run {
            "DryRun"@
        } else {
            "Pending"@
        }),
        r.1@ == dec(ready as nat) + "/"@ + dec(desired as nat) + " replicas ready"@ + (if dry_run {
            " (FLUXVM_AI_DRY_RUN)"@
        } else {
            ""@
        }),
{
    let phase = if ready as u64 == desired as u64 && desired > 0 {
        owned("Ready")
    } else if dry_run {
        owned("DryRun")
    } else {
        owned("Pending")
    };
    let mut msg = String::new();
    push_dec(&mut msg, ready as u64);
    msg.append("/");
    push_dec(&mut msg, desired as u64);
    msg.append(" replicas ready");
    if dry_run {
        msg.append(" (FLUXVM_AI_DRY_RUN)");
    }
    proof {
        reveal_strlit("");
        assert(msg@ =~= dec(ready as nat) + "/"@ + dec(desired as nat) + " replicas ready"@ + (if dry_run {
            " (FLUXVM_AI_DRY_RUN)"@
        } else {
            ""@
        }));
    }
    (phase, msg)
}

/// The text of the systemd unit that runs vLLM on the model at `model_path`.
pub open spec fn vllm_unit(model_path: Seq<char>) -> Seq<char> {
    "[Unit]\nDescription=vLLM OpenAI-compatible server (Fabric AI preview)\nAfter=network-online.target\nWants=network-online.target\n\n[Service]\nType=simple\nExecStart=/usr/local/bin/vllm serve "@
        + model_path
        + " --host 0.0.0.0 --port 8000\nRestart=on-failure\nRestartSec=5\n\n[Install]\nWantedBy=multi-user.target\n"@
}

/// The systemd unit that runs vLLM on the model mounted at `model_path`.
pub fn vllm_systemd_unit(model_path: &str) -> (r: String)
    ensures
        r@ == vllm_unit(model_path@),
{
    let mut r = owned(
        "[Unit]\nDescription=vLLM OpenAI-compatible server (Fabric AI preview)\nAfter=network-online.target\nWants=network-online.target\n\n[Service]\nType=simple\nExecStart=/usr/local/bin/vllm serve ",
    );
    r.append(model_path);
    r.append(
        " --host 0.0.0.0 --port 8000\nRestart=on-failure\nRestartSec=5\n\n[Install]\nWantedBy=multi-user.target\n",
    );
    r
}

/// The scale-down of a reconcile pass: replicas past the desired count
/// leave from the end, last first. Answers them in that order; the rest
/// stay.
pub fn scale_down(replicas: &mut Vec<InferenceReplica>, desired: u32) -> (victims: Vec<InferenceReplica>)
    ensures
        ({
            let n = old(replicas)@.len();
            let keep: int = if n <= desired { n as int } else { desired as int };
            &&& final(replicas)@ == old(replicas)@.subrange(0, keep)
            &&& victims@ == old(replicas)@.subrange(keep, n as int).reverse()
        }),
{
    let ghost orig = replicas@;
    let mut victims: Vec<InferenceReplica> = Vec::new();
    while replicas.len() > desired as usize
        invariant
            replicas@ == orig.subrange(0, replicas@.len() as int),
            replicas@.len() <= orig.len(),
            victims@ == orig.subrange(replicas@.len() as int, orig.len() as int).reverse(),
            replicas@.len() >= desired || replicas@.len() == orig.len(),
        decreases replicas.len(),
    {
        let ghost n = replicas@.len();
        let v = replicas.pop().unwrap();
        victims.push(v);
        proof {
            assert(replicas@ =~= orig.subrange(0, n - 1));
            assert(victims@ =~= orig.subrange(n - 1, orig.len() as int).reverse());
        }
    }
    victims
}

/// How many replicas a reconcile pass creates: up to the desired count.
pub fn replicas_to_create(current: usize, desired: u32) -> (r: usize)
    ensures
        r == (if current < desired { desired - current } else { 0 }),
{
    if (current as u64) < (desired as u64) {
        (desired as usize) - current
    } else {
        0
    }
}

/// Where a reconcile pass stands.
#[derive(Debug, Clone, Copy, PartialEq, Eq, Structural)]
pub enum ReconcileStage {
    /// Removing replicas past the desired count, last first.
    ScaleDown,
    /// Dropping replicas whose VM is gone (skipped in dry-run mode).
    Listing,
    /// Creating replicas up to the desired count.
    ScaleUp,
    /// Probing the health of replicas not yet ready (skipped in dry-run).
    Probing,
    /// Setting the status; the pass is over.
    Done,
}

/// What the last piece of outside work came to.
#[derive(Debug, Clone, Copy, PartialEq, Eq, Structural)]
pub enum ReconcileOutcome {
    Start,
    Removed,
    /// The removal failed: the replica is put back and scale-down stops.
    RemoveFailed,
    /// The VM listing was taken (or could not be had).
    Listed,
    Created,
    /// A creation failed: the pass ends with the deployment pending.
    CreateFailed,
    Probed,
}

/// The outside work a reconcile pass asks for next.
#[derive(Debug, Clone, Copy, PartialEq, Eq, Structural)]
pub enum ReconcileAction {
    /// Remove the last replica.
    RemoveLast,
    /// List the VMs and keep the replicas that still have one.
    ListVms,
    /// Create the replica of this slot.
    CreateReplica(usize),
    /// Probe the replicas not yet ready.
    ProbeReplicas,
    /// Mark the deployment pending with the creation error and stop.
    Abort,
    /// Set the status line and save.
    Finish,
}

/// The pass after leaving scale-down: list the VMs, or straight to
/// scale-up in dry-run mode.
pub open spec fn after_scale_down(len: usize, desired: u32, dry_run: bool) -> (ReconcileStage, ReconcileAction) {
    if dry_run {
        scale_up_step(len, desired, dry_run)
    } else {
        (ReconcileStage::Listing, ReconcileAction::ListVms)
    }
}

/// The scale-up step: create the next slot while under the count, then
/// probe (or finish in dry-run mode).
pub open spec fn scale_up_step(len: usize, desired: u32, dry_run: bool) -> (ReconcileStage, ReconcileAction) {
    if len < desired {
        (ReconcileStage::ScaleUp, ReconcileAction::CreateReplica(len))
    } else if dry_run {
        (ReconcileStage::Done, ReconcileAction::Finish)
    } else {
        (ReconcileStage::Probing, ReconcileAction::ProbeReplicas)
    }
}

/// The order of a reconcile pass: scale down first, stopping at the first
/// failed removal; then drop replicas whose VM is gone; then create up to
/// the count, stopping the pass at the first failed creation; then probe;
/// then set the status. `len` is the replica count now.
pub open spec fn reconcile_next(
    stage: ReconcileStage,
    outcome: ReconcileOutcome,
    len: usize,
    desired: u32,
    dry_run: bool,
) -> (ReconcileStage, ReconcileAction) {
    match stage {
        ReconcileStage::ScaleDown => if outcome != ReconcileOutcome::RemoveFailed && len > desired {
            (ReconcileStage::ScaleDown, ReconcileAction::RemoveLast)
        } else {
            after_scale_down(len, desired, dry_run)
        },
        ReconcileStage::Listing => scale_up_step(len, desired, dry_run),
        ReconcileStage::ScaleUp => if outcome == ReconcileOutcome::CreateFailed {
            (ReconcileStage::Done, ReconcileAction::Abort)
        } else {
            scale_up_step(len, desired, dry_run)
        },
        ReconcileStage::Probing => (ReconcileStage::Done, ReconcileAction::Finish),
        ReconcileStage::Done => (ReconcileStage::Done, ReconcileAction::Finish),
    }
}

fn scale_up_exec(len: usize, desired: u32, dry_run: bool) -> (r: (ReconcileStage, ReconcileAction))
    ensures
        r == scale_up_step(len, desired, dry_run),
{
    if (len as u64) < (desired as u64) {
        (ReconcileStage::ScaleUp, ReconcileAction::CreateReplica(len))
    } else if dry_run {
        (ReconcileStage::Done, ReconcileAction::Finish)
    } else {
        (ReconcileStage::Probing, ReconcileAction::ProbeReplicas)
    }
}

/// The next stage and action of a reconcile pass, given the last outcome.
pub fn reconcile_step(
    stage: ReconcileStage,
    outcome: ReconcileOutcome,
    len: usize,
    desired: u32,
    dry_run: bool,
) -> (r: (ReconcileStage, ReconcileAction))
    ensures
        r == reconcile_next(stage, outcome, len, desired, dry_run),
{
    match stage {
        ReconcileStage::ScaleDown => if outcome != ReconcileOutcome::RemoveFailed && (len as u64) > (desired as u64) {
            (ReconcileStage::ScaleDown, ReconcileAction::RemoveLast)
        } else if dry_run {
            scale_up_exec(len, desired, dry_run)
        } else {
            (ReconcileStage::Listing, ReconcileAction::ListVms)
        },
        ReconcileStage::Listing => scale_up_exec(len, desired, dry_run),
        ReconcileStage::ScaleUp => if outcome == ReconcileOutcome::CreateFailed {
            (ReconcileStage::Done, ReconcileAction::Abort)
        } else {
            scale_up_exec(len, desired, dry_run)
        },
        ReconcileStage::Probing => (ReconcileStage::Done, ReconcileAction::Finish),
        ReconcileStage::Done => (ReconcileStage::Done, ReconcileAction::Finish),
    }
}

/// A reconcile pass removes only while over the desired count and creates
/// only while under it, each time at the next slot.
pub proof fn lemma_reconcile_moves_toward_the_count(
    stage: ReconcileStage,
    outcome: ReconcileOutcome,
    len: usize,
    desired: u32,
    dry_run: bool,
)
    ensures
        reconcile_next(stage, outcome, len, desired, dry_run).1 == ReconcileAction::RemoveLast ==> len > desired,
        reconcile_next(stage, outcome, len, desired, dry_run).1 matches ReconcileAction::CreateReplica(i) ==> i
            == len && len < desired,
{
}

/// The replicas after a health probe: one not yet ready that has an
/// address becomes ready when its probe (`healthy[i]`) passed.
pub fn mark_probed(replicas: &mut Vec<InferenceReplica>, healthy: &[bool])
    requires
        healthy@.len() == old(replicas)@.len(),
    ensures
        final(replicas)@.len() == old(replicas)@.len(),
        forall|i: int|
            0 <= i < old(replicas)@.len() ==> #[trigger] final(replicas)@[i] == (if !old(replicas)@[i].ready
                && old(replicas)@[i].address is Some && healthy@[i] {
                InferenceReplica { ready: true, ..old(replicas)@[i] }
            } else {
                old(replicas)@[i]
            }),
{
    let ghost orig = replicas@;
    let mut i: usize = 0;
    while i < replicas.len()
        invariant
            replicas@.len() == orig.len(),
            healthy@.len() == orig.len(),
            i <= orig.len(),
            forall|j: int|
                0 <= j < i ==> #[trigger] replicas@[j] == (if !orig[j].ready && orig[j].address is Some
                    && healthy@[j] {
                    InferenceReplica { ready: true, ..orig[j] }
                } else {
                    orig[j]
                }),
            forall|j: int| i <= j < orig.len() ==> #[trigger] replicas@[j] == orig[j],
        decreases orig.len() - i,
    {
        if !replicas[i].ready && replicas[i].address.is_some() && healthy[i] {
            replicas[i].ready = true;
        }
        i = i + 1;
    }
}

/// Where the model is mounted in a replica VM.
pub open spec fn guest_model_path() -> Seq<char> {
    "/models"@
}

/// The VM record of a new replica, as plain values: `memory_mib` is the
/// profile's GiB in MiB (saturating), the disk 40 GiB, a bridged tap
/// network, the model mounted read-only at `/models`, the GPU passed
/// through, and cloud-init writing and starting the vLLM unit.
#[derive(Debug, Clone)]
pub struct ReplicaVmSpec {
    pub name: String,
    pub cpus: u32,
    pub memory_mib: u64,
    pub disk_gib: u32,
    pub image: String,
    pub hostname: String,
    pub tags: Vec<String>,
    /// `role`, `deployment` and, for a tenant's deployment, `tenant`.
    pub labels: Vec<(String, String)>,
    pub network_tap: bool,
    /// Host path of the model, mounted read-only at `/models`.
    pub model_source: String,
    pub model_mount: String,
    pub vfio_devices: Vec<String>,
    /// `(path, content, permissions)` of each file cloud-init writes.
    pub write_files: Vec<(String, String, String)>,
    pub runcmd: Vec<String>,
}

/// The image a replica boots: the configured one, else the vLLM image in
/// the image directory (without a trailing `/`).
pub fn replica_image(setting: Option<&str>, image_dir: &str) -> (r: String)
    ensures
        r@ == (match setting {
            Some(s) => s@,
            None => crate::text::strip_slashes(image_dir@) + "/ai-vllm-cuda.qcow2"@,
        }),
{
    match setting {
        Some(s) => owned(s),
        None => {
            let mut r = crate::text::without_trailing_slashes(image_dir);
            r.append("/ai-vllm-cuda.qcow2");
            r
        },
    }
}

pub open spec fn str_views(v: Seq<String>) -> Seq<Seq<char>> {
    v.map_values(|s: String| s@)
}

pub open spec fn pair_views(v: Seq<(String, String)>) -> Seq<(Seq<char>, Seq<char>)> {
    v.map_values(|p: (String, String)| (p.0@, p.1@))
}

/// The VM record of replica `vm_name` of `deployment` on GPU `bdf`.
pub fn replica_vm_spec(
    vm_name: &str,
    deployment: &str,
    tenant: Option<&str>,
    cpus: u32,
    memory_gib: u32,
    image: String,
    model_host: &str,
    bdf: &str,
) -> (r: ReplicaVmSpec)
    ensures
        r.name@ == vm_name@ && r.hostname@ == vm_name@,
        r.cpus == cpus,
        r.memory_mib == crate::num::clamp(memory_gib * 1024, 0, u64::MAX as int),
        r.disk_gib == 40,
        r.image == image,
        str_views(r.tags@) == seq!["ai"@, "inference"@],
        pair_views(r.labels@) == seq![("role"@, "ai-inference"@), ("deployment"@, deployment@)] + match tenant {
            Some(t) => seq![("tenant"@, t@)],
            None => Seq::empty(),
        },
        r.network_tap,
        r.model_source@ == model_host@ && r.model_mount@ == guest_model_path(),
        str_views(r.vfio_devices@) == seq![bdf@],
        r.write_files@.len() == 1,
        r.write_files@[0].0@ == "/etc/systemd/system/vllm.service"@,
        r.write_files@[0].1@ == vllm_unit(guest_model_path()),
        r.write_files@[0].2@ == "0644"@,
        str_views(r.runcmd@) == seq!["systemctl daemon-reload"@, "systemctl enable --now vllm.service"@],
{
    proof {
        reveal_strlit("/models");
    }
    let mut tags: Vec<String> = Vec::new();
    tags.push(owned("ai"));
    tags.push(owned("inference"));
    let mut labels: Vec<(String, String)> = Vec::new();
    labels.push((owned("role"), owned("ai-inference")));
    labels.push((owned("deployment"), owned(deployment)));
    if let Some(t) = tenant {
        labels.push((owned("tenant"), owned(t)));
    }
    let mut vfio: Vec<String> = Vec::new();
    vfio.push(owned(bdf));
    let mut files: Vec<(String, String, String)> = Vec::new();
    files.push((owned("/etc/systemd/system/vllm.service"), vllm_systemd_unit("/models"), owned("0644")));
    let mut runcmd: Vec<String> = Vec::new();
    runcmd.push(owned("systemctl daemon-reload"));
    runcmd.push(owned("systemctl enable --now vllm.service"));
    assert(str_views(tags@) =~= seq!["ai"@, "inference"@]);
    assert(str_views(vfio@) =~= seq![bdf@]);
    assert(str_views(runcmd@) =~= seq!["systemctl daemon-reload"@, "systemctl enable --now vllm.service"@]);
    proof {
        let base = seq![("role"@, "ai-inference"@), ("deployment"@, deployment@)];
        match tenant {
            Some(t) => {
                assert(pair_views(labels@) =~= base + seq![("tenant"@, t@)]);
            },
            None => {
                assert(pair_views(labels@) =~= base + Seq::<(Seq<char>, Seq<char>)>::empty());
            },
        }
    }
    ReplicaVmSpec {
        name: owned(vm_name),
        cpus,
        memory_mib: crate::num::sat_mul_u64(memory_gib as u64, 1024),
        disk_gib: 40,
        image,
        hostname: owned(vm_name),
        tags,
        labels,
        network_tap: true,
        model_source: owned(model_host),
        model_mount: owned("/models"),
        vfio_devices: vfio,
        write_files: files,
        runcmd,
    }
}

} // verus!
