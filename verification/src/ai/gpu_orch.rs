//! GPU group selection and MIG safety.
//!
//! A MIG profile change is refused while any replica still holds the parent
//! device. Fractional sharing without MIG is refused.
use vstd::prelude::*;

use super::pci_mig::{before_first, slice_parent};
use super::types::NodeGpu;
use crate::text::{dec, eq_ignore_ascii_case, eq_ignore_case, push_dec, str_eq};
use vstd::string::*;

verus! {

#[derive(Debug, Clone)]
pub struct GpuGroup {
    pub bdfs: Vec<String>,
}

pub open spec fn schedulable_spec(gpu: NodeGpu, max_temp_c: u32, reject_ecc: bool) -> bool {
    gpu.healthy && !(max_temp_c > 0 && gpu.temperature_c > max_temp_c) && !(reject_ecc
        && gpu.ecc_errors > 0)
}

/// Healthy, not hotter than `max_temp_c` (0 disables), and free of ECC
/// errors when `reject_ecc`.
pub fn gpu_schedulable(gpu: &NodeGpu, max_temp_c: u32, reject_ecc: bool) -> (r: bool)
    ensures
        r == schedulable_spec(*gpu, max_temp_c, reject_ecc),
{
    if !gpu.healthy {
        return false;
    }
    if max_temp_c > 0 && gpu.temperature_c > max_temp_c {
        return false;
    }
    if reject_ecc && gpu.ecc_errors > 0 {
        return false;
    }
    true
}

/// A device that can join a group for `mig_profile`: an empty profile wants
/// a full GPU, a non-empty one wants exactly that slice.
pub open spec fn group_member(gpu: NodeGpu, mig_profile: Seq<char>, max_temp_c: u32, reject_ecc: bool) -> bool {
    schedulable_spec(gpu, max_temp_c, reject_ecc) && (if mig_profile.len() > 0 {
        gpu.mig_profile@ == mig_profile
    } else {
        gpu.mig_profile@.len() == 0
    })
}

/// Device ids of the members among `gpus`, in order.
pub open spec fn candidates(gpus: Seq<NodeGpu>, mig_profile: Seq<char>, max_temp_c: u32, reject_ecc: bool) -> Seq<Seq<char>>
    decreases gpus.len(),
{
    if gpus.len() == 0 {
        Seq::empty()
    } else {
        let prev = candidates(gpus.drop_last(), mig_profile, max_temp_c, reject_ecc);
        if group_member(gpus.last(), mig_profile, max_temp_c, reject_ecc) {
            prev.push(gpus.last().bdf@)
        } else {
            prev
        }
    }
}

pub open spec fn needed(count: u32) -> int {
    if count == 0 {
        1
    } else {
        count as int
    }
}

pub open spec fn bdf_views(v: Seq<String>) -> Seq<Seq<char>> {
    v.map_values(|s: String| s@)
}

/// Picks `count` (at least 1, at most 8) matching devices on one node, in
/// order, or none at all.
pub fn select_group(gpus: &[NodeGpu], count: u32, mig_profile: &str, max_temp_c: u32, reject_ecc: bool) -> (r: Result<
    GpuGroup,
    String,
>)
    ensures
        ({
            let cand = candidates(gpus@, mig_profile@, max_temp_c, reject_ecc);
            &&& (needed(count) <= 8 && cand.len() >= needed(count)) <==> r is Ok
            &&& r matches Ok(g) ==> bdf_views(g.bdfs@) == cand.take(needed(count))
            &&& needed(count) > 8 ==> (r is Err && r->Err_0@ == "gpu.count must be between 1 and 8"@)
            &&& needed(count) <= 8 && cand.len() < needed(count) ==> (r is Err && r->Err_0@
                == "need "@ + dec(needed(count) as nat) + " matching GPUs on one node, found "@ + dec(
                cand.len(),
            ))
        }),
{
    let need: usize = if count == 0 {
        1
    } else {
        count as usize
    };
    if need > 8 {
        return Err("gpu.count must be between 1 and 8".to_owned());
    }
    let ghost cand = candidates(gpus@, mig_profile@, max_temp_c, reject_ecc);
    let mut chosen: Vec<String> = Vec::new();
    let mut i: usize = 0;
    let want_slice = mig_profile.unicode_len() > 0;
    while i < gpus.len() && chosen.len() < need
        invariant
            i <= gpus@.len(),
            need <= 8,
            want_slice == (mig_profile@.len() > 0),
            chosen@.len() <= need,
            bdf_views(chosen@) == candidates(gpus@.subrange(0, i as int), mig_profile@, max_temp_c, reject_ecc),
        decreases gpus.len() - i,
    {
        proof {
            let t = gpus@.subrange(0, i + 1);
            assert(t.drop_last() =~= gpus@.subrange(0, i as int));
        }
        let gpu = &gpus[i];
        let profile_ok = if want_slice {
            str_eq(gpu.mig_profile.as_str(), mig_profile)
        } else {
            gpu.mig_profile.as_str().unicode_len() == 0
        };
        if gpu_schedulable(gpu, max_temp_c, reject_ecc) && profile_ok {
            let ghost before = chosen@;
            chosen.push(gpu.bdf.clone());
            assert(bdf_views(chosen@) =~= bdf_views(before).push(gpu.bdf@));
        }
        i = i + 1;
    }
    proof {
        lemma_candidates_prefix(gpus@, mig_profile@, max_temp_c, reject_ecc, i as int);
        if i == gpus@.len() {
            assert(gpus@.subrange(0, i as int) =~= gpus@);
        }
    }
    if chosen.len() != need {
        let mut msg = "need ".to_owned();
        push_dec(&mut msg, need as u64);
        msg.append(" matching GPUs on one node, found ");
        push_dec(&mut msg, chosen.len() as u64);
        return Err(msg);
    }
    assert(bdf_views(chosen@) =~= cand.take(need as int));
    Ok(GpuGroup { bdfs: chosen })
}

/// Candidates of a prefix are a prefix of the candidates.
proof fn lemma_candidates_prefix(gpus: Seq<NodeGpu>, mig_profile: Seq<char>, max_temp_c: u32, reject_ecc: bool, k: int)
    requires
        0 <= k <= gpus.len(),
    ensures
        candidates(gpus.subrange(0, k), mig_profile, max_temp_c, reject_ecc).is_prefix_of(
            candidates(gpus, mig_profile, max_temp_c, reject_ecc),
        ),
    decreases gpus.len() - k,
{
    if k < gpus.len() {
        lemma_candidates_prefix(gpus, mig_profile, max_temp_c, reject_ecc, k + 1);
        let t = gpus.subrange(0, k + 1);
        assert(t.drop_last() =~= gpus.subrange(0, k));
    } else {
        assert(gpus.subrange(0, k) =~= gpus);
    }
}

/// Allocation `id` holds device `parent_bdf`: it names the device, or it
/// is a slice `{parent}--{profile}--{index}` cut from it (any letter case).
pub open spec fn holds_device(id: Seq<char>, parent_bdf: Seq<char>) -> bool {
    eq_ignore_case(id, parent_bdf) || eq_ignore_case(before_first(id, "--"@), parent_bdf)
}

/// True when no allocation names `parent_bdf` or lists it as the parent of
/// a slice (any letter case).
pub fn mig_reconfigure_allowed(parent_bdf: &str, allocated: &[(String, String)]) -> (r: bool)
    ensures
        r == !exists|i: int| 0 <= i < allocated@.len() && holds_device((#[trigger] allocated@[i]).1@, parent_bdf@),
{
    let mut i: usize = 0;
    while i < allocated.len()
        invariant
            i <= allocated@.len(),
            forall|j: int| 0 <= j < i ==> !holds_device((#[trigger] allocated@[j]).1@, parent_bdf@),
        decreases allocated.len() - i,
    {
        let id = allocated[i].1.as_str();
        if eq_ignore_ascii_case(id, parent_bdf) {
            return false;
        }
        let parent = slice_parent(id);
        if eq_ignore_ascii_case(parent.as_str(), parent_bdf) {
            return false;
        }
        i = i + 1;
    }
    true
}

/// Marks a device unhealthy; nothing else changes.
pub fn quarantine(gpu: &mut NodeGpu)
    ensures
        *final(gpu) == (NodeGpu { healthy: false, ..*old(gpu) }),
{
    gpu.healthy = false;
}

#[derive(Debug, Clone, Copy, PartialEq, Eq)]
pub struct JanusMigProfile {
    pub name: &'static str,
    pub memory_gib: u32,
    pub max_per_gpu: u32,
}

/// The H100 MIG catalog of Janus: `(memory_gib, max_per_gpu)` by profile
/// name. These are records, not driver instances.
pub open spec fn janus_catalog(name: Seq<char>) -> Option<(u32, u32)> {
    if name == "1g.10gb"@ || name == "1g"@ {
        Some((10u32, 7u32))
    } else if name == "2g.20gb"@ || name == "2g"@ {
        Some((20u32, 3u32))
    } else if name == "3g.40gb"@ || name == "3g"@ {
        Some((40u32, 2u32))
    } else if name == "7g.80gb"@ || name == "7g"@ {
        Some((80u32, 1u32))
    } else {
        None
    }
}

pub fn janus_mig_profile(name: &str) -> (r: Option<JanusMigProfile>)
    ensures
        match janus_catalog(name@) {
            Some((m, x)) => r is Some && r->0.name@ == name@ && r->0.memory_gib == m
                && r->0.max_per_gpu == x,
            None => r is None,
        },
{
    if str_eq(name, "1g.10gb") {
        Some(JanusMigProfile { name: "1g.10gb", memory_gib: 10, max_per_gpu: 7 })
    } else if str_eq(name, "1g") {
        Some(JanusMigProfile { name: "1g", memory_gib: 10, max_per_gpu: 7 })
    } else if str_eq(name, "2g.20gb") {
        Some(JanusMigProfile { name: "2g.20gb", memory_gib: 20, max_per_gpu: 3 })
    } else if str_eq(name, "2g") {
        Some(JanusMigProfile { name: "2g", memory_gib: 20, max_per_gpu: 3 })
    } else if str_eq(name, "3g.40gb") {
        Some(JanusMigProfile { name: "3g.40gb", memory_gib: 40, max_per_gpu: 2 })
    } else if str_eq(name, "3g") {
        Some(JanusMigProfile { name: "3g", memory_gib: 40, max_per_gpu: 2 })
    } else if str_eq(name, "7g.80gb") {
        Some(JanusMigProfile { name: "7g.80gb", memory_gib: 80, max_per_gpu: 1 })
    } else if str_eq(name, "7g") {
        Some(JanusMigProfile { name: "7g", memory_gib: 80, max_per_gpu: 1 })
    } else {
        None
    }
}

pub fn slice_fits(parent_vram_gib: u32, profile: &JanusMigProfile, existing: u32) -> (r: bool)
    ensures
        r == (profile.memory_gib <= parent_vram_gib && existing < profile.max_per_gpu),
{
    profile.memory_gib <= parent_vram_gib && existing < profile.max_per_gpu
}

/// `"{parent_bdf}--{profile}--{index}"`.
pub fn slice_bdf(parent_bdf: &str, profile: &str, index: u32) -> (r: String)
    ensures
        r@ == parent_bdf@ + "--"@ + profile@ + "--"@ + dec(index as nat),
{
    let mut r = parent_bdf.to_owned();
    r.append("--");
    r.append(profile);
    r.append("--");
    push_dec(&mut r, index as u64);
    r
}

/// The temperature ceiling from the `FLUXVM_AI_MAX_GPU_TEMP_C` setting: a
/// `u32` as `str::parse` reads it, else 0 (no ceiling).
pub fn max_gpu_temp_c(setting: Option<&str>) -> (r: u32)
    ensures
        r == (match setting {
            Some(v) => match crate::text::parse_u64_spec(v@) {
                Some(n) if n <= u32::MAX => n as u32,
                _ => 0,
            },
            None => 0,
        }),
{
    match setting {
        Some(v) => {
            let c = crate::text::chars_of(v);
            proof {
                assert(c@.subrange(0, c@.len() as int) =~= c@);
            }
            match crate::text::parse_u64_range(&c, 0, c.len()) {
                Some(n) => if n <= u32::MAX as u64 {
                    n as u32
                } else {
                    0
                },
                None => 0,
            }
        },
        None => 0,
    }
}

/// Whether devices with uncorrected ECC errors are refused, from the
/// `FLUXVM_AI_REJECT_ECC` setting (`1`).
pub fn reject_ecc(setting: Option<&str>) -> (r: bool)
    ensures
        r == (setting matches Some(v) && v@ == "1"@),
{
    match setting {
        Some(v) => str_eq(v, "1"),
        None => false,
    }
}

} // verus!
