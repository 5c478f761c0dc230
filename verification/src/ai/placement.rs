//! GPU placement on a single FluxVM host: free NVIDIA devices that meet the
//! memory floor, devices already bound to vfio-pci first.
use vstd::prelude::*;

use super::federation::slice_has;
use super::scheduler::has_string;
use super::types::GpuRequirements;
use crate::text::{
    contains_str, dec, eq_ignore_case, eq_ignore_ascii_case, has_infix, lower_seq, owned, push_dec,
    seq_lt, str_lt, to_lower, trim, trim_str,
};
use vstd::string::*;

verus! {

/// A host PCI GPU as the FluxVM inventory reports it: the fields placement reads.
#[derive(Debug, Clone)]
pub struct HostGpu {
    pub bdf: String,
    pub vendor_id: u16,
    pub vendor: String,
    /// Every device of its IOMMU group is bound to vfio-pci.
    pub group_bound_to_vfio: bool,
    /// A process holds a device of its IOMMU group.
    pub group_held: bool,
    pub vram_gib: Option<u32>,
}

/// The PCI vendor id of NVIDIA.
pub const NVIDIA_VENDOR_ID: u16 = 0x10de;

pub open spec fn is_nvidia(g: HostGpu) -> bool {
    eq_ignore_case(g.vendor@, "nvidia"@) || g.vendor_id == NVIDIA_VENDOR_ID || has_infix(
        lower_seq(g.vendor@),
        "nvidia"@,
    )
}

/// A device that may be handed to a new replica.
pub open spec fn placeable(g: HostGpu, req: GpuRequirements, allocated: Seq<String>) -> bool {
    &&& is_nvidia(g)
    &&& !has_string(allocated, lower_seq(g.bdf@))
    &&& !g.group_held
    &&& match g.vram_gib {
        Some(v) => v >= req.minimum_vram_gib,
        None => req.minimum_vram_gib == 0,
    }
}

/// The placeable devices, in inventory order.
pub open spec fn placeable_of(inv: Seq<HostGpu>, req: GpuRequirements, allocated: Seq<String>) -> Seq<HostGpu>
    decreases inv.len(),
{
    if inv.len() == 0 {
        Seq::empty()
    } else {
        placeable_of(inv.drop_last(), req, allocated) + if placeable(inv.last(), req, allocated) {
            seq![inv.last()]
        } else {
            Seq::empty()
        }
    }
}

/// `a` sorts strictly before `b`: vfio-bound before unbound, then by BDF.
pub open spec fn before(a: HostGpu, b: HostGpu) -> bool {
    (a.group_bound_to_vfio && !b.group_bound_to_vfio) || (a.group_bound_to_vfio
        == b.group_bound_to_vfio && seq_lt(a.bdf@, b.bdf@))
}

/// `s` with `x` placed after every element that does not sort after it.
pub open spec fn insert_sorted(s: Seq<HostGpu>, x: HostGpu) -> Seq<HostGpu>
    decreases s.len(),
{
    if s.len() == 0 {
        seq![x]
    } else if before(x, s[0]) {
        seq![x] + s
    } else {
        seq![s[0]] + insert_sorted(s.drop_first(), x)
    }
}

/// `s` stably sorted by `before`.
pub open spec fn sorted_by_preference(s: Seq<HostGpu>) -> Seq<HostGpu>
    decreases s.len(),
{
    if s.len() == 0 {
        Seq::empty()
    } else {
        insert_sorted(sorted_by_preference(s.drop_last()), s.last())
    }
}

/// The number of devices a request needs.
pub open spec fn need_of(req: GpuRequirements) -> nat {
    if req.count < 1 {
        1
    } else {
        req.count as nat
    }
}

/// Inserting at `p`, the first position whose element sorts after `x`.
proof fn lemma_insert_at(s: Seq<HostGpu>, x: HostGpu, p: int)
    requires
        0 <= p <= s.len(),
        forall|j: int| 0 <= j < p ==> !before(x, #[trigger] s[j]),
        p < s.len() ==> before(x, s[p]),
    ensures
        insert_sorted(s, x) == s.subrange(0, p).push(x) + s.subrange(p, s.len() as int),
    decreases s.len(),
{
    if s.len() == 0 {
        assert(s.subrange(0, p).push(x) + s.subrange(p, s.len() as int) =~= seq![x]);
    } else if p == 0 {
        assert(s.subrange(0, 0).push(x) + s.subrange(0, s.len() as int) =~= seq![x] + s);
    } else {
        let t = s.drop_first();
        assert forall|j: int| 0 <= j < p - 1 implies !before(x, #[trigger] t[j]) by {
            assert(t[j] == s[j + 1]);
        }
        if p < s.len() {
            assert(t[p - 1] == s[p]);
        }
        lemma_insert_at(t, x, p - 1);
        assert(seq![s[0]] + (t.subrange(0, p - 1).push(x) + t.subrange(p - 1, t.len() as int))
            =~= s.subrange(0, p).push(x) + s.subrange(p, s.len() as int));
    }
}

/// Within `s`, every vfio-bound device comes before every unbound one.
pub open spec fn bound_first(s: Seq<HostGpu>) -> bool {
    forall|i: int, j: int|
        0 <= i < j < s.len() && (#[trigger] s[j]).group_bound_to_vfio ==> (#[trigger] s[i]).group_bound_to_vfio
}

proof fn lemma_insert_keeps_bound_first(s: Seq<HostGpu>, x: HostGpu)
    requires
        bound_first(s),
    ensures
        bound_first(insert_sorted(s, x)),
        insert_sorted(s, x).len() == s.len() + 1,
        forall|k: int| 0 <= k < insert_sorted(s, x).len() ==> (#[trigger] insert_sorted(s, x)[k] == x
            || s.contains(insert_sorted(s, x)[k])),
    decreases s.len(),
{
    if s.len() == 0 {
    } else if before(x, s[0]) {
        let r = seq![x] + s;
        assert forall|i: int, j: int|
            0 <= i < j < r.len() && (#[trigger] r[j]).group_bound_to_vfio implies (#[trigger] r[i]).group_bound_to_vfio by {
            if i == 0 {
                assert(r[j] == s[j - 1]);
                assert(s[j - 1].group_bound_to_vfio);
                assert(s[0].group_bound_to_vfio);
            } else {
                assert(r[i] == s[i - 1] && r[j] == s[j - 1]);
            }
        }
        assert forall|k: int| 0 <= k < r.len() implies (#[trigger] r[k] == x || s.contains(r[k])) by {
            if k > 0 {
                assert(r[k] == s[k - 1]);
            }
        }
    } else {
        let t = s.drop_first();
        assert(bound_first(t)) by {
            assert forall|i: int, j: int|
                0 <= i < j < t.len() && (#[trigger] t[j]).group_bound_to_vfio implies (#[trigger] t[i]).group_bound_to_vfio by {
                assert(t[i] == s[i + 1] && t[j] == s[j + 1]);
            }
        }
        lemma_insert_keeps_bound_first(t, x);
        let u = insert_sorted(t, x);
        let r = seq![s[0]] + u;
        assert(r == insert_sorted(s, x));
        assert forall|i: int, j: int|
            0 <= i < j < r.len() && (#[trigger] r[j]).group_bound_to_vfio implies (#[trigger] r[i]).group_bound_to_vfio by {
            if i == 0 {
                let y = r[j];
                assert(y == u[j - 1]);
                if y == x {
                    // x did not sort before s[0], so s[0] is bound as well.
                } else {
                    assert(t.contains(y));
                    let m = choose|m: int| 0 <= m < t.len() && t[m] == y;
                    assert(s[m + 1] == y);
                }
            } else {
                assert(r[i] == u[i - 1] && r[j] == u[j - 1]);
            }
        }
        assert forall|k: int| 0 <= k < r.len() implies (#[trigger] r[k] == x || s.contains(r[k])) by {
            if k == 0 {
                assert(s[0] == r[0]);
            } else {
                assert(r[k] == u[k - 1]);
                if u[k - 1] != x {
                    let m = choose|m: int| 0 <= m < t.len() && t[m] == u[k - 1];
                    assert(s[m + 1] == r[k]);
                }
            }
        }
    }
}

/// Sorting by preference keeps the devices and puts every vfio-bound one
/// first.
pub proof fn lemma_preference_sort(s: Seq<HostGpu>)
    ensures
        sorted_by_preference(s).len() == s.len(),
        bound_first(sorted_by_preference(s)),
        forall|k: int| 0 <= k < s.len() ==> s.contains(#[trigger] sorted_by_preference(s)[k]),
    decreases s.len(),
{
    if s.len() > 0 {
        let p = s.drop_last();
        lemma_preference_sort(p);
        lemma_insert_keeps_bound_first(sorted_by_preference(p), s.last());
        let r = sorted_by_preference(s);
        assert forall|k: int| 0 <= k < s.len() implies s.contains(#[trigger] r[k]) by {
            if r[k] == s.last() {
                assert(s[s.len() - 1] == r[k]);
            } else {
                let q = sorted_by_preference(p);
                assert(q.contains(r[k]));
                let m = choose|m: int| 0 <= m < q.len() && q[m] == r[k];
                assert(p.contains(q[m]));
                let n = choose|n: int| 0 <= n < p.len() && p[n] == q[m];
                assert(s[n] == r[k]);
            }
        }
    }
}

proof fn lemma_placeable_of_members(inv: Seq<HostGpu>, req: GpuRequirements, allocated: Seq<String>)
    ensures
        forall|k: int|
            0 <= k < placeable_of(inv, req, allocated).len() ==> placeable(
                #[trigger] placeable_of(inv, req, allocated)[k],
                req,
                allocated,
            ) && inv.contains(placeable_of(inv, req, allocated)[k]),
    decreases inv.len(),
{
    if inv.len() > 0 {
        let p = inv.drop_last();
        lemma_placeable_of_members(p, req, allocated);
        let c = placeable_of(inv, req, allocated);
        let q = placeable_of(p, req, allocated);
        assert forall|k: int| 0 <= k < c.len() implies placeable(#[trigger] c[k], req, allocated)
            && inv.contains(c[k]) by {
            if k < q.len() {
                assert(c[k] == q[k]);
                let m = choose|m: int| 0 <= m < p.len() && p[m] == q[k];
                assert(inv[m] == c[k]);
            } else {
                assert(c[k] == inv.last());
                assert(inv[inv.len() - 1] == c[k]);
            }
        }
    }
}

/// A placement takes exactly the devices the request needs, every one of
/// them free, NVIDIA, unheld and large enough, and never an unbound device
/// ahead of a vfio-bound one.
pub proof fn lemma_placement_prefers_vfio_bound(inv: Seq<HostGpu>, req: GpuRequirements, allocated: Seq<String>)
    ensures
        placement(inv, req, allocated) matches Ok(s) ==> {
            &&& s.len() == need_of(req)
            &&& bound_first(s)
            &&& forall|k: int| 0 <= k < s.len() ==> placeable(#[trigger] s[k], req, allocated) && inv.contains(s[k])
        },
{
    let c = placeable_of(inv, req, allocated);
    lemma_preference_sort(c);
    lemma_placeable_of_members(inv, req, allocated);
    if let Ok(s) = placement(inv, req, allocated) {
        let t = sorted_by_preference(c);
        assert forall|i: int, j: int|
            0 <= i < j < s.len() && (#[trigger] s[j]).group_bound_to_vfio implies (#[trigger] s[i]).group_bound_to_vfio by {
            assert(s[i] == t[i] && s[j] == t[j]);
        }
        assert forall|k: int| 0 <= k < s.len() implies placeable(#[trigger] s[k], req, allocated) && inv.contains(s[k]) by {
            assert(s[k] == t[k]);
            assert(c.contains(t[k]));
            let m = choose|m: int| 0 <= m < c.len() && c[m] == t[k];
            assert(placeable(c[m], req, allocated) && inv.contains(c[m]));
        }
    }
}

/// The outcome of placing `req` on a host's inventory.
pub open spec fn placement(inv: Seq<HostGpu>, req: GpuRequirements, allocated: Seq<String>) -> Result<
    Seq<HostGpu>,
    Seq<char>,
> {
    let vendor = lower_seq(trim(req.vendor@));
    let cands = placeable_of(inv, req, allocated);
    if vendor != "nvidia"@ {
        Err("unsupported GPU vendor '"@ + vendor + "' (MVP supports only 'nvidia')"@)
    } else if cands.len() < need_of(req) {
        Err("not enough free NVIDIA GPUs: need "@ + dec(need_of(req)) + ", found "@ + dec(cands.len()))
    } else {
        Ok(sorted_by_preference(cands).take(need_of(req) as int))
    }
}

fn is_nvidia_exec(g: &HostGpu) -> (r: bool)
    ensures
        r == is_nvidia(*g),
{
    if eq_ignore_ascii_case(g.vendor.as_str(), "nvidia") || g.vendor_id == NVIDIA_VENDOR_ID {
        return true;
    }
    let low = to_lower(g.vendor.as_str());
    contains_str(low.as_str(), "nvidia")
}

fn placeable_exec(g: &HostGpu, req: &GpuRequirements, allocated: &[String]) -> (r: bool)
    ensures
        r == placeable(*g, *req, allocated@),
{
    if !is_nvidia_exec(g) {
        return false;
    }
    let low = to_lower(g.bdf.as_str());
    if slice_has(allocated, low.as_str()) {
        return false;
    }
    if g.group_held {
        return false;
    }
    match g.vram_gib {
        Some(v) => v >= req.minimum_vram_gib,
        None => req.minimum_vram_gib == 0,
    }
}

fn before_exec(a: &HostGpu, b: &HostGpu) -> (r: bool)
    ensures
        r == before(*a, *b),
{
    (a.group_bound_to_vfio && !b.group_bound_to_vfio) || (a.group_bound_to_vfio
        == b.group_bound_to_vfio && str_lt(a.bdf.as_str(), b.bdf.as_str()))
}

/// Free NVIDIA GPUs that meet the vendor and memory filters, skipping
/// devices in `allocated` (lower-case BDFs already claimed) and devices
/// whose IOMMU group another process holds; vfio-bound devices first,
/// then by BDF.
pub fn place_gpus<'a>(inventory: &'a [HostGpu], req: &GpuRequirements, allocated: &[String]) -> (r: Result<
    Vec<&'a HostGpu>,
    String,
>)
    ensures
        match placement(inventory@, *req, allocated@) {
            Ok(s) => r matches Ok(v) && v@.map_values(|g: &HostGpu| *g) == s,
            Err(e) => r matches Err(m) && m@ == e,
        },
{
    let vendor = to_lower(trim_str(req.vendor.as_str()));
    if !crate::text::str_eq(vendor.as_str(), "nvidia") {
        let mut m = owned("unsupported GPU vendor '");
        m.append(vendor.as_str());
        m.append("' (MVP supports only 'nvidia')");
        return Err(m);
    }
    let need: u32 = if req.count < 1 {
        1
    } else {
        req.count
    };
    let mut sorted: Vec<&'a HostGpu> = Vec::new();
    let mut found: usize = 0;
    let mut i: usize = 0;
    while i < inventory.len()
        invariant
            i <= inventory@.len(),
            found <= i,
            found == placeable_of(inventory@.subrange(0, i as int), *req, allocated@).len(),
            sorted@.map_values(|g: &HostGpu| *g) == sorted_by_preference(
                placeable_of(inventory@.subrange(0, i as int), *req, allocated@),
            ),
        decreases inventory.len() - i,
    {
        let ghost prefix = inventory@.subrange(0, i as int);
        let ghost next = inventory@.subrange(0, i + 1);
        assert(next.drop_last() =~= prefix);
        let g = &inventory[i];
        if placeable_exec(g, req, allocated) {
            proof {
                lemma_preference_sort(placeable_of(prefix, *req, allocated@));
            }
            let ghost s = sorted@.map_values(|h: &HostGpu| *h);
            let mut p: usize = 0;
            while p < sorted.len() && !before_exec(g, sorted[p])
                invariant
                    p <= sorted@.len(),
                    s == sorted@.map_values(|h: &HostGpu| *h),
                    forall|j: int| 0 <= j < p ==> !before(*g, #[trigger] s[j]),
                decreases sorted.len() - p,
            {
                p = p + 1;
            }
            proof {
                lemma_insert_at(s, *g, p as int);
                let c = placeable_of(next, *req, allocated@);
                assert(c == placeable_of(prefix, *req, allocated@).push(*g));
                assert(c.drop_last() =~= placeable_of(prefix, *req, allocated@));
                assert(c.last() == *g);
            }
            sorted.insert(p, g);
            found = found + 1;
            proof {
                let t = sorted@.map_values(|h: &HostGpu| *h);
                assert(t =~= s.subrange(0, p as int).push(*g) + s.subrange(p as int, s.len() as int));
            }
        } else {
            proof {
                assert(placeable_of(next, *req, allocated@) =~= placeable_of(prefix, *req, allocated@));
            }
        }
        i = i + 1;
    }
    proof {
        assert(inventory@.subrange(0, inventory@.len() as int) =~= inventory@);
        lemma_preference_sort(placeable_of(inventory@, *req, allocated@));
    }
    if found < need as usize {
        let mut m = owned("not enough free NVIDIA GPUs: need ");
        push_dec(&mut m, need as u64);
        m.append(", found ");
        push_dec(&mut m, found as u64);
        return Err(m);
    }
    let mut out: Vec<&'a HostGpu> = Vec::new();
    let mut k: usize = 0;
    let ghost whole = sorted@.map_values(|h: &HostGpu| *h);
    while k < need as usize
        invariant
            k <= need <= sorted@.len(),
            whole == sorted@.map_values(|h: &HostGpu| *h),
            out@.map_values(|h: &HostGpu| *h) == whole.take(k as int),
        decreases need - k,
    {
        let ghost before_push = out@.map_values(|h: &HostGpu| *h);
        assert(whole[k as int] == *sorted@[k as int]);
        out.push(sorted[k]);
        assert(out@.map_values(|h: &HostGpu| *h) =~= before_push.push(whole[k as int]));
        k = k + 1;
        assert(out@.map_values(|h: &HostGpu| *h) =~= whole.take(k as int));
    }
    Ok(out)
}

} // verus!
