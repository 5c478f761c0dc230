//! Declarative container groups: object-name rules, pod naming, stale pods,
//! and the shape checks of a group spec.
use vstd::prelude::*;

use crate::num::{clamp, sat_mul_u32, sat_mul_u64};
use crate::text::{chars_of, dec, owned, push_dec, str_eq};
use vstd::string::*;
use vstd::utf8::encode_utf8;

verus! {

#[derive(Debug, Clone)]
pub struct EnvVarSpec {
    pub name: String,
    pub value: String,
}

/// CPU count and memory size text of one container.
#[derive(Debug, Clone)]
pub struct ResourceSpec {
    pub cpus: u32,
    pub memory: String,
}

/// A host path mounted into a container.
#[derive(Debug, Clone)]
pub struct VolumeMount {
    pub host: String,
    pub guest: String,
}

#[derive(Debug, Clone)]
pub struct ContainerSpec {
    pub name: String,
    /// OCI image reference.
    pub image: String,
    pub command: Vec<String>,
    pub args: Vec<String>,
    pub env: Vec<EnvVarSpec>,
    pub resources: ResourceSpec,
    pub volume_mounts: Vec<VolumeMount>,
}

#[derive(Debug, Clone)]
pub struct PlacementSpec {
    /// Pin directly to a host (by id or hostname).
    pub node_hint: Option<String>,
    /// Let an autohealer recreate the group's pods on another host.
    pub auto_reschedule: bool,
}

#[derive(Debug, Clone)]
pub struct ContainerGroupSpec {
    pub name: String,
    pub containers: Vec<ContainerSpec>,
    pub replicas: u32,
    pub placement: PlacementSpec,
    pub restart_policy: String,
    pub tags: Vec<String>,
    pub tenant: Option<String>,
    /// Names of registry Secrets already present in the namespace.
    pub image_pull_secrets: Vec<String>,
}

#[derive(Debug, Clone)]
pub struct ContainerGroupApplyResult {
    pub name: String,
    pub host_id: String,
    pub host_name: String,
    pub replicas_created: usize,
    pub warnings: Vec<String>,
}

#[derive(Debug, Clone, Copy, PartialEq, Eq, Structural)]
pub enum ContainerGroupEventType {
    Created,
    Applied,
    Deleted,
    PlacementFailed,
}

pub fn default_replicas() -> (r: u32)
    ensures
        r == 1,
{
    1
}

pub fn default_restart_policy() -> (r: String)
    ensures
        r@ == "Always"@,
{
    owned("Always")
}

pub open spec fn k8s_char(c: char) -> bool {
    ('a' <= c && c <= 'z') || ('0' <= c && c <= '9') || c == '-' || c == '.'
}

/// An RFC 1123 DNS subdomain: 1 to 253 lower-case letters, digits, `-` or
/// `.`, not starting or ending with `-` or `.`.
pub open spec fn k8s_name_ok(n: Seq<char>) -> bool {
    &&& 0 < encode_utf8(n).len() <= 253
    &&& forall|i: int| 0 <= i < n.len() ==> k8s_char(#[trigger] n[i])
    &&& n[0] != '-' && n[0] != '.'
    &&& n.last() != '-' && n.last() != '.'
}

pub fn is_valid_k8s_object_name(name: &str) -> (r: bool)
    ensures
        r == k8s_name_ok(name@),
{
    let blen = name.as_bytes().len();
    if blen == 0 || blen > 253 {
        proof {
            if name@.len() > 0 {
                assert(encode_utf8(name@).len() == blen);
            }
        }
        return false;
    }
    let v = chars_of(name);
    proof {
        if v@.len() == 0 {
            assert(name@ =~= Seq::<char>::empty());
            assert(encode_utf8(name@) =~= Seq::<u8>::empty()) by {
                vstd::utf8::encode_utf8_decode_utf8(name@);
            }
        }
    }
    if v.len() == 0 {
        return false;
    }
    let mut i: usize = 0;
    while i < v.len()
        invariant
            i <= v@.len(),
            v@ == name@,
            forall|j: int| 0 <= j < i ==> k8s_char(#[trigger] v@[j]),
        decreases v.len() - i,
    {
        let c = v[i];
        if !(('a' <= c && c <= 'z') || ('0' <= c && c <= '9') || c == '-' || c == '.') {
            return false;
        }
        i = i + 1;
    }
    let first = v[0];
    let last = v[v.len() - 1];
    first != '-' && first != '.' && last != '-' && last != '.'
}

/// The pod name of replica `index`: the bare group name for a single
/// replica, else `{group}-{index}`.
pub fn pod_name(group_name: &str, replicas: u32, index: u32) -> (r: String)
    ensures
        r@ == (if replicas <= 1 {
            group_name@
        } else {
            group_name@ + "-"@ + dec(index as nat)
        }),
{
    if replicas <= 1 {
        owned(group_name)
    } else {
        let mut r = owned(group_name);
        r.append("-");
        push_dec(&mut r, index as u64);
        r
    }
}

/// The previous pod names no longer desired, in order.
pub open spec fn stale_of(previous: Seq<Seq<char>>, desired: Seq<Seq<char>>) -> Seq<Seq<char>>
    decreases previous.len(),
{
    if previous.len() == 0 {
        Seq::empty()
    } else {
        stale_of(previous.drop_last(), desired) + if desired.contains(previous.last()) {
            Seq::empty()
        } else {
            seq![previous.last()]
        }
    }
}

fn desired_has(desired: &[String], name: &str) -> (r: bool)
    ensures
        r == crate::text::views(desired@).contains(name@),
{
    let mut k: usize = 0;
    while k < desired.len()
        invariant
            k <= desired@.len(),
            forall|j: int| 0 <= j < k ==> (#[trigger] desired@[j])@ != name@,
        decreases desired.len() - k,
    {
        if str_eq(desired[k].as_str(), name) {
            assert(crate::text::views(desired@)[k as int] == name@);
            return true;
        }
        k = k + 1;
    }
    proof {
        if crate::text::views(desired@).contains(name@) {
            let j = choose|j: int| 0 <= j < desired@.len() && crate::text::views(desired@)[j] == name@;
            assert(desired@[j]@ == name@);
        }
    }
    false
}

/// Pod names an earlier apply created that the desired set no longer
/// wants, compared against the whole desired set.
pub fn stale_pod_names(previous: &[String], desired: &[String]) -> (r: Vec<String>)
    ensures
        crate::text::views(r@) == stale_of(crate::text::views(previous@), crate::text::views(desired@)),
{
    let ghost pv = crate::text::views(previous@);
    let ghost dv = crate::text::views(desired@);
    let mut out: Vec<String> = Vec::new();
    let mut i: usize = 0;
    while i < previous.len()
        invariant
            i <= previous@.len(),
            pv == crate::text::views(previous@),
            dv == crate::text::views(desired@),
            crate::text::views(out@) == stale_of(pv.subrange(0, i as int), dv),
        decreases previous.len() - i,
    {
        let keep = !desired_has(desired, previous[i].as_str());
        if keep {
            out.push(owned(previous[i].as_str()));
        }
        proof {
            let t = pv.subrange(0, i + 1);
            assert(t.drop_last() =~= pv.subrange(0, i as int));
            assert(t.last() == previous@[i as int]@);
            assert(crate::text::views(out@) =~= stale_of(t, dv));
        }
        i = i + 1;
    }
    proof {
        assert(pv.subrange(0, pv.len() as int) =~= pv);
    }
    out
}

/// The count, range and name checks of a group spec that need no outside
/// lookup, in the order they are made: container count (1–16), replicas
/// (1–64), tags (at most 100), restart policy, pull secrets (at most 16,
/// each a valid object name).
pub fn check_group_shape(
    containers: usize,
    replicas: u32,
    tags: usize,
    restart_policy: &str,
    image_pull_secrets: &[String],
) -> (r: Result<(), String>)
    ensures
        containers == 0 ==> (r matches Err(e) && e@ == "containers must not be empty"@),
        containers > 16 ==> (r matches Err(e) && e@ == "containers count must not exceed 16"@),
        1 <= containers <= 16 && !(1 <= replicas <= 64) ==> (r matches Err(e) && e@
            == "replicas must be between 1 and 64"@),
        1 <= containers <= 16 && 1 <= replicas <= 64 && tags > 100 ==> (r matches Err(e) && e@
            == "tags count must not exceed 100"@),
        1 <= containers <= 16 && 1 <= replicas <= 64 && tags <= 100 && !(restart_policy@ == "Always"@
            || restart_policy@ == "Never"@ || restart_policy@ == "OnFailure"@) ==> (r matches Err(e)
            && e@ == "restart_policy must be one of Always, Never, OnFailure"@),
        1 <= containers <= 16 && 1 <= replicas <= 64 && tags <= 100 && (restart_policy@ == "Always"@
            || restart_policy@ == "Never"@ || restart_policy@ == "OnFailure"@)
            && image_pull_secrets@.len() > 16 ==> (r matches Err(e) && e@
            == "image_pull_secrets count must not exceed 16"@),
        r is Ok <==> (1 <= containers <= 16 && 1 <= replicas <= 64 && tags <= 100 && (restart_policy@
            == "Always"@ || restart_policy@ == "Never"@ || restart_policy@ == "OnFailure"@)
            && image_pull_secrets@.len() <= 16 && forall|k: int|
            0 <= k < image_pull_secrets@.len() ==> k8s_name_ok((#[trigger] image_pull_secrets@[k])@)),
{
    if containers == 0 {
        return Err(owned("containers must not be empty"));
    }
    if containers > 16 {
        return Err(owned("containers count must not exceed 16"));
    }
    if replicas < 1 || replicas > 64 {
        return Err(owned("replicas must be between 1 and 64"));
    }
    if tags > 100 {
        return Err(owned("tags count must not exceed 100"));
    }
    if !(str_eq(restart_policy, "Always") || str_eq(restart_policy, "Never") || str_eq(
        restart_policy,
        "OnFailure",
    )) {
        return Err(owned("restart_policy must be one of Always, Never, OnFailure"));
    }
    if image_pull_secrets.len() > 16 {
        return Err(owned("image_pull_secrets count must not exceed 16"));
    }
    let mut k: usize = 0;
    while k < image_pull_secrets.len()
        invariant
            k <= image_pull_secrets@.len() <= 16,
            1 <= containers <= 16,
            1 <= replicas <= 64,
            tags <= 100,
            restart_policy@ == "Always"@ || restart_policy@ == "Never"@ || restart_policy@ == "OnFailure"@,
            forall|j: int| 0 <= j < k ==> k8s_name_ok((#[trigger] image_pull_secrets@[j])@),
        decreases image_pull_secrets.len() - k,
    {
        if !is_valid_k8s_object_name(image_pull_secrets[k].as_str()) {
            let mut m = owned("invalid image_pull_secrets entry '");
            m.append(image_pull_secrets[k].as_str());
            m.append(
                "': must be a valid Kubernetes object name (lowercase alphanumeric, '-' or '.', 1-253 characters, not starting or ending with '-' or '.')",
            );
            return Err(m);
        }
        k = k + 1;
    }
    Ok(())
}

/// Why a container of a group is refused, if it is: an empty name or
/// image, or a CPU count outside `1..=1024`.
pub open spec fn container_refusal(c: ContainerSpec) -> Option<Seq<char>> {
    if c.name@.len() == 0 || c.image@.len() == 0 {
        Some("each container needs a non-empty name and image"@)
    } else if c.resources.cpus < 1 || c.resources.cpus > 1024 {
        Some("container '"@ + c.name@ + "': cpus must be between 1 and 1024"@)
    } else {
        None
    }
}

/// The first refused container of `cs`, from `i` on, with its refusal.
pub open spec fn first_refusal(cs: Seq<ContainerSpec>, i: int) -> Option<Seq<char>>
    decreases cs.len() - i,
{
    if i < 0 || i >= cs.len() {
        None
    } else if container_refusal(cs[i]) is Some {
        container_refusal(cs[i])
    } else {
        first_refusal(cs, i + 1)
    }
}

/// The per-container checks of a group spec, in container order: each
/// needs a name and an image and 1 to 1024 CPUs. (Memory text and volume
/// paths are checked by the service.)
pub fn check_containers(containers: &[ContainerSpec]) -> (r: Result<(), String>)
    ensures
        match first_refusal(containers@, 0) {
            Some(e) => r matches Err(m) && m@ == e,
            None => r is Ok,
        },
{
    let mut i: usize = 0;
    while i < containers.len()
        invariant
            i <= containers@.len(),
            first_refusal(containers@, 0) == first_refusal(containers@, i as int),
        decreases containers.len() - i,
    {
        let c = &containers[i];
        if c.name.unicode_len() == 0 || c.image.unicode_len() == 0 {
            return Err(owned("each container needs a non-empty name and image"));
        }
        if c.resources.cpus < 1 || c.resources.cpus > 1024 {
            let mut m = owned("container '");
            m.append(c.name.as_str());
            m.append("': cpus must be between 1 and 1024");
            return Err(m);
        }
        i = i + 1;
    }
    Ok(())
}

/// Saturating sum of the CPUs of `cs`.
pub open spec fn cpu_sum(cs: Seq<ContainerSpec>) -> u32
    decreases cs.len(),
{
    if cs.len() == 0 {
        0
    } else {
        clamp(cpu_sum(cs.drop_last()) + cs.last().resources.cpus, 0, u32::MAX as int) as u32
    }
}

/// Saturating sum of the memory sizes, an unreadable one counting as 0.
pub open spec fn memory_sum(mem: Seq<Option<u64>>) -> u64
    decreases mem.len(),
{
    if mem.len() == 0 {
        0
    } else {
        clamp(
            memory_sum(mem.drop_last()) + match mem.last() {
                Some(m) => m as int,
                None => 0,
            },
            0,
            u64::MAX as int,
        ) as u64
    }
}

impl ContainerGroupSpec {
    /// CPUs and memory (MB) the whole group asks for: the per-container
    /// sums, times the replica count (at least one), all saturating.
    /// `memory_mb` holds each container's memory size as read from its
    /// text, `None` where it cannot be read.
    pub fn total_resources(&self, memory_mb: &[Option<u64>]) -> (r: (u32, u64))
        requires
            memory_mb@.len() == self.containers@.len(),
        ensures
            ({
                let reps: int = if self.replicas < 1 { 1 } else { self.replicas as int };
                &&& r.0 == clamp(cpu_sum(self.containers@) * reps, 0, u32::MAX as int)
                &&& r.1 == clamp(memory_sum(memory_mb@) * reps, 0, u64::MAX as int)
            }),
    {
        let mut cpus: u32 = 0;
        let mut mem: u64 = 0;
        let mut i: usize = 0;
        while i < self.containers.len()
            invariant
                i <= self.containers@.len(),
                memory_mb@.len() == self.containers@.len(),
                cpus == cpu_sum(self.containers@.subrange(0, i as int)),
                mem == memory_sum(memory_mb@.subrange(0, i as int)),
            decreases self.containers.len() - i,
        {
            proof {
                let t = self.containers@.subrange(0, i + 1);
                assert(t.drop_last() =~= self.containers@.subrange(0, i as int));
                let u = memory_mb@.subrange(0, i + 1);
                assert(u.drop_last() =~= memory_mb@.subrange(0, i as int));
            }
            cpus = cpus.saturating_add(self.containers[i].resources.cpus);
            let m: u64 = match memory_mb[i] {
                Some(m) => m,
                None => 0,
            };
            mem = mem.saturating_add(m);
            i = i + 1;
        }
        proof {
            assert(self.containers@.subrange(0, i as int) =~= self.containers@);
            assert(memory_mb@.subrange(0, i as int) =~= memory_mb@);
        }
        let reps: u32 = if self.replicas < 1 {
            1
        } else {
            self.replicas
        };
        (sat_mul_u32(cpus, reps), sat_mul_u64(mem, reps as u64))
    }
}

} // verus!
