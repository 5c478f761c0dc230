//! Filter-then-score placement across registered inference nodes.
//!
//! An empty node list means "use the local inventory", the single-host path.
//! A heartbeat older than `HEARTBEAT_TTL_SECS` is Offline.
use vstd::prelude::*;

use super::types::{InferenceNode, NodeGpu, NodeState};
use crate::num::{clamp, sat_sub_i64};
use crate::text::{
    eq_ignore_ascii_case, eq_ignore_case, lower_seq, owned, seq_lt, str_eq, str_lt, to_lower,
    trim, trim_string,
};

verus! {

pub const HEARTBEAT_TTL_SECS: i64 = 60;

#[derive(Debug, Clone)]
pub struct ScheduleRequest {
    pub vendor: String,
    pub minimum_vram_gib: u32,
    pub preferred_site: Option<String>,
    pub residency: Option<String>,
    pub model: String,
    pub cpu: u32,
    pub memory_gib: u32,
    /// `(node_id, bdf)` already claimed by a replica.
    pub allocated: Vec<(String, String)>,
    /// Failure domains that already host a replica of this deployment.
    pub occupied_domains: Vec<String>,
    /// Empty means every site is allowed.
    pub allowed_sites: Vec<String>,
    /// `0` means no per-site cap.
    pub max_replicas_per_site: u32,
    pub site_counts: Vec<(String, u32)>,
    /// Empty means a full GPU, not a MIG slice.
    pub mig_profile: String,
    /// When true, only NVLink-attached devices are eligible.
    pub require_nvlink: bool,
}

#[derive(Debug, Clone, PartialEq, Eq)]
pub struct ScheduleChoice {
    pub node_id: String,
    pub bdf: String,
    pub score: i64,
}

/// The abstract content of a choice: node id, device and score.
pub struct ChoiceView {
    pub node_id: Seq<char>,
    pub bdf: Seq<char>,
    pub score: int,
}

impl ScheduleChoice {
    pub open spec fn view(&self) -> ChoiceView {
        ChoiceView { node_id: self.node_id@, bdf: self.bdf@, score: self.score as int }
    }
}

#[derive(Debug, Clone, PartialEq, Eq)]
pub enum Placement {
    /// No nodes are registered. The caller uses the local inventory.
    Legacy,
    Chosen(ScheduleChoice),
}

// ---------------------------------------------------------------------------
// Specification
// ---------------------------------------------------------------------------
pub open spec fn effective_state_spec(node: InferenceNode, now_unix: i64) -> NodeState {
    if node.heartbeat_unix > 0 && clamp(
        now_unix - node.heartbeat_unix,
        i64::MIN as int,
        i64::MAX as int,
    ) > HEARTBEAT_TTL_SECS {
        NodeState::Offline
    } else {
        node.state
    }
}

/// Some element of `v` has view `s`.
pub open spec fn has_string(v: Seq<String>, s: Seq<char>) -> bool {
    exists|i: int| 0 <= i < v.len() && (#[trigger] v[i])@ == s
}

/// The count recorded for `site` in the first matching entry, else 0.
pub open spec fn site_count(counts: Seq<(String, u32)>, site: Seq<char>) -> int
    decreases counts.len(),
{
    if counts.len() == 0 {
        0
    } else if counts[0].0@ == site {
        counts[0].1 as int
    } else {
        site_count(counts.drop_first(), site)
    }
}

pub open spec fn allocated_to(req: ScheduleRequest, node: InferenceNode, gpu: NodeGpu) -> bool {
    exists|i: int|
        0 <= i < req.allocated@.len() && (#[trigger] req.allocated@[i]).0@ == node.id@
            && eq_ignore_case(req.allocated@[i].1@, gpu.bdf@)
}

/// Whether `gpu` on `node` can take the request.
pub open spec fn gpu_matches(node: InferenceNode, req: ScheduleRequest, gpu: NodeGpu) -> bool {
    &&& eq_ignore_case(gpu.vendor@, lower_seq(trim(req.vendor@)))
    &&& gpu.vram_gib >= req.minimum_vram_gib
    &&& gpu.healthy
    &&& (!req.require_nvlink || gpu.nvlink)
    &&& (req.mig_profile@.len() == 0 || gpu.mig_profile@ == req.mig_profile@)
    &&& !allocated_to(req, node, gpu)
}

/// `i` is the first matching device of `node`.
pub open spec fn is_first_gpu(node: InferenceNode, req: ScheduleRequest, i: int) -> bool {
    &&& 0 <= i < node.gpus@.len()
    &&& gpu_matches(node, req, node.gpus@[i])
    &&& forall|j: int| 0 <= j < i ==> !gpu_matches(node, req, #[trigger] node.gpus@[j])
}

pub open spec fn any_gpu(node: InferenceNode, req: ScheduleRequest) -> bool {
    exists|i: int| 0 <= i < node.gpus@.len() && gpu_matches(node, req, #[trigger] node.gpus@[i])
}

/// Why a node is refused, or `None` when it passes every filter.
pub open spec fn reject_reason(node: InferenceNode, req: ScheduleRequest, now_unix: i64) -> Option<
    Seq<char>,
> {
    if effective_state_spec(node, now_unix) != NodeState::Ready {
        Some("node is not ready"@)
    } else if node.taints@.len() > 0 {
        Some("node is tainted"@)
    } else if req.allowed_sites@.len() > 0 && !has_string(req.allowed_sites@, node.site@) {
        Some("site is not allowed"@)
    } else if req.max_replicas_per_site > 0 && site_count(req.site_counts@, node.site@)
        >= req.max_replicas_per_site {
        Some("site is at max_replicas_per_site"@)
    } else if req.residency matches Some(r) && r@.len() > 0 && node.site@ != r@ {
        Some("site is outside residency"@)
    } else if node.cpu_free > 0 && node.cpu_free < req.cpu {
        Some("not enough free CPU"@)
    } else if node.memory_gib_free > 0 && node.memory_gib_free < req.memory_gib {
        Some("not enough free memory"@)
    } else if !any_gpu(node, req) {
        Some("no free matching GPU"@)
    } else {
        None
    }
}

/// Score of a node that passes every filter, given the device it gets.
pub open spec fn score_spec(node: InferenceNode, req: ScheduleRequest, gpu: NodeGpu) -> int {
    gpu.vram_gib + (if has_string(node.cached_models@, req.model@) {
        1000int
    } else {
        0
    }) + (if req.preferred_site matches Some(p) && p@.len() > 0 && p@ == node.site@ {
        100int
    } else {
        0
    }) + (if node.failure_domain@.len() > 0 && !has_string(
        req.occupied_domains@,
        node.failure_domain@,
    ) {
        50int
    } else {
        0
    })
}

/// The first matching device of a node that has one.
pub open spec fn first_gpu(node: InferenceNode, req: ScheduleRequest) -> int {
    choose|i: int| is_first_gpu(node, req, i)
}

/// What `consider` returns for a node: `None` when refused.
pub open spec fn consider_spec(node: InferenceNode, req: ScheduleRequest, now_unix: i64) -> Option<
    ChoiceView,
> {
    if reject_reason(node, req, now_unix) is Some {
        None
    } else {
        let g = node.gpus@[first_gpu(node, req)];
        Some(ChoiceView { node_id: node.id@, bdf: g.bdf@, score: score_spec(node, req, g) })
    }
}

/// `a` ranks above `b`: higher score, then smaller node id.
pub open spec fn better(a: ChoiceView, b: ChoiceView) -> bool {
    a.score > b.score || (a.score == b.score && seq_lt(a.node_id, b.node_id))
}

/// The best choice among the first `k` nodes, scanning in order and
/// replacing the kept choice only by one that ranks strictly above it.
pub open spec fn scan_best(nodes: Seq<InferenceNode>, req: ScheduleRequest, now_unix: i64, k: int) -> Option<
    ChoiceView,
>
    decreases k,
{
    if k <= 0 {
        None
    } else {
        let prev = scan_best(nodes, req, now_unix, k - 1);
        match consider_spec(nodes[k - 1], req, now_unix) {
            None => prev,
            Some(c) => if prev is None || better(c, prev->0) {
                Some(c)
            } else {
                prev
            },
        }
    }
}

pub proof fn lemma_first_gpu_unique(node: InferenceNode, req: ScheduleRequest, i: int)
    requires
        is_first_gpu(node, req, i),
    ensures
        first_gpu(node, req) == i,
{
    let j = first_gpu(node, req);
    assert(is_first_gpu(node, req, j));
    if j < i {
        assert(!gpu_matches(node, req, node.gpus@[j]));
    } else if i < j {
        assert(!gpu_matches(node, req, node.gpus@[i]));
    }
}

// ---------------------------------------------------------------------------
// Implementation
// ---------------------------------------------------------------------------
pub fn effective_state(node: &InferenceNode, now_unix: i64) -> (r: NodeState)
    ensures
        r == effective_state_spec(*node, now_unix),
{
    if node.heartbeat_unix > 0 && sat_sub_i64(now_unix, node.heartbeat_unix) > HEARTBEAT_TTL_SECS {
        return NodeState::Offline;
    }
    node.state
}

/// Does any element of `v` equal `s`?
pub fn vec_has(v: &Vec<String>, s: &str) -> (r: bool)
    ensures
        r == has_string(v@, s@),
{
    let mut i: usize = 0;
    while i < v.len()
        invariant
            i <= v@.len(),
            forall|j: int| 0 <= j < i ==> (#[trigger] v@[j])@ != s@,
        decreases v.len() - i,
    {
        if str_eq(v[i].as_str(), s) {
            return true;
        }
        i = i + 1;
    }
    false
}

fn site_count_exec(counts: &Vec<(String, u32)>, site: &str) -> (r: u32)
    ensures
        r == site_count(counts@, site@),
{
    let mut i: usize = 0;
    assert(counts@.subrange(0, counts@.len() as int) =~= counts@);
    while i < counts.len()
        invariant
            i <= counts@.len(),
            site_count(counts@, site@) == site_count(counts@.subrange(i as int, counts@.len() as int), site@),
        decreases counts.len() - i,
    {
        proof {
            let t = counts@.subrange(i as int, counts@.len() as int);
            assert(t.drop_first() =~= counts@.subrange(i + 1, counts@.len() as int));
            assert(t[0] == counts@[i as int]);
        }
        if str_eq(counts[i].0.as_str(), site) {
            return counts[i].1;
        }
        i = i + 1;
    }
    0
}

fn is_allocated(req: &ScheduleRequest, node: &InferenceNode, gpu: &NodeGpu) -> (r: bool)
    ensures
        r == allocated_to(*req, *node, *gpu),
{
    let mut i: usize = 0;
    while i < req.allocated.len()
        invariant
            i <= req.allocated@.len(),
            forall|j: int|
                0 <= j < i ==> !((#[trigger] req.allocated@[j]).0@ == node.id@ && eq_ignore_case(
                    req.allocated@[j].1@,
                    gpu.bdf@,
                )),
        decreases req.allocated.len() - i,
    {
        if str_eq(req.allocated[i].0.as_str(), node.id.as_str()) && eq_ignore_ascii_case(
            req.allocated[i].1.as_str(),
            gpu.bdf.as_str(),
        ) {
            return true;
        }
        i = i + 1;
    }
    false
}

/// Index of the first device of `node` that matches the request.
fn free_gpu(node: &InferenceNode, req: &ScheduleRequest) -> (r: Option<usize>)
    ensures
        r matches Some(i) ==> is_first_gpu(*node, *req, i as int),
        r is None <==> !any_gpu(*node, *req),
{
    let trimmed = trim_string(req.vendor.as_str());
    let vendor = to_lower(trimmed.as_str());
    let mut i: usize = 0;
    while i < node.gpus.len()
        invariant
            i <= node.gpus@.len(),
            vendor@ == lower_seq(trim(req.vendor@)),
            forall|j: int| 0 <= j < i ==> !gpu_matches(*node, *req, #[trigger] node.gpus@[j]),
        decreases node.gpus.len() - i,
    {
        let gpu = &node.gpus[i];
        if eq_ignore_ascii_case(gpu.vendor.as_str(), vendor.as_str()) && gpu.vram_gib
            >= req.minimum_vram_gib && gpu.healthy && (!req.require_nvlink || gpu.nvlink) && (
        req.mig_profile.as_str().unicode_len() == 0 || str_eq(
            gpu.mig_profile.as_str(),
            req.mig_profile.as_str(),
        )) && !is_allocated(req, node, gpu) {
            return Some(i);
        }
        i = i + 1;
    }
    None
}

/// Filters one node and scores it.
pub fn consider(node: &InferenceNode, req: &ScheduleRequest, now_unix: i64) -> (r: Result<
    ScheduleChoice,
    String,
>)
    ensures
        match r {
            Ok(c) => consider_spec(*node, *req, now_unix) == Some(c.view()),
            Err(e) => reject_reason(*node, *req, now_unix) == Some(e@),
        },
{
    if effective_state(node, now_unix) != NodeState::Ready {
        return Err(owned("node is not ready"));
    }
    if node.taints.len() > 0 {
        return Err(owned("node is tainted"));
    }
    if req.allowed_sites.len() > 0 && !vec_has(&req.allowed_sites, node.site.as_str()) {
        return Err(owned("site is not allowed"));
    }
    if req.max_replicas_per_site > 0 {
        let placed = site_count_exec(&req.site_counts, node.site.as_str());
        if placed >= req.max_replicas_per_site {
            return Err(owned("site is at max_replicas_per_site"));
        }
    }
    match &req.residency {
        Some(residency) => {
            if residency.as_str().unicode_len() > 0 && !str_eq(
                node.site.as_str(),
                residency.as_str(),
            ) {
                return Err(owned("site is outside residency"));
            }
        },
        None => {},
    }
    if node.cpu_free > 0 && node.cpu_free < req.cpu {
        return Err(owned("not enough free CPU"));
    }
    if node.memory_gib_free > 0 && node.memory_gib_free < req.memory_gib {
        return Err(owned("not enough free memory"));
    }
    let gi = match free_gpu(node, req) {
        Some(i) => i,
        None => {
            return Err(owned("no free matching GPU"));
        },
    };
    let gpu = &node.gpus[gi];
    let mut score: i64 = gpu.vram_gib as i64;
    if vec_has(&node.cached_models, req.model.as_str()) {
        score = score + 1000;
    }
    let prefers = match &req.preferred_site {
        Some(site) => site.as_str().unicode_len() > 0 && str_eq(site.as_str(), node.site.as_str()),
        None => false,
    };
    if prefers {
        score = score + 100;
    }
    if node.failure_domain.as_str().unicode_len() > 0 && !vec_has(
        &req.occupied_domains,
        node.failure_domain.as_str(),
    ) {
        score = score + 50;
    }
    let choice = ScheduleChoice { node_id: node.id.clone(), bdf: gpu.bdf.clone(), score };
    proof {
        lemma_first_gpu_unique(*node, *req, gi as int);
        assert(choice.view() == consider_spec(*node, *req, now_unix)->0);
    }
    Ok(choice)
}

/// Does `c` rank above `cur`?
fn ranks_above(c: &ScheduleChoice, cur: &ScheduleChoice) -> (r: bool)
    ensures
        r == better(c.view(), cur.view()),
{
    c.score > cur.score || (c.score == cur.score && str_lt(c.node_id.as_str(), cur.node_id.as_str()))
}

pub fn schedule(nodes: &[InferenceNode], req: &ScheduleRequest, now_unix: i64) -> (r: Result<
    ScheduleChoice,
    String,
>)
    ensures
        match r {
            Ok(c) => scan_best(nodes@, *req, now_unix, nodes@.len() as int) == Some(c.view()),
            Err(e) => scan_best(nodes@, *req, now_unix, nodes@.len() as int) is None && e@
                == "no eligible inference node"@,
        },
{
    let (best, _rejected) = explain(nodes, req, now_unix);
    match best {
        Some(c) => Ok(c),
        None => Err(owned("no eligible inference node")),
    }
}

pub open spec fn opt_view(o: Option<ScheduleChoice>) -> Option<ChoiceView> {
    match o {
        Some(c) => Some(c.view()),
        None => None,
    }
}

/// The `(node id, reason)` pairs for refused nodes among the first `k`.
pub open spec fn rejections(nodes: Seq<InferenceNode>, req: ScheduleRequest, now_unix: i64, k: int) -> Seq<
    (Seq<char>, Seq<char>),
>
    decreases k,
{
    if k <= 0 {
        Seq::empty()
    } else {
        let prev = rejections(nodes, req, now_unix, k - 1);
        match reject_reason(nodes[k - 1], req, now_unix) {
            Some(reason) => prev.push((nodes[k - 1].id@, reason)),
            None => prev,
        }
    }
}

pub open spec fn pair_views(v: Seq<(String, String)>) -> Seq<(Seq<char>, Seq<char>)> {
    v.map_values(|p: (String, String)| (p.0@, p.1@))
}

/// Why each node was skipped, plus the winner. Same rules as `schedule`.
pub fn explain(nodes: &[InferenceNode], req: &ScheduleRequest, now_unix: i64) -> (r: (
    Option<ScheduleChoice>,
    Vec<(String, String)>,
))
    ensures
        scan_best(nodes@, *req, now_unix, nodes@.len() as int) == opt_view(r.0),
        pair_views(r.1@) == rejections(nodes@, *req, now_unix, nodes@.len() as int),
{
    let mut rejected: Vec<(String, String)> = Vec::new();
    let mut best: Option<ScheduleChoice> = None;
    let mut k: usize = 0;
    while k < nodes.len()
        invariant
            k <= nodes@.len(),
            scan_best(nodes@, *req, now_unix, k as int) == opt_view(best),
            pair_views(rejected@) == rejections(nodes@, *req, now_unix, k as int),
        decreases nodes.len() - k,
    {
        let ghost prev = opt_view(best);
        let node = &nodes[k];
        match consider(node, req, now_unix) {
            Ok(choice) => {
                let replace = match &best {
                    None => true,
                    Some(cur) => ranks_above(&choice, cur),
                };
                if replace {
                    best = Some(choice);
                }
                assert(nodes@[(k + 1) - 1] == nodes@[k as int]);
            },
            Err(reason) => {
                assert(nodes@[(k + 1) - 1] == nodes@[k as int]);
                let ghost old_rej = rejected@;
                rejected.push((node.id.clone(), reason));
                proof {
                    assert(pair_views(rejected@) =~= pair_views(old_rej).push(
                        (nodes@[k as int].id@, reason@),
                    ));
                }
            },
        }
        k = k + 1;
    }
    (best, rejected)
}

pub fn decide(nodes: &[InferenceNode], req: &ScheduleRequest, now_unix: i64) -> (r: Result<
    Placement,
    String,
>)
    ensures
        nodes@.len() == 0 <==> r matches Ok(Placement::Legacy),
        nodes@.len() > 0 ==> match r {
            Ok(Placement::Chosen(c)) => scan_best(nodes@, *req, now_unix, nodes@.len() as int)
                == Some(c.view()),
            Ok(Placement::Legacy) => false,
            Err(e) => scan_best(nodes@, *req, now_unix, nodes@.len() as int) is None && e@
                == "no eligible inference node"@,
        },
{
    if nodes.len() == 0 {
        return Ok(Placement::Legacy);
    }
    match schedule(nodes, req, now_unix) {
        Ok(c) => Ok(Placement::Chosen(c)),
        Err(e) => Err(e),
    }
}

pub open spec fn lost_spec(nodes: Seq<InferenceNode>, host: Seq<char>, now_unix: i64) -> bool {
    match first_with_id(nodes, host) {
        Some(i) => effective_state_spec(nodes[i], now_unix) == NodeState::Offline,
        None => true,
    }
}

/// Index of the first node whose id is `host`.
pub open spec fn first_with_id(nodes: Seq<InferenceNode>, host: Seq<char>) -> Option<int>
    decreases nodes.len(),
{
    if nodes.len() == 0 {
        None
    } else if nodes.last().id@ == host && first_with_id(nodes.drop_last(), host) is None {
        Some(nodes.len() - 1)
    } else {
        first_with_id(nodes.drop_last(), host)
    }
}

/// True when `host` is offline or gone and some other node is Ready.
pub fn should_replace_lost(nodes: &[InferenceNode], host: &str, now_unix: i64) -> (r: bool)
    ensures
        r == (host@.len() > 0 && nodes@.len() > 0 && lost_spec(nodes@, host@, now_unix) && exists|
            i: int,
        |
            0 <= i < nodes@.len() && (#[trigger] nodes@[i]).id@ != host@ && effective_state_spec(
                nodes@[i],
                now_unix,
            ) == NodeState::Ready),
{
    if host.unicode_len() == 0 || nodes.len() == 0 {
        return false;
    }
    let mut found: Option<usize> = None;
    let mut i: usize = 0;
    while i < nodes.len()
        invariant
            i <= nodes@.len(),
            found is Some <==> first_with_id(nodes@.subrange(0, i as int), host@) is Some,
            found matches Some(j) ==> first_with_id(nodes@.subrange(0, i as int), host@) == Some(
                j as int,
            ),
            found matches Some(j) ==> j < i,
        decreases nodes.len() - i,
    {
        proof {
            let t = nodes@.subrange(0, i + 1);
            assert(t.drop_last() =~= nodes@.subrange(0, i as int));
        }
        if found.is_none() && str_eq(nodes[i].id.as_str(), host) {
            found = Some(i);
        }
        i = i + 1;
    }
    proof {
        assert(nodes@.subrange(0, nodes@.len() as int) =~= nodes@);
        lemma_first_with_id_in_range(nodes@, host@);
    }
    let lost = match found {
        Some(j) => effective_state(&nodes[j], now_unix) == NodeState::Offline,
        None => true,
    };
    assert(lost == lost_spec(nodes@, host@, now_unix));
    if !lost {
        return false;
    }
    let mut k: usize = 0;
    while k < nodes.len()
        invariant
            k <= nodes@.len(),
            host@.len() > 0,
            nodes@.len() > 0,
            lost_spec(nodes@, host@, now_unix),
            forall|j: int|
                0 <= j < k ==> !((#[trigger] nodes@[j]).id@ != host@ && effective_state_spec(
                    nodes@[j],
                    now_unix,
                ) == NodeState::Ready),
        decreases nodes.len() - k,
    {
        if !str_eq(nodes[k].id.as_str(), host) && effective_state(&nodes[k], now_unix)
            == NodeState::Ready {
            return true;
        }
        k = k + 1;
    }
    false
}

proof fn lemma_first_with_id_in_range(nodes: Seq<InferenceNode>, host: Seq<char>)
    ensures
        first_with_id(nodes, host) matches Some(i) ==> 0 <= i < nodes.len() && nodes[i].id@ == host,
    decreases nodes.len(),
{
    if nodes.len() > 0 {
        lemma_first_with_id_in_range(nodes.drop_last(), host);
    }
}

} // verus!

verus! {

/// `seq_lt` never holds of a string and itself.
pub proof fn lemma_seq_lt_irreflexive(a: Seq<char>)
    ensures
        !seq_lt(a, a),
    decreases a.len(),
{
    if a.len() > 0 {
        lemma_seq_lt_irreflexive(a.drop_first());
    }
}

/// `seq_lt` is transitive.
pub proof fn lemma_seq_lt_transitive(a: Seq<char>, b: Seq<char>, c: Seq<char>)
    requires
        seq_lt(a, b),
        seq_lt(b, c),
    ensures
        seq_lt(a, c),
    decreases a.len(),
{
    if a.len() > 0 && b.len() > 0 && c.len() > 0 {
        if a[0] == b[0] && b[0] == c[0] {
            lemma_seq_lt_transitive(a.drop_first(), b.drop_first(), c.drop_first());
        }
    }
}

/// `better` is a strict order.
pub proof fn lemma_better_order(a: ChoiceView, b: ChoiceView, c: ChoiceView)
    ensures
        !better(a, a),
        better(a, b) && better(b, c) ==> better(a, c),
{
    lemma_seq_lt_irreflexive(a.node_id);
    if better(a, b) && better(b, c) && a.score == b.score && b.score == c.score {
        lemma_seq_lt_transitive(a.node_id, b.node_id, c.node_id);
    }
}

/// Placement picks a node that passes every filter, and no accepted node
/// ranks above it (higher score, or equal score and a smaller id). It finds
/// nothing only when every node is refused.
pub proof fn lemma_placement_is_best(
    nodes: Seq<InferenceNode>,
    req: ScheduleRequest,
    now_unix: i64,
    k: int,
)
    requires
        0 <= k <= nodes.len(),
    ensures
        scan_best(nodes, req, now_unix, k) is None <==> forall|j: int|
            0 <= j < k ==> #[trigger] reject_reason(nodes[j], req, now_unix) is Some,
        scan_best(nodes, req, now_unix, k) matches Some(b) ==> exists|j: int|
            0 <= j < k && #[trigger] consider_spec(nodes[j], req, now_unix) == Some(b)
                && reject_reason(nodes[j], req, now_unix) is None && nodes[j].id@ == b.node_id,
        scan_best(nodes, req, now_unix, k) matches Some(b) ==> forall|j: int|
            0 <= j < k ==> (#[trigger] consider_spec(nodes[j], req, now_unix) matches Some(c)
                ==> !better(c, b)),
    decreases k,
{
    if k > 0 {
        lemma_placement_is_best(nodes, req, now_unix, k - 1);
        let prev = scan_best(nodes, req, now_unix, k - 1);
        let cur = consider_spec(nodes[k - 1], req, now_unix);
        let best = scan_best(nodes, req, now_unix, k);
        if let Some(c) = cur {
            if prev is None || better(c, prev->0) {
                assert forall|j: int| 0 <= j < k implies (#[trigger] consider_spec(
                    nodes[j],
                    req,
                    now_unix,
                ) matches Some(d) ==> !better(d, c)) by {
                    if let Some(d) = consider_spec(nodes[j], req, now_unix) {
                        lemma_better_order(c, c, c);
                        if j < k - 1 {
                            lemma_better_order(d, c, prev->0);
                        }
                    }
                }
            }
        }
        if best is None {
            assert forall|j: int| 0 <= j < k implies #[trigger] reject_reason(
                nodes[j],
                req,
                now_unix,
            ) is Some by {
                if j == k - 1 {
                    assert(cur is None);
                }
            }
        }
    }
}

/// A placement under a residency tag never leaves that site.
pub proof fn lemma_placement_respects_residency(
    nodes: Seq<InferenceNode>,
    req: ScheduleRequest,
    now_unix: i64,
)
    requires
        req.residency matches Some(r) && r@.len() > 0,
    ensures
        scan_best(nodes, req, now_unix, nodes.len() as int) matches Some(b) ==> exists|j: int|
            0 <= j < nodes.len() && #[trigger] nodes[j].id@ == b.node_id && nodes[j].site@
                == req.residency->0@,
{
    lemma_placement_is_best(nodes, req, now_unix, nodes.len() as int);
}

proof fn lemma_has_first_gpu(node: InferenceNode, req: ScheduleRequest, k: int)
    requires
        0 <= k <= node.gpus@.len(),
        forall|j: int| 0 <= j < k ==> !gpu_matches(node, req, #[trigger] node.gpus@[j]),
        exists|i: int| k <= i < node.gpus@.len() && gpu_matches(node, req, #[trigger] node.gpus@[i]),
    ensures
        is_first_gpu(node, req, first_gpu(node, req)),
    decreases node.gpus@.len() - k,
{
    let w = choose|i: int| k <= i < node.gpus@.len() && gpu_matches(node, req, #[trigger] node.gpus@[i]);
    if gpu_matches(node, req, node.gpus@[k]) {
        assert(is_first_gpu(node, req, k));
    } else {
        assert(w != k);
        lemma_has_first_gpu(node, req, k + 1);
    }
}

/// The failure-domain spread: take a node that passes every filter and
/// belongs to no failure domain. Put in a domain that no replica occupies
/// yet, it scores exactly 50 more and ranks strictly above the same node
/// put in a domain that is already occupied; in an occupied domain it
/// scores the same as in none.
pub proof fn lemma_spread_prefers_free_domains(
    node: InferenceNode,
    req: ScheduleRequest,
    now_unix: i64,
    free_domain: String,
    taken_domain: String,
)
    requires
        node.failure_domain@.len() == 0,
        consider_spec(node, req, now_unix) is Some,
        free_domain@.len() > 0,
        !has_string(req.occupied_domains@, free_domain@),
        has_string(req.occupied_domains@, taken_domain@),
    ensures
        ({
            let base = consider_spec(node, req, now_unix)->0;
            let free = consider_spec(InferenceNode { failure_domain: free_domain, ..node }, req, now_unix);
            let taken = consider_spec(InferenceNode { failure_domain: taken_domain, ..node }, req, now_unix);
            &&& free matches Some(f) && f.score == base.score + 50 && f.node_id == base.node_id
            &&& taken matches Some(t) && t.score == base.score && t.node_id == base.node_id
            &&& better(free->0, taken->0)
        }),
{
    let a = InferenceNode { failure_domain: free_domain, ..node };
    let b = InferenceNode { failure_domain: taken_domain, ..node };
    let w = choose|i: int| 0 <= i < node.gpus@.len() && gpu_matches(node, req, #[trigger] node.gpus@[i]);
    lemma_has_first_gpu(node, req, 0);
    let g = first_gpu(node, req);
    assert(gpu_matches(a, req, a.gpus@[w]));
    assert(gpu_matches(b, req, b.gpus@[w]));
    assert(is_first_gpu(a, req, g)) by {
        assert forall|j: int| 0 <= j < g implies !gpu_matches(a, req, #[trigger] a.gpus@[j]) by {
            assert(!gpu_matches(node, req, node.gpus@[j]));
        }
    }
    assert(is_first_gpu(b, req, g)) by {
        assert forall|j: int| 0 <= j < g implies !gpu_matches(b, req, #[trigger] b.gpus@[j]) by {
            assert(!gpu_matches(node, req, node.gpus@[j]));
        }
    }
    lemma_first_gpu_unique(a, req, g);
    lemma_first_gpu_unique(b, req, g);
    assert(reject_reason(a, req, now_unix) == reject_reason(node, req, now_unix));
    assert(reject_reason(b, req, now_unix) == reject_reason(node, req, now_unix));
}

} // verus!
