//! Janus: a simulated GPU inventory and OpenAI-compatible upstream. Its
//! devices are labelled `janus:` and are not PCI adapters.
use vstd::prelude::*;

use super::types::{InferenceNode, NodeGpu, NodeState};
use crate::text::{
    chars_of, contains_char, contains_str, has_infix, owned, starts_with, string_of_range,
    vec_starts_with_at,
};
use vstd::string::*;

verus! {

/// `s` with every leading copy of `p` removed (`str::trim_start_matches`).
pub open spec fn strip_all_prefix(s: Seq<char>, p: Seq<char>) -> Seq<char>
    decreases s.len(),
{
    if p.len() > 0 && p.is_prefix_of(s) {
        strip_all_prefix(s.subrange(p.len() as int, s.len() as int), p)
    } else {
        s
    }
}

/// `s` with every trailing `c` removed (`str::trim_end_matches`).
pub open spec fn strip_all_suffix_char(s: Seq<char>, c: char) -> Seq<char>
    decreases s.len(),
{
    if s.len() > 0 && s.last() == c {
        strip_all_suffix_char(s.drop_last(), c)
    } else {
        s
    }
}

/// Start of `v[from..]` after stripping leading copies of `p`.
fn skip_prefixes(v: &Vec<char>, p: &Vec<char>, from: usize) -> (r: usize)
    requires
        from <= v@.len(),
        p@.len() > 0,
    ensures
        from <= r <= v@.len(),
        v@.subrange(r as int, v@.len() as int) == strip_all_prefix(
            v@.subrange(from as int, v@.len() as int),
            p@,
        ),
{
    let mut i = from;
    let n = v.len();
    let mut more = vec_starts_with_at(v, p, i);
    while more
        invariant
            n == v@.len(),
            more == (i + p@.len() <= v@.len() && v@.subrange(i as int, i + p@.len()) == p@),
            from <= i <= v@.len(),
            p@.len() > 0,
            strip_all_prefix(v@.subrange(i as int, v@.len() as int), p@) == strip_all_prefix(
                v@.subrange(from as int, v@.len() as int),
                p@,
            ),
        decreases v@.len() - i,
    {
        proof {
            let t = v@.subrange(i as int, v@.len() as int);
            assert(p@.is_prefix_of(t)) by {
                assert(t.subrange(0, p@.len() as int) =~= v@.subrange(i as int, i + p@.len()));
            }
            assert(t.subrange(p@.len() as int, t.len() as int) =~= v@.subrange(
                i + p@.len(),
                v@.len() as int,
            ));
        }
        i = i + p.len();
        more = vec_starts_with_at(v, p, i);
    }
    proof {
        let t = v@.subrange(i as int, v@.len() as int);
        if p@.is_prefix_of(t) {
            assert(v@.subrange(i as int, i + p@.len()) =~= t.subrange(0, p@.len() as int));
        }
    }
    i
}

/// `http://127.0.0.1:30818/` becomes `127.0.0.1:30818`.
pub fn replica_hostport(url: &str) -> (r: String)
    ensures
        r@ == strip_all_suffix_char(
            strip_all_prefix(strip_all_prefix(url@, "https://"@), "http://"@),
            '/',
        ),
{
    proof {
        reveal_strlit("https://");
        reveal_strlit("http://");
    }
    let v = chars_of(url);
    let https = chars_of("https://");
    let http = chars_of("http://");
    let a = skip_prefixes(&v, &https, 0);
    let b = skip_prefixes(&v, &http, a);
    proof {
        assert(v@.subrange(0, v@.len() as int) =~= v@);
    }
    let mut e = v.len();
    while e > b && v[e - 1] == '/'
        invariant
            b <= e <= v@.len(),
            strip_all_suffix_char(v@.subrange(b as int, e as int), '/') == strip_all_suffix_char(
                v@.subrange(b as int, v@.len() as int),
                '/',
            ),
        decreases e - b,
    {
        proof {
            let t = v@.subrange(b as int, e as int);
            assert(t.drop_last() =~= v@.subrange(b as int, e - 1));
        }
        e = e - 1;
    }
    string_of_range(&v, b, e)
}

pub fn is_janus_bdf(bdf: &str) -> (r: bool)
    ensures
        r == "janus:"@.is_prefix_of(bdf@),
{
    starts_with(bdf, "janus:")
}

/// One node of the Janus inventory document.
#[derive(Debug, Clone)]
pub struct InventoryNode {
    pub id: String,
    pub gpus: Vec<InventoryGpu>,
}

#[derive(Debug, Clone)]
pub struct InventoryGpu {
    pub id: String,
    pub profile: String,
    pub memory_gb: u32,
    pub mig: bool,
}

/// A node id that can name a stored record.
pub open spec fn usable_id(id: Seq<char>) -> bool {
    id.len() > 0 && !id.contains('/') && !has_infix(id, ".."@)
}

/// How one inventory device is recorded.
pub open spec fn gpu_from_inventory(g: InventoryGpu, r: NodeGpu) -> bool {
    &&& r.bdf@ == g.id@
    &&& r.vendor@ == "nvidia"@
    &&& r.vram_gib == g.memory_gb
    &&& r.model@ == "janus:"@ + g.profile@
    &&& r.healthy
    &&& r.mig_profile@.len() == 0
    &&& r.parent_bdf@.len() == 0
    &&& r.nvlink == g.mig
    &&& r.temperature_c == 0 && r.power_watts == 0 && r.ecc_errors == 0
}

/// How one inventory node is recorded.
pub open spec fn node_from_inventory(n: InventoryNode, r: InferenceNode, now_unix: i64) -> bool {
    &&& r.id@ == n.id@
    &&& r.site@ == "janus"@
    &&& r.failure_domain@ == "janus"@
    &&& r.state == NodeState::Ready
    &&& r.heartbeat_unix == now_unix
    &&& r.gpus@.len() == n.gpus@.len()
    &&& forall|j: int| 0 <= j < n.gpus@.len() ==> gpu_from_inventory(#[trigger] n.gpus@[j], r.gpus@[j])
    &&& r.taints@.len() == 0
    &&& r.cpu_free == 0
    &&& r.memory_gib_free == 0
    &&& r.cached_models@.len() == 0
}

/// Nodes for a parsed inventory. Every node id must be usable.
pub fn nodes_from_inventory(inventory: Vec<InventoryNode>, now_unix: i64) -> (r: Result<
    Vec<InferenceNode>,
    String,
>)
    ensures
        r is Ok <==> forall|i: int| 0 <= i < inventory@.len() ==> usable_id(#[trigger] inventory@[i].id@),
        r matches Ok(nodes) ==> nodes@.len() == inventory@.len() && forall|i: int|
            0 <= i < inventory@.len() ==> node_from_inventory(
                #[trigger] inventory@[i],
                nodes@[i],
                now_unix,
            ),
        r matches Err(e) ==> exists|i: int|
            0 <= i < inventory@.len() && !usable_id(#[trigger] inventory@[i].id@) && e@
                == "janus node id '"@ + inventory@[i].id@ + "' is not usable"@,
{
    let mut nodes: Vec<InferenceNode> = Vec::new();
    let mut i: usize = 0;
    while i < inventory.len()
        invariant
            i <= inventory@.len(),
            nodes@.len() == i,
            forall|j: int| 0 <= j < i ==> usable_id(#[trigger] inventory@[j].id@),
            forall|j: int| 0 <= j < i ==> node_from_inventory(#[trigger] inventory@[j], nodes@[j], now_unix),
        decreases inventory.len() - i,
    {
        let node = &inventory[i];
        let id = node.id.as_str();
        if id.unicode_len() == 0 || contains_char(id, '/') || contains_str(id, "..") {
            let mut msg = "janus node id '".to_owned();
            msg.append(id);
            msg.append("' is not usable");
            return Err(msg);
        }
        let mut gpus: Vec<NodeGpu> = Vec::new();
        let mut k: usize = 0;
        while k < node.gpus.len()
            invariant
                k <= node.gpus@.len(),
                gpus@.len() == k,
                forall|j: int| 0 <= j < k ==> gpu_from_inventory(#[trigger] node.gpus@[j], gpus@[j]),
            decreases node.gpus.len() - k,
        {
            let g = &node.gpus[k];
            let mut model = "janus:".to_owned();
            model.append(g.profile.as_str());
            gpus.push(
                NodeGpu {
                    bdf: g.id.clone(),
                    vendor: owned("nvidia"),
                    vram_gib: g.memory_gb,
                    model,
                    healthy: true,
                    mig_profile: String::new(),
                    parent_bdf: String::new(),
                    nvlink: g.mig,
                    temperature_c: 0,
                    power_watts: 0,
                    ecc_errors: 0,
                },
            );
            k = k + 1;
        }
        nodes.push(
            InferenceNode {
                id: node.id.clone(),
                site: owned("janus"),
                failure_domain: owned("janus"),
                state: NodeState::Ready,
                heartbeat_unix: now_unix,
                gpus,
                taints: Vec::new(),
                cpu_free: 0,
                memory_gib_free: 0,
                cached_models: Vec::new(),
            },
        );
        i = i + 1;
    }
    Ok(nodes)
}

/// The Janus base URL from the `FLUXVM_AI_JANUS_URL` setting: trimmed,
/// trailing slashes dropped; none when nothing is left.
pub fn janus_url(setting: Option<&str>) -> (r: Option<String>)
    ensures
        match setting {
            Some(v) if strip_all_suffix_char(crate::text::trim(v@), '/').len() > 0 => r matches Some(s)
                && s@ == strip_all_suffix_char(crate::text::trim(v@), '/'),
            _ => r is None,
        },
{
    let raw = match setting {
        Some(v) => v,
        None => {
            return None;
        },
    };
    let t = crate::text::trim_str(raw);
    let v = chars_of(t);
    let mut e = v.len();
    proof {
        assert(v@.subrange(0, v@.len() as int) =~= v@);
    }
    while e > 0 && v[e - 1] == '/'
        invariant
            e <= v@.len(),
            strip_all_suffix_char(v@.subrange(0, e as int), '/') == strip_all_suffix_char(v@, '/'),
        decreases e,
    {
        proof {
            assert(v@.subrange(0, e as int).drop_last() =~= v@.subrange(0, e - 1));
        }
        e = e - 1;
    }
    if e == 0 {
        return None;
    }
    Some(string_of_range(&v, 0, e))
}

} // verus!
