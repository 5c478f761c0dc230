//! Site advertisement and residency-safe routing.
//!
//! A site outside residency is never a failover target. When the preferred
//! site is saturated, traffic spills only to `failover` sites.
use vstd::prelude::*;

use super::scheduler::{has_string, vec_has};
use super::types::InferenceNode;
use crate::text::{owned, str_eq};

verus! {

#[derive(Debug, Clone)]
pub struct AiSite {
    pub id: String,
    pub residency: String,
    pub latency_ms: u32,
    pub cost_class: u32,
    pub gpu_free: u32,
    pub reachable: bool,
    pub models: Vec<String>,
    pub last_sync_unix: i64,
    pub generation: u64,
}

/// A site that does not say otherwise is reachable.
pub fn default_reachable() -> (r: bool)
    ensures
        r,
{
    true
}

#[derive(Debug, Clone)]
pub struct SitePolicy<'a> {
    pub residency: Option<&'a str>,
    pub allowed: &'a [String],
    pub preferred: Option<&'a str>,
    pub failover: &'a [String],
}

pub open spec fn eligible_spec(site: AiSite, policy: SitePolicy) -> bool {
    &&& site.reachable
    &&& site.gpu_free != 0
    &&& (policy.residency is Some && policy.residency->0@.len() > 0 ==> site.residency@
        == policy.residency->0@)
    &&& (policy.allowed@.len() == 0 || has_string(policy.allowed@, site.id@))
}

pub fn eligible(site: &AiSite, policy: &SitePolicy<'_>) -> (r: bool)
    ensures
        r == eligible_spec(*site, *policy),
{
    if !site.reachable || site.gpu_free == 0 {
        return false;
    }
    match policy.residency {
        Some(residency) => {
            if residency.unicode_len() > 0 && !str_eq(site.residency.as_str(), residency) {
                return false;
            }
        },
        None => {},
    }
    policy.allowed.len() == 0 || slice_has(policy.allowed, site.id.as_str())
}

/// Does any element of `v` equal `s`?
pub fn slice_has(v: &[String], s: &str) -> (r: bool)
    ensures
        r == has_string(v@, s@),
{
    let mut i: usize = 0;
    while i < v.len()
        invariant
            i <= v@.len(),
            forall|j: int| 0 <= j < i ==> (#[trigger] v@[j])@ != s@,
        decreases v.len() - i,
    {
        if str_eq(v[i].as_str(), s) {
            return true;
        }
        i = i + 1;
    }
    false
}

/// Index of the first site that is a listed failover and eligible.
pub open spec fn is_first_failover(policy: SitePolicy, sites: Seq<AiSite>, i: int) -> bool {
    &&& 0 <= i < sites.len()
    &&& has_string(policy.failover@, sites[i].id@) && eligible_spec(sites[i], policy)
    &&& forall|j: int|
        0 <= j < i ==> !(has_string(policy.failover@, (#[trigger] sites[j]).id@) && eligible_spec(
            sites[j],
            policy,
        ))
}

/// The preferred site is used when it is not saturated, listed, and eligible.
pub open spec fn preferred_usable(policy: SitePolicy, sites: Seq<AiSite>, saturated: bool) -> bool {
    &&& !saturated
    &&& policy.preferred is Some
    &&& policy.preferred->0@.len() > 0
    &&& exists|i: int|
        0 <= i < sites.len() && (#[trigger] sites[i]).id@ == policy.preferred->0@ && eligible_spec(
            sites[i],
            policy,
        )
}

fn preferred_available(policy: &SitePolicy<'_>, sites: &[AiSite], saturated: bool) -> (r: bool)
    ensures
        r == preferred_usable(*policy, sites@, saturated),
{
    if saturated {
        return false;
    }
    match policy.preferred {
        Some(preferred) => {
            if preferred.unicode_len() == 0 {
                return false;
            }
            let mut i: usize = 0;
            while i < sites.len()
                invariant
                    i <= sites@.len(),
                    !saturated,
                    preferred@.len() > 0,
                    policy.preferred == Some(preferred),
                    forall|j: int|
                        0 <= j < i ==> !((#[trigger] sites@[j]).id@ == preferred@ && eligible_spec(
                            sites@[j],
                            *policy,
                        )),
                decreases sites.len() - i,
            {
                if str_eq(sites[i].id.as_str(), preferred) && eligible(&sites[i], policy) {
                    assert(sites@[i as int].id@ == preferred@);
                    return true;
                }
                i = i + 1;
            }
            false
        },
        None => false,
    }
}

/// Pick a site. Saturated preferred sites spill only to listed failovers.
pub fn pick_site(policy: &SitePolicy<'_>, sites: &[AiSite], preferred_saturated: bool) -> (r: Result<
    String,
    String,
>)
    ensures
        preferred_usable(*policy, sites@, preferred_saturated) ==> (r is Ok && r->Ok_0@
            == policy.preferred->0@),
        !preferred_usable(*policy, sites@, preferred_saturated) ==> match r {
            Ok(s) => exists|i: int| is_first_failover(*policy, sites@, i) && s@ == sites@[i].id@,
            Err(e) => (forall|i: int| !is_first_failover(*policy, sites@, i)) && e@
                == "no site inside residency and failover policy"@,
        },
{
    if preferred_available(policy, sites, preferred_saturated) {
        match policy.preferred {
            Some(preferred) => {
                return Ok(owned(preferred));
            },
            None => {},
        }
    }
    let mut i: usize = 0;
    while i < sites.len()
        invariant
            i <= sites@.len(),
            !preferred_usable(*policy, sites@, preferred_saturated),
            forall|j: int|
                0 <= j < i ==> !(has_string(policy.failover@, (#[trigger] sites@[j]).id@)
                    && eligible_spec(sites@[j], *policy)),
        decreases sites.len() - i,
    {
        if slice_has(policy.failover, sites[i].id.as_str()) && eligible(&sites[i], policy) {
            assert(is_first_failover(*policy, sites@, i as int));
            return Ok(sites[i].id.clone());
        }
        i = i + 1;
    }
    Err(owned("no site inside residency and failover policy"))
}

/// Enough distinct sites host the deployment; `0` disables the check.
pub fn meets_minimum_sites(distinct: usize, minimum: u32) -> (r: bool)
    ensures
        r == (minimum == 0 || distinct >= minimum),
{
    minimum == 0 || distinct as u64 >= minimum as u64
}

#[derive(Debug, Clone)]
pub struct EdgeSnapshot {
    pub generation: u64,
    pub model_digest: String,
    pub fail_closed_unix: i64,
}

/// A disconnected site may serve the last snapshot until the fail-closed time.
pub fn edge_may_serve(snapshot: &EdgeSnapshot, now_unix: i64) -> (r: bool)
    ensures
        r == (snapshot.generation > 0 && now_unix < snapshot.fail_closed_unix),
{
    snapshot.generation > 0 && now_unix < snapshot.fail_closed_unix
}

/// The non-empty site names among the first `k` nodes.
pub open spec fn site_set(nodes: Seq<InferenceNode>, k: int) -> Set<Seq<char>> {
    Set::new(
        |s: Seq<char>| s.len() > 0 && exists|i: int| 0 <= i < k && (#[trigger] nodes[i]).site@ == s,
    )
}

/// Number of distinct non-empty sites.
pub fn distinct_node_sites(nodes: &[InferenceNode]) -> (r: usize)
    ensures
        r == site_set(nodes@, nodes@.len() as int).len(),
{
    let mut seen: Vec<String> = Vec::new();
    let ghost mut views: Seq<Seq<char>> = Seq::empty();
    let mut k: usize = 0;
    while k < nodes.len()
        invariant
            k <= nodes@.len(),
            views.len() == seen@.len(),
            forall|j: int| 0 <= j < seen@.len() ==> views[j] == (#[trigger] seen@[j])@,
            views.no_duplicates(),
            views.to_set() == site_set(nodes@, k as int),
        decreases nodes.len() - k,
    {
        let site = &nodes[k].site;
        let ghost before = views;
        if site.as_str().unicode_len() > 0 && !vec_has(&seen, site.as_str()) {
            seen.push(site.clone());
            proof {
                views = views.push(site@);
                assert(!before.contains(site@)) by {
                    if before.contains(site@) {
                        let j = choose|j: int| 0 <= j < before.len() && before[j] == site@;
                        assert(seen@[j]@ == site@);
                    }
                }
            }
        }
        proof {
            assert(views.to_set() =~= site_set(nodes@, k + 1)) by {
                assert forall|s: Seq<char>| #[trigger] site_set(nodes@, k + 1).contains(s) implies views.to_set().contains(s) by {
                    let i = choose|i: int| 0 <= i < k + 1 && (#[trigger] nodes@[i]).site@ == s;
                    if i < k {
                        assert(site_set(nodes@, k as int).contains(s));
                        assert(before.to_set().contains(s));
                        let j = choose|j: int| 0 <= j < before.len() && before[j] == s;
                        assert(views[j] == s);
                    } else if views.len() > before.len() {
                        assert(views[views.len() - 1] == s);
                    } else {
                        let j = choose|j: int| 0 <= j < seen@.len() && seen@[j]@ == site@;
                        assert(views[j] == s);
                    }
                }
                assert forall|s: Seq<char>| views.to_set().contains(s) implies #[trigger] site_set(nodes@, k + 1).contains(s) by {
                    let j = choose|j: int| 0 <= j < views.len() && views[j] == s;
                    if j < before.len() {
                        assert(before.to_set().contains(s));
                        assert(site_set(nodes@, k as int).contains(s));
                        let i = choose|i: int| 0 <= i < k && (#[trigger] nodes@[i]).site@ == s;
                        assert(nodes@[i].site@ == s);
                    } else {
                        assert(nodes@[k as int].site@ == s);
                    }
                }
            }
            if views.len() > before.len() {
                assert(views.no_duplicates()) by {
                    assert forall|a: int, b: int| 0 <= a < views.len() && 0 <= b < views.len() && a != b implies views[a] != views[b] by {
                        if a < before.len() && b < before.len() {
                        } else if a < before.len() {
                            assert(before.contains(before[a]));
                        } else {
                            assert(before.contains(before[b]));
                        }
                    }
                }
            }
        }
        k = k + 1;
    }
    proof {
        views.unique_seq_to_set();
    }
    seen.len()
}

} // verus!

verus! {

/// What `pick_site` may return for `policy`, `sites` and saturation.
pub open spec fn pick_outcome(policy: SitePolicy, sites: Seq<AiSite>, saturated: bool, chosen: Seq<char>) -> bool {
    if preferred_usable(policy, sites, saturated) {
        chosen == policy.preferred->0@
    } else {
        exists|i: int| is_first_failover(policy, sites, i) && chosen == sites[i].id@
    }
}

/// A picked site is an eligible site: reachable, with a free GPU, allowed,
/// and inside residency when one is set. When the preferred site is
/// saturated, the pick is one of the listed failover sites.
pub proof fn lemma_pick_site_stays_in_policy(
    policy: SitePolicy,
    sites: Seq<AiSite>,
    saturated: bool,
    chosen: Seq<char>,
)
    requires
        pick_outcome(policy, sites, saturated, chosen),
    ensures
        exists|i: int|
            0 <= i < sites.len() && (#[trigger] sites[i]).id@ == chosen && eligible_spec(
                sites[i],
                policy,
            ),
        policy.residency is Some && policy.residency->0@.len() > 0 ==> exists|i: int|
            0 <= i < sites.len() && (#[trigger] sites[i]).id@ == chosen && sites[i].residency@
                == policy.residency->0@,
        saturated ==> has_string(policy.failover@, chosen),
{
    if preferred_usable(policy, sites, saturated) {
        let i = choose|i: int|
            0 <= i < sites.len() && (#[trigger] sites[i]).id@ == policy.preferred->0@
                && eligible_spec(sites[i], policy);
        assert(sites[i].id@ == chosen);
    } else {
        let i = choose|i: int| is_first_failover(policy, sites, i) && chosen == sites[i].id@;
        assert(sites[i].id@ == chosen);
    }
}

} // verus!
