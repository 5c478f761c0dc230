//! AI-aware Maglev weights. Replica load maps into weights 1..=32; the
//! data plane never learns about models or tokens, only weights change.
use vstd::prelude::*;

use super::eligibility::{fresh, metrics_fresh, replica_serving, serving};
use super::types::{InferenceEndpoint, InferenceReplica, RoutingStrategy};
use crate::num::clamp;
use crate::text::{
    chars_of, contains_str, ends_with, has_infix, push_char, starts_with, str_eq, string_of_range,
    trim, trim_str,
};

verus! {

/// The largest Maglev weight.
pub const MAX_WEIGHT: u16 = 32;

/// A weight clamped into `1..=32`.
pub open spec fn clamped(w: int) -> u16 {
    clamp(w, 1, 32) as u16
}

fn clamp_weight(w: u16) -> (r: u16)
    ensures
        r == clamped(w as int),
{
    if w < 1 {
        1
    } else if w > MAX_WEIGHT {
        MAX_WEIGHT
    } else {
        w
    }
}

/// Queue depth 0 gives 32, and 32 or more waiting requests give 1.
pub open spec fn queue_weight(queue: u32) -> u16 {
    clamped(33 - (if queue < 32 { queue as int } else { 32 }))
}

fn weight_from_queue(queue: u32) -> (r: u16)
    ensures
        r == queue_weight(queue),
{
    let q: u32 = if queue < 32 {
        queue
    } else {
        32
    };
    clamp_weight((33 - q) as u16)
}

/// The site of the first replica that has one.
pub open spec fn first_site(ready: Seq<InferenceReplica>) -> Option<Seq<char>>
    decreases ready.len(),
{
    if ready.len() == 0 {
        None
    } else {
        match ready[0].site {
            Some(s) => Some(s@),
            None => first_site(ready.drop_first()),
        }
    }
}

/// Site preference shared by both site rules: draining replicas get 1, the
/// preferred site 32, another tagged site 4.
pub open spec fn site_weight(r: InferenceReplica, preferred: Option<Seq<char>>, untagged: u16) -> u16 {
    if r.draining {
        1
    } else {
        match (preferred, r.site) {
            (Some(p), Some(s)) => if s@ == p {
                32
            } else {
                4
            },
            (Some(_), None) => untagged,
            _ => 16,
        }
    }
}

/// Lower cost tier gives a higher weight; an untiered replica counts as 8.
pub open spec fn cost_weight(r: InferenceReplica) -> u16 {
    let tier = clamp(
        match r.cost_tier {
            Some(t) => t as int,
            None => 8,
        },
        1,
        32,
    );
    clamped(33 - tier)
}

/// The weight `strategy` gives replica `r`. `measured` is the replica's
/// weight from its measured figure (TTFT score for lowest-TTFT, free cache
/// for most-free-VRAM, energy and weighted capacity).
pub open spec fn strategy_weight(strategy: RoutingStrategy, r: InferenceReplica, preferred: Option<Seq<char>>, measured: u16) -> u16 {
    let q = match r.metrics {
        Some(m) => m.queue_depth,
        None => 0,
    };
    match strategy {
        RoutingStrategy::Equal => 1,
        RoutingStrategy::LeastQueue => queue_weight(q),
        RoutingStrategy::LowestTtft => measured,
        RoutingStrategy::MostFreeVram | RoutingStrategy::EnergyOptimized => measured,
        RoutingStrategy::WeightedCapacity => clamped((queue_weight(q) + measured + 1) / 2),
        RoutingStrategy::SiteLocal => site_weight(r, preferred, 16),
        RoutingStrategy::CostOptimized => cost_weight(r),
    }
}

fn first_site_of<'a>(ready: &'a [&'a InferenceReplica]) -> (r: Option<&'a str>)
    ensures
        first_site(ready@.map_values(|x: &InferenceReplica| *x)) == (match r {
            Some(s) => Some(s@),
            None => None::<Seq<char>>,
        }),
{
    let ghost all = ready@.map_values(|x: &InferenceReplica| *x);
    assert(all.subrange(0, all.len() as int) =~= all);
    let mut i: usize = 0;
    while i < ready.len()
        invariant
            i <= ready@.len(),
            all == ready@.map_values(|x: &InferenceReplica| *x),
            first_site(all) == first_site(all.subrange(i as int, all.len() as int)),
        decreases ready.len() - i,
    {
        proof {
            let t = all.subrange(i as int, all.len() as int);
            assert(t.drop_first() =~= all.subrange(i + 1, all.len() as int));
            assert(t[0] == *ready@[i as int]);
        }
        match &ready[i].site {
            Some(s) => {
                return Some(s.as_str());
            },
            None => {},
        }
        i = i + 1;
    }
    None
}

/// Maglev weights, one per ready replica in order. `measured` holds each
/// replica's weight from its measured figure, for the strategies that read
/// one; like every Maglev weight it lies in `1..=32`.
pub fn compute_weights(strategy: RoutingStrategy, ready: &[&InferenceReplica], measured: &[u16]) -> (r: Vec<u16>)
    requires
        measured@.len() == ready@.len(),
        forall|i: int| 0 <= i < measured@.len() ==> 1 <= #[trigger] measured@[i] <= 32,
    ensures
        r@.len() == ready@.len(),
        forall|i: int| 0 <= i < r@.len() ==> 1 <= #[trigger] r@[i] <= 32,
        forall|i: int|
            0 <= i < ready@.len() ==> #[trigger] r@[i] == strategy_weight(
                strategy,
                *ready@[i],
                first_site(ready@.map_values(|x: &InferenceReplica| *x)),
                measured@[i],
            ),
{
    let preferred = first_site_of(ready);
    let ghost pv = match preferred {
        Some(s) => Some(s@),
        None => None::<Seq<char>>,
    };
    let mut out: Vec<u16> = Vec::new();
    let mut i: usize = 0;
    while i < ready.len()
        invariant
            i <= ready@.len(),
            measured@.len() == ready@.len(),
            forall|j: int| 0 <= j < measured@.len() ==> 1 <= #[trigger] measured@[j] <= 32,
            forall|j: int| 0 <= j < out@.len() ==> 1 <= #[trigger] out@[j] <= 32,
            out@.len() == i,
            pv == first_site(ready@.map_values(|x: &InferenceReplica| *x)),
            pv == (match preferred {
                Some(s) => Some(s@),
                None => None::<Seq<char>>,
            }),
            forall|j: int|
                0 <= j < i ==> #[trigger] out@[j] == strategy_weight(
                    strategy,
                    *ready@[j],
                    pv,
                    measured@[j],
                ),
        decreases ready.len() - i,
    {
        let r = ready[i];
        let q = match &r.metrics {
            Some(m) => m.queue_depth,
            None => 0,
        };
        let w: u16 = match strategy {
            RoutingStrategy::Equal => 1,
            RoutingStrategy::LeastQueue => weight_from_queue(q),
            RoutingStrategy::LowestTtft => measured[i],
            RoutingStrategy::MostFreeVram | RoutingStrategy::EnergyOptimized => measured[i],
            RoutingStrategy::WeightedCapacity => {
                let a = weight_from_queue(q) as u32;
                let b = measured[i] as u32;
                let avg = (a + b + 1) / 2;
                if avg > 32 {
                    MAX_WEIGHT
                } else {
                    clamp_weight(avg as u16)
                }
            },
            RoutingStrategy::SiteLocal => site_local_weight(r, preferred, 16),
            RoutingStrategy::CostOptimized => {
                let tier: u16 = match r.cost_tier {
                    Some(t) => t as u16,
                    None => 8,
                };
                let tier = if tier < 1 {
                    1
                } else if tier > MAX_WEIGHT {
                    MAX_WEIGHT
                } else {
                    tier
                };
                clamp_weight(MAX_WEIGHT + 1 - tier)
            },
        };
        out.push(w);
        i = i + 1;
    }
    out
}

fn site_local_weight(r: &InferenceReplica, preferred: Option<&str>, untagged: u16) -> (w: u16)
    ensures
        w == site_weight(
            *r,
            match preferred {
                Some(p) => Some(p@),
                None => None::<Seq<char>>,
            },
            untagged,
        ),
{
    if r.draining {
        return 1;
    }
    match (preferred, &r.site) {
        (Some(p), Some(s)) => if str_eq(s.as_str(), p) {
            MAX_WEIGHT
        } else {
            4
        },
        (Some(_), None) => untagged,
        _ => 16,
    }
}

/// Site-local weights against the endpoint's preferred site: a replica
/// without a site tag gets 8 when a preferred site is set.
pub fn compute_site_local_weights(ready: &[&InferenceReplica], preferred: Option<&str>) -> (r: Vec<u16>)
    ensures
        r@.len() == ready@.len(),
        forall|i: int|
            0 <= i < ready@.len() ==> #[trigger] r@[i] == site_weight(
                *ready@[i],
                match preferred {
                    Some(p) => Some(p@),
                    None => None::<Seq<char>>,
                },
                8,
            ),
{
    let mut out: Vec<u16> = Vec::new();
    let mut i: usize = 0;
    while i < ready.len()
        invariant
            i <= ready@.len(),
            out@.len() == i,
            forall|j: int|
                0 <= j < i ==> #[trigger] out@[j] == site_weight(
                    *ready@[j],
                    match preferred {
                        Some(p) => Some(p@),
                        None => None::<Seq<char>>,
                    },
                    8,
                ),
        decreases ready.len() - i,
    {
        out.push(site_local_weight(ready[i], preferred, 8));
        i = i + 1;
    }
    out
}

/// Whether the endpoint may route to `r`: serving, inside the residency
/// tag when one is set, and on an allowed site when a list is set.
pub open spec fn routable(ep: InferenceEndpoint, r: InferenceReplica, now: i64) -> bool {
    &&& serving(r, now)
    &&& match ep.residency {
        Some(res) => r.site matches Some(s) && s@ == res@,
        None => true,
    }
    &&& ep.allowed_sites@.len() == 0 || (r.site matches Some(s) && exists|k: int|
        0 <= k < ep.allowed_sites@.len() && (#[trigger] ep.allowed_sites@[k])@ == s@)
}

/// The routable replicas, in order.
pub open spec fn routable_of(ep: InferenceEndpoint, reps: Seq<InferenceReplica>, now: i64) -> Seq<InferenceReplica>
    decreases reps.len(),
{
    if reps.len() == 0 {
        Seq::empty()
    } else {
        routable_of(ep, reps.drop_last(), now) + if routable(ep, reps.last(), now) {
            seq![reps.last()]
        } else {
            Seq::empty()
        }
    }
}

fn site_allowed(allowed: &Vec<String>, site: &str) -> (r: bool)
    ensures
        r == exists|k: int| 0 <= k < allowed@.len() && (#[trigger] allowed@[k])@ == site@,
{
    let mut k: usize = 0;
    while k < allowed.len()
        invariant
            k <= allowed@.len(),
            forall|j: int| 0 <= j < k ==> (#[trigger] allowed@[j])@ != site@,
        decreases allowed.len() - k,
    {
        if str_eq(allowed[k].as_str(), site) {
            return true;
        }
        k = k + 1;
    }
    false
}

fn is_routable(ep: &InferenceEndpoint, r: &InferenceReplica, now_unix: i64) -> (b: bool)
    ensures
        b == routable(*ep, *r, now_unix),
{
    if !replica_serving(r, now_unix) {
        return false;
    }
    if let Some(res) = &ep.residency {
        match &r.site {
            Some(s) => {
                if !str_eq(s.as_str(), res.as_str()) {
                    return false;
                }
            },
            None => {
                return false;
            },
        }
    }
    if ep.allowed_sites.len() == 0 {
        return true;
    }
    match &r.site {
        Some(s) => site_allowed(&ep.allowed_sites, s.as_str()),
        None => false,
    }
}

/// Why a replica takes no traffic from `ep` at `now`, if it takes none:
/// not ready, draining, stale metrics, outside the residency, or on a site
/// the endpoint does not allow, checked in that order.
pub open spec fn exclusion(ep: InferenceEndpoint, r: InferenceReplica, now: i64) -> Option<Seq<char>> {
    if !r.ready {
        Some("not ready"@)
    } else if r.draining {
        Some("draining"@)
    } else if !fresh(r.metrics, now) {
        Some("metrics missing or stale"@)
    } else if !(match ep.residency {
        Some(res) => r.site matches Some(s) && s@ == res@,
        None => true,
    }) {
        Some("outside residency"@)
    } else if !(ep.allowed_sites@.len() == 0 || (r.site matches Some(s) && exists|k: int|
        0 <= k < ep.allowed_sites@.len() && (#[trigger] ep.allowed_sites@[k])@ == s@)) {
        Some("site not allowed"@)
    } else {
        None
    }
}

/// The reason `explain` gives for leaving a replica out of an endpoint's
/// Maglev backends.
pub fn routing_exclusion(ep: &InferenceEndpoint, r: &InferenceReplica, now_unix: i64) -> (e: Option<&'static str>)
    ensures
        match exclusion(*ep, *r, now_unix) {
            Some(m) => e matches Some(x) && x@ == m,
            None => e is None,
        },
{
    if !r.ready {
        return Some("not ready");
    }
    if r.draining {
        return Some("draining");
    }
    if !metrics_fresh(r.metrics.as_ref(), now_unix) {
        return Some("metrics missing or stale");
    }
    if let Some(res) = &ep.residency {
        let inside = match &r.site {
            Some(s) => str_eq(s.as_str(), res.as_str()),
            None => false,
        };
        if !inside {
            return Some("outside residency");
        }
    }
    if ep.allowed_sites.len() > 0 {
        let ok = match &r.site {
            Some(s) => site_allowed(&ep.allowed_sites, s.as_str()),
            None => false,
        };
        if !ok {
            return Some("site not allowed");
        }
    }
    None
}

/// A replica is left out of an endpoint's backends exactly when `explain`
/// gives a reason for it.
pub proof fn lemma_exclusion_matches_routing(ep: InferenceEndpoint, r: InferenceReplica, now: i64)
    ensures
        exclusion(ep, r, now) is None <==> routable(ep, r, now),
{
}

/// Residency and site allow-list filtering before weights are computed.
pub fn filter_replicas_for_endpoint<'a>(ep: &InferenceEndpoint, replicas: &'a [InferenceReplica], now_unix: i64) -> (r: Vec<&'a InferenceReplica>)
    ensures
        r@.map_values(|x: &InferenceReplica| *x) == routable_of(*ep, replicas@, now_unix),
{
    let mut out: Vec<&'a InferenceReplica> = Vec::new();
    let mut i: usize = 0;
    while i < replicas.len()
        invariant
            i <= replicas@.len(),
            out@.map_values(|x: &InferenceReplica| *x) == routable_of(
                *ep,
                replicas@.subrange(0, i as int),
                now_unix,
            ),
        decreases replicas.len() - i,
    {
        let keep = is_routable(ep, &replicas[i], now_unix);
        if keep {
            out.push(&replicas[i]);
        }
        proof {
            let t = replicas@.subrange(0, i + 1);
            assert(t.drop_last() =~= replicas@.subrange(0, i as int));
            assert(t.last() == replicas@[i as int]);
            assert(out@.map_values(|x: &InferenceReplica| *x) =~= routable_of(*ep, t, now_unix));
        }
        i = i + 1;
    }
    proof {
        assert(replicas@.subrange(0, replicas@.len() as int) =~= replicas@);
    }
    out
}

// ---------------------------------------------------------------------------
// Prometheus text
// ---------------------------------------------------------------------------
/// Index of the last `c` in `s`.
pub open spec fn last_index(s: Seq<char>, c: char) -> Option<int>
    decreases s.len(),
{
    if s.len() == 0 {
        None
    } else if s.last() == c {
        Some(s.len() - 1)
    } else {
        last_index(s.drop_last(), c)
    }
}

/// `name{labels} value` or `name value`: the name and the value text,
/// split at the last space.
pub open spec fn prom_split(line: Seq<char>) -> Option<(Seq<char>, Seq<char>)> {
    match last_index(line, ' ') {
        None => None,
        Some(i) => {
            let left = line.subrange(0, i);
            let name = match crate::text::first_index(left, '{') {
                Some(b) => left.subrange(0, b),
                None => left,
            };
            Some((name, line.subrange(i + 1, line.len() as int)))
        },
    }
}

proof fn lemma_last_index(s: Seq<char>, c: char)
    ensures
        last_index(s, c) matches Some(i) ==> 0 <= i < s.len() && s[i] == c,
    decreases s.len(),
{
    if s.len() > 0 && s.last() != c {
        lemma_last_index(s.drop_last(), c);
    }
}

/// The metric name and value text of one exposition line.
pub fn split_prom_line(line: &str) -> (r: Option<(String, String)>)
    ensures
        match prom_split(line@) {
            None => r is None,
            Some((n, v)) => r matches Some((a, b)) && a@ == n && b@ == v,
        },
{
    let x = chars_of(line);
    let n = x.len();
    let mut j: usize = n;
    assert(x@.subrange(0, n as int) =~= x@);
    while j > 0 && x[j - 1] != ' '
        invariant
            j <= n,
            n == x@.len(),
            x@ == line@,
            last_index(x@, ' ') == last_index(x@.subrange(0, j as int), ' '),
        decreases j,
    {
        proof {
            let t = x@.subrange(0, j as int);
            assert(t.drop_last() =~= x@.subrange(0, j - 1));
        }
        j = j - 1;
    }
    if j == 0 {
        assert(x@.subrange(0, 0).len() == 0);
        return None;
    }
    let i = j - 1;
    proof {
        let t = x@.subrange(0, j as int);
        assert(t.last() == ' ');
        assert(last_index(t, ' ') == Some(i as int));
    }
    let left = string_of_range(&x, 0, i);
    let right = string_of_range(&x, i + 1, n);
    let lv = chars_of(left.as_str());
    let b = crate::text::find_char_from(&lv, '{', 0);
    proof {
        assert(lv@.subrange(0, lv@.len() as int) =~= lv@);
        crate::text::lemma_first_index(lv@, '{');
    }
    let name = string_of_range(&lv, 0, b);
    proof {
        if b == lv@.len() {
            assert(lv@.subrange(0, b as int) =~= lv@);
        }
    }
    Some((name, right))
}

/// A sample line of the exposition: trimmed, not empty, not a comment.
pub open spec fn sample_of(line: Seq<char>) -> Option<(Seq<char>, Seq<char>)> {
    let t = trim(line);
    if t.len() == 0 || t[0] == '#' {
        None
    } else {
        prom_split(t)
    }
}

/// The name and value text of a sample line; comments and blank lines have none.
pub fn prom_sample(line: &str) -> (r: Option<(String, String)>)
    ensures
        match sample_of(line@) {
            None => r is None,
            Some((n, v)) => r matches Some((a, b)) && a@ == n && b@ == v,
        },
{
    let t = trim_str(line);
    if t.unicode_len() == 0 || starts_with(t, "#") {
        proof {
            if t@.len() > 0 {
                reveal_strlit("#");
                if "#"@.is_prefix_of(t@) {
                    assert(t@.subrange(0, 1)[0] == t@[0]);
                    assert(t@[0] == '#');
                }
            }
        }
        return None;
    }
    proof {
        reveal_strlit("#");
        if t@[0] == '#' {
            assert(t@.subrange(0, 1) =~= "#"@);
        }
    }
    split_prom_line(t)
}

/// What a vLLM metric name measures.
#[derive(Debug, Clone, Copy, PartialEq, Eq, Structural)]
pub enum MetricKind {
    Waiting,
    Running,
    CacheUsage,
    TtftSum,
    TtftCount,
    Throughput,
    Other,
}

/// The name with `:` read as `_`, so `vllm:` and `vllm_` prefixes match alike.
pub open spec fn normalized(name: Seq<char>) -> Seq<char> {
    name.map_values(|c: char| if c == ':' { '_' } else { c })
}

pub open spec fn throughput_name(n: Seq<char>) -> bool {
    has_infix(n, "avg_prompt_throughput"@) || has_infix(n, "prompt_tokens_total"@)
}

/// The first rule that matches the normalized name.
pub open spec fn kind_of(name: Seq<char>) -> MetricKind {
    let n = normalized(name);
    if has_infix(n, "num_requests_waiting"@) || "num_requests_waiting"@.is_suffix_of(n) {
        MetricKind::Waiting
    } else if has_infix(n, "num_requests_running"@) {
        MetricKind::Running
    } else if has_infix(n, "gpu_cache_usage"@) {
        MetricKind::CacheUsage
    } else if has_infix(n, "time_to_first_token_seconds_sum"@) {
        MetricKind::TtftSum
    } else if has_infix(n, "time_to_first_token_seconds_count"@) {
        MetricKind::TtftCount
    } else if throughput_name(n) {
        MetricKind::Throughput
    } else {
        MetricKind::Other
    }
}

fn normalize(name: &str) -> (r: String)
    ensures
        r@ == normalized(name@),
{
    let v = chars_of(name);
    let mut out = String::new();
    let mut i: usize = 0;
    while i < v.len()
        invariant
            i <= v@.len(),
            v@ == name@,
            out@ == normalized(v@.subrange(0, i as int)),
        decreases v.len() - i,
    {
        let c = v[i];
        push_char(&mut out, if c == ':' { '_' } else { c });
        proof {
            assert(normalized(v@.subrange(0, i + 1)) =~= normalized(v@.subrange(0, i as int)).push(
                if c == ':' { '_' } else { c },
            ));
        }
        i = i + 1;
    }
    proof {
        assert(v@.subrange(0, v@.len() as int) =~= v@);
    }
    out
}

/// The kind of a metric name.
pub fn metric_kind(name: &str) -> (r: MetricKind)
    ensures
        r == kind_of(name@),
{
    let n = normalize(name);
    let n = n.as_str();
    if contains_str(n, "num_requests_waiting") || ends_with(n, "num_requests_waiting") {
        MetricKind::Waiting
    } else if contains_str(n, "num_requests_running") {
        MetricKind::Running
    } else if contains_str(n, "gpu_cache_usage") {
        MetricKind::CacheUsage
    } else if contains_str(n, "time_to_first_token_seconds_sum") {
        MetricKind::TtftSum
    } else if contains_str(n, "time_to_first_token_seconds_count") {
        MetricKind::TtftCount
    } else if throughput_metric(name) {
        MetricKind::Throughput
    } else {
        MetricKind::Other
    }
}

/// Whether the name is a prompt-throughput hint.
pub fn throughput_metric(name: &str) -> (r: bool)
    ensures
        r == throughput_name(normalized(name@)),
{
    let n = normalize(name);
    contains_str(n.as_str(), "avg_prompt_throughput") || contains_str(n.as_str(), "prompt_tokens_total")
}

// ---------------------------------------------------------------------------
// Laws
// ---------------------------------------------------------------------------
/// Every strategy gives a weight in `1..=32` when the measured weights are
/// in that range.
pub proof fn lemma_weights_in_range(strategy: RoutingStrategy, r: InferenceReplica, preferred: Option<Seq<char>>, measured: u16)
    requires
        1 <= measured <= 32,
    ensures
        1 <= strategy_weight(strategy, r, preferred, measured) <= 32,
{
}

/// A shorter queue never gets a smaller weight.
pub proof fn lemma_queue_weight_monotone(a: u32, b: u32)
    requires
        a <= b,
    ensures
        queue_weight(b) <= queue_weight(a),
{
}

// ---------------------------------------------------------------------------
// Publishing weights
// ---------------------------------------------------------------------------
/// Index of the first replica named `name`.
pub open spec fn first_named(reps: Seq<InferenceReplica>, name: Seq<char>, i: int) -> Option<int>
    decreases reps.len() - i,
{
    if i < 0 || i >= reps.len() {
        None
    } else if reps[i].vm_name@ == name {
        Some(i)
    } else {
        first_named(reps, name, i + 1)
    }
}

/// The weight last given to `name` among the first `n` pairs.
pub open spec fn last_weight(named: Seq<(String, u16)>, name: Seq<char>, n: int) -> Option<u16>
    decreases n,
{
    if n <= 0 || n > named.len() {
        None
    } else if named[n - 1].0@ == name {
        Some(named[n - 1].1)
    } else {
        last_weight(named, name, n - 1)
    }
}

/// The weight slot `k` holds once `named` is published at `now`: none
/// unless it is serving and named; the named weight on the first replica
/// of that name; otherwise what it held.
pub open spec fn published(reps: Seq<InferenceReplica>, named: Seq<(String, u16)>, k: int, now: i64) -> Option<u16> {
    let r = reps[k];
    match last_weight(named, r.vm_name@, named.len() as int) {
        None => None,
        Some(w) => if !serving(r, now) {
            None
        } else if first_named(reps, r.vm_name@, 0) == Some(k) {
            Some(w)
        } else {
            r.maglev_weight
        },
    }
}

fn find_named(replicas: &Vec<InferenceReplica>, name: &str) -> (r: Option<usize>)
    ensures
        first_named(replicas@, name@, 0) == (match r {
            Some(i) => Some(i as int),
            None => None::<int>,
        }),
        r matches Some(i) ==> i < replicas@.len(),
{
    let mut i: usize = 0;
    while i < replicas.len()
        invariant
            i <= replicas@.len(),
            first_named(replicas@, name@, 0) == first_named(replicas@, name@, i as int),
        decreases replicas.len() - i,
    {
        if str_eq(replicas[i].vm_name.as_str(), name) {
            return Some(i);
        }
        i = i + 1;
    }
    None
}

fn named_weight(named: &[(String, u16)], name: &str) -> (r: Option<u16>)
    ensures
        r == last_weight(named@, name@, named@.len() as int),
{
    let mut n: usize = named.len();
    while n > 0
        invariant
            n <= named@.len(),
            last_weight(named@, name@, named@.len() as int) == last_weight(named@, name@, n as int),
        decreases n,
    {
        if str_eq(named[n - 1].0.as_str(), name) {
            return Some(named[n - 1].1);
        }
        n = n - 1;
    }
    None
}

/// Publishes `(vm name, weight)` pairs onto the replicas: each name's weight
/// goes to the first replica of that name, and a replica that is not named
/// or not serving loses its weight.
pub fn apply_named_weights(replicas: &mut Vec<InferenceReplica>, named: &[(String, u16)], now_unix: i64)
    ensures
        final(replicas)@.len() == old(replicas)@.len(),
        forall|k: int|
            0 <= k < old(replicas)@.len() ==> #[trigger] final(replicas)@[k] == (InferenceReplica {
                maglev_weight: published(old(replicas)@, named@, k, now_unix),
                ..old(replicas)@[k]
            }),
{
    let ghost orig = replicas@;
    let mut k: usize = 0;
    while k < replicas.len()
        invariant
            replicas@.len() == orig.len(),
            orig == old(replicas)@,
            k <= orig.len(),
            forall|j: int| k <= j < orig.len() ==> replicas@[j] == orig[j],
            forall|j: int|
                0 <= j < k ==> #[trigger] replicas@[j] == (InferenceReplica {
                    maglev_weight: published(orig, named@, j, now_unix),
                    ..orig[j]
                }),
        decreases orig.len() - k,
    {
        let w = named_weight(named, replicas[k].vm_name.as_str());
        let next: Option<u16> = match w {
            None => None,
            Some(w) => {
                if !replica_serving(&replicas[k], now_unix) {
                    None
                } else {
                    let first = find_named(replicas, replicas[k].vm_name.as_str());
                    proof {
                        assert forall|j: int| 0 <= j < orig.len() implies #[trigger] replicas@[j].vm_name
                            == orig[j].vm_name by {}
                        lemma_first_named_same(replicas@, orig, replicas@[k as int].vm_name@, 0);
                    }
                    if first == Some(k) {
                        Some(w)
                    } else {
                        replicas[k].maglev_weight
                    }
                }
            },
        };
        replicas[k].maglev_weight = next;
        k = k + 1;
    }
}

proof fn lemma_first_named_same(a: Seq<InferenceReplica>, b: Seq<InferenceReplica>, name: Seq<char>, i: int)
    requires
        a.len() == b.len(),
        forall|j: int| 0 <= j < a.len() ==> #[trigger] a[j].vm_name == b[j].vm_name,
    ensures
        first_named(a, name, i) == first_named(b, name, i),
    decreases a.len() - i,
{
    if 0 <= i < a.len() {
        lemma_first_named_same(a, b, name, i + 1);
    }
}

/// Cost-optimized routing sends more traffic to cheaper replicas: the
/// weight never rises with the cost tier (an untiered replica counts as
/// tier 8, tiers beyond `1..=32` as the nearest end), falls strictly
/// between different tiers inside that range, and the cheapest tier gets
/// the full weight 32 while the dearest gets 1.
pub proof fn lemma_cost_weight_antitone(
    a: InferenceReplica,
    b: InferenceReplica,
    preferred: Option<Seq<char>>,
    ma: u16,
    mb: u16,
)
    ensures
        ({
            let ta = clamp(match a.cost_tier { Some(t) => t as int, None => 8 }, 1, 32);
            let tb = clamp(match b.cost_tier { Some(t) => t as int, None => 8 }, 1, 32);
            let wa = strategy_weight(RoutingStrategy::CostOptimized, a, preferred, ma);
            let wb = strategy_weight(RoutingStrategy::CostOptimized, b, preferred, mb);
            &&& ta <= tb ==> wa >= wb
            &&& ta < tb ==> wa > wb
            &&& ta == 1 ==> wa == 32
            &&& ta == 32 ==> wa == 1
            &&& 1 <= wa <= 32
        }),
{
}

} // verus!
