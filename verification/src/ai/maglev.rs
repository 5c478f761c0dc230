//! Maglev backends of an AI endpoint: which replicas are backends, at what
//! weight, and how one is drained.
use vstd::prelude::*;

use super::types::InferenceReplica;
use crate::num::clamp;
use crate::text::{owned, str_eq};

verus! {

/// One Maglev backend. A draining backend is disabled until its deadline
/// (Unix milliseconds).
#[derive(Debug, Clone)]
pub struct MaglevBackend {
    pub address: String,
    pub port: u16,
    pub weight: u16,
    pub enabled: bool,
    pub draining: bool,
    pub drain_until_unix_ms: Option<u64>,
}

/// The backend weight of a replica: its Maglev weight (1 when unset),
/// clamped into `1..=32`.
pub open spec fn backend_weight(r: InferenceReplica) -> u16 {
    clamp(
        match r.maglev_weight {
            Some(w) => w as int,
            None => 1,
        },
        1,
        32,
    ) as u16
}

/// The replicas that become backends: ready and addressed, in order.
pub open spec fn backend_replicas(reps: Seq<InferenceReplica>) -> Seq<InferenceReplica>
    decreases reps.len(),
{
    if reps.len() == 0 {
        Seq::empty()
    } else {
        backend_replicas(reps.drop_last()) + if reps.last().ready && reps.last().address is Some {
            seq![reps.last()]
        } else {
            Seq::empty()
        }
    }
}

/// `b` is the backend built from replica `r` on `port`.
pub open spec fn backend_of(r: InferenceReplica, b: MaglevBackend, port: u16) -> bool {
    &&& r.address matches Some(a) && b.address@ == a@
    &&& b.port == port
    &&& b.weight == backend_weight(r)
    &&& b.enabled
    &&& !b.draining
    &&& b.drain_until_unix_ms is None
}

/// The backends of a Maglev service: each ready replica with an address,
/// at its Maglev weight.
pub fn maglev_backends(port: u16, replicas: &[InferenceReplica]) -> (r: Vec<MaglevBackend>)
    ensures
        r@.len() == backend_replicas(replicas@).len(),
        forall|k: int|
            0 <= k < r@.len() ==> backend_of(backend_replicas(replicas@)[k], #[trigger] r@[k], port),
{
    let mut out: Vec<MaglevBackend> = Vec::new();
    let mut i: usize = 0;
    while i < replicas.len()
        invariant
            i <= replicas@.len(),
            out@.len() == backend_replicas(replicas@.subrange(0, i as int)).len(),
            forall|k: int|
                0 <= k < out@.len() ==> backend_of(
                    backend_replicas(replicas@.subrange(0, i as int))[k],
                    #[trigger] out@[k],
                    port,
                ),
        decreases replicas.len() - i,
    {
        let ghost prev = backend_replicas(replicas@.subrange(0, i as int));
        proof {
            let t = replicas@.subrange(0, i + 1);
            assert(t.drop_last() =~= replicas@.subrange(0, i as int));
            assert(t.last() == replicas@[i as int]);
        }
        let r = &replicas[i];
        if r.ready {
            if let Some(a) = &r.address {
                let w0: u16 = match r.maglev_weight {
                    Some(w) => w,
                    None => 1,
                };
                let w = if w0 < 1 {
                    1
                } else if w0 > 32 {
                    32
                } else {
                    w0
                };
                out.push(
                    MaglevBackend {
                        address: owned(a.as_str()),
                        port,
                        weight: w,
                        enabled: true,
                        draining: false,
                        drain_until_unix_ms: None,
                    },
                );
            }
        }
        proof {
            let now = backend_replicas(replicas@.subrange(0, i + 1));
            assert(now.subrange(0, prev.len() as int) =~= prev);
            assert forall|k: int| 0 <= k < out@.len() implies backend_of(
                now[k],
                #[trigger] out@[k],
                port,
            ) by {
                if k < prev.len() {
                    assert(now[k] == prev[k]);
                }
            }
        }
        i = i + 1;
    }
    proof {
        assert(replicas@.subrange(0, replicas@.len() as int) =~= replicas@);
    }
    out
}

/// `b` is `a` after draining `address` at `now_ms`.
pub open spec fn drained(a: MaglevBackend, b: MaglevBackend, address: Seq<char>, now_ms: u64) -> bool {
    if a.address@ == address {
        b == (MaglevBackend {
            enabled: false,
            draining: true,
            drain_until_unix_ms: Some(clamp(now_ms + 30_000, 0, u64::MAX as int) as u64),
            ..a
        })
    } else {
        b == a
    }
}

/// Marks every backend at `address` draining for thirty seconds from `now_ms`.
pub fn drain_backend(backends: &mut Vec<MaglevBackend>, address: &str, now_ms: u64)
    ensures
        final(backends)@.len() == old(backends)@.len(),
        forall|k: int|
            0 <= k < old(backends)@.len() ==> drained(#[trigger] old(backends)@[k], final(backends)@[k], address@, now_ms),
{
    let ghost orig = backends@;
    let mut k: usize = 0;
    while k < backends.len()
        invariant
            backends@.len() == orig.len(),
            k <= orig.len(),
            forall|j: int| 0 <= j < k ==> drained(#[trigger] orig[j], backends@[j], address@, now_ms),
            forall|j: int| k <= j < orig.len() ==> backends@[j] == orig[j],
        decreases orig.len() - k,
    {
        if str_eq(backends[k].address.as_str(), address) {
            backends[k].enabled = false;
            backends[k].draining = true;
            backends[k].drain_until_unix_ms = Some(now_ms.saturating_add(30_000));
        }
        k = k + 1;
    }
}

/// The Maglev service of an AI endpoint. It is a TCP service in NAT mode,
/// exposed east-west, on the endpoint's VIP and port.
#[derive(Debug, Clone)]
pub struct MaglevServiceSpec {
    pub name: String,
    pub vip: String,
    pub port: u16,
    pub backends: Vec<MaglevBackend>,
    pub max_egress_mbps: Option<u32>,
}

/// The service of endpoint `name`: each ready replica with an address is a
/// backend at its Maglev weight.
pub fn build_maglev_service_spec_weighted(
    name: &str,
    vip: &str,
    port: u16,
    replicas: &[InferenceReplica],
    max_egress_mbps: Option<u32>,
) -> (r: MaglevServiceSpec)
    ensures
        r.name@ == name@ && r.vip@ == vip@ && r.port == port && r.max_egress_mbps == max_egress_mbps,
        r.backends@.len() == backend_replicas(replicas@).len(),
        forall|k: int|
            0 <= k < r.backends@.len() ==> backend_of(backend_replicas(replicas@)[k], #[trigger] r.backends@[k], port),
{
    MaglevServiceSpec {
        name: owned(name),
        vip: owned(vip),
        port,
        backends: maglev_backends(port, replicas),
        max_egress_mbps,
    }
}

/// The service of endpoint `name`, as `build_maglev_service_spec_weighted`
/// builds it.
pub fn build_maglev_service_spec(
    name: &str,
    vip: &str,
    port: u16,
    replicas: &[InferenceReplica],
    max_egress_mbps: Option<u32>,
) -> (r: MaglevServiceSpec)
    ensures
        r.name@ == name@ && r.vip@ == vip@ && r.port == port && r.max_egress_mbps == max_egress_mbps,
        r.backends@.len() == backend_replicas(replicas@).len(),
        forall|k: int|
            0 <= k < r.backends@.len() ==> backend_of(backend_replicas(replicas@)[k], #[trigger] r.backends@[k], port),
{
    build_maglev_service_spec_weighted(name, vip, port, replicas, max_egress_mbps)
}

/// The drain deadline of a backend held for `grace_seconds` from `now_ms`.
pub open spec fn grace_deadline(now_ms: u64, grace_seconds: u64) -> u64 {
    clamp(now_ms + clamp(grace_seconds * 1000, 0, u64::MAX as int), 0, u64::MAX as int) as u64
}

/// The service of endpoint `name` with the backend at `address` drained
/// until `grace_seconds` from `now_ms`, as a drain of a deployment sends it.
pub fn drain_endpoint_spec(
    name: &str,
    vip: &str,
    port: u16,
    replicas: &[InferenceReplica],
    address: &str,
    now_ms: u64,
    grace_seconds: u64,
) -> (r: MaglevServiceSpec)
    ensures
        r.name@ == name@ && r.vip@ == vip@ && r.port == port && r.max_egress_mbps is None,
        r.backends@.len() == backend_replicas(replicas@).len(),
        forall|k: int|
            0 <= k < r.backends@.len() ==> {
                let b = backend_replicas(replicas@)[k];
                let x = #[trigger] r.backends@[k];
                if b.address matches Some(a) && a@ == address@ {
                    &&& x.address@ == address@ && x.port == port && x.weight == backend_weight(b)
                    &&& !x.enabled && x.draining
                    &&& x.drain_until_unix_ms == Some(grace_deadline(now_ms, grace_seconds))
                } else {
                    backend_of(b, x, port)
                }
            },
{
    let mut spec = build_maglev_service_spec_weighted(name, vip, port, replicas, None);
    let ghost built = spec.backends@;
    drain_backend(&mut spec.backends, address, now_ms);
    let ghost mid = spec.backends@;
    let until = now_ms.saturating_add(crate::num::sat_mul_u64(grace_seconds, 1000));
    let mut k: usize = 0;
    while k < spec.backends.len()
        invariant
            spec.backends@.len() == mid.len(),
            k <= mid.len(),
            until == grace_deadline(now_ms, grace_seconds),
            forall|j: int|
                0 <= j < k ==> #[trigger] spec.backends@[j] == if mid[j].address@ == address@ {
                    MaglevBackend { drain_until_unix_ms: Some(until), ..mid[j] }
                } else {
                    mid[j]
                },
            forall|j: int| k <= j < mid.len() ==> #[trigger] spec.backends@[j] == mid[j],
            spec.name@ == name@ && spec.vip@ == vip@ && spec.port == port && spec.max_egress_mbps is None,
        decreases mid.len() - k,
    {
        if str_eq(spec.backends[k].address.as_str(), address) {
            spec.backends[k].drain_until_unix_ms = Some(until);
        }
        k = k + 1;
    }
    proof {
        assert forall|k: int| 0 <= k < spec.backends@.len() implies {
            let b = backend_replicas(replicas@)[k];
            let x = #[trigger] spec.backends@[k];
            if b.address matches Some(a) && a@ == address@ {
                &&& x.address@ == address@ && x.port == port && x.weight == backend_weight(b)
                &&& !x.enabled && x.draining
                &&& x.drain_until_unix_ms == Some(grace_deadline(now_ms, grace_seconds))
            } else {
                backend_of(b, x, port)
            }
        } by {
            assert(drained(built[k], mid[k], address@, now_ms));
            assert(backend_of(backend_replicas(replicas@)[k], built[k], port));
        }
    }
    spec
}

} // verus!
