//! When a replica may receive Maglev traffic. A stale or failed scrape
//! counts as unhealthy: it must not look idle.
use vstd::prelude::*;

use super::types::{InferenceReplica, ReplicaMetrics};
use crate::num::sat_sub_i64;
use crate::text::str_eq;

verus! {

/// A scrape is fresh for this many seconds.
pub const FRESH_SECS: i64 = 30;

/// A successful scrape less than `FRESH_SECS` old at `now`.
pub open spec fn fresh(metrics: Option<ReplicaMetrics>, now: i64) -> bool {
    match metrics {
        None => false,
        Some(m) => !(m.source matches Some(s) && s@ == "scrape_failed"@) && match m.scraped_at {
            None => false,
            Some(at) => now - at < FRESH_SECS,
        },
    }
}

/// Whether the metrics come from a successful scrape that is still fresh.
pub fn metrics_fresh(metrics: Option<&ReplicaMetrics>, now_unix: i64) -> (r: bool)
    ensures
        r == fresh(
            match metrics {
                Some(m) => Some(*m),
                None => None,
            },
            now_unix,
        ),
{
    let m = match metrics {
        None => {
            return false;
        },
        Some(m) => m,
    };
    if let Some(src) = &m.source {
        if str_eq(src.as_str(), "scrape_failed") {
            return false;
        }
    }
    match m.scraped_at {
        None => false,
        Some(at) => sat_sub_i64(now_unix, at) < FRESH_SECS,
    }
}

/// Ready, not draining, and backed by a fresh successful scrape.
pub open spec fn serving(rep: InferenceReplica, now: i64) -> bool {
    rep.ready && !rep.draining && fresh(rep.metrics, now)
}

pub fn replica_serving(rep: &InferenceReplica, now_unix: i64) -> (r: bool)
    ensures
        r == serving(*rep, now_unix),
{
    rep.ready && !rep.draining && metrics_fresh(rep.metrics.as_ref(), now_unix)
}

} // verus!
