//! The inference plane.
use vstd::prelude::*;

use crate::crypto::{sha256_hex, sha256_spec};
use crate::text::{concat3, hex_seq};
use vstd::string::*;
use vstd::utf8::encode_utf8;

pub mod finops;
pub mod types;
pub mod scheduler;
pub mod federation;
pub mod circuit;
pub mod limits;
pub mod capacity;
pub mod lifecycle;
pub mod policy;
pub mod runtime;
pub mod upstream;
pub mod batch;
pub mod janus;
pub mod supply;
pub mod gpu_orch;
pub mod pci_mig;
pub mod revisions;
pub mod rollouts;
pub mod profiles;
pub mod gpu_probe;
pub mod ipam;
pub mod keys;
pub mod eligibility;
pub mod routing;
pub mod model_jobs;
pub mod autoscaling;
pub mod reconcile;
pub mod gateway;
pub mod deployments;
pub mod models;
pub mod endpoints;
pub mod raft;
pub mod model_cache;
pub mod explain;
pub mod maglev;
pub mod placement;
pub mod nodes;

verus! {

/// The next link of the audit chain: lower-case hex SHA-256 of the previous
/// link, a newline, and the audited line.
pub fn chain_hash(prev: &str, line: &str) -> (r: String)
    ensures
        r@ == hex_seq(sha256_spec(encode_utf8(prev@ + "\n"@ + line@))),
{
    let text = concat3(prev, "\n", line);
    sha256_hex(text.as_str().as_bytes())
}

/// The audited line of an action.
pub fn audit_line(user: &str, action: &str, resource: &str, status: &str) -> (r: String)
    ensures
        r@ == user@ + "|"@ + action@ + "|"@ + resource@ + "|"@ + status@,
{
    let mut r = crate::text::owned(user);
    r.append("|");
    r.append(action);
    r.append("|");
    r.append(resource);
    r.append("|");
    r.append(status);
    r
}

} // verus!
