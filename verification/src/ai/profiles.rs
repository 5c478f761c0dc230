//! Inference profile requests: their checks and the record they make.
use vstd::prelude::*;

use super::types::{CreateInferenceProfileRequest, InferenceDeployment, InferenceProfile};
use crate::text::{owned, str_eq, trim, trim_str};
use vstd::string::*;

verus! {

/// A profile runs vLLM, names a GPU vendor and asks for CPUs and memory.
pub fn check_profile_request(runtime: &str, vendor: &str, cpu: u32, memory_gib: u32) -> (r: Result<(), String>)
    ensures
        runtime@ != "vllm"@ ==> (r matches Err(e) && e@ == "runtime must be 'vllm' (MVP)"@),
        runtime@ == "vllm"@ && trim(vendor@).len() == 0 ==> (r matches Err(e) && e@ == "gpu.vendor is required"@),
        runtime@ == "vllm"@ && trim(vendor@).len() > 0 && (cpu == 0 || memory_gib == 0) ==> (r matches Err(e)
            && e@ == "cpu and memory_gib must be greater than 0"@),
        runtime@ == "vllm"@ && trim(vendor@).len() > 0 && cpu > 0 && memory_gib > 0 ==> r is Ok,
{
    if !str_eq(runtime, "vllm") {
        return Err(owned("runtime must be 'vllm' (MVP)"));
    }
    if trim_str(vendor).unicode_len() == 0 {
        return Err(owned("gpu.vendor is required"));
    }
    if cpu == 0 || memory_gib == 0 {
        return Err(owned("cpu and memory_gib must be greater than 0"));
    }
    Ok(())
}

/// The record a create request makes, stamped `now`.
pub fn new_profile(req: CreateInferenceProfileRequest, now: i64) -> (r: InferenceProfile)
    ensures
        r == (InferenceProfile {
            name: req.name,
            runtime: req.runtime,
            gpu: req.gpu,
            cpu: req.cpu,
            memory_gib: req.memory_gib,
            allowed_hosts: req.allowed_hosts,
            max_egress_mbps: req.max_egress_mbps,
            tenant: req.tenant,
            created: now,
            updated: now,
        }),
{
    InferenceProfile {
        name: req.name,
        runtime: req.runtime,
        gpu: req.gpu,
        cpu: req.cpu,
        memory_gib: req.memory_gib,
        allowed_hosts: req.allowed_hosts,
        max_egress_mbps: req.max_egress_mbps,
        tenant: req.tenant,
        created: now,
        updated: now,
    }
}

/// Some deployment uses profile `name`.
pub open spec fn profile_in_use(deps: Seq<InferenceDeployment>, name: Seq<char>) -> bool {
    exists|i: int| 0 <= i < deps.len() && (#[trigger] deps[i]).profile@ == name
}

/// Deleting a profile: refused with 409 while a deployment uses it.
pub fn check_profile_delete(deps: &[InferenceDeployment], name: &str) -> (r: Result<(), (u16, String)>)
    ensures
        profile_in_use(deps@, name@) ==> (r matches Err((c, m)) && c == 409 && m@ == "InferenceProfile '"@ + name@
            + "' is referenced by an InferenceDeployment"@),
        !profile_in_use(deps@, name@) ==> r is Ok,
{
    let mut i: usize = 0;
    while i < deps.len()
        invariant
            i <= deps@.len(),
            forall|j: int| 0 <= j < i ==> (#[trigger] deps@[j]).profile@ != name@,
        decreases deps.len() - i,
    {
        if str_eq(deps[i].profile.as_str(), name) {
            let mut m = owned("InferenceProfile '");
            m.append(name);
            m.append("' is referenced by an InferenceDeployment");
            return Err((409, m));
        }
        i = i + 1;
    }
    Ok(())
}

} // verus!
