//! Tenant model policy. No policy record means the tenant filter stands.
use vstd::prelude::*;

use crate::text::{starts_with, str_eq};
use vstd::string::*;

verus! {

#[derive(Debug, Clone)]
pub struct TenantAiPolicy {
    pub id: String,
    pub allowed_models: Vec<String>,
    pub allowed_source_prefixes: Vec<String>,
}

pub open spec fn allows_spec(policy: TenantAiPolicy, model: Seq<char>, source: Seq<char>) -> bool {
    &&& (policy.allowed_models@.len() == 0 || exists|i: int|
        0 <= i < policy.allowed_models@.len() && (#[trigger] policy.allowed_models@[i])@ == model)
    &&& (policy.allowed_source_prefixes@.len() == 0 || exists|i: int|
        0 <= i < policy.allowed_source_prefixes@.len()
            && (#[trigger] policy.allowed_source_prefixes@[i])@.is_prefix_of(source))
}

/// An empty list allows everything; otherwise the model must be listed and
/// the source must start with a listed prefix.
pub fn allows(policy: &TenantAiPolicy, model: &str, source: &str) -> (r: bool)
    ensures
        r == allows_spec(*policy, model@, source@),
{
    let mut model_ok = policy.allowed_models.len() == 0;
    let mut i: usize = 0;
    while i < policy.allowed_models.len() && !model_ok
        invariant
            i <= policy.allowed_models@.len(),
            model_ok ==> (policy.allowed_models@.len() == 0 || exists|j: int|
                0 <= j < policy.allowed_models@.len() && (#[trigger] policy.allowed_models@[j])@
                    == model@),
            !model_ok ==> policy.allowed_models@.len() > 0 && forall|j: int|
                0 <= j < i ==> (#[trigger] policy.allowed_models@[j])@ != model@,
        decreases policy.allowed_models.len() - i,
    {
        if str_eq(policy.allowed_models[i].as_str(), model) {
            model_ok = true;
        }
        i = i + 1;
    }
    let mut source_ok = policy.allowed_source_prefixes.len() == 0;
    let mut k: usize = 0;
    while k < policy.allowed_source_prefixes.len() && !source_ok
        invariant
            k <= policy.allowed_source_prefixes@.len(),
            source_ok ==> (policy.allowed_source_prefixes@.len() == 0 || exists|j: int|
                0 <= j < policy.allowed_source_prefixes@.len()
                    && (#[trigger] policy.allowed_source_prefixes@[j])@.is_prefix_of(source@)),
            !source_ok ==> policy.allowed_source_prefixes@.len() > 0 && forall|j: int|
                0 <= j < k ==> !(#[trigger] policy.allowed_source_prefixes@[j])@.is_prefix_of(
                    source@,
                ),
        decreases policy.allowed_source_prefixes.len() - k,
    {
        if starts_with(source, policy.allowed_source_prefixes[k].as_str()) {
            source_ok = true;
        }
        k = k + 1;
    }
    model_ok && source_ok
}

/// Decides a deployment for `tenant` given its policy record, if one exists.
/// No tenant, an empty tenant, or no record allows it.
pub fn enforce(tenant: Option<&str>, policy: Option<&TenantAiPolicy>, model: &str, source: &str) -> (r: Result<(), String>)
    ensures
        (tenant is None || tenant->0@.len() == 0 || policy is None || allows_spec(*policy->0, model@, source@)) <==> r is Ok,
        r is Err ==> r->Err_0@ == "tenant '"@ + tenant->0@ + "' is not allowed to deploy model '"@ + model@ + "'"@,
{
    let t = match tenant {
        Some(t) => t,
        None => {
            return Ok(());
        },
    };
    if t.unicode_len() == 0 {
        return Ok(());
    }
    let p = match policy {
        Some(p) => p,
        None => {
            return Ok(());
        },
    };
    if allows(p, model, source) {
        Ok(())
    } else {
        let mut msg = "tenant '".to_owned();
        msg.append(t);
        msg.append("' is not allowed to deploy model '");
        msg.append(model);
        msg.append("'");
        Err(msg)
    }
}

} // verus!
