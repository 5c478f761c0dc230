//! Endpoint request checks.
use vstd::prelude::*;

use super::types::{CreateInferenceEndpointRequest, InferenceEndpoint};
use crate::text::{owned, str_eq};
use vstd::string::*;

verus! {

/// An endpoint speaks the OpenAI protocol on a non-zero port, and a tenant
/// endpoint fronts that tenant's deployment.
pub fn check_endpoint_request(protocol: &str, port: u16, tenant: Option<&str>, deployment_tenant: &Option<String>) -> (r: Result<(), (u16, String)>)
    ensures
        protocol@ != "openai"@ ==> (r matches Err((c, m)) && c == 400 && m@ == "protocol must be 'openai' (MVP)"@),
        protocol@ == "openai"@ && port == 0 ==> (r matches Err((c, m)) && c == 400 && m@
            == "port must be non-zero"@),
        protocol@ == "openai"@ && port != 0 ==> match tenant {
            Some(t) if !(deployment_tenant matches Some(d) && d@ == t@) => r matches Err((c, m)) && c
                == 403 && m@ == "endpoint tenant must match deployment tenant"@,
            _ => r is Ok,
        },
{
    if !str_eq(protocol, "openai") {
        return Err((400, owned("protocol must be 'openai' (MVP)")));
    }
    if port == 0 {
        return Err((400, owned("port must be non-zero")));
    }
    if let Some(t) = tenant {
        let same = match deployment_tenant {
            Some(d) => str_eq(d.as_str(), t),
            None => false,
        };
        if !same {
            return Err((403, owned("endpoint tenant must match deployment tenant")));
        }
    }
    Ok(())
}

/// The record a create request makes: not yet given a Maglev service, the
/// deployment's preferred site and residency when the request sets none,
/// stamped `now`.
pub fn new_endpoint(
    req: CreateInferenceEndpointRequest,
    deployment_site: Option<String>,
    deployment_residency: Option<String>,
    now: i64,
) -> (r: InferenceEndpoint)
    ensures
        r == (InferenceEndpoint {
            name: req.name,
            deployment: req.deployment,
            protocol: req.protocol,
            port: req.port,
            service_id: None,
            vip: req.vip,
            routing_strategy: req.routing_strategy,
            tenant: req.tenant,
            preferred_site: match req.preferred_site {
                Some(s) => Some(s),
                None => deployment_site,
            },
            allowed_sites: req.allowed_sites,
            residency: match req.residency {
                Some(x) => Some(x),
                None => deployment_residency,
            },
            phase: r.phase,
            created: now,
            updated: now,
        }),
        r.phase@.len() == 0,
{
    let preferred_site = match req.preferred_site {
        Some(s) => Some(s),
        None => deployment_site,
    };
    let residency = match req.residency {
        Some(x) => Some(x),
        None => deployment_residency,
    };
    InferenceEndpoint {
        name: req.name,
        deployment: req.deployment,
        protocol: req.protocol,
        port: req.port,
        service_id: None,
        vip: req.vip,
        routing_strategy: req.routing_strategy,
        tenant: req.tenant,
        preferred_site,
        allowed_sites: req.allowed_sites,
        residency,
        phase: String::new(),
        created: now,
        updated: now,
    }
}

} // verus!
