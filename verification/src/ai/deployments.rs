//! Deployment request checks: replica counts, tenant agreement, autoscaling
//! bounds and tenant scoping of reads.
use vstd::prelude::*;

use super::types::{
    AutoscalingPolicy, CreateInferenceDeploymentRequest, InferenceDeployment, InferenceDeploymentStatus,
};
use crate::text::{dec, owned, push_dec, str_eq};
use vstd::string::*;

verus! {

/// Whether a replica count is allowed: positive, or zero under scale-to-zero.
pub open spec fn replicas_ok(replicas: u32, scale_to_zero: bool) -> bool {
    replicas > 0 || scale_to_zero
}

/// Create: zero replicas only with scale-to-zero.
pub fn check_create_replicas(replicas: u32, scale_to_zero: bool) -> (r: Result<(), String>)
    ensures
        r is Ok <==> replicas_ok(replicas, scale_to_zero),
        r matches Err(e) ==> e@ == "replicas must be greater than 0 (or enable autoscaling.scale_to_zero)"@,
{
    if replicas == 0 && !scale_to_zero {
        return Err(owned("replicas must be greater than 0 (or enable autoscaling.scale_to_zero)"));
    }
    Ok(())
}

/// Scale: zero replicas only with scale-to-zero; deleting is the other way.
pub fn check_scale_replicas(replicas: u32, scale_to_zero: bool) -> (r: Result<(), String>)
    ensures
        r is Ok <==> replicas_ok(replicas, scale_to_zero),
        r matches Err(e) ==> e@
            == "replicas must be greater than 0 (enable autoscaling.scale_to_zero or DELETE)"@,
{
    if replicas == 0 && !scale_to_zero {
        return Err(owned("replicas must be greater than 0 (enable autoscaling.scale_to_zero or DELETE)"));
    }
    Ok(())
}

/// `owner` is set and differs from `tenant`.
pub open spec fn foreign(owner: Option<String>, tenant: Seq<char>) -> bool {
    owner matches Some(o) && o@ != tenant
}

fn is_foreign(owner: &Option<String>, tenant: &str) -> (r: bool)
    ensures
        r == foreign(*owner, tenant@),
{
    match owner {
        Some(o) => !str_eq(o.as_str(), tenant),
        None => false,
    }
}

/// A tenant's deployment may only use that tenant's (or shared) model and profile.
pub fn check_tenants(tenant: Option<&str>, model_tenant: &Option<String>, profile_tenant: &Option<String>) -> (r: Result<(), String>)
    ensures
        match tenant {
            None => r is Ok,
            Some(t) => if foreign(*model_tenant, t@) {
                r matches Err(e) && e@ == "model tenant does not match deployment tenant"@
            } else if foreign(*profile_tenant, t@) {
                r matches Err(e) && e@ == "profile tenant does not match deployment tenant"@
            } else {
                r is Ok
            },
        },
{
    if let Some(t) = tenant {
        if is_foreign(model_tenant, t) {
            return Err(owned("model tenant does not match deployment tenant"));
        }
        if is_foreign(profile_tenant, t) {
            return Err(owned("profile tenant does not match deployment tenant"));
        }
    }
    Ok(())
}

/// An autoscaling policy's bounds: max at least min, unless scale-to-zero.
pub fn check_autoscaling(policy: &AutoscalingPolicy) -> (r: Result<(), String>)
    ensures
        r is Err <==> (policy.max_replicas < policy.min_replicas && !policy.scale_to_zero),
        r matches Err(e) ==> e@ == "max_replicas must be >= min_replicas"@,
{
    if policy.max_replicas < policy.min_replicas && !policy.scale_to_zero {
        return Err(owned("max_replicas must be >= min_replicas"));
    }
    Ok(())
}

/// Whether a caller scoped to `claim_tenant` may see a record owned by
/// `owner`: unscoped callers see everything, scoped ones only their own.
pub fn tenant_visible(claim_tenant: Option<&str>, owner: &Option<String>) -> (r: bool)
    ensures
        r == (match claim_tenant {
            None => true,
            Some(t) => owner matches Some(o) && o@ == t@,
        }),
{
    match claim_tenant {
        None => true,
        Some(t) => match owner {
            Some(o) => str_eq(o.as_str(), t),
            None => false,
        },
    }
}

/// The status line of a manual scale.
pub fn scaling_message(replicas: u32) -> (r: String)
    ensures
        r@ == "scaling to "@ + dec(replicas as nat) + " replicas"@,
{
    let mut m = owned("scaling to ");
    push_dec(&mut m, replicas as u64);
    m.append(" replicas");
    m
}

/// The record a create request makes: pending, no replicas yet, revision
/// 1, one GPU per replica at least, the model's residency when the request
/// sets none, and the default autoscaling policy when it sets none.
pub fn new_deployment(
    req: CreateInferenceDeploymentRequest,
    gpu_count: u32,
    model_residency: Option<String>,
    now: i64,
) -> (r: InferenceDeployment)
    ensures
        r == (InferenceDeployment {
            name: req.name,
            model: req.model,
            profile: req.profile,
            replicas: req.replicas,
            gpus_per_replica: if gpu_count < 1 { 1 } else { gpu_count },
            tenant: req.tenant,
            autoscaling: match req.autoscaling {
                Some(p) => p,
                None => r.autoscaling,
            },
            rollout: None,
            revision: 1,
            preferred_site: req.preferred_site,
            residency: match req.residency {
                Some(x) => Some(x),
                None => model_residency,
            },
            allowed_sites: req.allowed_sites,
            failover_sites: req.failover_sites,
            minimum_sites: req.minimum_sites,
            max_replicas_per_site: req.max_replicas_per_site,
            status: r.status,
            created: now,
            updated: now,
        }),
        req.autoscaling is None ==> r.autoscaling == (AutoscalingPolicy {
            enabled: false,
            min_replicas: 1,
            max_replicas: 4,
            scale_to_zero: false,
            scale_out_queue: 20,
            scale_out_seconds: 30,
            scale_in_queue: 2,
            scale_in_seconds: 600,
            warm_standby: false,
        }),
        r.status.phase@ == "Pending"@,
        r.status.replicas@.len() == 0,
        r.status.message matches Some(m) && m@ == "reconcile enqueued"@,
{
    let autoscaling = match req.autoscaling {
        Some(p) => p,
        None => AutoscalingPolicy::default(),
    };
    let residency = match req.residency {
        Some(x) => Some(x),
        None => model_residency,
    };
    InferenceDeployment {
        name: req.name,
        model: req.model,
        profile: req.profile,
        replicas: req.replicas,
        gpus_per_replica: if gpu_count < 1 {
            1
        } else {
            gpu_count
        },
        tenant: req.tenant,
        autoscaling,
        rollout: None,
        revision: 1,
        preferred_site: req.preferred_site,
        residency,
        allowed_sites: req.allowed_sites,
        failover_sites: req.failover_sites,
        minimum_sites: req.minimum_sites,
        max_replicas_per_site: req.max_replicas_per_site,
        status: InferenceDeploymentStatus {
            phase: owned("Pending"),
            replicas: Vec::new(),
            message: Some(owned("reconcile enqueued")),
        },
        created: now,
        updated: now,
    }
}

/// A manual scale: refused with 400 for zero replicas without
/// scale-to-zero, and with 403 when the quota check refused it; otherwise
/// the count is set, the revision goes up and the deployment is `Scaling`.
pub fn scale_deployment(dep: &mut InferenceDeployment, replicas: u32, quota_refusal: Option<&str>, now: i64) -> (r: Result<
    (),
    (u16, String),
>)
    ensures
        !replicas_ok(replicas, old(dep).autoscaling.scale_to_zero) ==> (r matches Err((c, m)) && c == 400 && m@
            == "replicas must be greater than 0 (enable autoscaling.scale_to_zero or DELETE)"@ && *final(dep)
            == *old(dep)),
        replicas_ok(replicas, old(dep).autoscaling.scale_to_zero) && quota_refusal is Some ==> (r matches Err(
            (c, m),
        ) && c == 403 && m@ == quota_refusal->0@ && *final(dep) == *old(dep)),
        replicas_ok(replicas, old(dep).autoscaling.scale_to_zero) && quota_refusal is None ==> {
            &&& r is Ok
            &&& *final(dep) == (InferenceDeployment {
                replicas,
                revision: crate::num::clamp(old(dep).revision + 1, 0, u64::MAX as int) as u64,
                status: InferenceDeploymentStatus {
                    phase: final(dep).status.phase,
                    message: final(dep).status.message,
                    ..old(dep).status
                },
                updated: now,
                ..*old(dep)
            })
            &&& final(dep).status.phase@ == "Scaling"@
            &&& final(dep).status.message matches Some(m) && m@ == "scaling to "@ + dec(replicas as nat)
                + " replicas"@
        },
{
    match check_scale_replicas(replicas, dep.autoscaling.scale_to_zero) {
        Err(e) => {
            return Err((400, e));
        },
        Ok(()) => {},
    }
    if let Some(q) = quota_refusal {
        return Err((403, owned(q)));
    }
    dep.replicas = replicas;
    dep.revision = dep.revision.saturating_add(1);
    dep.status.phase = owned("Scaling");
    dep.status.message = Some(scaling_message(replicas));
    dep.updated = now;
    Ok(())
}

/// Replaces the autoscaling policy, refused when its bounds are inverted;
/// the revision goes up.
pub fn patch_autoscaling(dep: &mut InferenceDeployment, policy: AutoscalingPolicy, now: i64) -> (r: Result<(), String>)
    ensures
        policy.max_replicas < policy.min_replicas && !policy.scale_to_zero ==> (r matches Err(e) && e@
            == "max_replicas must be >= min_replicas"@ && *final(dep) == *old(dep)),
        !(policy.max_replicas < policy.min_replicas && !policy.scale_to_zero) ==> r is Ok && *final(dep) == (
        InferenceDeployment {
            autoscaling: policy,
            revision: crate::num::clamp(old(dep).revision + 1, 0, u64::MAX as int) as u64,
            updated: now,
            ..*old(dep)
        }),
{
    check_autoscaling(&policy)?;
    dep.autoscaling = policy;
    dep.revision = dep.revision.saturating_add(1);
    dep.updated = now;
    Ok(())
}

} // verus!
