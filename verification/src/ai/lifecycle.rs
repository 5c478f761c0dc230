//! Schema migration and chaos qualification for the inference control plane.
//!
//! Same-host leases resume a rollout after a restart. They are not a
//! three-node quorum: leader loss stays degraded until a three-voter
//! membership has committed.
use vstd::prelude::*;

use crate::text::{dec, push_dec};
use vstd::string::*;

verus! {

pub const SCHEMA_VERSION: u32 = 2;

#[derive(Debug, Clone, Copy, PartialEq, Eq, Structural)]
pub enum ChaosEvent {
    FabricdCrash,
    LeaderLoss,
    StateStoreUnavailable,
    GpuNodeLoss,
    SitePartition,
    MaglevFailure,
    ModelCacheCorruption,
    SlowModelDownload,
    ExpiredCertificate,
    RolloutInterrupted,
    GatewayOverload,
    ClientDisconnect,
}

#[derive(Debug, Clone, Copy, PartialEq, Eq, Structural)]
pub enum Recovery {
    /// Durable records are enough to continue.
    Resumes,
    /// The last healthy revision or local snapshot stays; new placement waits.
    Degraded,
    /// The request fails closed instead of guessing.
    FailClosed,
}

#[derive(Debug, Clone)]
pub struct Objectives {
    pub rto_secs: u64,
    pub rpo_secs: u64,
}

pub fn objectives() -> (r: Objectives)
    ensures
        r.rto_secs == 120,
        r.rpo_secs == 0,
{
    Objectives { rto_secs: 120, rpo_secs: 0 }
}

pub fn migrate(from: u32) -> (r: Result<u32, String>)
    ensures
        (from == 1 || from == 2) <==> r is Ok,
        r is Ok ==> r->Ok_0 == SCHEMA_VERSION,
        r is Err ==> r->Err_0@ == "unsupported inference schema "@ + dec(from as nat),
{
    if from == 1 || from == 2 {
        Ok(SCHEMA_VERSION)
    } else {
        let mut msg = "unsupported inference schema ".to_owned();
        push_dec(&mut msg, from as u64);
        Err(msg)
    }
}

pub open spec fn recovery_spec(event: ChaosEvent, consensus: bool) -> Recovery {
    match event {
        ChaosEvent::FabricdCrash | ChaosEvent::RolloutInterrupted | ChaosEvent::SlowModelDownload
        | ChaosEvent::GpuNodeLoss | ChaosEvent::ClientDisconnect => Recovery::Resumes,
        ChaosEvent::GatewayOverload | ChaosEvent::ExpiredCertificate
        | ChaosEvent::ModelCacheCorruption => Recovery::FailClosed,
        ChaosEvent::MaglevFailure => Recovery::Degraded,
        ChaosEvent::LeaderLoss | ChaosEvent::StateStoreUnavailable | ChaosEvent::SitePartition => {
            if consensus {
                Recovery::Resumes
            } else {
                Recovery::Degraded
            }
        },
    }
}

/// `consensus` is true only when a three-voter membership has committed.
pub fn recovery(event: ChaosEvent, consensus: bool) -> (r: Recovery)
    ensures
        r == recovery_spec(event, consensus),
{
    match event {
        ChaosEvent::FabricdCrash | ChaosEvent::RolloutInterrupted | ChaosEvent::SlowModelDownload
        | ChaosEvent::GpuNodeLoss | ChaosEvent::ClientDisconnect => Recovery::Resumes,
        ChaosEvent::GatewayOverload | ChaosEvent::ExpiredCertificate => Recovery::FailClosed,
        ChaosEvent::ModelCacheCorruption => Recovery::FailClosed,
        ChaosEvent::MaglevFailure => Recovery::Degraded,
        ChaosEvent::LeaderLoss | ChaosEvent::StateStoreUnavailable | ChaosEvent::SitePartition => {
            if consensus {
                Recovery::Resumes
            } else {
                Recovery::Degraded
            }
        },
    }
}

/// Without a committed quorum nothing that needs one claims to resume, and
/// with one, every event recovers except those that must fail closed.
pub proof fn lemma_no_quorum_no_resume_of_consensus_events(event: ChaosEvent)
    ensures
        (event == ChaosEvent::LeaderLoss || event == ChaosEvent::StateStoreUnavailable || event
            == ChaosEvent::SitePartition) ==> recovery_spec(event, false) == Recovery::Degraded,
        recovery_spec(event, true) != Recovery::Degraded <==> event != ChaosEvent::MaglevFailure,
{
}

/// Whether the `FLUXVM_AI_CONSENSUS` setting names an external consensus.
/// The label alone does not create a three-voter membership.
pub fn consensus_configured(setting: Option<&str>) -> (r: bool)
    ensures
        r == (setting matches Some(v) && v@ == "external"@),
{
    match setting {
        Some(v) => crate::text::str_eq(v, "external"),
        None => false,
    }
}

} // verus!
