//! Live status of the platform's core subsystems.
use vstd::prelude::*;

use crate::text::{dec, lower_seq, owned, push_dec, str_eq, to_lower};
use vstd::string::*;

verus! {

#[derive(Debug, Clone, Copy, PartialEq, Eq, Structural)]
pub enum SubsystemPhase {
    Off,
    Unreachable,
    Live,
}

#[derive(Debug, Clone)]
pub struct SubsystemStatus {
    pub phase: SubsystemPhase,
    pub detail: Option<String>,
}

#[derive(Debug, Clone)]
pub struct CapabilitiesResponse {
    pub vm_driver: SubsystemStatus,
    pub storage: SubsystemStatus,
    pub network_security: SubsystemStatus,
    /// VM-edge data plane, orthogonal to the SDN.
    pub vm_dataplane: SubsystemStatus,
    pub auth: SubsystemStatus,
    pub events: SubsystemStatus,
    pub hubble_ui_url: Option<String>,
}

/// Authentication: live with JWT and a user database, off without JWT,
/// unreachable when the user database is missing.
pub fn probe_auth(jwt_configured: bool, user_db_available: bool) -> (r: SubsystemStatus)
    ensures
        jwt_configured && user_db_available ==> r.phase == SubsystemPhase::Live && (r.detail matches Some(d)
            && d@ == "JWT and user database configured"@),
        !jwt_configured ==> r.phase == SubsystemPhase::Off && (r.detail matches Some(d) && d@
            == "Authentication disabled"@),
        jwt_configured && !user_db_available ==> r.phase == SubsystemPhase::Unreachable && (r.detail matches Some(
            d,
        ) && d@ == "Auth enabled but user database unavailable"@),
{
    if jwt_configured && user_db_available {
        SubsystemStatus {
            phase: SubsystemPhase::Live,
            detail: Some(owned("JWT and user database configured")),
        }
    } else if !jwt_configured {
        SubsystemStatus { phase: SubsystemPhase::Off, detail: Some(owned("Authentication disabled")) }
    } else {
        SubsystemStatus {
            phase: SubsystemPhase::Unreachable,
            detail: Some(owned("Auth enabled but user database unavailable")),
        }
    }
}

/// Events: the broadcast is live, with its subscriber count.
pub fn probe_events(receivers: usize) -> (r: SubsystemStatus)
    ensures
        r.phase == SubsystemPhase::Live,
        r.detail matches Some(d) && d@ == "SSE broadcast ready · "@ + dec(receivers as nat)
            + " subscriber(s)"@,
{
    let mut d = owned("SSE broadcast ready · ");
    push_dec(&mut d, receivers as u64);
    d.append(" subscriber(s)");
    SubsystemStatus { phase: SubsystemPhase::Live, detail: Some(d) }
}

/// The VM driver: live with its machine count, or unreachable.
pub fn probe_vm_driver(machines: Option<usize>) -> (r: SubsystemStatus)
    ensures
        match machines {
            Some(n) => r.phase == SubsystemPhase::Live && (r.detail matches Some(d) && d@ == dec(n as nat)
                + " machine(s) registered"@),
            None => r.phase == SubsystemPhase::Unreachable && (r.detail matches Some(d) && d@
                == "Could not reach the FluxVM VM driver"@),
        },
{
    match machines {
        Some(n) => {
            let mut d = String::new();
            push_dec(&mut d, n as u64);
            d.append(" machine(s) registered");
            SubsystemStatus { phase: SubsystemPhase::Live, detail: Some(d) }
        },
        None => SubsystemStatus {
            phase: SubsystemPhase::Unreachable,
            detail: Some(owned("Could not reach the FluxVM VM driver")),
        },
    }
}

/// Storage: live with its pool count.
pub fn probe_storage(pools: usize) -> (r: SubsystemStatus)
    ensures
        r.phase == SubsystemPhase::Live,
        r.detail matches Some(d) && d@ == dec(pools as nat) + " storage pool(s)"@,
{
    let mut d = String::new();
    push_dec(&mut d, pools as u64);
    d.append(" storage pool(s)");
    SubsystemStatus { phase: SubsystemPhase::Live, detail: Some(d) }
}

/// Network security: live with its policy count.
pub fn probe_network_security(policies: usize) -> (r: SubsystemStatus)
    ensures
        r.phase == SubsystemPhase::Live,
        r.detail matches Some(d) && d@ == "Policy engine active · "@ + dec(policies as nat)
            + " network polic(ies)"@,
{
    let mut d = owned("Policy engine active · ");
    push_dec(&mut d, policies as u64);
    d.append(" network polic(ies)");
    SubsystemStatus { phase: SubsystemPhase::Live, detail: Some(d) }
}

/// The Hubble UI link, when configured and non-empty.
pub fn hubble_link(configured: Option<&str>) -> (r: Option<String>)
    ensures
        match configured {
            Some(u) if u@.len() > 0 => r matches Some(s) && s@ == u@,
            _ => r is None,
        },
{
    match configured {
        Some(u) => if u.unicode_len() > 0 {
            Some(owned(u))
        } else {
            None
        },
        None => None,
    }
}

/// What the driver answered about the data plane of the first VM.
#[derive(Debug, Clone)]
pub enum DataplaneProbe {
    /// The driver could not list its machines.
    DriverUnreachable,
    /// The driver has no machine to ask.
    NoMachines,
    /// The status of sample VM `vm`.
    Status { vm: String, mode: String, attached: bool, schema_version: Option<u32> },
    /// Asking sample VM `vm` failed with `error`.
    Failed { vm: String, error: String },
}

/// The status line of an attached data plane: its schema, and a hint to
/// upgrade below schema 4.
pub open spec fn attached_detail(mode: Seq<char>, schema_version: Option<u32>) -> Seq<char> {
    "mode="@ + mode + " · attached · schema="@ + match schema_version {
        Some(v) => dec(v as nat),
        None => "?"@,
    } + match schema_version {
        Some(v) => if v < 4 {
            " · upgrade FluxVM for schema v4 groups/CNP"@
        } else {
            ""@
        },
        None => ""@,
    }
}

/// The VM-edge data plane, judged from the first VM: off in legacy mode,
/// live when the driver answers (attached or not), unreachable otherwise.
pub fn probe_vm_dataplane(probe: &DataplaneProbe) -> (r: SubsystemStatus)
    ensures
        match *probe {
            DataplaneProbe::DriverUnreachable => r.phase == SubsystemPhase::Unreachable && (r.detail matches Some(d)
                && d@ == "Could not reach the FluxVM driver for dataplane status"@),
            DataplaneProbe::NoMachines => r.phase == SubsystemPhase::Live && (r.detail matches Some(d) && d@
                == "Dataplane API ready · no VMs yet (create a bridged/netns VM to attach eBPF)"@),
            DataplaneProbe::Status { vm, mode, attached, schema_version } => {
                let m = lower_seq(mode@);
                if m == "legacy"@ {
                    r.phase == SubsystemPhase::Off && (r.detail matches Some(d) && d@
                        == "sandbox.dataplane.mode=legacy — set mode=ebpf (or cilium) for Network Fabric schema v4"@)
                } else if attached {
                    r.phase == SubsystemPhase::Live && (r.detail matches Some(d) && d@ == attached_detail(
                        m,
                        schema_version,
                    ))
                } else {
                    r.phase == SubsystemPhase::Live && (r.detail matches Some(d) && d@ == "mode="@ + m
                        + " · API live · not attached on sample VM '"@ + vm@
                        + "' (need TAP/netns + BPF object)"@)
                }
            },
            DataplaneProbe::Failed { vm, error } => r.phase == SubsystemPhase::Unreachable && (r.detail matches Some(
                d,
            ) && d@ == "Dataplane probe failed on '"@ + vm@ + "': "@ + error@),
        },
{
    match probe {
        DataplaneProbe::DriverUnreachable => SubsystemStatus {
            phase: SubsystemPhase::Unreachable,
            detail: Some(owned("Could not reach the FluxVM driver for dataplane status")),
        },
        DataplaneProbe::NoMachines => SubsystemStatus {
            phase: SubsystemPhase::Live,
            detail: Some(owned("Dataplane API ready · no VMs yet (create a bridged/netns VM to attach eBPF)")),
        },
        DataplaneProbe::Status { vm, mode, attached, schema_version } => {
            let m = to_lower(mode.as_str());
            if str_eq(m.as_str(), "legacy") {
                SubsystemStatus {
                    phase: SubsystemPhase::Off,
                    detail: Some(
                        owned("sandbox.dataplane.mode=legacy — set mode=ebpf (or cilium) for Network Fabric schema v4"),
                    ),
                }
            } else if *attached {
                let mut d = owned("mode=");
                d.append(m.as_str());
                d.append(" · attached · schema=");
                match schema_version {
                    Some(v) => push_dec(&mut d, *v as u64),
                    None => d.append("?"),
                }
                match schema_version {
                    Some(v) => if *v < 4 {
                        d.append(" · upgrade FluxVM for schema v4 groups/CNP");
                    },
                    None => {},
                }
                proof {
                    reveal_strlit("");
                    assert(d@ =~= attached_detail(m@, *schema_version));
                }
                SubsystemStatus { phase: SubsystemPhase::Live, detail: Some(d) }
            } else {
                let mut d = owned("mode=");
                d.append(m.as_str());
                d.append(" · API live · not attached on sample VM '");
                d.append(vm.as_str());
                d.append("' (need TAP/netns + BPF object)");
                SubsystemStatus { phase: SubsystemPhase::Live, detail: Some(d) }
            }
        },
        DataplaneProbe::Failed { vm, error } => {
            let mut d = owned("Dataplane probe failed on '");
            d.append(vm.as_str());
            d.append("': ");
            d.append(error.as_str());
            SubsystemStatus { phase: SubsystemPhase::Unreachable, detail: Some(d) }
        },
    }
}

} // verus!
