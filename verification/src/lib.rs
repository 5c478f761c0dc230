//! Control-plane logic of the Zyvor fabric daemon: inference placement,
//! rollout stepping, rate and quota decisions, address allocation and the
//! parsers and formatters they rely on.
use vstd::prelude::*;

pub mod ai;
pub mod agent_runtime;
pub mod auth;
pub mod capabilities;
pub mod container_declarative;
pub mod container_group_backups;
pub mod container_placement;
pub mod db_migrations;
pub mod export;
pub mod fault_tolerance;
pub mod guest_rescue;
pub mod host_insight;
pub mod hotplug;
pub mod images;
pub mod crypto;
pub mod external_auth;
pub mod num;
pub mod text;

verus! {

} // verus!
