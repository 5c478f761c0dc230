//! Fault tolerance request shapes.
use vstd::prelude::*;

verus! {

#[derive(Debug, Clone)]
pub struct EnableFtRequest {
    pub vm_name: String,
    pub primary_host_id: String,
    pub secondary_host_id: String,
}

#[derive(Debug, Clone)]
pub struct CompatibilityRequest {
    pub vm_name: String,
    pub cpus: u32,
    pub memory_mb: u64,
}

} // verus!
