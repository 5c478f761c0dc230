//! Device hot-plug request shapes.
use vstd::prelude::*;

use crate::text::owned;

verus! {

#[derive(Debug, Clone)]
pub struct HotplugCpuRequest {
    pub count: u32,
}

#[derive(Debug, Clone)]
pub struct HotplugMemoryRequest {
    pub size_mb: u64,
}

#[derive(Debug, Clone)]
pub struct HotplugDiskRequest {
    pub path: String,
    pub bus: String,
}

#[derive(Debug, Clone)]
pub struct HotplugNicRequest {
    pub bridge: String,
    pub model: Option<String>,
}

pub fn default_bus() -> (r: String)
    ensures
        r@ == "virtio"@,
{
    owned("virtio")
}

} // verus!
