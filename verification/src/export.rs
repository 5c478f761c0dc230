//! VM export request shapes.
use vstd::prelude::*;

verus! {

#[derive(Debug, Clone)]
pub struct ExportRequest {
    /// Disk image to export; found from the VM's configuration when unset.
    pub disk_path: Option<String>,
    /// Output directory; the service's export directory when unset.
    pub output_dir: Option<String>,
}

#[derive(Debug, Clone)]
pub struct ExportResponse {
    pub vm_name: String,
    pub ova_path: String,
    pub message: String,
}

} // verus!
