//! Offline guest configuration operations.
use vstd::prelude::*;

verus! {

#[derive(Debug, Clone)]
pub enum RescueRequest {
    InjectSshKey { user: String, key: String },
    EnableSsh,
    SetHostname { hostname: String },
    ResetPassword { user: String, password: String },
    InstallPackages { packages: Vec<String>, network: bool },
}

} // verus!
