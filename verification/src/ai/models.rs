//! Model artifact request checks.
use vstd::prelude::*;

use super::types::{CreateModelArtifactRequest, ModelArtifact};
use crate::text::{owned, starts_with, trim, trim_str};
use vstd::string::*;

verus! {

/// A new artifact names a source and a format, and carries a checksum
/// when it demands one.
pub fn check_model_request(source: &str, format: &str, require_checksum: bool, checksum: Option<&str>) -> (r: Result<(), String>)
    ensures
        trim(source@).len() == 0 ==> (r matches Err(e) && e@ == "source is required"@),
        trim(source@).len() > 0 && trim(format@).len() == 0 ==> (r matches Err(e) && e@
            == "format is required"@),
        trim(source@).len() > 0 && trim(format@).len() > 0 ==> (if require_checksum && (match checksum {
            Some(c) => trim(c@).len() == 0,
            None => true,
        }) {
            r matches Err(e) && e@ == "require_checksum is set but no checksum was provided"@
        } else {
            r is Ok
        }),
{
    if trim_str(source).unicode_len() == 0 {
        return Err(owned("source is required"));
    }
    if trim_str(format).unicode_len() == 0 {
        return Err(owned("format is required"));
    }
    let missing = match checksum {
        Some(c) => trim_str(c).unicode_len() == 0,
        None => true,
    };
    if require_checksum && missing {
        return Err(owned("require_checksum is set but no checksum was provided"));
    }
    Ok(())
}

/// What registering an artifact does with the outcome of fetching it.
#[derive(Debug, Clone, Copy, PartialEq, Eq, Structural)]
pub enum FetchOutcome {
    /// Keep the local path and verified checksum.
    Keep,
    /// Refuse: a checksum was required but could not be verified.
    Unverified,
    /// Register without a local copy; reconcile fails until one exists.
    Defer,
    /// Refuse with the fetch error.
    Refuse,
}

/// The outcome of a fetch that `fetched` or failed, for a source and a
/// checksum demand.
pub fn fetch_outcome(fetched: bool, verified: bool, require_checksum: bool, source: &str) -> (r: FetchOutcome)
    ensures
        r == (if fetched {
            if require_checksum && !verified {
                FetchOutcome::Unverified
            } else {
                FetchOutcome::Keep
            }
        } else if "hf://"@.is_prefix_of(source@) && !require_checksum {
            FetchOutcome::Defer
        } else {
            FetchOutcome::Refuse
        }),
{
    if fetched {
        if require_checksum && !verified {
            FetchOutcome::Unverified
        } else {
            FetchOutcome::Keep
        }
    } else if starts_with(source, "hf://") && !require_checksum {
        FetchOutcome::Defer
    } else {
        FetchOutcome::Refuse
    }
}

/// The record of a registered artifact: the verified checksum when the
/// fetch produced one, else the requested one; stamped `now`.
pub fn new_model_artifact(
    req: CreateModelArtifactRequest,
    local_path: Option<String>,
    verified: Option<String>,
    now: i64,
) -> (r: ModelArtifact)
    ensures
        r == (ModelArtifact {
            name: req.name,
            source: req.source,
            revision: req.revision,
            checksum: match verified {
                Some(v) => Some(v),
                None => req.checksum,
            },
            format: req.format,
            size_bytes: req.size_bytes,
            tenant: req.tenant,
            local_path,
            license: req.license,
            residency: req.residency,
            require_checksum: req.require_checksum,
            created: now,
            updated: now,
        }),
{
    let checksum = match verified {
        Some(v) => Some(v),
        None => req.checksum,
    };
    ModelArtifact {
        name: req.name,
        source: req.source,
        revision: req.revision,
        checksum,
        format: req.format,
        size_bytes: req.size_bytes,
        tenant: req.tenant,
        local_path,
        license: req.license,
        residency: req.residency,
        require_checksum: req.require_checksum,
        created: now,
        updated: now,
    }
}

} // verus!
