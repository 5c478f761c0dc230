//! Host placement of container groups.
use vstd::prelude::*;

verus! {

#[derive(Debug, Clone)]
pub struct PlacedHost {
    pub id: String,
    pub hostname: String,
}

} // verus!
