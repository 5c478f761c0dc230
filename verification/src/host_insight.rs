//! Host insight request shapes.
use vstd::prelude::*;

use crate::text::owned;

verus! {

#[derive(Debug, Clone)]
pub struct DebugOutput {
    pub lines: Vec<String>,
}

#[derive(Debug, Clone)]
pub struct TimeseriesQuery {
    pub period: String,
    pub metric: String,
}

pub fn default_metric() -> (r: String)
    ensures
        r@ == "cpu"@,
{
    owned("cpu")
}

pub fn default_period() -> (r: String)
    ensures
        r@ == "1h"@,
{
    owned("1h")
}

} // verus!
