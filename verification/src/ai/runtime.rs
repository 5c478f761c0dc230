//! Only vLLM is a supported inference runtime. Other names fail closed.
use vstd::prelude::*;

use crate::text::{eq_ignore_ascii_case, eq_ignore_case, trim, trim_str};
use vstd::string::*;

verus! {

pub fn require_supported(runtime: &str) -> (r: Result<(), String>)
    ensures
        r is Ok <==> eq_ignore_case(trim(runtime@), "vllm"@),
        r is Err ==> r->Err_0@ == "runtime '"@ + runtime@ + "' is not supported (preview implements vllm only)"@,
{
    if eq_ignore_ascii_case(trim_str(runtime), "vllm") {
        Ok(())
    } else {
        let mut msg = "runtime '".to_owned();
        msg.append(runtime);
        msg.append("' is not supported (preview implements vllm only)");
        Err(msg)
    }
}

} // verus!
