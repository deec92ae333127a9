//! The codes of the runtime's security warnings, and where each is documented.

use crate::text;
use vstd::prelude::*;

verus! {

/// A compiler driver's helper has no grant that carries the right to execute.
pub const W_SEC_012: &'static str = "W-SEC-012";

/// A path under the murmur home is wider than it should be.
pub const W_SEC_028: &'static str = "W-SEC-028";

/// Where a warning is documented.
pub open spec fn link(code: Seq<char>) -> Seq<char> {
    "https://docs.murmur.nexus/murmur-nexus/murmur/reference/diagnostics/#"@ + text::lowered(code)
}

/// Where a warning is documented.
pub fn security_warning_link(code: &str) -> (r: String)
    ensures
        r@ == link(code@),
{
    text::cat2(
        "https://docs.murmur.nexus/murmur-nexus/murmur/reference/diagnostics/#",
        text::ascii_lowered(code).as_str(),
    )
}

} // verus!
