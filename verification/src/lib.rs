//! Resolution pipeline for fetching application binaries from web catalogs
//! that expose no stable API: page chains are navigated by pattern-based
//! link extraction, ending in a binary download URL and an output filename.

pub mod scan;
pub mod extract;
pub mod filename;
pub mod chain;
pub mod versions;
pub mod batch;

use vstd::prelude::*;

verus! {

/// A byte is ASCII whitespace as the page grammar understands it.
pub open spec fn is_ws(b: u8) -> bool {
    b == 0x09 || b == 0x0a || b == 0x0b || b == 0x0c || b == 0x0d || b == 0x20
}

/// Decides `is_ws`.
pub fn is_ws_byte(b: u8) -> (r: bool)
    ensures
        r == is_ws(b),
{
    b == 0x09 || b == 0x0a || b == 0x0b || b == 0x0c || b == 0x0d || b == 0x20
}

} // verus!
