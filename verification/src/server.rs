//! Server entry point.

use vstd::prelude::*;

verus! {

/// Report which role this entry point serves.
pub fn run() -> (r: &'static str)
    ensures
        r@ == "server"@,
{
    "server"
}

} // verus!
