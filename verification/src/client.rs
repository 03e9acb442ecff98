//! Client entry point.

use vstd::prelude::*;

verus! {

/// Report which role this entry point serves.
pub fn run() -> (r: &'static str)
    ensures
        r@ == "client"@,
{
    "client"
}

} // verus!
