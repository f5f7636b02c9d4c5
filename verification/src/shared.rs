//! A value that threads share.
use vstd::prelude::*;

verus! {

/// Sets the shared value to 1.
pub fn ad(xx: &mut i32)
    ensures
        *final(xx) == 1,
{
    *xx = 1;
}

} // verus!
