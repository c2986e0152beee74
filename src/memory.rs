//! Memory configuration rules

use vstd::prelude::*;

verus! {

/// Whether the use of swap is large enough to bias benchmarks: more than a
/// tenth of the swap space, in bytes.
pub fn swap_use_is_significant(used: u64, total: u64) -> (r: bool)
    ensures
        r == (used > total / 10),
{
    used > total / 10
}

} // verus!
