//! Draws from `fastrand`'s thread-local generator. What a draw gives depends on
//! the generator's state, so only its range is claimed.
use vstd::prelude::*;

verus! {

/// Calls `fastrand::usize(lo..hi)`: a number in `lo..hi`. `fastrand` panics on an
/// empty range, which `requires` rules out.
#[verifier::external_body]
pub(crate) fn random_usize(lo: usize, hi: usize) -> (r: usize)
    requires
        lo < hi,
    ensures
        lo <= r < hi,
{
    fastrand::usize(lo..hi)
}

/// Calls `fastrand::u32(lo..hi)`: a number in `lo..hi`. `fastrand` panics on an
/// empty range, which `requires` rules out.
#[verifier::external_body]
pub(crate) fn random_u32(lo: u32, hi: u32) -> (r: u32)
    requires
        lo < hi,
    ensures
        lo <= r < hi,
{
    fastrand::u32(lo..hi)
}

} // verus!
