//! The process-wide random source, behind one trusted wrapper.

use vstd::prelude::*;
use rand::Rng;

verus! {

/// Relies on rand::thread_rng and rand::Rng::gen_range: for a
/// non-empty range `0..n` the sample is uniform and lies in the range
/// (`gen_range` panics on an empty range, which `n >= 1` rules out).
/// Nothing more is promised: two calls on the same `n` may differ.
#[verifier::external_body]
pub(crate) fn random_index(n: usize) -> (r: usize)
    requires
        1 <= n,
    ensures
        r < n,
{
    rand::thread_rng().gen_range(0..n)
}

} // verus!
