//! The one source of randomness the library uses.

use vstd::prelude::*;

verus! {

/// Relies on rand::random_range: a sample from a non-empty range
/// lies in it.  Which value comes back is chance; nothing more is
/// promised.
#[verifier::external_body]
pub(crate) fn random_below(n: usize) -> (r: usize)
    requires
        n >= 1,
    ensures
        r < n,
{
    rand::random_range(0..n)
}

} // verus!
