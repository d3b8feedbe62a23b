use vstd::prelude::*;

verus! {

/// Calls `fastrand::usize(0..n)`, which returns a random index below `n`; it panics
/// on an empty range, so `n` must be positive. Which index comes back is left open.
#[verifier::external_body]
pub(crate) fn random_index(n: usize) -> (r: usize)
    requires
        n > 0,
    ensures
        r < n,
{
    fastrand::usize(0..n)
}

/// Calls `fastrand::shuffle`, which permutes the elements by swaps (Fisher-Yates):
/// the result holds the same elements, in an order left open.
#[verifier::external_body]
pub(crate) fn shuffle<T>(v: &mut Vec<T>)
    ensures
        final(v)@.to_multiset() == old(v)@.to_multiset(),
        final(v)@.len() == old(v)@.len(),
{
    fastrand::shuffle(v.as_mut_slice())
}

/// Calls `fastrand::choice` on the elements: `None` for an empty vector, otherwise one
/// of its elements, which one left open.
#[verifier::external_body]
pub(crate) fn choice(v: Vec<u8>) -> (r: Option<u8>)
    ensures
        r is None <==> v@.len() == 0,
        r matches Some(x) ==> v@.contains(x),
{
    fastrand::choice(v)
}

} // verus!
