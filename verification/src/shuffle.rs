//! Randomized presentation order. Deterministic transmission order would let
//! a periodic loss pattern hit the same logical fragments on every run, so
//! the scheduler may permute what it sends; the permutation is drawn from an
//! outside randomness source and nothing is assumed of it beyond being a
//! permutation.
use vstd::prelude::*;
use rand::seq::SliceRandom;

verus! {

/// Relies on rand's `SliceRandom::shuffle` with the thread-local generator:
/// an in-place permutation of the elements, so the multiset of elements (and
/// with it the length) is unchanged. Which permutation comes out is random;
/// nothing is stated of it.
#[verifier::external_body]
pub fn shuffle_vec<T>(v: &mut Vec<T>)
    ensures
        final(v)@.to_multiset() == old(v)@.to_multiset(),
        final(v)@.len() == old(v)@.len(),
{
    let mut generator = rand::rng();
    v.shuffle(&mut generator);
}

} // verus!
