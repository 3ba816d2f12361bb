//! Randomness, behind a trusted boundary: the buffers are shuffled before a
//! draw so that consecutive batches are not biased by insertion order.

use vstd::prelude::*;
use rand::seq::SliceRandom;

verus! {

#[verifier::external_type_specification]
#[verifier::external_body]
pub struct ExStdRng(rand::rngs::StdRng);

/// Relies on rand's `SliceRandom::shuffle`: it reorders the elements of the
/// slice in place and neither adds nor removes any, so the multiset of
/// elements — and with it the length — is unchanged. Which order comes out
/// is left open: nothing downstream may depend on it.
#[verifier::external_body]
pub fn shuffle_vec<T>(v: &mut Vec<T>, rng: &mut rand::rngs::StdRng)
    ensures
        final(v)@.to_multiset() == old(v)@.to_multiset(),
        final(v)@.len() == old(v)@.len(),
{
    v.shuffle(rng);
}

} // verus!
