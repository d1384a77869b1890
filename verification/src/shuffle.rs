//! Seeded shuffling of index ranges.
//!
//! Both randomized steps of the pipeline — the frame visitation order and the
//! ranker's initial sample — draw a permutation of `0..n` from a fixed seed,
//! so that a run can be reproduced exactly.  The permutation itself comes from
//! the `rand` crate; its outcome is named by the uninterpreted function
//! [`shuffled_of`], which lets contracts state that equal seeds give equal
//! orders without spelling the generator out.

use vstd::prelude::*;

verus! {

/// The permutation of `0..n` that the seeded shuffle produces.
pub uninterp spec fn shuffled_of(seed: u64, n: usize) -> Seq<usize>;

/// Relies on `rand`: `rand_core::SeedableRng::seed_from_u64` builds a
/// `rand::rngs::Xoshiro256PlusPlus` state from the seed alone (SplitMix64
/// expansion, pure integer code), and `rand::seq::SliceRandom::shuffle` runs a
/// Fisher-Yates pass driven only by that state, so the result is a permutation
/// of `0..n` that is a function of `seed` and `n` alone.
#[verifier::external_body]
pub(crate) fn shuffled_range(n: usize, seed: u64) -> (r: Vec<usize>)
    ensures
        r@ == shuffled_of(seed, n),
        r@.len() == n,
        forall|i: int| 0 <= i < n ==> r@[i] < n,
        forall|v: usize| v < n ==> r@.contains(v),
        r@.no_duplicates(),
{
    let mut rng = <rand::rngs::Xoshiro256PlusPlus as rand::SeedableRng>::seed_from_u64(seed);
    let mut r: Vec<usize> = (0..n).collect();
    rand::seq::SliceRandom::shuffle(r.as_mut_slice(), &mut rng);
    r
}

} // verus!
