//! The injectable randomness capability: a `Shuffler` turns a deck into a
//! permutation of itself. `RandomShuffler` draws the permutation uniformly at
//! random; `NoShuffle` keeps the deck as it is, which makes every branch of
//! the year transition deterministic for testing.

use vstd::prelude::*;
use rand::seq::SliceRandom;

verus! {

/// Relies on rand::seq::SliceRandom::shuffle: it permutes the slice in
/// place, so the multiset of elements is unchanged. Which permutation comes
/// out is random, so nothing more is stated.
#[verifier::external_body]
fn shuffle_in_place<T>(v: &mut Vec<T>)
    ensures
        final(v)@.to_multiset() == old(v)@.to_multiset(),
{
    v.shuffle(&mut rand::rng());
}

/// A source of permutations. Every implementation returns some permutation
/// of the given deck; which one is the implementation's choice.
pub trait Shuffler {
    fn shuffle<T>(&mut self, v: &mut Vec<T>)
        ensures
            final(v)@.to_multiset() == old(v)@.to_multiset(),
    ;
}

/// Permutes uniformly at random.
pub struct RandomShuffler;

impl Shuffler for RandomShuffler {
    fn shuffle<T>(&mut self, v: &mut Vec<T>) {
        shuffle_in_place(v);
    }
}

/// Leaves every deck exactly as it is: the deterministic test double.
pub struct NoShuffle;

impl Shuffler for NoShuffle {
    fn shuffle<T>(&mut self, v: &mut Vec<T>) {
    }
}

} // verus!
