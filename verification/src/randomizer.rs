//! Two sources of piece indices: one that repeats itself for a seed, one
//! that does not.

use rand::Rng;
use vstd::prelude::*;
use crate::traits::Randomizer;

verus! {

/// The value that follows `state` in the sequence of a `DummyRng`: the product
/// with 123, wrapped to 32 bits.
pub open spec fn dummy_step(state: i32) -> i32 {
    vstd::wrapping::i32_specs::wrapping_mul(state, 123)
}

/// A reproducible source of indices: each value is the one before times 123,
/// wrapped. The same seed always gives the same game.
#[derive(Debug)]
pub struct DummyRng(i32);

impl Clone for DummyRng {
    fn clone(&self) -> (copy: Self)
        ensures
            copy == *self,
    {
        Self(self.0)
    }
}

impl Default for DummyRng {
    /// The source that starts from 0 and yields nothing else.
    fn default() -> (rng: Self)
        ensures
            rng.state() == 0,
    {
        Self(0)
    }
}

impl DummyRng {
    /// The value that the next draw starts from.
    pub closed spec fn state(&self) -> i32 {
        self.0
    }

    /// The source whose next draw starts from `state`.
    pub closed spec fn settled(state: i32) -> Self {
        DummyRng(state)
    }

    /// The source that starts from 1.
    pub fn new() -> (rng: Self)
        ensures
            rng.state() == 1,
    {
        Self(1)
    }

    pub fn with_seed(seed: i32) -> (rng: Self)
        ensures
            rng.state() == seed,
    {
        Self(seed)
    }
}

impl Randomizer for DummyRng {
    open spec fn upcoming(&self) -> Option<(i32, Self)> {
        Some((dummy_step(self.state()), DummyRng::settled(dummy_step(self.state()))))
    }

    fn next(&mut self) -> (v: i32)
        ensures
            v == dummy_step(old(self).state()),
            final(self).state() == v,
    {
        let v = self.0.wrapping_mul(123);
        self.0 = v;
        v
    }
}

/// A source of indices that nobody can foretell, for play.
#[derive(Debug, Clone, Copy, Default)]
pub struct ThreadRandomizer;

/// Calls `rand::thread_rng()` and, on the generator that it hands out,
/// `rand::Rng::gen_range` with the range `0..=6`. The contract takes from
/// `rand` that the value lies in the range it was asked for; which of the
/// seven values comes, and how often, is left open. The call panics where
/// `rand` cannot seed its generator from the operating system.
#[verifier::external_body]
fn thread_index() -> (index: i32)
    ensures
        0 <= index <= 6,
{
    rand::thread_rng().gen_range(0..=6)
}

impl Randomizer for ThreadRandomizer {
    open spec fn upcoming(&self) -> Option<(i32, Self)> {
        None
    }

    /// A shape index picked by `rand`.
    fn next(&mut self) -> (v: i32)
        ensures
            0 <= v <= 6,
    {
        thread_index()
    }
}

} // verus!
