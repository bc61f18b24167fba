//! The randomness capability threaded through every stochastic operation.
//!
//! All algorithms draw uniform 32-bit values through the [`RandomSource`]
//! trait, so a scripted or seeded source makes any run fully reproducible,
//! while [`ThreadRandom`] supplies operating-system randomness.

use vstd::prelude::*;

verus! {

/// A source of uniform random 32-bit values.
pub trait RandomSource {
    /// The next uniform draw from the source.
    fn next_u32(&mut self) -> u32;
}

/// The multiplier of the deterministic generator's state recurrence.
pub const LCG_MULTIPLIER: u64 = 6364136223846793005;

/// The increment of the deterministic generator's state recurrence.
pub const LCG_INCREMENT: u64 = 1442695040888963407;

/// The state after one step of the deterministic generator: a linear
/// congruential recurrence modulo two to the sixty-fourth.
pub open spec fn lcg_next(state: u64) -> u64 {
    ((state * LCG_MULTIPLIER + LCG_INCREMENT) % 0x1_0000_0000_0000_0000) as u64
}

/// The value a deterministic generator in the given state hands out: the
/// high half of its next state.
pub open spec fn lcg_output(state: u64) -> u32 {
    (lcg_next(state) / 0x1_0000_0000) as u32
}

/// A deterministic generator (a linear congruential generator with 64-bit
/// state), suitable for replayable runs and tests: its whole draw stream is
/// a function of the seed.
pub struct SeededRandom {
    pub state: u64,
}

impl SeededRandom {
    /// Creates a generator from a seed; equal seeds give equal draws.
    pub fn new(seed: u64) -> (r: SeededRandom)
        ensures
            r.state == seed,
    {
        SeededRandom { state: seed }
    }
}

impl RandomSource for SeededRandom {
    #[verifier::truncate]
    fn next_u32(&mut self) -> (r: u32)
        ensures
            final(self).state == lcg_next(old(self).state),
            r == lcg_output(old(self).state),
    {
        let big: u128 = (self.state as u128) * (LCG_MULTIPLIER as u128) + (LCG_INCREMENT
            as u128);
        let next: u64 = big as u64;
        proof {
            assert(big == (self.state as int) * (LCG_MULTIPLIER as int) + (LCG_INCREMENT as int));
            assert(big as u64 == big % 0x1_0000_0000_0000_0000) by (bit_vector);
            assert(next == lcg_next(self.state));
        }
        self.state = next;
        proof {
            assert(next >> 32 == next / 0x1_0000_0000 && next >> 32 < 0x1_0000_0000)
                by (bit_vector);
        }
        let out = (next >> 32) as u32;
        out
    }
}

/// A source backed by the operating system's entropy, through the `rand`
/// crate's thread-local generator.
pub struct ThreadRandom {}

impl ThreadRandom {
    pub fn new() -> (r: ThreadRandom) {
        ThreadRandom {  }
    }
}

/// Relies on `rand::random`: a uniformly drawn 32-bit value from the thread-
/// local generator. Nothing is promised of the draw.
#[verifier::external_body]
fn os_random_u32() -> u32 {
    rand::random::<u32>()
}

impl RandomSource for ThreadRandom {
    fn next_u32(&mut self) -> u32 {
        os_random_u32()
    }
}

/// A uniform 64-bit draw assembled from two 32-bit draws.
pub fn draw_u64<R: RandomSource>(rng: &mut R) -> u64 {
    let hi = rng.next_u32();
    let lo = rng.next_u32();
    ((hi as u64) << 32) | (lo as u64)
}

/// A draw reduced below the given bound.
pub fn draw_below<R: RandomSource>(rng: &mut R, bound: u64) -> (r: u64)
    requires
        bound >= 1,
    ensures
        r < bound,
{
    draw_u64(rng) % bound
}

} // verus!
