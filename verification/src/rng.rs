//! Random draws.
//!
//! The maze generator draws from a ChaCha stream with eight rounds. The
//! stream is held as a plain value, the seed and the number of 32-bit words
//! already consumed, so that contracts can say which value a draw yields.

use rand::Rng;
use rand::SeedableRng;
use rand_chacha::ChaCha8Rng;
use vstd::prelude::*;

verus! {

/// The index below `bound` that `Rng::random_range(0..bound)` yields on a
/// `ChaCha8Rng` seeded with `seed` and moved to `word_pos`, paired with the
/// word position of the generator after the draw.
pub uninterp spec fn chacha8_index(seed: u64, word_pos: u128, bound: usize) -> (usize, u128);

/// The outcome of `Rng::random_ratio(numerator, denominator)` on a
/// `ChaCha8Rng` seeded with `seed` and moved to `word_pos`, paired with the
/// word position of the generator after the draw.
pub uninterp spec fn chacha8_ratio(seed: u64, word_pos: u128, numerator: u32, denominator: u32) -> (
    bool,
    u128,
);

/// Calls `ChaCha8Rng::seed_from_u64`, `set_word_pos`, `Rng::random_range` on
/// `0..bound` and `get_word_pos`. The stream of a ChaCha generator is fixed
/// by its seed and position, so the result is the named one; `random_range`
/// returns a value inside the range it is given.
#[verifier::external_body]
fn chacha8_draw_index(seed: u64, word_pos: u128, bound: usize) -> (r: (usize, u128))
    requires
        bound > 0,
    ensures
        r == chacha8_index(seed, word_pos, bound),
        r.0 < bound,
{
    let mut stream = ChaCha8Rng::seed_from_u64(seed);
    stream.set_word_pos(word_pos);
    let index: usize = stream.random_range(0..bound);
    (index, stream.get_word_pos())
}

/// Calls `ChaCha8Rng::seed_from_u64`, `set_word_pos`, `Rng::random_ratio`
/// and `get_word_pos`. `random_ratio` documents that equal numerator and
/// denominator always give `true` and that a zero numerator always gives
/// `false`; it panics on a zero denominator or a numerator above it.
#[verifier::external_body]
fn chacha8_draw_ratio(seed: u64, word_pos: u128, numerator: u32, denominator: u32) -> (r: (
    bool,
    u128,
))
    requires
        denominator > 0,
        numerator <= denominator,
    ensures
        r == chacha8_ratio(seed, word_pos, numerator, denominator),
        numerator == denominator ==> r.0,
        numerator == 0 ==> !r.0,
{
    let mut stream = ChaCha8Rng::seed_from_u64(seed);
    stream.set_word_pos(word_pos);
    let outcome: bool = stream.random_ratio(numerator, denominator);
    (outcome, stream.get_word_pos())
}

/// Calls `rand::rng` and `Rng::random_range` on `0..bound`. The generator
/// of the thread is seeded by the system, so nothing is known of the result
/// but that it lies in the range.
#[verifier::external_body]
pub(crate) fn roll_index(bound: usize) -> (i: usize)
    requires
        bound > 0,
    ensures
        i < bound,
{
    rand::rng().random_range(0..bound)
}

/// A seeded ChaCha stream: the seed it was made from and how many 32-bit
/// words of it have been consumed.
#[derive(Clone, Copy, Debug, PartialEq, Eq, Structural)]
pub struct MazeRng {
    pub seed: u64,
    pub word_pos: u128,
}

impl MazeRng {
    /// The index that the next draw below `bound` yields. It is below
    /// `bound`: the generator never hands out anything else.
    pub open spec fn index(self, bound: usize) -> usize {
        let drawn = chacha8_index(self.seed, self.word_pos, bound).0;
        if drawn < bound {
            drawn
        } else {
            0
        }
    }

    /// The stream after a draw below `bound`.
    pub open spec fn after_index(self, bound: usize) -> MazeRng {
        MazeRng { seed: self.seed, word_pos: chacha8_index(self.seed, self.word_pos, bound).1 }
    }

    /// The outcome of the next draw that is true `numerator` times in
    /// `denominator`.
    pub open spec fn ratio(self, numerator: u32, denominator: u32) -> bool {
        chacha8_ratio(self.seed, self.word_pos, numerator, denominator).0
    }

    /// The stream after a draw of a ratio.
    pub open spec fn after_ratio(self, numerator: u32, denominator: u32) -> MazeRng {
        MazeRng {
            seed: self.seed,
            word_pos: chacha8_ratio(self.seed, self.word_pos, numerator, denominator).1,
        }
    }

    /// The start of the stream that belongs to `seed`.
    pub open spec fn seeded(seed: u64) -> MazeRng {
        MazeRng { seed, word_pos: 0 }
    }

    /// A stream at its start.
    pub fn seed_from_u64(seed: u64) -> (rng: MazeRng)
        ensures
            rng == MazeRng::seeded(seed),
    {
        MazeRng { seed, word_pos: 0 }
    }

    /// Draws an index below `bound`, uniformly, and advances the stream.
    pub fn random_range(&mut self, bound: usize) -> (i: usize)
        requires
            bound > 0,
        ensures
            i == old(self).index(bound),
            *final(self) == old(self).after_index(bound),
            i < bound,
    {
        let drawn = chacha8_draw_index(self.seed, self.word_pos, bound);
        self.word_pos = drawn.1;
        drawn.0
    }

    /// Draws `true` with probability `numerator / denominator` and
    /// advances the stream.
    pub fn random_ratio(&mut self, numerator: u32, denominator: u32) -> (b: bool)
        requires
            denominator > 0,
            numerator <= denominator,
        ensures
            b == old(self).ratio(numerator, denominator),
            *final(self) == old(self).after_ratio(numerator, denominator),
            numerator == denominator ==> b,
            numerator == 0 ==> !b,
    {
        let drawn = chacha8_draw_ratio(self.seed, self.word_pos, numerator, denominator);
        self.word_pos = drawn.1;
        drawn.0
    }
}

} // verus!
