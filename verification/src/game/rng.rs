//! The seeded random number generator of a game and the draws taken from it.
//!
//! All randomness of a game comes from a `ChaCha8Rng` seeded once with
//! `seed_from_u64`. `rand_core` documents the output for a fixed seed as
//! reproducible on every run, version and platform, so what the generator yields
//! next is a function of the seed and of how far it has been read. `SeededRng`
//! keeps the generator together with these two values, and each draw is named
//! as a function of them and of the draw's arguments.
use vstd::prelude::*;
use rand::{Rng, RngCore, SeedableRng};
use rand_chacha::ChaCha8Rng;

verus! {

/// The game's random number generator, `rand_chacha::ChaCha8Rng`.
#[verifier::external_type_specification]
#[verifier::external_body]
pub struct ExChaCha8Rng(ChaCha8Rng);

/// `Clone::clone` on `ChaCha8Rng`, which `rand_chacha` derives over plain state
/// (the key, the block counter and the buffered output words): the copy is in the
/// same state as the original and yields the same draws from then on.
pub assume_specification[<ChaCha8Rng as Clone>::clone](rng: &ChaCha8Rng) -> (res: ChaCha8Rng)
    ensures
        res == *rng,
;

/// A `ChaCha8Rng` with the seed it was made from and its position in its output
/// stream, in 32-bit words (`get_word_pos`). Only the functions of this module
/// that call into `rand` make or change one, and each keeps the two values true
/// of the generator.
#[derive(Clone, Debug)]
pub struct SeededRng {
    rng: ChaCha8Rng,
    seed: u64,
    pos: u128,
}

impl SeededRng {
    /// The seed the generator was made from.
    pub closed spec fn seed(&self) -> u64 {
        self.seed
    }

    /// How many 32-bit words of its output stream the generator has yielded.
    pub closed spec fn pos(&self) -> u128 {
        self.pos
    }

    /// A generator seeded with `seed` that has yielded nothing yet.
    pub fn seed_from_u64(seed: u64) -> (r: Self)
        ensures
            r.seed() == seed,
            r.pos() == 0,
    {
        seeded(seed)
    }
}

/// `next_u64()` on the generator seeded with `seed` that has yielded `pos`
/// words: the value, and the position after it.
pub uninterp spec fn u64_draw(seed: u64, pos: u128) -> (u64, u128);

/// `gen_range(low..high)` on `u64` on the generator seeded with `seed` that has
/// yielded `pos` words: the value, and the position after it.
pub uninterp spec fn range_draw(seed: u64, pos: u128, low: u64, high: u64) -> (u64, u128);

/// `gen_ratio(numerator, denominator)` on the generator seeded with `seed` that
/// has yielded `pos` words: the outcome, and the position after it.
pub uninterp spec fn ratio_draw(seed: u64, pos: u128, numerator: u32, denominator: u32) -> (
    bool,
    u128,
);

/// The first 64 bits that a generator seeded with `seed` yields.
pub open spec fn first_draw(seed: u64) -> u64 {
    u64_draw(seed, 0).0
}

/// `ChaCha8Rng::seed_from_u64(seed)`, kept with its seed and its position
/// (`get_word_pos`), which is 0: the block counter starts at 0 and the output
/// buffer starts empty.
#[verifier::external_body]
fn seeded(seed: u64) -> (r: SeededRng)
    ensures
        r.seed() == seed,
        r.pos() == 0,
{
    let rng = ChaCha8Rng::seed_from_u64(seed);
    let pos = rng.get_word_pos();
    SeededRng { rng, seed, pos }
}

/// `RngCore::next_u64` on the generator: the value is `u64_draw` of its seed and
/// position, and it moves to the position that `u64_draw` gives.
#[verifier::external_body]
pub(crate) fn draw_u64(rng: &mut SeededRng) -> (v: u64)
    ensures
        final(rng).seed() == old(rng).seed(),
        (v, final(rng).pos()) == u64_draw(old(rng).seed(), old(rng).pos()),
{
    let v = rng.rng.next_u64();
    rng.pos = rng.rng.get_word_pos();
    v
}

/// `Rng::gen_range(low..high)` on `u64`: the value is `range_draw` of the
/// generator's seed and position and of the range, and the generator moves to
/// the position that `range_draw` gives. The call panics on an empty range,
/// hence `low < high`; the documentation promises a value in the range.
#[verifier::external_body]
pub(crate) fn draw_in_range(rng: &mut SeededRng, low: u64, high: u64) -> (v: u64)
    requires
        low < high,
    ensures
        low <= v < high,
        final(rng).seed() == old(rng).seed(),
        (v, final(rng).pos()) == range_draw(old(rng).seed(), old(rng).pos(), low, high),
{
    let v = rng.rng.gen_range(low..high);
    rng.pos = rng.rng.get_word_pos();
    v
}

/// `Rng::gen_ratio(numerator, denominator)`: `true` with probability
/// `numerator / denominator`. The outcome is `ratio_draw` of the generator's seed
/// and position and of the ratio, and the generator moves to the position that
/// `ratio_draw` gives. It panics unless `0 < denominator` and
/// `numerator <= denominator`; the documentation guarantees `true` when the two
/// are equal and `false` when `numerator` is 0. For a probability of one half it
/// draws one `u64` and returns whether it lies below 2^63.
#[verifier::external_body]
pub(crate) fn draw_ratio(rng: &mut SeededRng, numerator: u32, denominator: u32) -> (b: bool)
    requires
        0 < denominator,
        numerator <= denominator,
    ensures
        numerator == denominator ==> b,
        numerator == 0 ==> !b,
        final(rng).seed() == old(rng).seed(),
        (b, final(rng).pos()) == ratio_draw(old(rng).seed(), old(rng).pos(), numerator, denominator),
{
    let b = rng.rng.gen_ratio(numerator, denominator);
    rng.pos = rng.rng.get_word_pos();
    b
}

} // verus!
