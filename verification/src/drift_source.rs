//! The source of the random drifts that shape the flames.
//!
//! The generator is seeded, not fed by the machine: its state after seeding
//! is a function of the seed, and each sample and the state it leaves are
//! functions of the state before. Those functions are named here, not
//! written out.

use rand::Rng;
use rand::SeedableRng;
use rand_xoshiro::Xoshiro128Plus;
use vstd::prelude::*;

use crate::heat_grid::DRIFTS;

verus! {

/// The xoshiro128+ generator of `rand_xoshiro`. Its state is opaque here.
#[verifier::external_type_specification]
#[verifier::external_body]
pub struct ExXoshiro128Plus(Xoshiro128Plus);

/// The state words that a generator holds.
pub uninterp spec fn generator_words(generator: Xoshiro128Plus) -> Seq<u32>;

/// The state words of the generator that `SeedableRng::seed_from_u64` makes
/// of a seed.
pub uninterp spec fn seeded_words(seed: u64) -> Seq<u32>;

/// What `Rng::gen_range`, on `u32` with the bounds `low` and `high`, makes of
/// a generator with the given state words: the sample, and the state words
/// that the generator is left with.
pub uninterp spec fn sampled(words: Seq<u32>, low: u32, high: u32) -> (u32, Seq<u32>);

/// `SeedableRng::seed_from_u64` of `Xoshiro128Plus`: the generator that the
/// seed expands to. Its state depends on the seed alone; the claim is that it
/// is the state named `seeded_words(seed)`.
#[verifier::external_body]
fn generator_from_seed(seed: u64) -> (generator: Xoshiro128Plus)
    ensures
        generator_words(generator) == seeded_words(seed),
{
    Xoshiro128Plus::seed_from_u64(seed)
}

/// `Rng::gen_range` of `rand`, on `u32`: a sample from `low..high`. The call
/// panics unless `low < high`. The sample and the state that the generator is
/// left with depend on its state before and on the bounds alone; the claim is
/// that they are the pair named `sampled`, and that the sample is in range.
/// Nothing is claimed of the distribution.
#[verifier::external_body]
fn sample_range(generator: &mut Xoshiro128Plus, low: u32, high: u32) -> (sample: u32)
    requires
        low < high,
    ensures
        low <= sample < high,
        (sample, generator_words(*final(generator))) == sampled(
            generator_words(*old(generator)),
            low,
            high,
        ),
{
    generator.gen_range(low, high)
}

/// A seeded stream of drifts, each in `0..DRIFTS`.
pub struct DriftSource {
    generator: Xoshiro128Plus,
}

impl View for DriftSource {
    type V = Seq<u32>;

    /// The state words of the generator.
    closed spec fn view(&self) -> Seq<u32> {
        generator_words(self.generator)
    }
}

/// The drift that a source in the given state gives next: a sample from
/// `0..DRIFTS`.
pub open spec fn drift_of(words: Seq<u32>) -> u8 {
    sampled(words, 0, DRIFTS as u32).0 as u8
}

/// The state that a source in the given state is left in by its next drift.
pub open spec fn words_after_drift(words: Seq<u32>) -> Seq<u32> {
    sampled(words, 0, DRIFTS as u32).1
}

impl DriftSource {
    /// A source whose stream is fixed by `seed`: it starts in the state that
    /// the seed expands to.
    pub fn seeded(seed: u64) -> (source: DriftSource)
        ensures
            source@ == seeded_words(seed),
    {
        DriftSource { generator: generator_from_seed(seed) }
    }

    /// The next drift of the stream: the sample that the current state gives
    /// from `0..DRIFTS`. The source moves on to the state that the sample
    /// leaves.
    pub fn next_drift(&mut self) -> (drift: u8)
        ensures
            drift < DRIFTS,
            drift == drift_of(old(self)@),
            final(self)@ == words_after_drift(old(self)@),
    {
        let sample: u32 = sample_range(&mut self.generator, 0, DRIFTS as u32);
        sample as u8
    }
}

} // verus!
