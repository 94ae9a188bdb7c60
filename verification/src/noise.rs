//! The noise injector: a seeded pseudorandom generator that gives one value
//! from 0 up to 1.0 per sample-frame, and the gain that a noise value and
//! the noise amount make of it.
//!
//! The generator is the standard generator of the `rand` crate. It is
//! deterministic: the words that it gives depend on the seed alone, so two
//! injectors with one seed give one sequence.

use crate::fixed::{multiply, multiply_spec, saturate, saturate_wide, ONE};
use rand::rngs::StdRng;
use rand::{RngCore, SeedableRng};
use vstd::prelude::*;

verus! {

/// The ceiling of the noise: at the full noise amount a sample grows by at
/// most 0.05 of itself.
pub const MAX_NOISE_VOLUME: i64 = 50_000_000;

/// The seed of the injector of the signal path.
pub const NOISE_SEED: u64 = 0;

/// `StdRng` of the `rand` crate, which is the ChaCha generator with 12
/// rounds. Nothing of its inside is known here.
#[verifier::external_type_specification]
#[verifier::external_body]
pub struct ExStdRng(rand::rngs::StdRng);

/// What a generator holds: the words that it has yet to give, the next one
/// at 0. The two functions below say how the calls of `rand` relate to it;
/// nothing else is known of it.
pub uninterp spec fn pending_words(rng: StdRng) -> Map<nat, u32>;

/// The words that a generator made from `seed` gives, the first one at 0.
/// It stands for the key expansion and the cipher of `rand`, which are not
/// written out here.
pub uninterp spec fn seeded_words(seed: u64) -> Map<nat, u32>;

/// `SeedableRng::seed_from_u64` for `StdRng` of `rand`: expands the seed to
/// a key and puts the generator at the start of the stream of that key.
/// Believed without proof: the words that the new generator will give
/// depend on nothing but `seed`.
#[verifier::external_body]
fn seeded_generator(seed: u64) -> (rng: StdRng)
    ensures
        pending_words(rng) == seeded_words(seed),
{
    StdRng::seed_from_u64(seed)
}

/// `RngCore::next_u32` for `StdRng` of `rand`: gives the next word of the
/// stream and moves on by one word. Believed without proof: the word is the
/// first of those that the generator held, and the generator then holds
/// the rest in their order.
#[verifier::external_body]
fn next_word(rng: &mut StdRng) -> (word: u32)
    ensures
        word == pending_words(*old(rng))[0],
        forall|k: nat| pending_words(*final(rng))[k] == pending_words(*old(rng))[k + 1],
{
    rng.next_u32()
}

/// The noise value that a word of the generator stands for: its upper 24
/// bits as a fraction of 2^24, in billionths.
pub open spec fn sample_of_word(word: u32) -> int {
    ((word as int / 256) * ONE) / 0x100_0000
}

/// The gain that noise puts on a sample:
/// `1 + noise * MAX_NOISE_VOLUME * amount`.
pub open spec fn noise_gain_spec(noise: int, amount: int) -> int {
    saturate(ONE + multiply_spec(multiply_spec(noise, MAX_NOISE_VOLUME as int), amount))
}

/// The noise value that a word of the generator stands for.
pub fn sample_from_word(word: u32) -> (noise: i64)
    ensures
        noise == sample_of_word(word),
        0 <= noise < ONE,
{
    let upper: u64 = (word / 256) as u64;
    let noise: u64 = (upper * 1_000_000_000) / 0x100_0000;
    noise as i64
}

/// The gain that noise puts on a sample.
pub fn noise_gain(noise: i64, amount: i64) -> (gain: i64)
    ensures
        gain == noise_gain_spec(noise as int, amount as int),
{
    let term: i64 = multiply(multiply(noise, MAX_NOISE_VOLUME), amount);
    saturate_wide(ONE as i128 + term as i128)
}

/// A reproducible source of noise values.
pub struct NoiseInjector {
    rng: StdRng,
}

impl NoiseInjector {
    /// The word that the generator gives at the `k`-th draw from now.
    pub closed spec fn word(&self, k: nat) -> u32 {
        pending_words(self.rng)[k]
    }

    /// The noise value of the `k`-th draw from now.
    pub open spec fn upcoming(&self, k: nat) -> int {
        sample_of_word(self.word(k))
    }

    /// Whether the injector is as `new` made it from `seed`.
    pub open spec fn seeded_with(&self, seed: u64) -> bool {
        forall|k: nat| self.word(k) == seeded_words(seed)[k]
    }

    /// An injector that starts the sequence of `seed`.
    pub fn new(seed: u64) -> (injector: NoiseInjector)
        ensures
            injector.seeded_with(seed),
    {
        NoiseInjector { rng: seeded_generator(seed) }
    }

    /// Draws the next noise value, from 0 up to 1.0.
    pub fn next_sample(&mut self) -> (noise: i64)
        ensures
            noise == old(self).upcoming(0),
            0 <= noise < ONE,
            forall|k: nat| final(self).word(k) == old(self).word(k + 1),
    {
        let word: u32 = next_word(&mut self.rng);
        sample_from_word(word)
    }
}

/// Every word of the generator stands for a noise value from 0 up to 1.0.
pub proof fn lemma_sample_in_range(word: u32)
    ensures
        0 <= sample_of_word(word) < ONE,
{
}

/// Two injectors of one seed give the same noise values, draw for draw.
pub proof fn lemma_same_seed_same_sequence(a: NoiseInjector, b: NoiseInjector, seed: u64)
    requires
        a.seeded_with(seed),
        b.seeded_with(seed),
    ensures
        forall|k: nat| a.upcoming(k) == b.upcoming(k),
{
}

/// With the noise amount at 0 the noise changes no sample: the gain is 1.0.
pub proof fn lemma_no_amount_no_noise(noise: int)
    ensures
        noise_gain_spec(noise, 0) == ONE,
{
    assert(multiply_spec(noise, MAX_NOISE_VOLUME as int) * 0 == 0) by (nonlinear_arith);
}

} // verus!
