//! The mutation operator: independent bit flips, one trial per bit.
//!
//! A mutation rate is a probability below one, held as a 32-bit binary
//! fraction. One trial draws a uniform 32-bit number and flips its bit when
//! the number is below the rate's threshold, which happens with probability
//! `threshold / 2^32`.

use vstd::prelude::*;
use rand::rngs::StdRng;
use rand::Rng;
use crate::error::ConfigError;

verus! {

/// `rand::rngs::StdRng`, the random generator that mutation draws from. The
/// caller seeds it, so that a run can be repeated. It is only passed through:
/// nothing of its state is visible here.
#[verifier::external_type_specification]
#[verifier::external_body]
pub struct ExStdRng(StdRng);

/// The probability with which one bit of a gene is flipped, as the numerator
/// of a fraction over `2^32`. Every threshold is a probability in `[0, 1)`:
/// zero never flips, `u32::MAX` flips all but one draw in `2^32`.
#[derive(Clone, Copy, Debug, PartialEq, Eq, Structural)]
pub struct MutationRate {
    pub threshold: u32,
}

/// Whether bit `position` of `word` is set, bit 0 being the least significant.
pub open spec fn bit_at(word: u32, position: u32) -> bool {
    (word >> position) & 1 == 1
}

/// `mask` is the mutation mask that `draws` produce at `rate`: bit `i` of the
/// mask is set exactly when draw `i` is below the rate's threshold.
pub open spec fn is_mask_of(mask: u32, rate: MutationRate, draws: Seq<u32>) -> bool {
    forall|i: u32| 0 <= i < 32 ==> #[trigger] bit_at(mask, i) == (draws[i as int] < rate.threshold)
}

/// Calls `rand::Rng::gen` on the standard generator for an array of
/// thirty-two `u32` values, each uniform over all of `u32`. Nothing is
/// claimed of the values drawn.
#[verifier::external_body]
fn draw_trials(rng: &mut StdRng) -> (draws: [u32; 32]) {
    rng.gen()
}

proof fn lemma_set_bit(word: u32, position: u32, other: u32)
    requires
        position < 32,
        other < 32,
    ensures
        bit_at(word | (1u32 << position), other) == (bit_at(word, other) || other == position),
{
    assert(((word | (1u32 << position)) >> other) & 1 == 1 <==> (((word >> other) & 1 == 1) || other
        == position)) by (bit_vector)
        requires
            position < 32,
            other < 32,
    ;
}

proof fn lemma_low_bits(position: u32)
    requires
        position < 32,
    ensures
        position < 31 ==> (((1u32 << position) - 1) as u32) | (1u32 << position) == ((1u32 << ((position
            + 1) as u32)) - 1) as u32,
        position == 31 ==> (((1u32 << position) - 1) as u32) | (1u32 << position) == u32::MAX,
        1u32 << position >= 1,
        position == 0 ==> ((1u32 << position) - 1) as u32 == 0,
{
    assert(1u32 << position >= 1) by (bit_vector)
        requires
            position < 32,
    ;
    assert(position < 31 ==> (((1u32 << position) - 1) as u32) | (1u32 << position) == ((1u32 << ((position
        + 1) as u32)) - 1) as u32) by (bit_vector)
        requires
            position < 32,
    ;
    assert(position == 31 ==> (((1u32 << position) - 1) as u32) | (1u32 << position) == 0xFFFF_FFFFu32)
        by (bit_vector)
        requires
            position < 32,
    ;
    assert(position == 0 ==> ((1u32 << position) - 1) as u32 == 0) by (bit_vector)
        requires
            position < 32,
    ;
}

/// The draws determine the mask: two masks of the same draws at the same
/// rate are one mask.
pub proof fn lemma_mask_is_unique(first: u32, second: u32, rate: MutationRate, draws: Seq<u32>)
    requires
        is_mask_of(first, rate, draws),
        is_mask_of(second, rate, draws),
    ensures
        first == second,
{
    assert forall|i: u32| 0 <= i < 32 implies #[trigger] bit_at(first, i) == bit_at(second, i) by {}
    lemma_equal_bits(first, second);
}

/// Where every draw is below the threshold, the mask has every bit set.
pub proof fn lemma_mask_of_flips_only(mask: u32, rate: MutationRate, draws: Seq<u32>)
    requires
        is_mask_of(mask, rate, draws),
        forall|k: int| 0 <= k < 32 ==> (#[trigger] draws[k]) < rate.threshold,
    ensures
        mask == u32::MAX,
{
    assert forall|i: u32| 0 <= i < 32 implies #[trigger] bit_at(mask, i) == bit_at(0xFFFF_FFFFu32, i) by {
        assert(draws[i as int] < rate.threshold);
        assert((0xFFFF_FFFFu32 >> i) & 1 == 1) by (bit_vector)
            requires
                i < 32,
        ;
    }
    lemma_equal_bits(mask, 0xFFFF_FFFFu32);
}

proof fn lemma_equal_bits(first: u32, second: u32)
    requires
        forall|i: u32| 0 <= i < 32 ==> #[trigger] bit_at(first, i) == bit_at(second, i),
    ensures
        first == second,
{
    let difference = first ^ second;
    if difference != 0 {
        let i = lowest_set_bit(difference);
        assert(bit_at(first, i) != bit_at(second, i)) by (bit_vector)
            requires
                i < 32,
                (difference >> i) & 1 == 1,
                difference == first ^ second,
        ;
    } else {
        assert(first == second) by (bit_vector)
            requires
                first ^ second == 0,
        ;
    }
}

/// The position of some bit that is set in a word that is not zero.
proof fn lowest_set_bit(word: u32) -> (position: u32)
    requires
        word != 0,
    ensures
        position < 32,
        bit_at(word, position),
    decreases word,
{
    if word & 1 == 1 {
        assert((word >> 0u32) & 1 == 1) by (bit_vector)
            requires
                word & 1 == 1,
        ;
        0
    } else {
        let half = word >> 1;
        assert(half != 0 && half < word) by (bit_vector)
            requires
                word != 0,
                word & 1 != 1,
                half == word >> 1,
        ;
        let below = lowest_set_bit(half);
        assert(below < 31 && (word >> ((below + 1) as u32)) & 1 == 1) by (bit_vector)
            requires
                below < 32,
                half == word >> 1,
                (half >> below) & 1 == 1,
        ;
        (below + 1) as u32
    }
}

impl MutationRate {
    /// The rate `threshold / 2^32`.
    pub fn new(threshold: u32) -> (rate: MutationRate)
        ensures
            rate.threshold == threshold,
    {
        MutationRate { threshold }
    }

    /// The rate `numerator / denominator`, rounded down to a multiple of
    /// `2^-32`.
    ///
    /// Fails with [`ConfigError::RateOutOfRange`] exactly when the fraction is
    /// not a probability below one: when the denominator is zero or the
    /// numerator is not smaller than the denominator.
    pub fn from_ratio(numerator: u32, denominator: u32) -> (r: Result<MutationRate, ConfigError>)
        ensures
            (denominator == 0 || numerator >= denominator) <==> r is Err,
            r is Err ==> r->Err_0 == ConfigError::RateOutOfRange,
            r is Ok ==> r->Ok_0.threshold == (numerator as int * 0x1_0000_0000) / (denominator as int),
    {
        if denominator == 0 || numerator >= denominator {
            return Err(ConfigError::RateOutOfRange);
        }
        let scaled: u64 = (numerator as u64) * 0x1_0000_0000u64;
        let quotient: u64 = scaled / (denominator as u64);
        assert(quotient < 0x1_0000_0000) by (nonlinear_arith)
            requires
                quotient == (numerator as int * 0x1_0000_0000) / (denominator as int),
                0 <= numerator < denominator,
        ;
        Ok(MutationRate { threshold: quotient as u32 })
    }
}

/// The mutation mask that thirty-two trials produce: bit `i` is set exactly
/// when `draws[i]` is below the rate's threshold.
///
/// At rate zero the mask is zero for every draw; when every draw is below the
/// threshold, every bit is set.
pub fn mutation_mask(rate: MutationRate, draws: &[u32; 32]) -> (mask: u32)
    ensures
        is_mask_of(mask, rate, draws@),
        rate.threshold == 0 ==> mask == 0,
        (forall|i: int| 0 <= i < 32 ==> draws@[i] < rate.threshold) ==> mask == u32::MAX,
        (mask == 0) <==> (forall|i: int| 0 <= i < 32 ==> draws@[i] >= rate.threshold),
{
    let mut mask: u32 = 0;
    let mut i: u32 = 0;
    proof {
        assert(forall|k: u32| 0 <= k < 32 ==> !#[trigger] bit_at(0u32, k)) by {
            assert(forall|k: u32| k < 32 ==> (0u32 >> k) & 1 != 1) by (bit_vector);
        }
        lemma_low_bits(0);
    }
    while i < 32
        invariant
            i <= 32,
            forall|k: u32| 0 <= k < i ==> #[trigger] bit_at(mask, k) == (draws@[k as int] < rate.threshold),
            forall|k: u32| i <= k < 32 ==> !#[trigger] bit_at(mask, k),
            (mask == 0) <==> (forall|k: int| 0 <= k < i ==> draws@[k] >= rate.threshold),
            (forall|k: int| 0 <= k < i ==> draws@[k] < rate.threshold) ==> (i < 32 && mask == ((1u32 << i)
                - 1) as u32) || (i == 32 && mask == u32::MAX),
        decreases 32 - i,
    {
        let ghost before = mask;
        if draws[i as usize] < rate.threshold {
            mask = mask | (1u32 << i);
            proof {
                lemma_low_bits(i);
                assert(mask != 0) by (bit_vector)
                    requires
                        mask == before | (1u32 << i),
                        i < 32,
                ;
                assert forall|k: u32| 0 <= k < 32 implies #[trigger] bit_at(mask, k) == (bit_at(before, k) || k
                    == i) by {
                    lemma_set_bit(before, i, k);
                }
            }
        }
        i += 1;
    }
    mask
}

/// The gene that `gene` mutates into when the trials come out as `draws`:
/// every bit whose draw is below the rate's threshold is flipped, every other
/// bit is kept.
pub fn mutate_with(gene: u32, rate: MutationRate, draws: &[u32; 32]) -> (mutated: u32)
    ensures
        is_mask_of(mutated ^ gene, rate, draws@),
        forall|i: u32| 0 <= i < 32 ==> #[trigger] bit_at(mutated, i) == (bit_at(gene, i) != (draws@[i as int]
            < rate.threshold)),
        rate.threshold == 0 ==> mutated == gene,
        (forall|i: int| 0 <= i < 32 ==> draws@[i] < rate.threshold) ==> mutated == !gene,
{
    let mask = mutation_mask(rate, draws);
    proof {
        assert((gene ^ mask) ^ gene == mask) by (bit_vector);
        assert(gene ^ 0u32 == gene) by (bit_vector);
        assert(gene ^ 0xFFFF_FFFFu32 == !gene) by (bit_vector);
        assert forall|i: u32| 0 <= i < 32 implies #[trigger] bit_at(gene ^ mask, i) == (bit_at(gene, i)
            != bit_at(mask, i)) by {
            assert(((gene ^ mask) >> i) & 1 == 1 <==> (((gene >> i) & 1 == 1) != ((mask >> i) & 1 == 1)))
                by (bit_vector);
        }
    }
    gene ^ mask
}

/// Draws a fresh mutation mask: thirty-two independent trials, one per bit.
///
/// At rate zero the mask is zero, whatever the generator yields.
pub fn mutation_u32(rate: MutationRate, rng: &mut StdRng) -> (mask: u32)
    ensures
        rate.threshold == 0 ==> mask == 0,
{
    let draws = draw_trials(rng);
    mutation_mask(rate, &draws)
}

/// Mutates `gene`: each of its thirty-two bits is flipped independently with
/// the probability that `rate` stands for.
///
/// At rate zero the gene comes back unchanged, whatever the generator yields.
pub fn mutate(gene: u32, rate: MutationRate, rng: &mut StdRng) -> (mutated: u32)
    ensures
        rate.threshold == 0 ==> mutated == gene,
{
    let draws = draw_trials(rng);
    mutate_with(gene, rate, &draws)
}

} // verus!
