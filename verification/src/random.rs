use vstd::prelude::*;
use rand::rngs::StdRng;
use rand::seq::SliceRandom;
use rand::Rng;
use rand::SeedableRng;
use crate::probability::Probability;

verus! {

/// The generator of the `rand` crate that every draw of a run comes from.
/// Nothing of its state is visible here.
#[verifier::external_type_specification]
#[verifier::external_body]
pub struct ExStdRng(StdRng);

/// `StdRng::seed_from_u64`: a generator started from `seed`. Nothing is
/// claimed of it.
#[verifier::external_body]
pub(crate) fn seeded_generator(seed: u64) -> StdRng {
    StdRng::seed_from_u64(seed)
}

/// `Rng::gen::<u8>`: one byte. Nothing is claimed beyond its type.
#[verifier::external_body]
pub(crate) fn random_byte(rng: &mut StdRng) -> u8 {
    rng.gen::<u8>()
}

/// `Rng::gen_range` on `0..bound`: a value below `bound`. The range must not
/// be empty, since `gen_range` panics on an empty one.
#[verifier::external_body]
pub(crate) fn random_below(rng: &mut StdRng, bound: usize) -> (value: usize)
    requires
        0 < bound,
    ensures
        value < bound,
{
    rng.gen_range(0..bound)
}

/// `Rng::gen_range` on `low..high` over bytes: a value from `low` up to, not
/// including, `high`. The range must not be empty.
#[verifier::external_body]
pub(crate) fn random_byte_between(rng: &mut StdRng, low: u8, high: u8) -> (value: u8)
    requires
        low < high,
    ensures
        low <= value < high,
{
    rng.gen_range(low..high)
}

/// `Rng::gen_ratio`: a yes or no, drawn with probability
/// `numerator / denominator`. `gen_ratio` panics on a zero denominator and
/// on a numerator above the denominator. It answers yes every time when the
/// two are equal and no every time when the numerator is zero; of other
/// ratios nothing is claimed.
#[verifier::external_body]
pub(crate) fn random_ratio(rng: &mut StdRng, numerator: u32, denominator: u32) -> (hit: bool)
    requires
        0 < denominator,
        numerator <= denominator,
    ensures
        numerator == 0 ==> !hit,
        numerator == denominator ==> hit,
{
    rng.gen_ratio(numerator, denominator)
}

/// Decides an event of probability `p`.
pub fn chance(rng: &mut StdRng, p: Probability) -> (hit: bool)
    ensures
        p.is_never() ==> !hit,
        p.is_certain() ==> hit,
{
    let numerator = p.numerator();
    random_ratio(rng, numerator, p.denominator())
}

/// `SliceRandom::shuffle`: the same items in another order.
#[verifier::external_body]
pub(crate) fn shuffle(rng: &mut StdRng, items: &mut Vec<usize>)
    ensures
        final(items)@.to_multiset() == old(items)@.to_multiset(),
{
    items.shuffle(rng)
}

/// `SliceRandom::choose_multiple`: `amount` items taken from distinct
/// positions of `items`, or all of them where `amount` is larger than their
/// number.
#[verifier::external_body]
pub(crate) fn choose_multiple(rng: &mut StdRng, items: &Vec<usize>, amount: usize) -> (picked: Vec<
    usize,
>)
    ensures
        picked@.len() == if amount <= items@.len() { amount as nat } else { items@.len() },
        picked@.to_multiset().subset_of(items@.to_multiset()),
{
    items.choose_multiple(rng, amount).copied().collect()
}

} // verus!
