//! Chance: the damage of a swing and whether a monster drops an item.

use rand::rngs::StdRng;
use rand::Rng;
use rand::SeedableRng;
use vstd::prelude::*;

verus! {

/// Attack value of a bare-handed swing.
pub const FIST_ATTACK_VALUE: i32 = 7;

/// A source of random numbers.
#[verifier::external_type_specification]
#[verifier::external_body]
pub struct ExStdRng(StdRng);

/// `StdRng::from_entropy`, of the `rand` crate: a source seeded by the system. Nothing is
/// claimed of it. It panics where the system has no entropy to give.
#[verifier::external_body]
pub(crate) fn rng_from_entropy() -> (r: StdRng)
{
    StdRng::from_entropy()
}

/// `StdRng::seed_from_u64`, of the `rand` crate: a source with a fixed seed. Nothing is
/// claimed of the numbers it gives.
#[verifier::external_body]
pub(crate) fn rng_from_seed(seed: u64) -> (r: StdRng)
{
    StdRng::seed_from_u64(seed)
}

/// `Rng::gen_range` over `0..=max`, of the `rand` crate: some number in that range.
#[verifier::external_body]
pub(crate) fn gen_up_to(rng: &mut StdRng, max: i32) -> (r: i32)
    requires
        0 <= max,
    ensures
        0 <= r <= max,
{
    rng.gen_range(0..=max)
}

/// `Rng::gen_ratio`, of the `rand` crate: true with a probability of `numerator` in
/// `denominator`; never where the numerator is 0, always where it equals the denominator.
#[verifier::external_body]
pub(crate) fn gen_ratio(rng: &mut StdRng, numerator: u32, denominator: u32) -> (r: bool)
    requires
        0 < denominator,
        numerator <= denominator,
    ensures
        numerator == 0 ==> !r,
        numerator == denominator ==> r,
{
    rng.gen_ratio(numerator, denominator)
}

/// `dealt` is a possible outcome of a swing that deals at most `max`: any number from 0 to
/// the maximum, and 0 where there is no positive maximum.
pub open spec fn possible_damage(max: i32, dealt: i32) -> bool {
    0 <= dealt && dealt <= (if max > 0 { max as int } else { 0 })
}

/// Roll the damage of a swing that deals at most `max`.
pub fn melee_damage(rng: &mut StdRng, max: i32) -> (dealt: i32)
    ensures
        possible_damage(max, dealt),
{
    if max <= 0 {
        0
    } else {
        gen_up_to(rng, max)
    }
}

/// `dropped` is a possible outcome of a drop with a chance of `numerator` in `denominator`.
/// What is no proper fraction counts as no chance at all.
pub open spec fn possible_drop(numerator: u32, denominator: u32, dropped: bool) -> bool {
    &&& (numerator == 0 || denominator == 0 || numerator > denominator) ==> !dropped
    &&& (0 < numerator && numerator == denominator) ==> dropped
}

/// Roll whether something with a chance of `numerator` in `denominator` drops.
pub fn roll_drop(rng: &mut StdRng, numerator: u32, denominator: u32) -> (dropped: bool)
    ensures
        possible_drop(numerator, denominator, dropped),
{
    if denominator == 0 || numerator > denominator {
        false
    } else {
        gen_ratio(rng, numerator, denominator)
    }
}

} // verus!
