//! Random numbers, drawn with the `rand` crate.
//!
//! The generator is the one that `rand::rng` keeps for each thread. `rand` seeds it from the
//! operating system when the thread first uses it, and panics if the system has no
//! randomness to give; nothing here rules that out.

use rand::distr::{Distribution, Uniform};
use vstd::prelude::*;

verus! {

/// Draws from `rand`'s `Uniform::new(low, high)`, once, with the generator that `rand::rng`
/// keeps for the calling thread.
///
/// `Uniform::new` accepts the bounds where `low < high`, and a number drawn from it is at
/// least `low` and less than `high`. Which of those numbers comes out is left open.
#[verifier::external_body]
pub(crate) fn below(low: u64, high: u64) -> (drawn: u64)
    requires
        low < high,
    ensures
        low <= drawn < high,
{
    Uniform::new(low, high).expect("Invalid Inputs").sample(&mut rand::rng())
}

/// Draws from `rand`'s `Uniform::new_inclusive(low, high)`, once, with the generator that
/// `rand::rng` keeps for the calling thread.
///
/// `Uniform::new_inclusive` accepts the bounds where `low <= high`, and a number drawn from
/// it is at least `low` and at most `high`. Which of those numbers comes out is left open.
#[verifier::external_body]
pub(crate) fn up_to(low: u64, high: u64) -> (drawn: u64)
    requires
        low <= high,
    ensures
        low <= drawn <= high,
{
    Uniform::new_inclusive(low, high).expect("Invalid Inputs").sample(&mut rand::rng())
}

} // verus!
