use vstd::prelude::*;

use rand::rngs::SmallRng;
use rand::seq::SliceRandom;
use rand::{RngExt, SeedableRng};

verus! {

/// The small, fast pseudo-random generator of `rand`; the library only carries it through to
/// the calls below.
#[verifier::external_type_specification]
#[verifier::external_body]
pub struct ExSmallRng(rand::rngs::SmallRng);

/// `rng.random_range(0..upper)` of `rand`: a value drawn from `0..upper`, which must not be
/// empty (`rand` panics on an empty range). Which value comes out depends on the generator's
/// state, so only the range is stated.
#[verifier::external_body]
pub(crate) fn random_below(rng: &mut SmallRng, upper: usize) -> (value: usize)
    requires
        0 < upper,
    ensures
        value < upper,
{
    rng.random_range(0..upper)
}

/// `rng.random_range(0..=max)` of `rand`: a value drawn from `0..=max`. Only the range is
/// stated, as above.
#[verifier::external_body]
pub(crate) fn random_at_most(rng: &mut SmallRng, max: usize) -> (value: usize)
    ensures
        value <= max,
{
    rng.random_range(0..=max)
}

/// `rng.random_range(low..=high)` of `rand` on `i32`, for `low <= high` (`rand` panics on an
/// empty range). Only the range is stated, as above.
#[verifier::external_body]
pub(crate) fn random_between(rng: &mut SmallRng, low: i32, high: i32) -> (value: i32)
    requires
        low <= high,
    ensures
        low <= value <= high,
{
    rng.random_range(low..=high)
}

/// `SmallRng::seed_from_u64` of `rand`. The generator it builds is documented as deterministic
/// but not portable across platforms or versions of `rand`, so nothing is stated of it.
#[verifier::external_body]
pub(crate) fn seeded_rng(seed: u64) -> SmallRng {
    SmallRng::seed_from_u64(seed)
}

/// `SliceRandom::shuffle` of `rand` on the items of a vector: the items come back in some order
/// picked by the generator. That they are the same items, each as often as before, is what is
/// stated; the order is not.
#[verifier::external_body]
pub(crate) fn shuffle_items<T>(items: &mut Vec<T>, rng: &mut SmallRng)
    ensures
        final(items)@.to_multiset() == old(items)@.to_multiset(),
{
    items.shuffle(rng)
}

} // verus!
