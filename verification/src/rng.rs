use rand::RngExt;
use rand::SeedableRng;
use rand_pcg::Pcg64;

use vstd::prelude::*;

verus! {

/// The PCG generator of `rand_pcg` (`Pcg64` is an alias of this type).
#[verifier::external_type_specification]
#[verifier::external_body]
pub struct ExLcg128Xsl64(rand_pcg::Lcg128Xsl64);

/// The generator that `rand_core::SeedableRng::seed_from_u64` makes from `state`.
pub uninterp spec fn seeded_pcg64(state: u64) -> Pcg64;

/// What `rand::RngExt::random_ratio(numerator, denominator)` returns on a generator,
/// and the generator afterwards.
pub uninterp spec fn ratio_draw(rng: Pcg64, numerator: u32, denominator: u32) -> (bool, Pcg64);

/// What `rand::RngExt::random_range(low..high)` returns on a generator for `usize`
/// bounds, and the generator afterwards.
pub uninterp spec fn range_draw_usize(rng: Pcg64, low: usize, high: usize) -> (usize, Pcg64);

/// What `rand::RngExt::random_range(low..high)` returns on a generator for `i32`
/// bounds, and the generator afterwards.
pub uninterp spec fn range_draw_i32(rng: Pcg64, low: i32, high: i32) -> (i32, Pcg64);

/// What `rand::RngExt::random_range(low..=high)` returns on a generator for `i32`
/// bounds, and the generator afterwards.
pub uninterp spec fn range_draw_inclusive_i32(rng: Pcg64, low: i32, high: i32) -> (i32, Pcg64);

/// Calls `rand_core::SeedableRng::seed_from_u64` for `rand_pcg::Pcg64`, which expands
/// `state` into the generator's seed by a fixed computation: the generator is a
/// function of `state` alone, and that is all that is claimed.
#[verifier::external_body]
pub(crate) fn pcg64_seed_from_u64(state: u64) -> (r: Pcg64)
    ensures
        r == seeded_pcg64(state),
{
    Pcg64::seed_from_u64(state)
}

/// Calls `rand::RngExt::random_ratio`, which returns `true` with probability
/// `numerator / denominator`. The call panics unless `denominator > 0` and
/// `numerator <= denominator`; its documentation promises `false` for a zero
/// numerator and `true` when the numerator equals the denominator. The result and the
/// generator's next state are claimed to be a function of the generator's state and
/// the arguments (the source draws one `u64` from the generator unless the ratio is
/// one); which values they are is not claimed.
#[verifier::external_body]
pub(crate) fn random_ratio(rng: &mut Pcg64, numerator: u32, denominator: u32) -> (b: bool)
    requires
        0 < denominator,
        numerator <= denominator,
    ensures
        numerator == 0 ==> !b,
        numerator == denominator ==> b,
        (b, *final(rng)) == ratio_draw(*old(rng), numerator, denominator),
{
    rng.random_ratio(numerator, denominator)
}

/// Calls `rand::RngExt::random_range` on the half-open `usize` range `low..high`,
/// which panics when the range is empty; the sample lies in the range. The sample and
/// the generator's next state are claimed to be a function of the generator's state
/// and the bounds; which values they are is not claimed.
#[verifier::external_body]
pub(crate) fn random_range_usize(rng: &mut Pcg64, low: usize, high: usize) -> (r: usize)
    requires
        low < high,
    ensures
        low <= r < high,
        (r, *final(rng)) == range_draw_usize(*old(rng), low, high),
{
    rng.random_range(low..high)
}

/// Calls `rand::RngExt::random_range` on the half-open `i32` range `low..high`,
/// which panics when the range is empty; the sample lies in the range. The sample and
/// the generator's next state are claimed to be a function of the generator's state
/// and the bounds; which values they are is not claimed.
#[verifier::external_body]
pub(crate) fn random_range_i32(rng: &mut Pcg64, low: i32, high: i32) -> (r: i32)
    requires
        low < high,
    ensures
        low <= r < high,
        (r, *final(rng)) == range_draw_i32(*old(rng), low, high),
{
    rng.random_range(low..high)
}

/// Calls `rand::RngExt::random_range` on the closed `i32` range `low..=high`, which
/// panics when the range is empty; the sample lies in the range. The sample and the
/// generator's next state are claimed to be a function of the generator's state and
/// the bounds; which values they are is not claimed.
#[verifier::external_body]
pub(crate) fn random_range_inclusive_i32(rng: &mut Pcg64, low: i32, high: i32) -> (r: i32)
    requires
        low <= high,
    ensures
        low <= r <= high,
        (r, *final(rng)) == range_draw_inclusive_i32(*old(rng), low, high),
{
    rng.random_range(low..=high)
}

} // verus!
