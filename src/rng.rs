//! The seedable random source behind level generation.
use vstd::prelude::*;
use rand::Rng;
use rand::SeedableRng;
use rand_xoshiro::Xoroshiro128PlusPlus;

verus! {

#[verifier::external_type_specification]
#[verifier::external_body]
pub struct ExXoroshiro128PlusPlus(Xoroshiro128PlusPlus);

/// Relies on the derived `Clone` of `Xoroshiro128PlusPlus`: a copy of both
/// state words, so the copy draws the same stream.
pub assume_specification[ <Xoroshiro128PlusPlus as Clone>::clone ](r: &Xoroshiro128PlusPlus) -> (c: Xoroshiro128PlusPlus)
    ensures
        c == *r,
;

/// Relies on `rand::Rng::gen_range` over `lo..=hi`: a value of the range,
/// drawn from the generator, which panics only on an empty range.
#[verifier::external_body]
pub(crate) fn draw_inclusive(r: &mut Xoroshiro128PlusPlus, lo: usize, hi: usize) -> (x: usize)
    requires
        lo <= hi,
    ensures
        lo <= x <= hi,
{
    r.gen_range(lo..=hi)
}

/// Relies on `rand_core::SeedableRng::seed_from_u64`: a generator whose
/// stream is fixed by the seed.
#[verifier::external_body]
pub(crate) fn seeded_rng(seed: u64) -> (r: Xoroshiro128PlusPlus) {
    Xoroshiro128PlusPlus::seed_from_u64(seed)
}

} // verus!
