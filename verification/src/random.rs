//! The seeded random stream. The generator state is a PCG-64 value seeded
//! from a string; every draw is, to the specification, a function of the
//! state and the bounds alone, which is what makes generation reproducible.

use vstd::prelude::*;

verus! {

#[verifier::external_type_specification]
#[verifier::external_body]
pub struct ExLcg128Xsl64(rand_pcg::Lcg128Xsl64);

/// The generator state that seeding with the given characters produces.
pub uninterp spec fn seeded_rng(seed: Seq<char>) -> rand_pcg::Lcg128Xsl64;

/// The value drawn from the given state for the half-open range `[lo, hi)`.
pub uninterp spec fn range_draw(rng: rand_pcg::Lcg128Xsl64, lo: int, hi: int) -> int;

/// The drawn value as the specification uses it: the draw, which the
/// wrapper guarantees to lie in `[lo, hi)`, folded into that range so that
/// specification-level reasoning has the bound by definition.
pub open spec fn spec_draw(rng: rand_pcg::Lcg128Xsl64, lo: int, hi: int) -> int {
    let d = range_draw(rng, lo, hi);
    if lo <= d < hi {
        d
    } else {
        lo
    }
}

/// The state left behind by drawing from the given state for `[lo, hi)`.
pub uninterp spec fn range_next(rng: rand_pcg::Lcg128Xsl64, lo: int, hi: int) -> rand_pcg::Lcg128Xsl64;

/// Relies on `rand_seeder::Seeder::from` and `SeedableRng::from_seed`:
/// the seeder hashes the string with fixed-key SipHash and fills the PCG-64
/// seed from it, so the state depends on the string's characters alone, on
/// every run and platform.
#[verifier::external_body]
pub fn rng_from_seed(seed: &str) -> (r: rand_pcg::Lcg128Xsl64)
    ensures
        r == seeded_rng(seed@),
{
    rand_seeder::Seeder::from(seed).make_rng()
}

/// Relies on `rand::Rng::gen_range` over `u64` with PCG-64: the result is
/// uniform in `[lo, hi)` and, with this pure-arithmetic generator, a
/// function of the state and the bounds alone; the state advances as a
/// function of the same. The draw is made at a fixed 64-bit width so that
/// it does not depend on the machine's pointer width. It panics on an
/// empty range, which the precondition rules out.
#[verifier::external_body]
pub fn gen_range_usize(rng: &mut rand_pcg::Lcg128Xsl64, lo: usize, hi: usize) -> (r: usize)
    requires
        lo < hi,
    ensures
        lo <= r < hi,
        r as int == range_draw(*old(rng), lo as int, hi as int),
        r as int == spec_draw(*old(rng), lo as int, hi as int),
        *final(rng) == range_next(*old(rng), lo as int, hi as int),
{
    rand::Rng::gen_range(rng, lo as u64..hi as u64) as usize
}

} // verus!
