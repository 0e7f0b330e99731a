//! the random number generator that generation draws from, and the draws
//! the library makes of it.

use rand::seq::SliceRandom;
use rand::Rng;
use vstd::prelude::*;

verus! {

/// `rand::rngs::StdRng`, the seedable generator that generation takes.
#[verifier::external_type_specification]
#[verifier::external_body]
pub struct ExStdRng(rand::rngs::StdRng);

/// `rand::RngCore::next_u32`: the next 32 random bits. Any value may come
/// back; nothing is claimed about which.
#[verifier::external_body]
pub(crate) fn next_u32(rng: &mut rand::rngs::StdRng) -> (r: u32) {
    rand::RngCore::next_u32(rng)
}

/// `roll` is a value that drawing 32 bits from the generator behind `m`
/// (in its state `mut_ref_current(m)`, leaving it in `mut_ref_future(m)`)
/// may give.
pub closed spec fn draws_u32(m: &mut rand::rngs::StdRng, roll: u32) -> bool {
    call_ensures(next_u32, (m,), roll)
}

/// draws the next 32 bits from `rng`: the value drawing gives from the
/// generator's state before the call, leaving it in its state after.
pub(crate) fn draw_u32(rng: &mut rand::rngs::StdRng) -> (r: u32)
    ensures
        exists|m: &mut rand::rngs::StdRng|
            mut_ref_current(m) == *old(rng) && mut_ref_future(m) == *final(rng) && #[trigger] draws_u32(m, r),
{
    let draw = next_u32;
    let r = draw(rng);
    assert(exists|m: &mut rand::rngs::StdRng|
        mut_ref_current(m) == *old(rng) && mut_ref_future(m) == *rng && #[trigger] call_ensures(next_u32, (m,), r));
    proof {
        let m = choose|m: &mut rand::rngs::StdRng|
            mut_ref_current(m) == *old(rng) && mut_ref_future(m) == *rng && #[trigger] call_ensures(next_u32, (m,), r);
        assert(draws_u32(m, r));
    }
    r
}

/// `Rng::gen_range(lo..=hi)` on `i32`: a value in the inclusive range
/// (which must not be empty, or the call panics).
#[verifier::external_body]
pub(crate) fn roll_inclusive(rng: &mut rand::rngs::StdRng, lo: i32, hi: i32) -> (r: i32)
    requires
        lo <= hi,
    ensures
        lo <= r <= hi,
{
    rng.gen_range(lo..=hi)
}

/// `Rng::gen_range(0..n)` on `usize`: a value below `n` (which must be
/// positive, or the call panics).
#[verifier::external_body]
pub(crate) fn roll_below(rng: &mut rand::rngs::StdRng, n: usize) -> (r: usize)
    requires
        n > 0,
    ensures
        r < n,
{
    rng.gen_range(0..n)
}

/// `SliceRandom::choose`: `None` for an empty slice, otherwise a reference
/// to one of its elements.
#[verifier::external_body]
pub(crate) fn choose_in<'a, T>(pool: &'a [T], rng: &mut rand::rngs::StdRng) -> (r: Option<&'a T>)
    ensures
        r is None <==> pool@.len() == 0,
        r matches Some(x) ==> exists|i: int| 0 <= i < pool@.len() && pool@[i] == *x,
{
    pool.choose(rng)
}

} // verus!
