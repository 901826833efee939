//! Sources of randomness, each a thin layer over the `rand` crate.
//!
//! Every draw is an independent sample; nothing can be promised about a
//! single outcome beyond its range, so the contracts state exactly that.

use vstd::prelude::*;
use rand::Rng;

verus! {

/// Relies on `rand::Rng::gen_range` over `0..n`: a uniform draw below `n`;
/// the call panics only on an empty range, which `n > 0` rules out.
#[verifier::external_body]
pub(crate) fn rand_below(n: usize) -> (r: usize)
    requires
        n > 0,
    ensures
        r < n,
{
    rand::thread_rng().gen_range(0..n)
}

/// Relies on `rand::Rng::gen_ratio`: `true` with probability `num / denom`;
/// guaranteed `false` when `num == 0` and `true` when `num == denom`; the
/// call panics if `denom == 0` or `num > denom`.
#[verifier::external_body]
pub(crate) fn rand_ratio(num: u32, denom: u32) -> (r: bool)
    requires
        0 < denom,
        num <= denom,
    ensures
        num == 0 ==> !r,
        num == denom ==> r,
{
    rand::thread_rng().gen_ratio(num, denom)
}

/// Relies on `rand::random::<bool>`: a fair coin; nothing holds of a single
/// outcome.
#[verifier::external_body]
pub(crate) fn rand_bit() -> bool {
    rand::random()
}

} // verus!
