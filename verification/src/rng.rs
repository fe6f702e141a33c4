//! Randomness, behind two trusted wrappers around the `rand` crate. The
//! contracts state only what holds of every outcome, so all logic built on
//! them is verified for every value the generator can return.

use vstd::prelude::*;

verus! {

/// Relies on rand's `thread_rng` and `Rng::gen_range` on an inclusive
/// range: it panics only on an empty range and returns a value within the
/// range.
#[verifier::external_body]
pub(crate) fn rand_in_range(lo: i64, hi: i64) -> (r: i64)
    requires
        lo <= hi,
    ensures
        lo <= r <= hi,
{
    rand::Rng::gen_range(&mut rand::thread_rng(), lo..=hi)
}

/// Relies on rand's `thread_rng` and `Rng::gen_ratio`: true with
/// probability `num` in `den`; it panics only when `den` is zero or the
/// ratio is above one, is always true when `num == den`, and never true
/// when `num == 0`.
#[verifier::external_body]
pub(crate) fn rand_ratio(num: u32, den: u32) -> (r: bool)
    requires
        1 <= den,
        num <= den,
    ensures
        num == 0 ==> !r,
        num == den ==> r,
{
    rand::Rng::gen_ratio(&mut rand::thread_rng(), num, den)
}

} // verus!
