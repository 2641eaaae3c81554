//! Draws from the thread-local random generator.
use vstd::prelude::*;

verus! {

/// Relies on `rand::Rng::gen_range` on a half-open range of `i64`, drawn from
/// `rand::thread_rng`: a value `r` with `lo <= r < hi`; it panics on an empty
/// range.
#[verifier::external_body]
pub(crate) fn random_in(lo: i64, hi: i64) -> (r: i64)
    requires
        lo < hi,
    ensures
        lo <= r < hi,
{
    rand::Rng::gen_range(&mut rand::thread_rng(), lo..hi)
}

/// Relies on `rand::Rng::gen_ratio`, drawn from `rand::thread_rng`: `true`
/// with probability `num / den`, never when `num` is 0, always when `num`
/// equals `den`; it panics unless `0 < den` and `num <= den`.
#[verifier::external_body]
pub(crate) fn random_ratio(num: u32, den: u32) -> (r: bool)
    requires
        0 < den,
        num <= den,
    ensures
        num == 0 ==> !r,
        num == den ==> r,
{
    rand::Rng::gen_ratio(&mut rand::thread_rng(), num, den)
}

} // verus!
