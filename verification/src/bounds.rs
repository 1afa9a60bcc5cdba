//! Random integration bounds, as the driver draws them.

use vstd::prelude::*;

verus! {

/// Relies on `rand::Rng::gen_range` over an inclusive integer range: it
/// panics only on an empty range (excluded by the precondition) and returns
/// a uniformly sampled value within the bounds.
#[verifier::external_body]
fn pick_in_range(lo: u64, hi: u64) -> (r: u64)
    requires
        lo <= hi,
    ensures
        lo <= r <= hi,
{
    rand::Rng::gen_range(&mut rand::thread_rng(), lo..=hi)
}

/// Draws the two integration bounds: an upper bound in `15..=30` and a lower
/// bound in `1..=5`. Whatever the generator returns, the result lies within
/// those ranges, so the interval is never reversed.
pub fn random_bounds() -> (r: (u64, u64))
    ensures
        15 <= r.0 <= 30,
        1 <= r.1 <= 5,
        r.1 < r.0,
{
    let upper = pick_in_range(15, 30);
    let lower = pick_in_range(1, 5);
    (upper, lower)
}

} // verus!
