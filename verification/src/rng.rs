//! The one source of randomness the spawner draws from.

use vstd::prelude::*;

verus! {

/// Relies on `rand::Rng::gen_range` over the `i64` range `lo..hi`: it returns
/// a uniformly sampled value of that half-open range, and panics only when
/// the range is empty, which `requires` excludes.
#[verifier::external_body]
pub(crate) fn random_in_range(lo: i64, hi: i64) -> (r: i64)
    requires
        lo < hi,
    ensures
        lo <= r < hi,
{
    rand::Rng::gen_range(&mut rand::thread_rng(), lo..hi)
}

} // verus!
