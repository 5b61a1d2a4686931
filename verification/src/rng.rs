use vstd::prelude::*;

verus! {

/// Relies on rand 0.8's `Rng::gen_range` on the `u64` range `lo..hi`: it
/// panics on an empty range (kept out by `requires`) and otherwise returns a
/// uniformly distributed value that is at least `lo` and strictly below `hi`.
#[verifier::external_body]
pub(crate) fn rand_u64_range(lo: u64, hi: u64) -> (r: u64)
    requires
        lo < hi,
    ensures
        lo <= r < hi,
{
    rand::Rng::gen_range(&mut rand::thread_rng(), lo..hi)
}

} // verus!
