use vstd::prelude::*;

use rand::Rng;

verus! {

/// Relies on rand::Rng::random_range over a half-open integer range: the
/// sampled value always lies inside the range, and the call panics only
/// when the range is empty, which the precondition rules out. Nothing more
/// is assumed of the value: it depends on process-wide entropy.
#[verifier::external_body]
pub(crate) fn random_in_range(lo: i32, hi: i32) -> (r: i32)
    requires
        lo < hi,
    ensures
        lo <= r < hi,
{
    rand::rng().random_range(lo..hi)
}

} // verus!
