use vstd::prelude::*;

verus! {

/// Relies on rand::random_range: a uniform draw from the half-open range
/// `lo..hi`. The call panics only on an empty range, which the precondition
/// rules out; every value it returns lies in the range.
#[verifier::external_body]
pub(crate) fn random_in_range(lo: i32, hi: i32) -> (r: i32)
    requires
        lo < hi,
    ensures
        lo <= r < hi,
{
    rand::random_range(lo..hi)
}

/// Relies on rand::random::<bool>: a coin flip. Nothing is assumed of the
/// outcome; callers must be correct whichever way it lands.
#[verifier::external_body]
pub(crate) fn random_flip() -> (r: bool) {
    rand::random::<bool>()
}

} // verus!
