//! The monotonic clock, as an opaque value.

use vstd::prelude::*;

verus! {

/// A reading of the standard library's monotonic clock. Nothing is known of
/// what it holds; it is only carried.
#[verifier::external_type_specification]
#[verifier::external_body]
pub struct ExInstant(std::time::Instant);

/// Reads the clock.
///
/// This is `std::time::Instant::now`, taken on trust. The reading depends
/// on when the call is made, so nothing is promised of it.
#[verifier::external_body]
pub(crate) fn now() -> (t: std::time::Instant) {
    std::time::Instant::now()
}

} // verus!
