//! The time of day.

use vstd::prelude::*;

verus! {

/// `SystemTime::now`, in nanoseconds since `UNIX_EPOCH`. Nothing is known of the clock.
#[verifier::external_body]
pub(crate) fn unix_nanos() -> (now: u64) {
    let epoch = std::time::SystemTime::UNIX_EPOCH;
    let elapsed = std::time::SystemTime::now().duration_since(epoch);
    elapsed.map(|d| d.as_nanos() as u64).unwrap_or(0)
}

} // verus!
