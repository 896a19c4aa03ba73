//! Wall-clock helper used when reporting auction results.

use vstd::prelude::*;

verus! {

/// Milliseconds since the Unix epoch, or zero if the clock reads earlier
/// than the epoch.
///
/// Relies on `std::time::SystemTime::now` and
/// `SystemTime::duration_since(UNIX_EPOCH)`: the current wall-clock time.
/// Nothing can be promised of its value.
#[verifier::external_body]
pub fn get_time() -> u128 {
    std::time::SystemTime::now()
        .duration_since(std::time::SystemTime::UNIX_EPOCH)
        .map(|d| d.as_millis())
        .unwrap_or(0)
}

} // verus!
