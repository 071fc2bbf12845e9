//! The `chrono` crate: the current time.

use vstd::prelude::*;

verus! {

/// The time of `std::time::SystemTime::now`, made a `chrono::DateTime<Utc>`
/// by chrono's conversion from `SystemTime` and read as whole seconds since
/// the Unix epoch by `timestamp`. The conversion takes a clock that stands
/// before 1970 as well, for which the seconds are negative; it covers every
/// time within chrono's range of years, some 262,000 to either side. Two
/// calls may differ, so nothing is claimed of the result.
#[verifier::external_body]
pub(crate) fn unix_seconds_now() -> (seconds: i64) {
    chrono::DateTime::<chrono::Utc>::from(std::time::SystemTime::now()).timestamp()
}

} // verus!
