//! The wall clock, in whole seconds since the Unix epoch.

use vstd::prelude::*;

verus! {

/// Reads the system clock through `chrono::Utc::now` and converts the
/// instant with `DateTime::timestamp` to seconds since the Unix epoch.
///
/// Nothing is claimed about the value: it is whatever the clock says, and two
/// calls may disagree in either direction. `Utc::now` panics when the system
/// clock stands before 1970 or beyond the years that `chrono` can represent.
#[verifier::external_body]
fn utc_timestamp() -> (t: i64) {
    chrono::Utc::now().timestamp()
}

/// A timestamp as the service counts time: instants before the epoch count
/// as the epoch itself.
pub open spec fn seconds_of(timestamp: i64) -> u64 {
    if timestamp < 0 {
        0
    } else {
        timestamp as u64
    }
}

/// Computes [`seconds_of`].
pub fn seconds_since_epoch(timestamp: i64) -> (r: u64)
    ensures
        r == seconds_of(timestamp),
{
    if timestamp < 0 {
        0
    } else {
        timestamp as u64
    }
}

/// The current time in seconds since the Unix epoch. Whatever the clock
/// says, the result is a valid signed timestamp.
pub fn now() -> (r: u64)
    ensures
        r <= i64::MAX,
{
    seconds_since_epoch(utc_timestamp())
}

} // verus!
