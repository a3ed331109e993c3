//! The wall clock, in milliseconds.

use std::time::{Duration, SystemTime, SystemTimeError};
use vstd::prelude::*;

verus! {

/// A point in time of the system clock, `std::time::SystemTime`.
#[verifier::external_type_specification]
#[verifier::external_body]
pub struct ExSystemTime(SystemTime);

/// The error of `SystemTime::duration_since`: the other time lies later.
#[verifier::external_type_specification]
#[verifier::external_body]
pub struct ExSystemTimeError(SystemTimeError);

/// `std::time::SystemTime::now` reads the system clock. What it reads
/// depends on the machine, so nothing is claimed about it.
pub assume_specification[ SystemTime::now ]() -> SystemTime;

/// `std::time::Duration::as_millis` gives the whole milliseconds of a
/// duration. Nothing is claimed about the number.
pub assume_specification[ Duration::as_millis ](d: &Duration) -> u128;

/// The time that passed between the Unix epoch and `time`, or the error of a
/// time before the epoch.
///
/// Calls `std::time::SystemTime::duration_since` with `UNIX_EPOCH`. Nothing
/// is claimed about the result.
#[verifier::external_body]
fn since_epoch(time: &SystemTime) -> Result<Duration, SystemTimeError> {
    time.duration_since(std::time::UNIX_EPOCH)
}

/// Milliseconds since the Unix epoch, read from the system clock. A clock
/// set before the epoch reads as 0. The value depends on the machine's
/// clock, so nothing is stated of it.
pub fn now_ms() -> u128 {
    let now = SystemTime::now();
    match since_epoch(&now) {
        Ok(elapsed) => elapsed.as_millis(),
        Err(_) => 0,
    }
}

} // verus!
