//! The wall clock, read in whole seconds since the Unix epoch.

use std::time::{Duration, SystemTime, SystemTimeError};
use vstd::prelude::*;

verus! {

/// `std::time::SystemTime`, an instant of the system clock.  Nothing is
/// known of what it holds.
#[verifier::external_type_specification]
#[verifier::external_body]
pub struct ExSystemTime(SystemTime);

/// `std::time::SystemTimeError`, the failure to measure a span between two
/// instants.  Nothing is known of what it holds.
#[verifier::external_type_specification]
#[verifier::external_body]
pub struct ExSystemTimeError(SystemTimeError);

/// `SystemTime::now` reads the system clock.  Nothing is promised of the
/// instant it returns.
#[verifier::external_body]
fn system_now() -> (instant: SystemTime) {
    SystemTime::now()
}

/// `SystemTime::duration_since` measures how far `instant` lies behind the
/// Unix epoch, and fails for an instant before it.  Nothing is promised of
/// the outcome.
#[verifier::external_body]
fn since_epoch(instant: &SystemTime) -> (elapsed: Result<Duration, SystemTimeError>) {
    instant.duration_since(SystemTime::UNIX_EPOCH)
}

/// `Duration::as_secs` gives the whole seconds of a duration.  Nothing is
/// promised of the number.
#[verifier::external_body]
fn whole_seconds(elapsed: &Duration) -> (seconds: u64) {
    elapsed.as_secs()
}

/// The current time in whole seconds since the Unix epoch, or zero where the
/// system clock stands before the epoch.  The number is what the clock shows
/// at the call, so nothing holds of it that could be stated beforehand; how a
/// reading becomes the number is stated by `seconds_or_zero`.
pub fn unix_now() -> u64 {
    let instant = system_now();
    let elapsed: Option<u64> = match since_epoch(&instant) {
        Ok(elapsed) => Some(whole_seconds(&elapsed)),
        Err(_) => None,
    };
    seconds_or_zero(elapsed)
}

/// The time that a reading of the clock stands for: the seconds that have
/// passed since the epoch, or zero where the reading lies before the epoch
/// and no span could be measured.
pub fn seconds_or_zero(elapsed: Option<u64>) -> (seconds: u64)
    ensures
        seconds == match elapsed {
            Some(passed) => passed,
            None => 0,
        },
{
    match elapsed {
        Some(passed) => passed,
        None => 0,
    }
}

} // verus!
