//! The wall clock.

use std::time::{Duration, SystemTime, SystemTimeError};
use vstd::prelude::*;

verus! {

#[verifier::external_type_specification]
#[verifier::external_body]
pub struct ExSystemTime(std::time::SystemTime);

#[verifier::external_type_specification]
#[verifier::external_body]
pub struct ExSystemTimeError(std::time::SystemTimeError);

/// Calls `SystemTime::now`. Nothing is stated of the reading: it is the time.
#[verifier::external_body]
fn clock_now() -> SystemTime {
    SystemTime::now()
}

/// Calls `SystemTime::duration_since` with the Unix epoch. Nothing is stated
/// of the result: it depends on the reading, which fails where it lies
/// before the epoch.
#[verifier::external_body]
fn since_epoch(t: &SystemTime) -> Result<Duration, SystemTimeError> {
    t.duration_since(std::time::UNIX_EPOCH)
}

/// Calls `Duration::as_secs`: the whole seconds of `d`. A `Duration` is
/// opaque here, so nothing is stated of the number.
#[verifier::external_body]
fn duration_secs(d: &Duration) -> u64 {
    d.as_secs()
}

/// Calls `Duration::as_millis`: the whole milliseconds of `d`. A `Duration`
/// is opaque here, so nothing is stated of the number.
#[verifier::external_body]
fn duration_millis(d: &Duration) -> u128 {
    d.as_millis()
}

/// Seconds since the Unix epoch, 0 when the clock reads earlier than the
/// epoch.
pub fn unix_time_secs() -> u64 {
    let now = clock_now();
    match since_epoch(&now) {
        Ok(d) => duration_secs(&d),
        Err(_) => 0,
    }
}

/// Milliseconds since the Unix epoch, truncated to 64 bits; 0 when the
/// clock reads earlier than the epoch.
pub fn unix_time_millis() -> u64 {
    let now = clock_now();
    match since_epoch(&now) {
        Ok(d) => duration_millis(&d) as u64,
        Err(_) => 0,
    }
}

} // verus!
