//! The wall clock, in milliseconds since the Unix epoch.

use vstd::prelude::*;
use std::time::{Duration, SystemTime, SystemTimeError};

verus! {

#[verifier::external_type_specification]
#[verifier::external_body]
pub struct ExSystemTime(SystemTime);

#[verifier::external_type_specification]
#[verifier::external_body]
pub struct ExSystemTimeError(SystemTimeError);

/// `SystemTime::now`: the current time. Nothing is stated of it.
#[verifier::external_body]
fn system_now() -> (r: SystemTime) {
    SystemTime::now()
}

/// `SystemTime::duration_since` the Unix epoch: an error when the time is
/// before the epoch. Nothing is stated of the value.
#[verifier::external_body]
fn since_unix_epoch(t: &SystemTime) -> (r: Result<Duration, SystemTimeError>) {
    t.duration_since(std::time::UNIX_EPOCH)
}

/// `Duration::as_millis`: the whole milliseconds of a duration. Nothing is
/// stated of the value: a `Duration` is opaque here.
#[verifier::external_body]
fn duration_millis(d: &Duration) -> (r: u128) {
    d.as_millis()
}

/// The milliseconds since the Unix epoch, or 0 when the clock reads a time
/// before it. The value depends on the clock, so nothing more is stated.
pub fn now_ms() -> (r: u128) {
    let now = system_now();
    match since_unix_epoch(&now) {
        Ok(d) => duration_millis(&d),
        Err(_) => 0,
    }
}

} // verus!
