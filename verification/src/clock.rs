//! The host wall clock that timestamps frames.

use vstd::prelude::*;
use std::time::{Duration, SystemTime, UNIX_EPOCH};

verus! {

#[verifier::external_type_specification]
#[verifier::external_body]
pub struct ExSystemTime(SystemTime);

/// `SystemTime::now()`: the current wall-clock time. Nothing is known of it.
#[verifier::external_body]
fn system_time_now() -> SystemTime {
    SystemTime::now()
}

/// `SystemTime::duration_since(UNIX_EPOCH)`: `None` when the clock reads a
/// time before the epoch. Nothing is known of the duration.
#[verifier::external_body]
fn duration_since_epoch(t: SystemTime) -> Option<Duration> {
    t.duration_since(UNIX_EPOCH).ok()
}

/// `Duration::as_nanos`: the duration in whole nanoseconds.
#[verifier::external_body]
fn duration_as_nanos(d: &Duration) -> u128 {
    d.as_nanos()
}

/// The timestamp for a clock reading: its nanoseconds since the UNIX epoch
/// truncated to `u64`, or 0 when the clock reads before the epoch (`None`).
pub fn nanos_since_epoch(d: Option<u128>) -> (r: u64)
    ensures
        r == (match d {
            Some(n) => n as u64,
            None => 0u64,
        }),
{
    match d {
        Some(n) => n as u64,
        None => 0,
    }
}

/// Host wall-clock nanoseconds since the UNIX epoch (the v1 timestamp
/// basis), truncated to `u64`; 0 if the clock reads before the epoch. The
/// reading itself is not known; `nanos_since_epoch` states what is made of
/// it.
pub fn now_ns() -> u64 {
    let reading = match duration_since_epoch(system_time_now()) {
        Some(d) => Some(duration_as_nanos(&d)),
        None => None,
    };
    nanos_since_epoch(reading)
}

} // verus!
