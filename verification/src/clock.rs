//! Readings of the machine's clocks. Nothing is known of what a reading returns beyond
//! the range of its type; the functions that use the readings are verified for every value.
use vstd::prelude::*;

use std::time::{Duration, Instant, SystemTime};

verus! {

/// The largest number of nanoseconds a `Duration` can hold.
pub const MAX_DURATION_NANOS: u128 = 18_446_744_073_709_551_615_999_999_999;

#[verifier::external_type_specification]
#[verifier::external_body]
pub struct ExInstant(Instant);

#[verifier::external_type_specification]
#[verifier::external_body]
pub struct ExSystemTime(SystemTime);

/// Calls `Instant::now`: a reading of the monotonic clock. Nothing is claimed of it.
#[verifier::external_body]
pub(crate) fn instant_now() -> Instant {
    Instant::now()
}

/// Calls `Instant::elapsed`: the time since `start` on the monotonic clock. Nothing is
/// claimed of it.
#[verifier::external_body]
pub(crate) fn instant_elapsed(start: &Instant) -> Duration {
    start.elapsed()
}

/// Calls `Duration::as_nanos`: the duration in whole nanoseconds, which for any
/// `Duration` is at most `MAX_DURATION_NANOS`.
#[verifier::external_body]
pub(crate) fn duration_nanos(d: &Duration) -> (r: u128)
    ensures
        r <= MAX_DURATION_NANOS,
{
    d.as_nanos()
}

/// Calls `SystemTime::now`: a reading of the system clock. Nothing is claimed of it.
#[verifier::external_body]
pub(crate) fn system_now() -> SystemTime {
    SystemTime::now()
}

/// Calls `SystemTime::duration_since`: the time from `earlier` to `now`, or `None` where
/// `now` is before `earlier`. Nothing is claimed of the duration.
#[verifier::external_body]
pub(crate) fn system_duration_since(now: &SystemTime, earlier: &SystemTime) -> Option<Duration> {
    match now.duration_since(*earlier) {
        Ok(d) => Some(d),
        Err(_) => None,
    }
}

/// Calls `Duration::as_millis`: the duration in whole milliseconds, which for any
/// `Duration` is at most `MAX_DURATION_NANOS / 1_000_000`.
#[verifier::external_body]
pub(crate) fn duration_millis(d: &Duration) -> (r: u128)
    ensures
        r <= MAX_DURATION_NANOS / 1_000_000,
{
    d.as_millis()
}

} // verus!
