//! Clocks: the monotonic clock for rates and uptime, the wall clock for
//! Unix timestamps.  Nothing is promised of what they read.

use vstd::prelude::*;
use core::time::Duration;
use std::time::{Instant, SystemTimeError};

verus! {

#[verifier::external_type_specification]
#[verifier::external_body]
pub struct ExInstant(Instant);

#[verifier::external_type_specification]
#[verifier::external_body]
pub struct ExSystemTimeError(SystemTimeError);

/// `Instant::now`: the current time of the monotonic clock.
#[verifier::external_body]
pub(crate) fn instant_now() -> (r: Instant) {
    Instant::now()
}

/// `Instant::elapsed`: the time since `start`.
#[verifier::external_body]
pub(crate) fn elapsed_since(start: &Instant) -> (r: Duration) {
    start.elapsed()
}

/// What `Duration::as_nanos` gives for a duration: its length in whole
/// nanoseconds, which depends on the duration alone.
pub uninterp spec fn duration_as_nanos(d: Duration) -> u128;

/// `Duration::as_nanos`: a duration in nanoseconds.
#[verifier::external_body]
pub(crate) fn duration_nanos(d: &Duration) -> (r: u128)
    ensures
        r == duration_as_nanos(*d),
{
    d.as_nanos()
}

/// `Duration::as_secs`: a duration in whole seconds.
#[verifier::external_body]
pub(crate) fn duration_secs(d: &Duration) -> (r: u64) {
    d.as_secs()
}

/// `SystemTime::UNIX_EPOCH.elapsed`: the time since the Unix epoch, or an
/// error when the wall clock is before it.
#[verifier::external_body]
pub(crate) fn since_unix_epoch() -> (r: Result<Duration, SystemTimeError>) {
    std::time::SystemTime::UNIX_EPOCH.elapsed()
}

/// Whole seconds since the Unix epoch; zero when the clock is before it.
pub fn unix_now_secs() -> (r: u64) {
    match since_unix_epoch() {
        Ok(d) => duration_secs(&d),
        Err(_) => 0,
    }
}

} // verus!
