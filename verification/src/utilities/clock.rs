use std::time::Duration;
use std::time::Instant;
use vstd::prelude::*;

verus! {

#[verifier::external_type_specification]
#[verifier::external_body]
pub struct ExInstant(Instant);

/// Calls `Instant::now`: the current moment, of which nothing is stated.
#[verifier::external_body]
pub(crate) fn instant_now() -> Instant {
    Instant::now()
}

/// Calls `Instant::elapsed`: the time since `start`, which depends on the clock, so nothing
/// is stated of it.
#[verifier::external_body]
pub(crate) fn elapsed_since(start: &Instant) -> Duration {
    start.elapsed()
}

/// Calls `Duration::as_nanos`. The value is not stated: `Duration` is opaque here.
#[verifier::external_body]
pub(crate) fn duration_as_nanos(duration: &Duration) -> u128 {
    duration.as_nanos()
}

/// Calls `Duration::as_millis`. The value is not stated: `Duration` is opaque here.
#[verifier::external_body]
pub(crate) fn duration_as_millis(duration: &Duration) -> u128 {
    duration.as_millis()
}

} // verus!
