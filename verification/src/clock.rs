//! Trusted access to the process clock, used by timer-based cancellation.

use vstd::prelude::*;

verus! {

/// Opaque monotonic time point of the standard library.
#[verifier::external_type_specification]
#[verifier::external_body]
pub struct ExInstant(std::time::Instant);

/// Relies on `std::time::Instant::now`: reads the current time.  The value
/// depends on the clock, so nothing is promised of it.
#[verifier::external_body]
pub(crate) fn instant_now() -> std::time::Instant {
    std::time::Instant::now()
}

/// Relies on `std::time::Instant::elapsed`: the time that passed since
/// `since`.  The value depends on the clock, so nothing is promised of it.
#[verifier::external_body]
pub(crate) fn instant_elapsed(since: &std::time::Instant) -> std::time::Duration {
    since.elapsed()
}

/// Relies on `std::time::Duration::as_millis`: the span in whole
/// milliseconds.  The span is opaque here, so nothing is promised.
#[verifier::external_body]
pub(crate) fn duration_as_millis(d: &std::time::Duration) -> u128 {
    d.as_millis()
}

/// Copies a time point; `std::time::Instant` is a plain `Copy` value.
#[verifier::external_body]
pub(crate) fn instant_copy(i: &std::time::Instant) -> (r: std::time::Instant)
    ensures
        r == *i,
{
    *i
}

} // verus!
