//! The clock behind a measurement, and the rule that turns what the clock and
//! the primitive gave back into a measurement.

use std::time::{Duration, Instant};
use vstd::prelude::*;
use crate::error::BenchError;

verus! {

/// `std::time::Instant`: a reading of the monotonic clock, carried as it is.
#[verifier::external_type_specification]
#[verifier::external_body]
pub struct ExInstant(Instant);

/// `Instant::now`: the current reading of the monotonic clock. Nothing is
/// claimed about the reading.
#[verifier::external_body]
pub(crate) fn instant_now() -> (now: Instant) {
    Instant::now()
}

/// `Instant::checked_duration_since`: the time that passed from `earlier` to
/// `later`, or `None` when `earlier` is the later of the two. Nothing is
/// claimed about which of the two comes back, nor about the duration.
#[verifier::external_body]
pub(crate) fn instant_checked_duration_since(later: &Instant, earlier: &Instant) -> (elapsed: Option<Duration>) {
    later.checked_duration_since(*earlier)
}

/// `Duration::as_millis`: the whole milliseconds in a duration, fractions
/// dropped. Nothing is claimed about the number.
#[verifier::external_body]
pub(crate) fn duration_as_millis(duration: &Duration) -> (millis: u128) {
    duration.as_millis()
}

/// The whole milliseconds that have passed since `start`, or `None` if the
/// clock now reads earlier than it did then.
pub(crate) fn millis_since(start: &Instant) -> (elapsed: Option<u128>) {
    let now = instant_now();
    match instant_checked_duration_since(&now, start) {
        Some(duration) => Some(duration_as_millis(&duration)),
        None => None,
    }
}

/// Turns the outcome of one timed invocation into a measurement.
///
/// `succeeded` says whether the primitive returned without error, and
/// `elapsed_ms` is what the clock measured around it: `None` if the clock ran
/// backwards. A failed invocation is never reported as a duration, and an
/// elapsed time that is missing or does not fit in 64 bits is a clock failure.
pub fn measurement_from(succeeded: bool, elapsed_ms: Option<u128>) -> (r: Result<u64, BenchError>)
    ensures
        r matches Ok(ms) ==> 0 <= ms && succeeded && elapsed_ms == Some(ms as u128),
        !succeeded ==> r == Err::<u64, BenchError>(BenchError::PrimitiveFailure),
        succeeded && elapsed_ms is None ==> r == Err::<u64, BenchError>(BenchError::ClockFailure),
        succeeded && elapsed_ms is Some && elapsed_ms->0 > u64::MAX ==> r == Err::<u64, BenchError>(
            BenchError::ClockFailure,
        ),
        succeeded && elapsed_ms is Some && elapsed_ms->0 <= u64::MAX ==> r == Ok::<u64, BenchError>(
            elapsed_ms->0 as u64,
        ),
{
    if !succeeded {
        return Err(BenchError::PrimitiveFailure);
    }
    match elapsed_ms {
        None => Err(BenchError::ClockFailure),
        Some(ms) => {
            if ms > u64::MAX as u128 {
                Err(BenchError::ClockFailure)
            } else {
                Ok(ms as u64)
            }
        },
    }
}

} // verus!
