//! Measuring how long a computation takes.

use vstd::prelude::*;

use crate::artifacts::{short_time, shorten};

verus! {

/// A moment, on a clock that never runs backwards.
#[verifier::external_type_specification]
#[verifier::external_body]
pub struct ExInstant(std::time::Instant);

/// `std::time::Instant::now`: the present moment. Nothing is claimed of it.
#[verifier::external_body]
pub(crate) fn moment() -> (now: std::time::Instant) {
    std::time::Instant::now()
}

/// `std::time::Instant::elapsed`: the time since a moment. Nothing is claimed
/// of it.
#[verifier::external_body]
fn elapsed(start: &std::time::Instant) -> (span: std::time::Duration) {
    start.elapsed()
}

/// `std::time::Duration::as_millis`: a span in whole milliseconds. Nothing is
/// claimed of it.
#[verifier::external_body]
fn whole_millis(span: &std::time::Duration) -> (ms: u128) {
    span.as_millis()
}

/// The whole milliseconds since a moment.
pub(crate) fn elapsed_millis(start: &std::time::Instant) -> (ms: u128) {
    whole_millis(&elapsed(start))
}

/// A time on the clock of the machine.
#[verifier::external_type_specification]
#[verifier::external_body]
pub struct ExSystemTime(std::time::SystemTime);

/// The error for a time that is before another.
#[verifier::external_type_specification]
#[verifier::external_body]
pub struct ExSystemTimeError(std::time::SystemTimeError);

/// `std::time::SystemTime::now`: the present time. Nothing is claimed of it.
#[verifier::external_body]
fn system_now() -> (now: std::time::SystemTime) {
    std::time::SystemTime::now()
}

/// `std::time::SystemTime::duration_since` with the start of the Unix epoch:
/// the time that has passed since. Nothing is claimed of it.
#[verifier::external_body]
fn since_epoch(now: &std::time::SystemTime) -> (r: Result<
    std::time::Duration,
    std::time::SystemTimeError,
>) {
    now.duration_since(std::time::UNIX_EPOCH)
}

/// A span in milliseconds as a time stamp. A clock before the start of the
/// epoch gives zero.
pub fn stamp(span_ms: Option<u128>) -> (ms: u64)
    ensures
        ms == match span_ms {
            Some(x) => short_time(x),
            None => 0,
        },
{
    match span_ms {
        Some(x) => shorten(x),
        None => 0,
    }
}

/// The milliseconds since the start of the Unix epoch, or zero where the clock
/// is before it.
pub fn now_ms() -> (ms: u64) {
    let span: Option<u128> = match since_epoch(&system_now()) {
        Ok(d) => Some(whole_millis(&d)),
        Err(_) => None,
    };
    stamp(span)
}

} // verus!
