//! Monotonic time, as whole milliseconds since a starting instant.

use vstd::prelude::*;
use std::time::{Duration, Instant};

verus! {

#[verifier::external_type_specification]
#[verifier::external_body]
pub struct ExInstant(Instant);

/// The current instant.
///
/// Trusted: calls `Instant::now`; nothing is promised of the result.
#[verifier::external_body]
pub(crate) fn instant_now() -> Instant {
    Instant::now()
}

/// The time elapsed since `base`.
///
/// Trusted: calls `Instant::elapsed`; the result depends on the clock, so
/// nothing is promised of it.
#[verifier::external_body]
pub(crate) fn instant_elapsed(base: &Instant) -> Duration {
    base.elapsed()
}

/// Whole milliseconds of a duration.
///
/// Trusted: calls `Duration::as_millis`. Nothing is stated of the value:
/// `Duration` is opaque here.
#[verifier::external_body]
pub(crate) fn duration_millis(d: &Duration) -> u128 {
    d.as_millis()
}

/// Whole nanoseconds of a duration.
///
/// Trusted: calls `Duration::as_nanos`. Nothing is stated of the value:
/// `Duration` is opaque here.
#[verifier::external_body]
pub(crate) fn duration_nanos(d: &Duration) -> u128 {
    d.as_nanos()
}

/// Nanoseconds elapsed since `base`, truncated to 64 bits.
pub(crate) fn nanos_since(base: &Instant) -> u64 {
    let ns = duration_nanos(&instant_elapsed(base));
    ns as u64
}

/// Milliseconds elapsed since `base`, truncated to 64 bits.
pub(crate) fn millis_since(base: &Instant) -> u64 {
    let ms = duration_millis(&instant_elapsed(base));
    ms as u64
}

} // verus!
