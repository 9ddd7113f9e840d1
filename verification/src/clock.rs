//! The engine's clock: nanoseconds since a fixed moment.

use std::time::Instant;
use vstd::prelude::*;

verus! {

/// A moment of the monotonic clock of the standard library.
#[verifier::external_type_specification]
#[verifier::external_body]
pub struct ExInstant(std::time::Instant);

/// `Instant::elapsed` and `Duration::as_nanos` of the standard library: the whole
/// nanoseconds since `start`. What they return depends on when they are called, so
/// nothing is said of it.
#[verifier::external_body]
fn nanos_since(start: &Instant) -> (ns: u128) {
    start.elapsed().as_nanos()
}

/// The low 64 bits of a count of nanoseconds.
pub fn low_nanos(ns: u128) -> (r: u64)
    ensures
        r == ns % 0x1_0000_0000_0000_0000,
{
    (ns % 0x1_0000_0000_0000_0000) as u64
}

/// Nanoseconds since `start`, modulo 2^64.
pub fn elapsed_ns(start: &Instant) -> (ns: u64) {
    low_nanos(nanos_since(start))
}

/// Milliseconds in the low 64 bits that have passed reach an interval.
pub open spec fn passed(elapsed_ms: u128, interval_ms: u64) -> bool {
    (elapsed_ms % 0x1_0000_0000_0000_0000) >= interval_ms
}

/// An interval has passed from its end on, and not before.
pub proof fn law_intervals(elapsed_ms: u128, interval_ms: u64)
    requires
        elapsed_ms <= u64::MAX,
    ensures
        passed(elapsed_ms, interval_ms) <==> interval_ms <= elapsed_ms,
{
}

/// Milliseconds in the low 64 bits that have passed reach an interval.
pub fn interval_passed(elapsed_ms: u128, interval_ms: u64) -> (r: bool)
    ensures
        r == passed(elapsed_ms, interval_ms),
{
    low_nanos(elapsed_ms) >= interval_ms
}

} // verus!
