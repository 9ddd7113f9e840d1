//! Counters that wrap around, as atomic counters do.

use vstd::prelude::*;

verus! {

/// The number behind `x`; 0 behind the last one.
pub open spec fn next(x: u64) -> u64 {
    if x == u64::MAX {
        0
    } else {
        (x + 1) as u64
    }
}

/// The sum of two numbers modulo 2^64.
pub open spec fn sum(x: u64, y: u64) -> u64 {
    ((x + y) % 0x1_0000_0000_0000_0000) as u64
}

/// The number behind `x`.
pub fn increment(x: u64) -> (r: u64)
    ensures
        r == next(x),
{
    x.wrapping_add(1)
}

/// Counting wraps: the number behind one is one more, modulo 2^64, as is the sum with 1, and
/// no two numbers have the same one behind them.
pub proof fn law_counting(x: u64, y: u64)
    ensures
        next(x) == (x + 1) % 0x1_0000_0000_0000_0000,
        next(x) == sum(x, 1),
        next(x) == next(y) ==> x == y,
        x + y <= u64::MAX ==> sum(x, y) == x + y,
        x + y > u64::MAX ==> sum(x, y) == x + y - 0x1_0000_0000_0000_0000,
{
}

} // verus!
