//! Comparison of IEEE 754 numbers by their bit patterns.
//!
//! Prices, volumes and signals cross this library as the bit patterns of binary32
//! (`u32`) and binary64 (`u64`) numbers. Which of two of them is larger, whether one
//! is finite, and what its negation is, can be read from the bits: the sign is the
//! top bit, and the other bits, read as an integer, grow with the magnitude.

use vstd::prelude::*;

verus! {

/// Bit pattern of positive zero.
pub const ZERO: u32 = 0;

/// Bit pattern of positive infinity.
pub const INFINITY: u32 = 0x7F80_0000;

/// Bit pattern of negative infinity.
pub const NEG_INFINITY: u32 = 0xFF80_0000;

/// The number without its sign bit.
pub open spec fn magnitude(b: u32) -> int {
    b as int % 0x8000_0000
}

/// The pattern stands for no number.
pub open spec fn nan(b: u32) -> bool {
    magnitude(b) > INFINITY
}

/// The pattern stands for a number that is not infinite.
pub open spec fn finite(b: u32) -> bool {
    magnitude(b) < INFINITY
}

/// An integer that orders the numbers as their values do; both zeros have key 0.
pub open spec fn order_key(b: u32) -> int {
    if b >= 0x8000_0000 {
        -magnitude(b)
    } else {
        magnitude(b)
    }
}

/// `a < b`, false if either is not a number.
pub open spec fn lt(a: u32, b: u32) -> bool {
    !nan(a) && !nan(b) && order_key(a) < order_key(b)
}

/// `a <= b`, false if either is not a number.
pub open spec fn le(a: u32, b: u32) -> bool {
    !nan(a) && !nan(b) && order_key(a) <= order_key(b)
}

/// `a > 0`.
pub open spec fn positive(a: u32) -> bool {
    lt(ZERO, a)
}

/// The pattern with its sign bit flipped.
pub open spec fn negated(a: u32) -> u32 {
    if a >= 0x8000_0000 {
        (a - 0x8000_0000) as u32
    } else {
        (a + 0x8000_0000) as u32
    }
}

/// Whether the pattern stands for no number.
pub fn is_nan(b: u32) -> (r: bool)
    ensures
        r == nan(b),
{
    b % 0x8000_0000 > INFINITY
}

/// Whether the pattern stands for a number that is not infinite.
pub fn is_finite(b: u32) -> (r: bool)
    ensures
        r == finite(b),
{
    b % 0x8000_0000 < INFINITY
}

fn key_of(b: u32) -> (k: i64)
    ensures
        k == order_key(b),
{
    let m: i64 = (b % 0x8000_0000) as i64;
    if b >= 0x8000_0000 {
        -m
    } else {
        m
    }
}

/// Whether `a < b`.
pub fn is_lt(a: u32, b: u32) -> (r: bool)
    ensures
        r == lt(a, b),
{
    !is_nan(a) && !is_nan(b) && key_of(a) < key_of(b)
}

/// Whether `a <= b`.
pub fn is_le(a: u32, b: u32) -> (r: bool)
    ensures
        r == le(a, b),
{
    !is_nan(a) && !is_nan(b) && key_of(a) <= key_of(b)
}

/// Whether `a > 0`.
pub fn is_positive(a: u32) -> (r: bool)
    ensures
        r == positive(a),
{
    is_lt(ZERO, a)
}

/// The number with its sign flipped.
pub fn negate(a: u32) -> (r: u32)
    ensures
        r == negated(a),
{
    if a >= 0x8000_0000 {
        a - 0x8000_0000
    } else {
        a + 0x8000_0000
    }
}

/// The order is strict, transitive and total on numbers, and leaves out what is no number.
pub proof fn law_order(a: u32, b: u32, c: u32)
    ensures
        !lt(a, a),
        lt(a, b) && lt(b, c) ==> lt(a, c),
        !nan(a) && !nan(b) ==> (lt(a, b) || lt(b, a) || order_key(a) == order_key(b)),
        !nan(a) && !nan(b) ==> (le(a, b) <==> !lt(b, a)),
        nan(a) ==> !lt(a, b) && !lt(b, a) && !le(a, b) && !le(b, a),
{
}

/// Negation turns the order round, and undoes itself.
pub proof fn law_negate(a: u32, b: u32)
    ensures
        negated(negated(a)) == a,
        lt(a, b) <==> lt(negated(b), negated(a)),
        le(a, b) <==> le(negated(b), negated(a)),
        nan(a) <==> nan(negated(a)),
{
}

/// A binary64 number without its sign bit.
pub open spec fn magnitude64(b: u64) -> int {
    b as int % 0x8000_0000_0000_0000
}

/// The binary64 pattern stands for no number.
pub open spec fn nan64(b: u64) -> bool {
    magnitude64(b) > 0x7FF0_0000_0000_0000
}

/// The binary64 pattern stands for a number that is not infinite.
pub open spec fn finite64(b: u64) -> bool {
    magnitude64(b) < 0x7FF0_0000_0000_0000
}

/// An integer that orders binary64 numbers as their values do.
pub open spec fn order_key64(b: u64) -> int {
    if b >= 0x8000_0000_0000_0000 {
        -magnitude64(b)
    } else {
        magnitude64(b)
    }
}

/// `a < b` of binary64 numbers, false if either is not a number.
pub open spec fn lt64(a: u64, b: u64) -> bool {
    !nan64(a) && !nan64(b) && order_key64(a) < order_key64(b)
}

/// `a <= b` of binary64 numbers, false if either is not a number.
pub open spec fn le64(a: u64, b: u64) -> bool {
    !nan64(a) && !nan64(b) && order_key64(a) <= order_key64(b)
}

/// The binary64 pattern with its sign bit flipped.
pub open spec fn negated64(a: u64) -> u64 {
    if a >= 0x8000_0000_0000_0000 {
        (a - 0x8000_0000_0000_0000) as u64
    } else {
        (a + 0x8000_0000_0000_0000) as u64
    }
}

/// The binary64 number with its sign flipped.
pub fn negate64(a: u64) -> (r: u64)
    ensures
        r == negated64(a),
{
    if a >= 0x8000_0000_0000_0000 {
        a - 0x8000_0000_0000_0000
    } else {
        a + 0x8000_0000_0000_0000
    }
}

/// Whether the binary64 pattern stands for no number.
pub fn is_nan64(b: u64) -> (r: bool)
    ensures
        r == nan64(b),
{
    b % 0x8000_0000_0000_0000 > 0x7FF0_0000_0000_0000
}

/// Whether the binary64 pattern stands for a number that is not infinite.
pub fn is_finite64(b: u64) -> (r: bool)
    ensures
        r == finite64(b),
{
    b % 0x8000_0000_0000_0000 < 0x7FF0_0000_0000_0000
}

/// The order key of a binary64 number.
pub fn key_of64(b: u64) -> (k: i64)
    ensures
        k == order_key64(b),
{
    let m: i64 = (b % 0x8000_0000_0000_0000) as i64;
    if b >= 0x8000_0000_0000_0000 {
        -m
    } else {
        m
    }
}

/// Whether `a < b` of binary64 numbers.
pub fn is_lt64(a: u64, b: u64) -> (r: bool)
    ensures
        r == lt64(a, b),
{
    !is_nan64(a) && !is_nan64(b) && key_of64(a) < key_of64(b)
}

/// Whether `a <= b` of binary64 numbers.
pub fn is_le64(a: u64, b: u64) -> (r: bool)
    ensures
        r == le64(a, b),
{
    !is_nan64(a) && !is_nan64(b) && key_of64(a) <= key_of64(b)
}

// What the patterns stand for.
/// The size of a finite binary32 number, as a multiple of the least positive one: eight bits
/// of exponent, 23 of fraction, and a hidden bit unless the exponent is zero.
pub open spec fn scaled(m: int) -> int {
    let e = m / 0x80_0000;
    let f = m % 0x80_0000;
    if e == 0 {
        f
    } else {
        (0x80_0000 + f) * vstd::arithmetic::power::pow(2, (e - 1) as nat)
    }
}

/// A finite binary32 number, as a multiple of the least positive one.
pub open spec fn number(b: u32) -> int {
    if b >= 0x8000_0000 {
        -scaled(b - 0x8000_0000)
    } else {
        scaled(b as int)
    }
}

/// The size of a finite binary64 number, as a multiple of the least positive one: eleven bits
/// of exponent and 52 of fraction.
pub open spec fn scaled64(m: int) -> int {
    let e = m / 0x10_0000_0000_0000;
    let f = m % 0x10_0000_0000_0000;
    if e == 0 {
        f
    } else {
        (0x10_0000_0000_0000 + f) * vstd::arithmetic::power::pow(2, (e - 1) as nat)
    }
}

/// A finite binary64 number, as a multiple of the least positive one.
pub open spec fn number64(b: u64) -> int {
    if b >= 0x8000_0000_0000_0000 {
        -scaled64(b - 0x8000_0000_0000_0000)
    } else {
        scaled64(b as int)
    }
}

proof fn lemma_scaled_step(m: int, unit: int, e: int, f: int, e2: int, f2: int)
    requires
        unit > 0,
        0 <= f < unit,
        0 <= f2 < unit,
        e >= 0,
        m == e * unit + f,
        m + 1 == e2 * unit + f2,
        e2 >= 0,
    ensures
        (e2 == e && f2 == f + 1) || (e2 == e + 1 && f2 == 0 && f == unit - 1),
{
    assert(e2 == e || e2 == e + 1) by (nonlinear_arith)
        requires
            unit > 0,
            0 <= f < unit,
            0 <= f2 < unit,
            e2 * unit + f2 == e * unit + f + 1,
    ;
    if e2 == e + 1 {
        assert((e + 1) * unit == e * unit + unit) by (nonlinear_arith);
    }
}

proof fn lemma_pow_step(n: nat)
    ensures
        vstd::arithmetic::power::pow(2, n) > 0,
        vstd::arithmetic::power::pow(2, n + 1) == 2 * vstd::arithmetic::power::pow(2, n),
{
    reveal(vstd::arithmetic::power::pow);
    vstd::arithmetic::power::lemma_pow_positive(2, n);
}

proof fn lemma_value_step(unit: int, e: int, f: int, e2: int, f2: int)
    requires
        unit > 0,
        0 <= f < unit,
        0 <= f2 < unit,
        e >= 0,
        (e2 == e && f2 == f + 1) || (e2 == e + 1 && f2 == 0 && f == unit - 1),
    ensures
        ({
            let low = if e == 0 {
                f
            } else {
                (unit + f) * vstd::arithmetic::power::pow(2, (e - 1) as nat)
            };
            let high = if e2 == 0 {
                f2
            } else {
                (unit + f2) * vstd::arithmetic::power::pow(2, (e2 - 1) as nat)
            };
            low < high
        }),
{
    reveal(vstd::arithmetic::power::pow);
    if e > 0 {
        let p = vstd::arithmetic::power::pow(2, (e - 1) as nat);
        lemma_pow_step((e - 1) as nat);
        if e2 == e {
            assert((unit + f) * p < (unit + f + 1) * p) by (nonlinear_arith)
                requires
                    p > 0,
            ;
        } else {
            assert((unit + f) * p < unit * (2 * p)) by (nonlinear_arith)
                requires
                    p > 0,
                    f == unit - 1,
            ;
            assert((unit + f2) * (2 * p) == unit * (2 * p)) by (nonlinear_arith)
                requires
                    f2 == 0,
            ;
        }
    } else if e2 == 1 {
        assert(vstd::arithmetic::power::pow(2, 0) == 1);
        assert((unit + f2) * 1 == unit + f2);
    }
}

proof fn lemma_scaled_grows(a: int, b: int)
    requires
        0 <= a < b,
    ensures
        scaled(a) < scaled(b),
    decreases b - a,
{
    let unit = 0x80_0000int;
    let m = b - 1;
    assert(m == (m / unit) * unit + m % unit);
    assert(m + 1 == (b / unit) * unit + b % unit);
    lemma_scaled_step(m, unit, m / unit, m % unit, b / unit, b % unit);
    lemma_value_step(unit, m / unit, m % unit, b / unit, b % unit);
    if a < m {
        lemma_scaled_grows(a, m);
    }
}

proof fn lemma_scaled64_grows(a: int, b: int)
    requires
        0 <= a < b,
    ensures
        scaled64(a) < scaled64(b),
    decreases b - a,
{
    let unit = 0x10_0000_0000_0000int;
    let m = b - 1;
    assert(m == (m / unit) * unit + m % unit);
    assert(m + 1 == (b / unit) * unit + b % unit);
    lemma_scaled_step(m, unit, m / unit, m % unit, b / unit, b % unit);
    lemma_value_step(unit, m / unit, m % unit, b / unit, b % unit);
    if a < m {
        lemma_scaled64_grows(a, m);
    }
}

/// Comparing patterns is comparing the numbers that they stand for.
pub proof fn law_patterns_compare_as_numbers(a: u32, b: u32)
    requires
        finite(a),
        finite(b),
    ensures
        lt(a, b) <==> number(a) < number(b),
        le(a, b) <==> number(a) <= number(b),
        positive(a) <==> number(a) > 0,
        number(negated(a)) == -number(a),
        finite(negated(a)),
{
    let x = magnitude(a);
    let y = magnitude(b);
    if x < y {
        lemma_scaled_grows(x, y);
    } else if y < x {
        lemma_scaled_grows(y, x);
    }
    assert(scaled(0) == 0);
    if x > 0 {
        lemma_scaled_grows(0, x);
    }
    if y > 0 {
        lemma_scaled_grows(0, y);
    }
}

/// Comparing binary64 patterns is comparing the numbers that they stand for.
pub proof fn law_patterns_compare_as_numbers64(a: u64, b: u64)
    requires
        finite64(a),
        finite64(b),
    ensures
        lt64(a, b) <==> number64(a) < number64(b),
        le64(a, b) <==> number64(a) <= number64(b),
        number64(negated64(a)) == -number64(a),
        finite64(negated64(a)),
{
    let x = magnitude64(a);
    let y = magnitude64(b);
    if x < y {
        lemma_scaled64_grows(x, y);
    } else if y < x {
        lemma_scaled64_grows(y, x);
    }
    assert(scaled64(0) == 0);
    if x > 0 {
        lemma_scaled64_grows(0, x);
    }
    if y > 0 {
        lemma_scaled64_grows(0, y);
    }
}

/// Every pattern is finite, one of the two infinities, or no number; the infinities enclose
/// all numbers.
pub proof fn law_infinities(b: u32, c: u64)
    ensures
        finite(b) || nan(b) || b == INFINITY || b == NEG_INFINITY,
        finite(b) ==> !nan(b) && lt(NEG_INFINITY, b) && lt(b, INFINITY),
        !finite(INFINITY) && !nan(INFINITY) && !finite(NEG_INFINITY) && !nan(NEG_INFINITY),
        finite64(c) || nan64(c) || c == 0x7FF0_0000_0000_0000 || c == 0xFFF0_0000_0000_0000,
        finite64(c) ==> !nan64(c) && lt64(0xFFF0_0000_0000_0000, c) && lt64(
            c,
            0x7FF0_0000_0000_0000,
        ),
{
}

/// The order of binary64 numbers is strict, transitive and total, and leaves out what is no
/// number; negation turns it round and undoes itself.
pub proof fn law_order64(a: u64, b: u64, c: u64)
    ensures
        !lt64(a, a),
        lt64(a, b) && lt64(b, c) ==> lt64(a, c),
        !nan64(a) && !nan64(b) ==> (le64(a, b) <==> !lt64(b, a)),
        nan64(a) ==> !lt64(a, b) && !lt64(b, a) && !le64(a, b) && !le64(b, a),
        negated64(negated64(a)) == a,
        lt64(a, b) <==> lt64(negated64(b), negated64(a)),
        nan64(a) <==> nan64(negated64(a)),
{
}

} // verus!
