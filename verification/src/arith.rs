//! Arithmetic on signed 32-bit integers, with results that wrap around.

use vstd::prelude::*;

verus! {

/// The signed 32-bit integer that is congruent to `x` modulo 2^32.
pub open spec fn wrap32(x: int) -> i32 {
    let low: int = x % 0x1_0000_0000;
    if low > i32::MAX {
        (low - 0x1_0000_0000) as i32
    } else {
        low as i32
    }
}

/// The quotient of `a` by `b`, rounded towards zero.
pub open spec fn quotient(a: int, b: int) -> int
    recommends
        b != 0,
{
    if a >= 0 && b > 0 {
        a / b
    } else if a >= 0 {
        -(a / (-b))
    } else if b > 0 {
        -((-a) / b)
    } else {
        (-a) / (-b)
    }
}

/// The sum of two numbers, wrapped.
pub fn sum(a: i32, b: i32) -> (r: i32)
    ensures
        r == wrap32(a + b),
{
    a.wrapping_add(b)
}

/// The first number minus the second, wrapped.
pub fn difference(a: i32, b: i32) -> (r: i32)
    ensures
        r == wrap32(a - b),
{
    a.wrapping_sub(b)
}

/// The product of two numbers, wrapped.
pub fn product(a: i32, b: i32) -> (r: i32)
    ensures
        r == wrap32(a * b),
{
    a.wrapping_mul(b)
}

/// What dividing `a` by `b` gives: nothing for a zero divisor, else the
/// quotient, rounded towards zero and wrapped.
pub open spec fn divided(a: i32, b: i32) -> Option<i32> {
    if b == 0 {
        None
    } else {
        Some(wrap32(quotient(a as int, b as int)))
    }
}

/// The first number divided by the second, rounded towards zero and
/// wrapped; nothing where the second is zero.
pub fn divide(a: i32, b: i32) -> (r: Option<i32>)
    ensures
        r == divided(a, b),
{
    if b == 0 {
        return None;
    }
    let x: i64 = a as i64;
    let y: i64 = b as i64;
    let q: i64 = if y > 0 {
        x / y
    } else {
        (-x) / (-y)
    };
    proof {
        lemma_quotient_bound(a as int, b as int);
        if x == 0 && y < 0 {
            assert(0int / (-y) as int == 0) by (nonlinear_arith)
                requires
                    -y > 0,
            ;
        }
    }
    assert(q == quotient(a as int, b as int));
    if q > 0x7fff_ffff {
        Some(i32::MIN)
    } else {
        Some(q as i32)
    }
}

/// A quotient is no larger in magnitude than what was divided.
pub proof fn lemma_quotient_bound(a: int, b: int)
    requires
        b != 0,
    ensures
        a >= 0 ==> -a <= quotient(a, b) <= a,
        a <= 0 ==> a <= quotient(a, b) <= -a,
{
    let m: int = if a >= 0 {
        a
    } else {
        -a
    };
    let d: int = if b > 0 {
        b
    } else {
        -b
    };
    assert(0 <= m / d <= m) by (nonlinear_arith)
        requires
            m >= 0,
            d > 0,
    ;
}

} // verus!
