//! Arithmetic on 32-bit integers that never fails: sums, differences and
//! products wrap around, and division rounds toward zero.

use vstd::prelude::*;

verus! {

/// The 32-bit integer that `x` wraps around to in two's complement.
pub open spec fn wrap(x: int) -> i32 {
    if x % 0x1_0000_0000 > i32::MAX {
        (x % 0x1_0000_0000 - 0x1_0000_0000) as i32
    } else {
        (x % 0x1_0000_0000) as i32
    }
}

/// The quotient of `a` by `b`, rounded toward zero.
pub open spec fn quotient(a: int, b: int) -> int {
    if a >= 0 {
        a / b
    } else {
        -((-a) / b)
    }
}

/// What is left of `a` after taking out `b` times the quotient; it has the
/// sign of `a`.
pub open spec fn remainder(a: int, b: int) -> int {
    if a >= 0 {
        a % b
    } else {
        -((-a) % b)
    }
}

/// A number that fits in 32 bits wraps to itself.
pub proof fn lemma_wrap_in_range(x: int)
    requires
        i32::MIN <= x <= i32::MAX,
    ensures
        wrap(x) == x,
{
}

/// Quotient and remainder are those of division rounded toward zero: they
/// make up the dividend, the remainder is smaller than the divisor and has
/// the dividend's sign, and the quotient is no larger than the dividend.
pub proof fn lemma_division(a: int, b: int)
    requires
        b != 0,
    ensures
        a == b * quotient(a, b) + remainder(a, b),
        b > 0 ==> -b < remainder(a, b) < b,
        b < 0 ==> b < remainder(a, b) < -b,
        a >= 0 ==> 0 <= remainder(a, b) && 0 <= (if b > 0 {
            quotient(a, b)
        } else {
            -quotient(a, b)
        }) <= a,
        a <= 0 ==> remainder(a, b) <= 0 && 0 <= (if b > 0 {
            -quotient(a, b)
        } else {
            quotient(a, b)
        }) <= -a,
{
    let x = if a >= 0 {
        a
    } else {
        -a
    };
    vstd::arithmetic::div_mod::lemma_fundamental_div_mod(x, b);
    assert(0 <= x % b && (b > 0 ==> x % b < b) && (b < 0 ==> x % b < -b)) by (nonlinear_arith)
        requires
            b != 0,
    ;
    assert(0 <= (if b > 0 {
        x / b
    } else {
        -(x / b)
    }) <= x) by (nonlinear_arith)
        requires
            b != 0,
            x >= 0,
            x == b * (x / b) + x % b,
            0 <= x % b,
            b > 0 ==> x % b < b,
            b < 0 ==> x % b < -b,
    ;
    assert(b * -(x / b) == -(b * (x / b))) by (nonlinear_arith);
}

/// `a + b`, wrapped.
pub fn plus(a: i32, b: i32) -> (r: i32)
    ensures
        r == wrap(a + b),
{
    a.wrapping_add(b)
}

/// `a - b`, wrapped.
pub fn minus(a: i32, b: i32) -> (r: i32)
    ensures
        r == wrap(a - b),
{
    a.wrapping_sub(b)
}

/// `a * b`, wrapped.
pub fn times(a: i32, b: i32) -> (r: i32)
    ensures
        r == wrap(a * b),
{
    a.wrapping_mul(b)
}

/// The quotient of `a` by `b`, rounded toward zero and wrapped: it is
/// `i32::MIN` for `i32::MIN` by `-1`, and exact otherwise.
pub fn divide(a: i32, b: i32) -> (r: i32)
    requires
        b != 0,
    ensures
        r == wrap(quotient(a as int, b as int)),
        !(a == i32::MIN && b == -1) ==> r == quotient(a as int, b as int),
{
    proof {
        let q = quotient(a as int, b as int);
        let m = remainder(a as int, b as int);
        lemma_division(a as int, b as int);
        if q > i32::MAX {
            assert(a == i32::MIN && q == 0x8000_0000);
            assert(b * q == b * 0x8000_0000);
            assert(b == -1);
        }
        if a == i32::MIN && b == -1 {
            assert(b * q == -q);
            assert(q == 0x8000_0000);
        }
    }
    if a == i32::MIN && b == -1 {
        a
    } else {
        a / b
    }
}

/// The remainder of `a` by `b`, with the sign of `a`.
pub fn modulo(a: i32, b: i32) -> (r: i32)
    requires
        b != 0,
    ensures
        r == wrap(remainder(a as int, b as int)),
        r == remainder(a as int, b as int),
{
    proof {
        lemma_division(a as int, b as int);
    }
    if a == i32::MIN && b == -1 {
        0
    } else {
        a % b
    }
}

} // verus!
