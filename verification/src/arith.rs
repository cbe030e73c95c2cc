//! The five binary operators and the 32-bit arithmetic they perform.
//!
//! Operands and results are `i32`. A sum, difference or product that does not
//! fit is reduced modulo 2^32 (two's complement), so no operation can fail for
//! want of room. Division rounds toward zero and the remainder takes the sign
//! of the dividend; a zero divisor is the only input without a result.

use vstd::prelude::*;

verus! {

/// One of the five binary operators of the calculator.
#[derive(Clone, Copy, Debug, PartialEq, Eq, Structural)]
pub enum Operator {
    /// `+`
    Add,
    /// `-`
    Sub,
    /// `*`
    Mul,
    /// `/`
    Div,
    /// `%`
    Rem,
}

/// The value in the range of `i32` that is congruent to `v` modulo 2^32.
pub open spec fn wrap(v: int) -> i32 {
    ((v + 0x8000_0000) % 0x1_0000_0000 - 0x8000_0000) as i32
}

/// The absolute value of `v`.
pub open spec fn magnitude(v: int) -> int {
    if v < 0 {
        -v
    } else {
        v
    }
}

/// The quotient of `x` by `y`, rounded toward zero. Meaningful for `y != 0`.
pub open spec fn quotient(x: int, y: int) -> int {
    let q = magnitude(x) / magnitude(y);
    if (x < 0) != (y < 0) {
        -q
    } else {
        q
    }
}

/// What is left of `x` after taking out `quotient(x, y)` times `y`; it has the
/// sign of `x`. Meaningful for `y != 0`.
pub open spec fn remainder(x: int, y: int) -> int {
    let r = magnitude(x) % magnitude(y);
    if x < 0 {
        -r
    } else {
        r
    }
}

impl Operator {
    /// The result of the operator on left operand `x` and right operand `y`,
    /// or `None` where the divisor is zero.
    pub open spec fn result(self, x: i32, y: i32) -> Option<i32> {
        match self {
            Operator::Add => Some(wrap(x + y)),
            Operator::Sub => Some(wrap(x - y)),
            Operator::Mul => Some(wrap(x * y)),
            Operator::Div => if y == 0 {
                None
            } else {
                Some(wrap(quotient(x as int, y as int)))
            },
            Operator::Rem => if y == 0 {
                None
            } else {
                Some(wrap(remainder(x as int, y as int)))
            },
        }
    }
}

/// Division of a non-negative number by a positive one stays between zero and
/// the dividend, and its remainder below the divisor.
proof fn lemma_unsigned_division(a: int, b: int)
    requires
        0 <= a,
        0 < b,
    ensures
        0 <= a / b <= a,
        0 <= a % b < b,
        a == 0 ==> a / b == 0 && a % b == 0,
        b > 1 && a > 0 ==> a / b < a,
{
    assert(0 <= a / b <= a) by (nonlinear_arith)
        requires
            0 <= a,
            0 < b,
    ;
    assert(a == 0 ==> a % b == 0) by (nonlinear_arith)
        requires
            0 < b,
    ;
    assert(0 <= a % b < b) by (nonlinear_arith)
        requires
            0 <= a,
            0 < b,
    ;
    assert(b > 1 && a > 0 ==> a / b < a) by (nonlinear_arith)
        requires
            0 <= a,
            0 < b,
    ;
}

/// Reducing a value changes it by a multiple of 2^32.
pub proof fn lemma_wrap_congruent(v: int)
    ensures
        (wrap(v) - v) % 0x1_0000_0000 == 0,
{
}

/// A value in the range of `i32` is left as it is.
pub proof fn lemma_wrap_in_range(v: int)
    requires
        i32::MIN <= v <= i32::MAX,
    ensures
        wrap(v) == v,
{
}

/// But for the least `i32` divided by -1, the quotient of two `i32` fits in an
/// `i32`; the remainder always does.
pub proof fn lemma_division_in_range(x: i32, y: i32)
    requires
        y != 0,
    ensures
        !(x == i32::MIN && y == -1) ==> i32::MIN <= quotient(x as int, y as int) <= i32::MAX,
        i32::MIN < remainder(x as int, y as int) <= i32::MAX,
{
    lemma_unsigned_division(magnitude(x as int), magnitude(y as int));
}

/// Division rounds toward zero: the quotient times the divisor, and the
/// remainder, make up the dividend; the remainder is smaller in magnitude than
/// the divisor and is never of the sign opposite to the dividend's.
pub proof fn lemma_division_rounds_toward_zero(x: int, y: int)
    requires
        y != 0,
    ensures
        quotient(x, y) * y + remainder(x, y) == x,
        magnitude(remainder(x, y)) < magnitude(y),
        x >= 0 ==> remainder(x, y) >= 0,
        x <= 0 ==> remainder(x, y) <= 0,
{
    let a = magnitude(x);
    let b = magnitude(y);
    lemma_unsigned_division(a, b);
    assert((a / b) * b + a % b == a) by (nonlinear_arith)
        requires
            b > 0,
    ;
    let q = a / b;
    assert((-q) * y == -(q * y) && q * (-y) == -(q * y) && (-q) * (-y) == q * y)
        by (nonlinear_arith);
}

/// Where the sum, difference or product of two `i32` fits in an `i32`, it is
/// what the operator gives.
pub proof fn lemma_exact_where_it_fits(x: i32, y: i32)
    ensures
        i32::MIN <= x + y <= i32::MAX ==> Operator::Add.result(x, y) == Some((x + y) as i32),
        i32::MIN <= x - y <= i32::MAX ==> Operator::Sub.result(x, y) == Some((x - y) as i32),
        i32::MIN <= x * y <= i32::MAX ==> Operator::Mul.result(x, y) == Some((x * y) as i32),
{
}

impl Operator {
    /// Applies the operator to left operand `x` and right operand `y`.
    pub fn apply(self, x: i32, y: i32) -> (r: Option<i32>)
        ensures
            r == self.result(x, y),
    {
        match self {
            Operator::Add => Some(sum(x, y)),
            Operator::Sub => Some(difference(x, y)),
            Operator::Mul => Some(product(x, y)),
            Operator::Div => divide(x, y),
            Operator::Rem => modulo(x, y),
        }
    }
}

/// The sum of `x` and `y`, reduced to 32 bits.
fn sum(x: i32, y: i32) -> (r: i32)
    ensures
        r == wrap(x + y),
{
    x.wrapping_add(y)
}

/// The difference of `x` and `y`, reduced to 32 bits.
fn difference(x: i32, y: i32) -> (r: i32)
    ensures
        r == wrap(x - y),
{
    x.wrapping_sub(y)
}

/// The product of `x` and `y`, reduced to 32 bits.
fn product(x: i32, y: i32) -> (r: i32)
    ensures
        r == wrap(x * y),
{
    x.wrapping_mul(y)
}

/// The absolute value of `v`.
fn magnitude_of(v: i32) -> (m: u64)
    ensures
        m == magnitude(v as int),
{
    if v < 0 {
        (-(v as i64)) as u64
    } else {
        v as u64
    }
}

/// The quotient of `x` by `y`, rounded toward zero and reduced to 32 bits.
fn divide(x: i32, y: i32) -> (r: Option<i32>)
    ensures
        r == Operator::Div.result(x, y),
{
    if y == 0 {
        return None;
    }
    let a = magnitude_of(x);
    let b = magnitude_of(y);
    proof {
        lemma_unsigned_division(a as int, b as int);
    }
    let q: u64 = a / b;
    if (x < 0) != (y < 0) {
        Some((-(q as i64)) as i32)
    } else if q > 0x7fff_ffff {
        Some(i32::MIN)
    } else {
        Some(q as i32)
    }
}

/// The remainder of `x` by `y`, with the sign of `x`.
fn modulo(x: i32, y: i32) -> (r: Option<i32>)
    ensures
        r == Operator::Rem.result(x, y),
{
    if y == 0 {
        return None;
    }
    let a = magnitude_of(x);
    let b = magnitude_of(y);
    proof {
        lemma_unsigned_division(a as int, b as int);
    }
    let m: u64 = a % b;
    if x < 0 {
        Some((-(m as i64)) as i32)
    } else {
        Some(m as i32)
    }
}

} // verus!
