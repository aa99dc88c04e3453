//! Decimal fixed-point arithmetic with six fractional digits.
//!
//! A [`Fixed`] counts millionths. Sums, products and quotients that leave the
//! range of the type stop at its nearest end; products and quotients round
//! toward zero.

use vstd::prelude::*;

verus! {

/// A signed fixed-point number, counted in millionths.
pub type Fixed = i64;

/// Raw units in one whole.
pub const SCALE: Fixed = 1_000_000;

/// The nearest value to `x` that a [`Fixed`] holds.
pub open spec fn sat(x: int) -> Fixed {
    if x < i64::MIN as int {
        i64::MIN
    } else if x > i64::MAX as int {
        i64::MAX
    } else {
        x as i64
    }
}

/// The quotient of `n` by `d`, rounded toward zero.
pub open spec fn trunc_div(n: int, d: int) -> int
    recommends
        d != 0,
{
    if n >= 0 && d > 0 {
        n / d
    } else if n < 0 && d > 0 {
        -((-n) / d)
    } else if n >= 0 && d < 0 {
        -(n / (-d))
    } else {
        (-n) / (-d)
    }
}

/// `a + b`, saturated.
pub open spec fn spec_plus(a: Fixed, b: Fixed) -> Fixed {
    sat(a + b)
}

/// `a - b`, saturated.
pub open spec fn spec_minus(a: Fixed, b: Fixed) -> Fixed {
    sat(a - b)
}

/// `a * b` in units of one whole, rounded toward zero and saturated.
pub open spec fn spec_times(a: Fixed, b: Fixed) -> Fixed {
    sat(trunc_div(a * b, SCALE as int))
}

/// `a / b` in units of one whole, rounded toward zero and saturated.
pub open spec fn spec_over(a: Fixed, b: Fixed) -> Fixed
    recommends
        b != 0,
{
    sat(trunc_div(a * SCALE, b as int))
}

/// `-a`, saturated.
pub open spec fn spec_negated(a: Fixed) -> Fixed {
    sat(-a)
}

/// `|a|`, saturated.
pub open spec fn spec_magnitude(a: Fixed) -> Fixed {
    if a < 0 {
        sat(-a)
    } else {
        a
    }
}

/// `n` wholes.
pub open spec fn spec_whole(n: i32) -> Fixed {
    (n * SCALE) as i64
}

/// The fixed-point value of the integer `n`.
#[verifier::when_used_as_spec(spec_whole)]
pub fn whole(n: i32) -> (r: Fixed)
    ensures
        r == spec_whole(n),
        r == n * SCALE,
{
    let wide: i64 = n as i64;
    wide * SCALE
}

/// `a + b`, stopped at the ends of the range.
#[verifier::when_used_as_spec(spec_plus)]
pub fn plus(a: Fixed, b: Fixed) -> (r: Fixed)
    ensures
        r == spec_plus(a, b),
{
    let wide: i128 = a as i128 + b as i128;
    narrow(wide)
}

/// `a - b`, stopped at the ends of the range.
#[verifier::when_used_as_spec(spec_minus)]
pub fn minus(a: Fixed, b: Fixed) -> (r: Fixed)
    ensures
        r == spec_minus(a, b),
{
    let wide: i128 = a as i128 - b as i128;
    narrow(wide)
}

/// `-a`, stopped at the upper end of the range.
#[verifier::when_used_as_spec(spec_negated)]
pub fn negated(a: Fixed) -> (r: Fixed)
    ensures
        r == spec_negated(a),
{
    let wide: i128 = -(a as i128);
    narrow(wide)
}

/// `|a|`, stopped at the upper end of the range.
#[verifier::when_used_as_spec(spec_magnitude)]
pub fn magnitude(a: Fixed) -> (r: Fixed)
    ensures
        r == spec_magnitude(a),
{
    if a < 0 {
        negated(a)
    } else {
        a
    }
}

/// The product of `a` and `b`, rounded toward zero to a millionth and stopped
/// at the ends of the range.
#[verifier::when_used_as_spec(spec_times)]
pub fn times(a: Fixed, b: Fixed) -> (r: Fixed)
    ensures
        r == spec_times(a, b),
{
    let ua: u128 = size_of(a);
    let ub: u128 = size_of(b);
    assert(ua * ub <= 0x8000_0000_0000_0000 * 0x8000_0000_0000_0000) by (nonlinear_arith)
        requires
            ua <= 0x8000_0000_0000_0000,
            ub <= 0x8000_0000_0000_0000,
    ;
    let product: u128 = ua * ub;
    let quotient: u128 = product / (SCALE as u128);
    let negative: bool = (a < 0) != (b < 0);
    proof {
        let n: int = a * b;
        assert(n == if negative { -(ua * ub) } else { ua * ub }) by (nonlinear_arith)
            requires
                n == a * b,
                ua == if a < 0 { -a } else { a as int },
                ub == if b < 0 { -b } else { b as int },
                negative == ((a < 0) != (b < 0)),
        ;
        assert(ua * ub >= 0) by (nonlinear_arith)
            requires
                ua >= 0,
                ub >= 0,
        ;
        assert(0int / (SCALE as int) == 0);
    }
    with_sign(negative, quotient)
}

/// The quotient of `a` by `b`, rounded toward zero to a millionth and stopped
/// at the ends of the range.
#[verifier::when_used_as_spec(spec_over)]
pub fn over(a: Fixed, b: Fixed) -> (r: Fixed)
    requires
        b != 0,
    ensures
        r == spec_over(a, b),
{
    let ua: u128 = size_of(a);
    let ub: u128 = size_of(b);
    let scaled: u128 = ua * (SCALE as u128);
    let quotient: u128 = scaled / ub;
    let negative: bool = (a < 0) != (b < 0);
    proof {
        let n: int = a * SCALE;
        let d: int = b as int;
        assert(0int / (ub as int) == 0) by (nonlinear_arith)
            requires
                ub > 0,
        ;
        assert(scaled == if a < 0 { -n } else { n }) by (nonlinear_arith)
            requires
                scaled == ua * SCALE,
                n == a * SCALE,
                ua == if a < 0 { -a } else { a as int },
        ;
        assert(ub == if b < 0 { -d } else { d });
        assert(quotient == (scaled as int) / (ub as int));
    }
    with_sign(negative, quotient)
}

/// The distance of `a` from zero.
fn size_of(a: Fixed) -> (r: u128)
    ensures
        r == if a < 0 { -a } else { a as int },
        r <= 0x8000_0000_0000_0000,
{
    if a < 0 {
        let wide: i128 = -(a as i128);
        wide as u128
    } else {
        a as u128
    }
}

/// The value with the given sign and size, saturated.
fn with_sign(negative: bool, size: u128) -> (r: Fixed)
    ensures
        r == sat(if negative { -(size as int) } else { size as int }),
{
    if negative {
        if size >= 0x8000_0000_0000_0000 {
            i64::MIN
        } else {
            let small: i64 = size as i64;
            -small
        }
    } else {
        if size > 0x7fff_ffff_ffff_ffff {
            i64::MAX
        } else {
            size as i64
        }
    }
}

/// The nearest `Fixed` to a wider integer.
fn narrow(wide: i128) -> (r: Fixed)
    ensures
        r == sat(wide as int),
{
    if wide < -0x8000_0000_0000_0000 {
        i64::MIN
    } else if wide > 0x7fff_ffff_ffff_ffff {
        i64::MAX
    } else {
        wide as i64
    }
}

} // verus!
