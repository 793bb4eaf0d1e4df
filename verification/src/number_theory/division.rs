//! Truncating integer division, as Rust's `/` and `%` compute it on signed integers.
use vstd::prelude::*;

verus! {

/// The absolute value of an integer.
pub open spec fn abs_int(a: int) -> int {
    if a < 0 { -a } else { a }
}

/// Quotient of `a / b` rounded toward zero.
pub open spec fn trunc_div(a: int, b: int) -> int
    recommends b != 0,
{
    let q = abs_int(a) / abs_int(b);
    if (a < 0) != (b < 0) { -q } else { q }
}

/// Remainder that goes with `trunc_div`: it has the sign of `a`.
pub open spec fn trunc_rem(a: int, b: int) -> int
    recommends b != 0,
{
    a - b * trunc_div(a, b)
}

/// The characterisation of the truncated quotient and remainder.
pub proof fn lemma_trunc_div_rem(a: int, b: int)
    requires
        b != 0,
    ensures
        a == b * trunc_div(a, b) + trunc_rem(a, b),
        abs_int(trunc_rem(a, b)) < abs_int(b),
        trunc_rem(a, b) == 0 || ((trunc_rem(a, b) < 0) == (a < 0)),
        abs_int(trunc_div(a, b)) <= abs_int(a),
        abs_int(b) >= 2 ==> 2 * abs_int(trunc_div(a, b)) <= abs_int(a),
        abs_int(b) * abs_int(trunc_div(a, b)) <= abs_int(a),
{
    let ua = abs_int(a);
    let ub = abs_int(b);
    let q0 = ua / ub;
    let r0 = ua % ub;
    assert(ua == ub * q0 + r0 && 0 <= r0 < ub) by (nonlinear_arith)
        requires ub > 0, ua >= 0, q0 == ua / ub, r0 == ua % ub;
    assert(q0 >= 0 && q0 <= ua) by (nonlinear_arith)
        requires ua == ub * q0 + r0, 0 <= r0 < ub, ub >= 1, ua >= 0;
    assert(ub >= 2 ==> 2 * q0 <= ua) by (nonlinear_arith)
        requires ua == ub * q0 + r0, 0 <= r0, q0 >= 0;
    assert(ub * q0 <= ua) by (nonlinear_arith)
        requires ua == ub * q0 + r0, 0 <= r0;
    let q = trunc_div(a, b);
    if a < 0 {
        if b < 0 {
            assert(q == q0);
            assert(b * q == -(ub * q0)) by (nonlinear_arith) requires b == -ub, q == q0;
        } else {
            assert(q == -q0);
            assert(b * q == -(ub * q0)) by (nonlinear_arith) requires b == ub, q == -q0;
        }
    } else {
        if b < 0 {
            assert(q == -q0);
            assert(b * q == ub * q0) by (nonlinear_arith) requires b == -ub, q == -q0;
        } else {
            assert(q == q0);
            assert(b * q == ub * q0) by (nonlinear_arith) requires b == ub, q == q0;
        }
    }
}

/// Rust's truncating `a / b` and `a % b` on `i64`.
pub fn div_rem_trunc(a: i64, b: i64) -> (res: (i64, i64))
    requires
        b != 0,
        !(a == i64::MIN && b == -1),
    ensures
        res.0 == trunc_div(a as int, b as int),
        res.1 == trunc_rem(a as int, b as int),
{
    proof {
        lemma_trunc_div_rem(a as int, b as int);
    }
    let ua: i128 = if a < 0 { -(a as i128) } else { a as i128 };
    let ub: i128 = if b < 0 { -(b as i128) } else { b as i128 };
    let q0: i128 = ua / ub;
    let q: i128 = if (a < 0) != (b < 0) { -q0 } else { q0 };
    proof {
        assert(q == trunc_div(a as int, b as int));
        if abs_int(b as int) == 1 {
            assert(abs_int(a as int) / 1 == abs_int(a as int));
            assert(q == a || q == -a);
            assert(q != -(i64::MIN as int) || a != i64::MIN);
        }
        assert(i64::MIN <= q <= i64::MAX);
        assert(i64::MIN <= a - b * q <= i64::MAX);
    }
    let r: i128 = (a as i128) - (b as i128) * q;
    (q as i64, r as i64)
}

/// Rust's truncating `a % b`, on integers of at most 64 bits held in an `i128`, so that
/// no operand pair overflows.
pub fn rem_trunc_wide(a: i128, b: i128) -> (r: i128)
    requires
        b != 0,
        -0x1_0000_0000_0000_0000 <= a <= 0x1_0000_0000_0000_0000,
        -0x1_0000_0000_0000_0000 <= b <= 0x1_0000_0000_0000_0000,
    ensures
        r == trunc_rem(a as int, b as int),
{
    proof {
        lemma_trunc_div_rem(a as int, b as int);
    }
    let ua: i128 = if a < 0 { -a } else { a };
    let ub: i128 = if b < 0 { -b } else { b };
    let q0: i128 = ua / ub;
    let q: i128 = if (a < 0) != (b < 0) { -q0 } else { q0 };
    proof {
        assert(q == trunc_div(a as int, b as int));
        assert(abs_int(a as int) - abs_int(b as int) * abs_int(q as int) >= 0);
        assert(b * q == -(abs_int(b as int) * abs_int(q as int)) || b * q == abs_int(b as int) * abs_int(q as int)) by (nonlinear_arith)
            requires abs_int(b as int) == b || abs_int(b as int) == -b, abs_int(q as int) == q || abs_int(q as int) == -q;
    }
    a - b * q
}

} // verus!
