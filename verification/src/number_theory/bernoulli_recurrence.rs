//! The Bernoulli numbers that the Akiyama-Tanigawa triangle gives satisfy their
//! defining recurrence. The triangle is evaluated row by row, each reduction backed by
//! a Bezout certificate for its gcd, as far as its values fit in an `i64`.
use vstd::prelude::*;
use crate::number_theory::euclid::{gcd_spec, lemma_gcd_greatest, lemma_gcd_divides, lemma_gcd_zero,
    lemma_divides_combination, lemma_divides_antisymmetric};
use crate::number_theory::primes::{at_rows, at_row, at_step, at_rows_fit, at_row_fits, at_step_fits, bernoulli_spec,
    fits_i64};

verus! {

/// The binomial coefficient `C(n, k)`, by Pascal's rule.
pub open spec fn binomial(n: nat, k: nat) -> nat
    decreases n,
{
    if k == 0 {
        1
    } else if n == 0 {
        0
    } else {
        binomial((n - 1) as nat, (k - 1) as nat) + binomial((n - 1) as nat, k)
    }
}

/// The sum of `C(n, k) * B_k` over `k < j`, as a fraction (numerator, denominator) that
/// is not reduced.
pub open spec fn bernoulli_weighted_sum(n: nat, j: int) -> (int, int)
    decreases j,
{
    if j <= 0 {
        (0, 1)
    } else {
        let s = bernoulli_weighted_sum(n, j - 1);
        let b = bernoulli_spec(j - 1);
        (s.0 * b.1 + binomial(n, (j - 1) as nat) * b.0 * s.1, s.1 * b.1)
    }
}

/// `C(n, k) = 0` for `k > n`.
proof fn lemma_binomial_above(n: nat, k: nat)
    requires
        k > n,
    ensures
        binomial(n, k) == 0,
    decreases n,
{
    if n > 0 {
        lemma_binomial_above((n - 1) as nat, (k - 1) as nat);
        lemma_binomial_above((n - 1) as nat, k);
    }
}

/// A common divisor that is an integer combination of `a` and `b` is their gcd.
proof fn lemma_gcd_by_certificate(a: int, b: int, g: int, x: int, y: int)
    requires
        g > 0,
        a % g == 0,
        b % g == 0,
        a * x + b * y == g,
    ensures
        gcd_spec(a, b) == g,
{
    lemma_gcd_greatest(a, b, g);
    lemma_gcd_divides(a, b);
    lemma_gcd_zero(a, b);
    let c = gcd_spec(a, b) as int;
    if c == 0 {
        assert(a == 0 && b == 0);
        assert(a * x + b * y == 0) by (nonlinear_arith) requires a == 0, b == 0;
    }
    lemma_divides_combination(c, a, b, x, y);
    lemma_divides_antisymmetric(c, g);
}

/// One step of a triangle row on known entries, with the gcd of its reduction given by
/// a certificate.
proof fn lemma_at_step_by(
    a: Seq<(int, int)>,
    k: int,
    x0: int,
    x1: int,
    y0: int,
    y1: int,
    g: int,
    cx: int,
    cy: int,
    rn: int,
    rd: int,
)
    requires
        1 <= k < a.len(),
        a[k - 1] == (x0, x1),
        a[k] == (y0, y1),
        g > 0,
        (k * (x0 * y1 - y0 * x1)) % g == 0,
        (x1 * y1) % g == 0,
        (k * (x0 * y1 - y0 * x1)) * cx + (x1 * y1) * cy == g,
        rn * g == k * (x0 * y1 - y0 * x1),
        rd * g == x1 * y1,
    ensures
        at_step(a, k) == a.update(k - 1, (rn, rd)),
{
    let num = k * (x0 * y1 - y0 * x1);
    let den = x1 * y1;
    lemma_gcd_by_certificate(num, den, g, cx, cy);
    vstd::arithmetic::div_mod::lemma_div_multiples_vanish(rn, g);
    vstd::arithmetic::div_mod::lemma_div_multiples_vanish(rd, g);
    assert(g * rn == rn * g && g * rd == rd * g) by (nonlinear_arith);
}

/// A step on known entries whose products leave the range of `i64` does not fit.
proof fn lemma_step_overflows(a: Seq<(int, int)>, k: int, x0: int, x1: int, y0: int, y1: int)
    requires
        1 <= k < a.len(),
        a[k - 1] == (x0, x1),
        a[k] == (y0, y1),
        !(fits_i64(x0 * y1) && fits_i64(y0 * x1) && fits_i64(x0 * y1 - y0 * x1) && fits_i64(x1 * y1)
            && fits_i64(k * (x0 * y1 - y0 * x1)) && k * (x0 * y1 - y0 * x1) != i64::MIN),
    ensures
        !at_step_fits(a, k),
{
}

/// One more term of the weighted sum, on known values.
proof fn lemma_sum_step(n: nat, j: int, s0: int, s1: int, b0: int, b1: int, c: nat, r0: int, r1: int)
    requires
        j >= 1,
        bernoulli_weighted_sum(n, j - 1) == (s0, s1),
        bernoulli_spec(j - 1) == (b0, b1),
        binomial(n, (j - 1) as nat) == c,
        r0 == s0 * b1 + c * b0 * s1,
        r1 == s1 * b1,
    ensures
        bernoulli_weighted_sum(n, j) == (r0, r1),
{
}

/// The rows fit up to `m` only if they fit up to every smaller row.
proof fn lemma_rows_fit_below(m: int, j: int)
    requires
        1 <= j <= m,
        at_rows_fit(m),
    ensures
        at_rows_fit(j),
    decreases m - j,
{
    if j < m {
        lemma_rows_fit_below(m - 1, j);
    }
}

/// Row 1 of the Akiyama-Tanigawa triangle, step by step.
#[verifier::nonlinear]
proof fn lemma_triangle_row_1()
    ensures
        at_rows(1).len() == 2,
        at_rows(1)[0] == (1int, 2int),
        at_rows(1)[1] == (1int, 2int),
{
    assert(at_rows(0) == seq![(1int, 1int)]);
    let s0 = at_rows(0).push((1int, 2int));
    assert(at_rows(1) == at_row(s0, 1));
    lemma_at_step_by(s0, 1, 1, 1, 1, 2, 1, 1, 0, 1, 2);
    let s1 = s0.update(0, (1int, 2int));
    assert(at_row(s0, 1) == at_row(s1, 0));
    assert(at_row(s1, 0) == s1);
}

/// Row 2 of the Akiyama-Tanigawa triangle, step by step.
#[verifier::nonlinear]
proof fn lemma_triangle_row_2()
    ensures
        at_rows(2).len() == 3,
        at_rows(2)[0] == (1int, 6int),
        at_rows(2)[1] == (1int, 3int),
        at_rows(2)[2] == (1int, 3int),
{
    lemma_triangle_row_1();
    let s0 = at_rows(1).push((1int, 3int));
    assert(at_rows(2) == at_row(s0, 2));
    lemma_at_step_by(s0, 2, 1, 2, 1, 3, 2, 1, 0, 1, 3);
    let s1 = s0.update(1, (1int, 3int));
    assert(at_row(s0, 2) == at_row(s1, 1));
    lemma_at_step_by(s1, 1, 1, 2, 1, 3, 1, 1, 0, 1, 6);
    let s2 = s1.update(0, (1int, 6int));
    assert(at_row(s1, 1) == at_row(s2, 0));
    assert(at_row(s2, 0) == s2);
}

/// Row 3 of the Akiyama-Tanigawa triangle, step by step.
#[verifier::nonlinear]
proof fn lemma_triangle_row_3()
    ensures
        at_rows(3).len() == 4,
        at_rows(3)[0] == (0int, 1int),
        at_rows(3)[1] == (1int, 6int),
        at_rows(3)[2] == (1int, 4int),
        at_rows(3)[3] == (1int, 4int),
{
    lemma_triangle_row_2();
    let s0 = at_rows(2).push((1int, 4int));
    assert(at_rows(3) == at_row(s0, 3));
    lemma_at_step_by(s0, 3, 1, 3, 1, 4, 3, 1, 0, 1, 4);
    let s1 = s0.update(2, (1int, 4int));
    assert(at_row(s0, 3) == at_row(s1, 2));
    lemma_at_step_by(s1, 2, 1, 3, 1, 4, 2, 1, 0, 1, 6);
    let s2 = s1.update(1, (1int, 6int));
    assert(at_row(s1, 2) == at_row(s2, 1));
    lemma_at_step_by(s2, 1, 1, 6, 1, 6, 36, 0, 1, 0, 1);
    let s3 = s2.update(0, (0int, 1int));
    assert(at_row(s2, 1) == at_row(s3, 0));
    assert(at_row(s3, 0) == s3);
}

/// Row 4 of the Akiyama-Tanigawa triangle, step by step.
#[verifier::nonlinear]
proof fn lemma_triangle_row_4()
    ensures
        at_rows(4).len() == 5,
        at_rows(4)[0] == (-1int, 30int),
        at_rows(4)[1] == (1int, 30int),
        at_rows(4)[2] == (3int, 20int),
        at_rows(4)[3] == (1int, 5int),
        at_rows(4)[4] == (1int, 5int),
{
    lemma_triangle_row_3();
    let s0 = at_rows(3).push((1int, 5int));
    assert(at_rows(4) == at_row(s0, 4));
    lemma_at_step_by(s0, 4, 1, 4, 1, 5, 4, 1, 0, 1, 5);
    let s1 = s0.update(3, (1int, 5int));
    assert(at_row(s0, 4) == at_row(s1, 3));
    lemma_at_step_by(s1, 3, 1, 4, 1, 5, 1, 7, -1, 3, 20);
    let s2 = s1.update(2, (3int, 20int));
    assert(at_row(s1, 3) == at_row(s2, 2));
    lemma_at_step_by(s2, 2, 1, 6, 3, 20, 4, 1, 0, 1, 30);
    let s3 = s2.update(1, (1int, 30int));
    assert(at_row(s2, 2) == at_row(s3, 1));
    lemma_at_step_by(s3, 1, 0, 1, 1, 30, 1, -1, 0, -1, 30);
    let s4 = s3.update(0, (-1int, 30int));
    assert(at_row(s3, 1) == at_row(s4, 0));
    assert(at_row(s4, 0) == s4);
}

/// Row 5 of the Akiyama-Tanigawa triangle, step by step.
#[verifier::nonlinear]
proof fn lemma_triangle_row_5()
    ensures
        at_rows(5).len() == 6,
        at_rows(5)[0] == (0int, 1int),
        at_rows(5)[1] == (-1int, 30int),
        at_rows(5)[2] == (1int, 20int),
        at_rows(5)[3] == (2int, 15int),
        at_rows(5)[4] == (1int, 6int),
        at_rows(5)[5] == (1int, 6int),
{
    lemma_triangle_row_4();
    let s0 = at_rows(4).push((1int, 6int));
    assert(at_rows(5) == at_row(s0, 5));
    lemma_at_step_by(s0, 5, 1, 5, 1, 6, 5, 1, 0, 1, 6);
    let s1 = s0.update(4, (1int, 6int));
    assert(at_row(s0, 5) == at_row(s1, 4));
    lemma_at_step_by(s1, 4, 1, 5, 1, 6, 2, -7, 1, 2, 15);
    let s2 = s1.update(3, (2int, 15int));
    assert(at_row(s1, 4) == at_row(s2, 3));
    lemma_at_step_by(s2, 3, 3, 20, 2, 15, 15, 1, 0, 1, 20);
    let s3 = s2.update(2, (1int, 20int));
    assert(at_row(s2, 3) == at_row(s3, 2));
    lemma_at_step_by(s3, 2, 1, 30, 1, 20, 20, -1, 0, -1, 30);
    let s4 = s3.update(1, (-1int, 30int));
    assert(at_row(s3, 2) == at_row(s4, 1));
    lemma_at_step_by(s4, 1, -1, 30, -1, 30, 900, 0, 1, 0, 1);
    let s5 = s4.update(0, (0int, 1int));
    assert(at_row(s4, 1) == at_row(s5, 0));
    assert(at_row(s5, 0) == s5);
}

/// Row 6 of the Akiyama-Tanigawa triangle, step by step.
#[verifier::nonlinear]
proof fn lemma_triangle_row_6()
    ensures
        at_rows(6).len() == 7,
        at_rows(6)[0] == (1int, 42int),
        at_rows(6)[1] == (-1int, 42int),
        at_rows(6)[2] == (-3int, 140int),
        at_rows(6)[3] == (2int, 35int),
        at_rows(6)[4] == (5int, 42int),
        at_rows(6)[5] == (1int, 7int),
        at_rows(6)[6] == (1int, 7int),
{
    lemma_triangle_row_5();
    let s0 = at_rows(5).push((1int, 7int));
    assert(at_rows(6) == at_row(s0, 6));
    lemma_at_step_by(s0, 6, 1, 6, 1, 7, 6, 1, 0, 1, 7);
    let s1 = s0.update(5, (1int, 7int));
    assert(at_row(s0, 6) == at_row(s1, 5));
    lemma_at_step_by(s1, 5, 1, 6, 1, 7, 1, 17, -2, 5, 42);
    let s2 = s1.update(4, (5int, 42int));
    assert(at_row(s1, 5) == at_row(s2, 4));
    lemma_at_step_by(s2, 4, 2, 15, 5, 42, 18, -17, 1, 2, 35);
    let s3 = s2.update(3, (2int, 35int));
    assert(at_row(s2, 4) == at_row(s3, 3));
    lemma_at_step_by(s3, 3, 1, 20, 2, 35, 5, -47, -1, -3, 140);
    let s4 = s3.update(2, (-3int, 140int));
    assert(at_row(s3, 3) == at_row(s4, 2));
    lemma_at_step_by(s4, 2, -1, 30, -3, 140, 100, -1, 0, -1, 42);
    let s5 = s4.update(1, (-1int, 42int));
    assert(at_row(s4, 2) == at_row(s5, 1));
    lemma_at_step_by(s5, 1, 0, 1, -1, 42, 1, 1, 0, 1, 42);
    let s6 = s5.update(0, (1int, 42int));
    assert(at_row(s5, 1) == at_row(s6, 0));
    assert(at_row(s6, 0) == s6);
}

/// Row 7 of the Akiyama-Tanigawa triangle, step by step.
#[verifier::nonlinear]
proof fn lemma_triangle_row_7()
    ensures
        at_rows(7).len() == 8,
        at_rows(7)[0] == (0int, 1int),
        at_rows(7)[1] == (1int, 42int),
        at_rows(7)[2] == (-1int, 28int),
        at_rows(7)[3] == (-1int, 105int),
        at_rows(7)[4] == (5int, 84int),
        at_rows(7)[5] == (3int, 28int),
        at_rows(7)[6] == (1int, 8int),
        at_rows(7)[7] == (1int, 8int),
{
    lemma_triangle_row_6();
    let s0 = at_rows(6).push((1int, 8int));
    assert(at_rows(7) == at_row(s0, 7));
    lemma_at_step_by(s0, 7, 1, 7, 1, 8, 7, 1, 0, 1, 8);
    let s1 = s0.update(6, (1int, 8int));
    assert(at_row(s0, 7) == at_row(s1, 6));
    lemma_at_step_by(s1, 6, 1, 7, 1, 8, 2, -9, 1, 3, 28);
    let s2 = s1.update(5, (3int, 28int));
    assert(at_row(s1, 6) == at_row(s2, 5));
    lemma_at_step_by(s2, 5, 5, 42, 3, 28, 14, 17, -1, 5, 84);
    let s3 = s2.update(4, (5int, 84int));
    assert(at_row(s2, 5) == at_row(s3, 4));
    lemma_at_step_by(s3, 4, 2, 35, 5, 84, 28, -1, 0, -1, 105);
    let s4 = s3.update(3, (-1int, 105int));
    assert(at_row(s3, 4) == at_row(s4, 3));
    lemma_at_step_by(s4, 3, -3, 140, -1, 105, 525, -1, 0, -1, 28);
    let s5 = s4.update(2, (-1int, 28int));
    assert(at_row(s4, 3) == at_row(s5, 2));
    lemma_at_step_by(s5, 2, -1, 42, -1, 28, 28, 1, 0, 1, 42);
    let s6 = s5.update(1, (1int, 42int));
    assert(at_row(s5, 2) == at_row(s6, 1));
    lemma_at_step_by(s6, 1, 1, 42, 1, 42, 1764, 0, 1, 0, 1);
    let s7 = s6.update(0, (0int, 1int));
    assert(at_row(s6, 1) == at_row(s7, 0));
    assert(at_row(s7, 0) == s7);
}

/// Row 8 of the Akiyama-Tanigawa triangle, step by step.
#[verifier::nonlinear]
proof fn lemma_triangle_row_8()
    ensures
        at_rows(8).len() == 9,
        at_rows(8)[0] == (-1int, 30int),
        at_rows(8)[1] == (1int, 30int),
        at_rows(8)[2] == (1int, 140int),
        at_rows(8)[3] == (-4int, 105int),
        at_rows(8)[4] == (0int, 1int),
        at_rows(8)[5] == (5int, 84int),
        at_rows(8)[6] == (7int, 72int),
        at_rows(8)[7] == (1int, 9int),
        at_rows(8)[8] == (1int, 9int),
{
    lemma_triangle_row_7();
    let s0 = at_rows(7).push((1int, 9int));
    assert(at_rows(8) == at_row(s0, 8));
    lemma_at_step_by(s0, 8, 1, 8, 1, 9, 8, 1, 0, 1, 9);
    let s1 = s0.update(7, (1int, 9int));
    assert(at_row(s0, 8) == at_row(s1, 7));
    lemma_at_step_by(s1, 7, 1, 8, 1, 9, 1, 31, -3, 7, 72);
    let s2 = s1.update(6, (7int, 72int));
    assert(at_row(s1, 7) == at_row(s2, 6));
    lemma_at_step_by(s2, 6, 3, 28, 7, 72, 24, 17, -1, 5, 84);
    let s3 = s2.update(5, (5int, 84int));
    assert(at_row(s2, 6) == at_row(s3, 5));
    lemma_at_step_by(s3, 5, 5, 84, 5, 84, 7056, 0, 1, 0, 1);
    let s4 = s3.update(4, (0int, 1int));
    assert(at_row(s3, 5) == at_row(s4, 4));
    lemma_at_step_by(s4, 4, -1, 105, 0, 1, 1, 26, 1, -4, 105);
    let s5 = s4.update(3, (-4int, 105int));
    assert(at_row(s4, 4) == at_row(s5, 3));
    lemma_at_step_by(s5, 3, -1, 28, -4, 105, 21, 1, 0, 1, 140);
    let s6 = s5.update(2, (1int, 140int));
    assert(at_row(s5, 3) == at_row(s6, 2));
    lemma_at_step_by(s6, 2, 1, 42, 1, 140, 196, 1, 0, 1, 30);
    let s7 = s6.update(1, (1int, 30int));
    assert(at_row(s6, 2) == at_row(s7, 1));
    lemma_at_step_by(s7, 1, 0, 1, 1, 30, 1, -1, 0, -1, 30);
    let s8 = s7.update(0, (-1int, 30int));
    assert(at_row(s7, 1) == at_row(s8, 0));
    assert(at_row(s8, 0) == s8);
}

/// Row 9 of the Akiyama-Tanigawa triangle, step by step.
#[verifier::nonlinear]
proof fn lemma_triangle_row_9()
    ensures
        at_rows(9).len() == 10,
        at_rows(9)[0] == (0int, 1int),
        at_rows(9)[1] == (-1int, 30int),
        at_rows(9)[2] == (1int, 20int),
        at_rows(9)[3] == (-1int, 105int),
        at_rows(9)[4] == (-1int, 28int),
        at_rows(9)[5] == (1int, 140int),
        at_rows(9)[6] == (7int, 120int),
        at_rows(9)[7] == (4int, 45int),
        at_rows(9)[8] == (1int, 10int),
        at_rows(9)[9] == (1int, 10int),
{
    lemma_triangle_row_8();
    let s0 = at_rows(8).push((1int, 10int));
    assert(at_rows(9) == at_row(s0, 9));
    lemma_at_step_by(s0, 9, 1, 9, 1, 10, 9, 1, 0, 1, 10);
    let s1 = s0.update(8, (1int, 10int));
    assert(at_row(s0, 9) == at_row(s1, 8));
    lemma_at_step_by(s1, 8, 1, 9, 1, 10, 2, -11, 1, 4, 45);
    let s2 = s1.update(7, (4int, 45int));
    assert(at_row(s1, 8) == at_row(s2, 7));
    lemma_at_step_by(s2, 7, 7, 72, 4, 45, 27, -17, 1, 7, 120);
    let s3 = s2.update(6, (7int, 120int));
    assert(at_row(s2, 7) == at_row(s3, 6));
    lemma_at_step_by(s3, 6, 5, 84, 7, 120, 72, 1, 0, 1, 140);
    let s4 = s3.update(5, (1int, 140int));
    assert(at_row(s3, 6) == at_row(s4, 5));
    lemma_at_step_by(s4, 5, 0, 1, 1, 140, 5, -1, 0, -1, 28);
    let s5 = s4.update(4, (-1int, 28int));
    assert(at_row(s4, 5) == at_row(s5, 4));
    lemma_at_step_by(s5, 4, -4, 105, -1, 28, 28, -1, 0, -1, 105);
    let s6 = s5.update(3, (-1int, 105int));
    assert(at_row(s5, 4) == at_row(s6, 3));
    lemma_at_step_by(s6, 3, 1, 140, -1, 105, 735, 1, 0, 1, 20);
    let s7 = s6.update(2, (1int, 20int));
    assert(at_row(s6, 3) == at_row(s7, 2));
    lemma_at_step_by(s7, 2, 1, 30, 1, 20, 20, -1, 0, -1, 30);
    let s8 = s7.update(1, (-1int, 30int));
    assert(at_row(s7, 2) == at_row(s8, 1));
    lemma_at_step_by(s8, 1, -1, 30, -1, 30, 900, 0, 1, 0, 1);
    let s9 = s8.update(0, (0int, 1int));
    assert(at_row(s8, 1) == at_row(s9, 0));
    assert(at_row(s9, 0) == s9);
}

/// Row 10 of the Akiyama-Tanigawa triangle, step by step.
#[verifier::nonlinear]
proof fn lemma_triangle_row_10()
    ensures
        at_rows(10).len() == 11,
        at_rows(10)[0] == (5int, 66int),
        at_rows(10)[1] == (-5int, 66int),
        at_rows(10)[2] == (1int, 220int),
        at_rows(10)[3] == (8int, 165int),
        at_rows(10)[4] == (-5int, 231int),
        at_rows(10)[5] == (-29int, 924int),
        at_rows(10)[6] == (49int, 3960int),
        at_rows(10)[7] == (28int, 495int),
        at_rows(10)[8] == (9int, 110int),
        at_rows(10)[9] == (1int, 11int),
        at_rows(10)[10] == (1int, 11int),
{
    lemma_triangle_row_9();
    let s0 = at_rows(9).push((1int, 11int));
    assert(at_rows(10) == at_row(s0, 10));
    lemma_at_step_by(s0, 10, 1, 10, 1, 11, 10, 1, 0, 1, 11);
    let s1 = s0.update(9, (1int, 11int));
    assert(at_row(s0, 10) == at_row(s1, 9));
    lemma_at_step_by(s1, 9, 1, 10, 1, 11, 1, 49, -4, 9, 110);
    let s2 = s1.update(8, (9int, 110int));
    assert(at_row(s1, 9) == at_row(s2, 8));
    lemma_at_step_by(s2, 8, 4, 45, 9, 110, 10, -53, 3, 28, 495);
    let s3 = s2.update(7, (28int, 495int));
    assert(at_row(s2, 8) == at_row(s3, 7));
    lemma_at_step_by(s3, 7, 7, 120, 28, 495, 15, 889, -11, 49, 3960);
    let s4 = s3.update(6, (49int, 3960int));
    assert(at_row(s3, 7) == at_row(s4, 6));
    lemma_at_step_by(s4, 6, 1, 140, 49, 3960, 600, 223, 7, -29, 924);
    let s5 = s4.update(5, (-29int, 924int));
    assert(at_row(s4, 6) == at_row(s5, 5));
    lemma_at_step_by(s5, 5, -1, 28, -29, 924, 112, 46, 1, -5, 231);
    let s6 = s5.update(4, (-5int, 231int));
    assert(at_row(s5, 5) == at_row(s6, 4));
    lemma_at_step_by(s6, 4, -1, 105, -5, 231, 147, 62, -3, 8, 165);
    let s7 = s6.update(3, (8int, 165int));
    assert(at_row(s6, 4) == at_row(s7, 3));
    lemma_at_step_by(s7, 3, 1, 20, 8, 165, 15, 1, 0, 1, 220);
    let s8 = s7.update(2, (1int, 220int));
    assert(at_row(s7, 3) == at_row(s8, 2));
    lemma_at_step_by(s8, 2, -1, 30, 1, 220, 100, 13, 1, -5, 66);
    let s9 = s8.update(1, (-5int, 66int));
    assert(at_row(s8, 2) == at_row(s9, 1));
    lemma_at_step_by(s9, 1, 0, 1, -5, 66, 1, -13, 1, 5, 66);
    let s10 = s9.update(0, (5int, 66int));
    assert(at_row(s9, 1) == at_row(s10, 0));
    assert(at_row(s10, 0) == s10);
}

/// Row 11 of the Akiyama-Tanigawa triangle, step by step.
#[verifier::nonlinear]
proof fn lemma_triangle_row_11()
    ensures
        at_rows(11).len() == 12,
        at_rows(11)[0] == (0int, 1int),
        at_rows(11)[1] == (5int, 66int),
        at_rows(11)[2] == (-5int, 44int),
        at_rows(11)[3] == (7int, 165int),
        at_rows(11)[4] == (5int, 132int),
        at_rows(11)[5] == (-9int, 308int),
        at_rows(11)[6] == (-7int, 264int),
        at_rows(11)[7] == (8int, 495int),
        at_rows(11)[8] == (3int, 55int),
        at_rows(11)[9] == (5int, 66int),
        at_rows(11)[10] == (1int, 12int),
        at_rows(11)[11] == (1int, 12int),
{
    lemma_triangle_row_10();
    let s0 = at_rows(10).push((1int, 12int));
    assert(at_rows(11) == at_row(s0, 11));
    lemma_at_step_by(s0, 11, 1, 11, 1, 12, 11, 1, 0, 1, 12);
    let s1 = s0.update(10, (1int, 12int));
    assert(at_row(s0, 11) == at_row(s1, 10));
    lemma_at_step_by(s1, 10, 1, 11, 1, 12, 2, -13, 1, 5, 66);
    let s2 = s1.update(9, (5int, 66int));
    assert(at_row(s1, 10) == at_row(s2, 9));
    lemma_at_step_by(s2, 9, 9, 110, 5, 66, 132, -18, 1, 3, 55);
    let s3 = s2.update(8, (3int, 55int));
    assert(at_row(s2, 9) == at_row(s3, 8));
    lemma_at_step_by(s3, 8, 28, 495, 3, 55, 55, 62, -1, 8, 495);
    let s4 = s3.update(7, (8int, 495int));
    assert(at_row(s3, 8) == at_row(s4, 7));
    lemma_at_step_by(s4, 7, 49, 3960, 8, 495, 7425, 113, 3, -7, 264);
    let s5 = s4.update(6, (-7int, 264int));
    assert(at_row(s4, 7) == at_row(s5, 6));
    lemma_at_step_by(s5, 6, -29, 924, -7, 264, 792, -137, -4, -9, 308);
    let s6 = s5.update(5, (-9int, 308int));
    assert(at_row(s5, 6) == at_row(s6, 5));
    lemma_at_step_by(s6, 5, -5, 231, -9, 308, 539, 53, -2, 5, 132);
    let s7 = s6.update(4, (5int, 132int));
    assert(at_row(s6, 5) == at_row(s7, 4));
    lemma_at_step_by(s7, 4, 8, 165, 5, 132, 132, -47, 2, 7, 165);
    let s8 = s7.update(3, (7int, 165int));
    assert(at_row(s7, 4) == at_row(s8, 3));
    lemma_at_step_by(s8, 3, 1, 220, 7, 165, 825, -9, -1, -5, 44);
    let s9 = s8.update(2, (-5int, 44int));
    assert(at_row(s8, 3) == at_row(s9, 2));
    lemma_at_step_by(s9, 2, -5, 66, -5, 44, 44, -13, 1, 5, 66);
    let s10 = s9.update(1, (5int, 66int));
    assert(at_row(s9, 2) == at_row(s10, 1));
    lemma_at_step_by(s10, 1, 5, 66, 5, 66, 4356, 0, 1, 0, 1);
    let s11 = s10.update(0, (0int, 1int));
    assert(at_row(s10, 1) == at_row(s11, 0));
    assert(at_row(s11, 0) == s11);
}

/// Row 12 of the Akiyama-Tanigawa triangle, step by step.
#[verifier::nonlinear]
proof fn lemma_triangle_row_12()
    ensures
        at_rows(12).len() == 13,
        at_rows(12)[0] == (-691int, 2730int),
        at_rows(12)[1] == (691int, 2730int),
        at_rows(12)[2] == (-1017int, 20020int),
        at_rows(12)[3] == (-44int, 455int),
        at_rows(12)[4] == (200int, 3003int),
        at_rows(12)[5] == (295int, 12012int),
        at_rows(12)[6] == (-343int, 10296int),
        at_rows(12)[7] == (-28int, 1287int),
        at_rows(12)[8] == (27int, 1430int),
        at_rows(12)[9] == (15int, 286int),
        at_rows(12)[10] == (11int, 156int),
        at_rows(12)[11] == (1int, 13int),
        at_rows(12)[12] == (1int, 13int),
{
    lemma_triangle_row_11();
    let s0 = at_rows(11).push((1int, 13int));
    assert(at_rows(12) == at_row(s0, 12));
    lemma_at_step_by(s0, 12, 1, 12, 1, 13, 12, 1, 0, 1, 13);
    let s1 = s0.update(11, (1int, 13int));
    assert(at_row(s0, 12) == at_row(s1, 11));
    lemma_at_step_by(s1, 11, 1, 12, 1, 13, 1, 71, -5, 11, 156);
    let s2 = s1.update(10, (11int, 156int));
    assert(at_row(s1, 11) == at_row(s2, 10));
    lemma_at_step_by(s2, 10, 5, 66, 11, 156, 36, -19, 1, 15, 286);
    let s3 = s2.update(9, (15int, 286int));
    assert(at_row(s2, 10) == at_row(s3, 9));
    lemma_at_step_by(s3, 9, 3, 55, 15, 286, 11, 53, -1, 27, 1430);
    let s4 = s3.update(8, (27int, 1430int));
    assert(at_row(s3, 9) == at_row(s4, 8));
    lemma_at_step_by(s4, 8, 8, 495, 27, 1430, 550, -46, -1, -28, 1287);
    let s5 = s4.update(7, (-28int, 1287int));
    assert(at_row(s4, 8) == at_row(s5, 7));
    lemma_at_step_by(s5, 7, -7, 264, -28, 1287, 33, -1711, -57, -343, 10296);
    let s6 = s5.update(6, (-343int, 10296int));
    assert(at_row(s5, 7) == at_row(s6, 6));
    lemma_at_step_by(s6, 6, -9, 308, -343, 10296, 264, 1303, -32, 295, 12012);
    let s7 = s6.update(5, (295int, 12012int));
    assert(at_row(s6, 6) == at_row(s7, 5));
    lemma_at_step_by(s7, 5, 5, 132, 295, 12012, 528, -1006, 67, 200, 3003);
    let s8 = s7.update(4, (200int, 3003int));
    assert(at_row(s7, 5) == at_row(s8, 4));
    lemma_at_step_by(s8, 4, 7, 165, 200, 3003, 1089, 31, 3, -44, 455);
    let s9 = s8.update(3, (-44int, 455int));
    assert(at_row(s8, 4) == at_row(s9, 3));
    lemma_at_step_by(s9, 3, -5, 44, -44, 455, 1, 4567, 232, -1017, 20020);
    let s10 = s9.update(2, (-1017int, 20020int));
    assert(at_row(s9, 3) == at_row(s10, 2));
    lemma_at_step_by(s10, 2, 5, 66, -1017, 20020, 484, 241, -61, 691, 2730);
    let s11 = s10.update(1, (691int, 2730int));
    assert(at_row(s10, 2) == at_row(s11, 1));
    lemma_at_step_by(s11, 1, 0, 1, 691, 2730, 1, -241, -61, -691, 2730);
    let s12 = s11.update(0, (-691int, 2730int));
    assert(at_row(s11, 1) == at_row(s12, 0));
    assert(at_row(s12, 0) == s12);
}

/// Row 13 of the Akiyama-Tanigawa triangle, step by step.
#[verifier::nonlinear]
proof fn lemma_triangle_row_13()
    ensures
        at_rows(13).len() == 14,
        at_rows(13)[0] == (0int, 1int),
        at_rows(13)[1] == (-691int, 2730int),
        at_rows(13)[2] == (691int, 1820int),
        at_rows(13)[3] == (-2663int, 15015int),
        at_rows(13)[4] == (-629int, 12012int),
        at_rows(13)[5] == (1543int, 20020int),
        at_rows(13)[6] == (67int, 5720int),
        at_rows(13)[7] == (-1576int, 45045int),
        at_rows(13)[8] == (-87int, 5005int),
        at_rows(13)[9] == (125int, 6006int),
        at_rows(13)[10] == (55int, 1092int),
        at_rows(13)[11] == (6int, 91int),
        at_rows(13)[12] == (1int, 14int),
        at_rows(13)[13] == (1int, 14int),
{
    lemma_triangle_row_12();
    let s0 = at_rows(12).push((1int, 14int));
    assert(at_rows(13) == at_row(s0, 13));
    lemma_at_step_by(s0, 13, 1, 13, 1, 14, 13, 1, 0, 1, 14);
    let s1 = s0.update(12, (1int, 14int));
    assert(at_row(s0, 13) == at_row(s1, 12));
    lemma_at_step_by(s1, 12, 1, 13, 1, 14, 2, -15, 1, 6, 91);
    let s2 = s1.update(11, (6int, 91int));
    assert(at_row(s1, 12) == at_row(s2, 11));
    lemma_at_step_by(s2, 11, 11, 156, 6, 91, 13, 139, -7, 55, 1092);
    let s3 = s2.update(10, (55int, 1092int));
    assert(at_row(s2, 11) == at_row(s3, 10));
    lemma_at_step_by(s3, 10, 15, 286, 55, 1092, 52, -1009, 21, 125, 6006);
    let s4 = s3.update(9, (125int, 6006int));
    assert(at_row(s3, 10) == at_row(s4, 9));
    lemma_at_step_by(s4, 9, 27, 1430, 125, 6006, 1716, -978, -17, -87, 5005);
    let s5 = s4.update(8, (-87int, 5005int));
    assert(at_row(s4, 9) == at_row(s5, 8));
    lemma_at_step_by(s5, 8, -28, 1287, -87, 5005, 143, -14491, -507, -1576, 45045);
    let s6 = s5.update(7, (-1576int, 45045int));
    assert(at_row(s5, 8) == at_row(s6, 7));
    lemma_at_step_by(s6, 7, -343, 10296, -1576, 45045, 81081, 683, -8, 67, 5720);
    let s7 = s6.update(6, (67int, 5720int));
    assert(at_row(s6, 7) == at_row(s7, 6));
    lemma_at_step_by(s7, 6, 295, 12012, 67, 5720, 3432, -8213, 633, 1543, 20020);
    let s8 = s7.update(5, (1543int, 20020int));
    assert(at_row(s7, 6) == at_row(s8, 5));
    lemma_at_step_by(s8, 5, 200, 3003, 1543, 20020, 5005, 3151, 165, -629, 12012);
    let s9 = s8.update(4, (-629int, 12012int));
    assert(at_row(s8, 5) == at_row(s9, 4));
    lemma_at_step_by(s9, 4, -44, 455, -629, 12012, 364, 1528, 271, -2663, 15015);
    let s10 = s9.update(3, (-2663int, 15015int));
    assert(at_row(s9, 4) == at_row(s10, 3));
    lemma_at_step_by(s10, 3, -1017, 20020, -2663, 15015, 165165, -669, 254, 691, 1820);
    let s11 = s10.update(2, (691int, 1820int));
    assert(at_row(s10, 3) == at_row(s11, 2));
    lemma_at_step_by(s11, 2, 691, 2730, 691, 1820, 1820, -241, -61, -691, 2730);
    let s12 = s11.update(1, (-691int, 2730int));
    assert(at_row(s11, 2) == at_row(s12, 1));
    lemma_at_step_by(s12, 1, -691, 2730, -691, 2730, 7452900, 0, 1, 0, 1);
    let s13 = s12.update(0, (0int, 1int));
    assert(at_row(s12, 1) == at_row(s13, 0));
    assert(at_row(s13, 0) == s13);
}

/// Row 14 of the Akiyama-Tanigawa triangle, step by step.
#[verifier::nonlinear]
proof fn lemma_triangle_row_14()
    ensures
        at_rows(14).len() == 15,
        at_rows(14)[0] == (7int, 6int),
        at_rows(14)[1] == (-7int, 6int),
        at_rows(14)[2] == (601int, 1820int),
        at_rows(14)[3] == (368int, 1365int),
        at_rows(14)[4] == (-35int, 143int),
        at_rows(14)[5] == (-41int, 12012int),
        at_rows(14)[6] == (3997int, 51480int),
        at_rows(14)[7] == (4int, 6435int),
        at_rows(14)[8] == (-27int, 770int),
        at_rows(14)[9] == (-27int, 2002int),
        at_rows(14)[10] == (121int, 5460int),
        at_rows(14)[11] == (22int, 455int),
        at_rows(14)[12] == (13int, 210int),
        at_rows(14)[13] == (1int, 15int),
        at_rows(14)[14] == (1int, 15int),
{
    lemma_triangle_row_13();
    let s0 = at_rows(13).push((1int, 15int));
    assert(at_rows(14) == at_row(s0, 14));
    lemma_at_step_by(s0, 14, 1, 14, 1, 15, 14, 1, 0, 1, 15);
    let s1 = s0.update(13, (1int, 15int));
    assert(at_row(s0, 14) == at_row(s1, 13));
    lemma_at_step_by(s1, 13, 1, 14, 1, 15, 1, 97, -6, 13, 210);
    let s2 = s1.update(12, (13int, 210int));
    assert(at_row(s1, 13) == at_row(s2, 12));
    lemma_at_step_by(s2, 12, 6, 91, 13, 210, 42, -62, 3, 22, 455);
    let s3 = s2.update(11, (22int, 455int));
    assert(at_row(s2, 12) == at_row(s3, 11));
    lemma_at_step_by(s3, 11, 55, 1092, 22, 455, 91, 361, -8, 121, 5460);
    let s4 = s3.update(10, (121int, 5460int));
    assert(at_row(s3, 11) == at_row(s4, 10));
    lemma_at_step_by(s4, 10, 125, 6006, 121, 5460, 16380, 519, 7, -27, 2002);
    let s5 = s4.update(9, (-27int, 2002int));
    assert(at_row(s4, 10) == at_row(s5, 9));
    lemma_at_step_by(s5, 9, -87, 5005, -27, 2002, 13013, 57, 2, -27, 770);
    let s6 = s5.update(8, (-27int, 770int));
    assert(at_row(s5, 9) == at_row(s6, 8));
    lemma_at_step_by(s6, 8, -1576, 45045, -27, 770, 5390, 1609, -1, 4, 6435);
    let s7 = s6.update(7, (4int, 6435int));
    assert(at_row(s6, 8) == at_row(s7, 7));
    lemma_at_step_by(s7, 7, 67, 5720, 4, 6435, 715, 19693, -1529, 3997, 51480);
    let s8 = s7.update(6, (3997int, 51480int));
    assert(at_row(s7, 7) == at_row(s8, 6));
    lemma_at_step_by(s8, 6, 1543, 20020, 3997, 51480, 85800, -293, -1, -41, 12012);
    let s9 = s8.update(5, (-41int, 12012int));
    assert(at_row(s8, 6) == at_row(s9, 5));
    lemma_at_step_by(s9, 5, -629, 12012, -41, 12012, 1009008, 49, 12, -35, 143);
    let s10 = s9.update(4, (-35int, 143int));
    assert(at_row(s9, 5) == at_row(s10, 4));
    lemma_at_step_by(s10, 4, -2663, 15015, -35, 143, 1573, -523, 141, 368, 1365);
    let s11 = s10.update(3, (368int, 1365int));
    assert(at_row(s10, 4) == at_row(s11, 3));
    lemma_at_step_by(s11, 3, 691, 1820, 368, 1365, 1365, 321, -106, 601, 1820);
    let s12 = s11.update(2, (601int, 1820int));
    assert(at_row(s11, 3) == at_row(s12, 2));
    lemma_at_step_by(s12, 2, -691, 2730, 601, 1820, 828100, -1, -1, -7, 6);
    let s13 = s12.update(1, (-7int, 6int));
    assert(at_row(s12, 2) == at_row(s13, 1));
    lemma_at_step_by(s13, 1, 0, 1, -7, 6, 1, 1, -1, 7, 6);
    let s14 = s13.update(0, (7int, 6int));
    assert(at_row(s13, 1) == at_row(s14, 0));
    assert(at_row(s14, 0) == s14);
}

/// Row 15 of the Akiyama-Tanigawa triangle, step by step.
#[verifier::nonlinear]
proof fn lemma_triangle_row_15()
    ensures
        at_rows(15).len() == 16,
        at_rows(15)[0] == (0int, 1int),
        at_rows(15)[1] == (7int, 6int),
        at_rows(15)[2] == (-7int, 4int),
        at_rows(15)[3] == (1247int, 1365int),
        at_rows(15)[4] == (15int, 364int),
        at_rows(15)[5] == (-1013int, 4004int),
        at_rows(15)[6] == (133int, 3432int),
        at_rows(15)[7] == (464int, 6435int),
        at_rows(15)[8] == (-6int, 715int),
        at_rows(15)[9] == (-205int, 6006int),
        at_rows(15)[10] == (-11int, 1092int),
        at_rows(15)[11] == (3int, 130int),
        at_rows(15)[12] == (13int, 280int),
        at_rows(15)[13] == (7int, 120int),
        at_rows(15)[14] == (1int, 16int),
        at_rows(15)[15] == (1int, 16int),
{
    lemma_triangle_row_14();
    let s0 = at_rows(14).push((1int, 16int));
    assert(at_rows(15) == at_row(s0, 15));
    lemma_at_step_by(s0, 15, 1, 15, 1, 16, 15, 1, 0, 1, 16);
    let s1 = s0.update(14, (1int, 16int));
    assert(at_row(s0, 15) == at_row(s1, 14));
    lemma_at_step_by(s1, 14, 1, 15, 1, 16, 2, -17, 1, 7, 120);
    let s2 = s1.update(13, (7int, 120int));
    assert(at_row(s1, 14) == at_row(s2, 13));
    lemma_at_step_by(s2, 13, 13, 210, 7, 120, 90, -43, 2, 13, 280);
    let s3 = s2.update(12, (13int, 280int));
    assert(at_row(s2, 13) == at_row(s3, 12));
    lemma_at_step_by(s3, 12, 22, 455, 13, 280, 980, -43, 1, 3, 130);
    let s4 = s3.update(11, (3int, 130int));
    assert(at_row(s3, 12) == at_row(s4, 11));
    lemma_at_step_by(s4, 11, 121, 5460, 3, 130, 650, 397, 4, -11, 1092);
    let s5 = s4.update(10, (-11int, 1092int));
    assert(at_row(s4, 11) == at_row(s5, 10));
    lemma_at_step_by(s5, 10, -27, 2002, -11, 1092, 364, -2461, -84, -205, 6006);
    let s6 = s5.update(9, (-205int, 6006int));
    assert(at_row(s5, 10) == at_row(s6, 9));
    lemma_at_step_by(s6, 9, -27, 770, -205, 6006, 6468, 119, 1, -6, 715);
    let s7 = s6.update(8, (-6int, 715int));
    assert(at_row(s6, 9) == at_row(s7, 8));
    lemma_at_step_by(s7, 8, 4, 6435, -6, 715, 715, 2954, -213, 464, 6435);
    let s8 = s7.update(7, (464int, 6435int));
    assert(at_row(s7, 8) == at_row(s8, 7));
    lemma_at_step_by(s8, 7, 3997, 51480, 464, 6435, 96525, -1187, 46, 133, 3432);
    let s9 = s8.update(6, (133int, 3432int));
    assert(at_row(s8, 7) == at_row(s9, 6));
    lemma_at_step_by(s9, 6, -41, 12012, 133, 3432, 10296, -1585, -401, -1013, 4004);
    let s10 = s9.update(5, (-1013int, 4004int));
    assert(at_row(s9, 6) == at_row(s10, 5));
    lemma_at_step_by(s10, 5, -35, 143, -1013, 4004, 1573, -97, 4, 15, 364);
    let s11 = s10.update(4, (15int, 364int));
    assert(at_row(s10, 5) == at_row(s11, 4));
    lemma_at_step_by(s11, 4, 368, 1365, 15, 364, 364, 428, -391, 1247, 1365);
    let s12 = s11.update(3, (1247int, 1365int));
    assert(at_row(s11, 4) == at_row(s12, 3));
    lemma_at_step_by(s12, 3, 601, 1820, 1247, 1365, 621075, 1, 2, -7, 4);
    let s13 = s12.update(2, (-7int, 4int));
    assert(at_row(s12, 3) == at_row(s13, 2));
    lemma_at_step_by(s13, 2, -7, 6, -7, 4, 4, 1, -1, 7, 6);
    let s14 = s13.update(1, (7int, 6int));
    assert(at_row(s13, 2) == at_row(s14, 1));
    lemma_at_step_by(s14, 1, 7, 6, 7, 6, 36, 0, 1, 0, 1);
    let s15 = s14.update(0, (0int, 1int));
    assert(at_row(s14, 1) == at_row(s15, 0));
    assert(at_row(s15, 0) == s15);
}

/// Row 16 of the Akiyama-Tanigawa triangle, step by step.
#[verifier::nonlinear]
proof fn lemma_triangle_row_16()
    ensures
        at_rows(16).len() == 17,
        at_rows(16)[0] == (-3617int, 510int),
        at_rows(16)[1] == (3617int, 510int),
        at_rows(16)[2] == (-809int, 340int),
        at_rows(16)[3] == (-244int, 255int),
        at_rows(16)[4] == (5350int, 4641int),
        at_rows(16)[5] == (-3515int, 18564int),
        at_rows(16)[6] == (-38759int, 175032int),
        at_rows(16)[7] == (140int, 1989int),
        at_rows(16)[8] == (1539int, 24310int),
        at_rows(16)[9] == (-75int, 4862int),
        at_rows(16)[10] == (-605int, 18564int),
        at_rows(16)[11] == (-11int, 1547int),
        at_rows(16)[12] == (169int, 7140int),
        at_rows(16)[13] == (91int, 2040int),
        at_rows(16)[14] == (15int, 272int),
        at_rows(16)[15] == (1int, 17int),
        at_rows(16)[16] == (1int, 17int),
{
    lemma_triangle_row_15();
    let s0 = at_rows(15).push((1int, 17int));
    assert(at_rows(16) == at_row(s0, 16));
    lemma_at_step_by(s0, 16, 1, 16, 1, 17, 16, 1, 0, 1, 17);
    let s1 = s0.update(15, (1int, 17int));
    assert(at_row(s0, 16) == at_row(s1, 15));
    lemma_at_step_by(s1, 15, 1, 16, 1, 17, 1, 127, -7, 15, 272);
    let s2 = s1.update(14, (15int, 272int));
    assert(at_row(s1, 15) == at_row(s2, 14));
    lemma_at_step_by(s2, 14, 7, 120, 15, 272, 16, -269, 12, 91, 2040);
    let s3 = s2.update(13, (91int, 2040int));
    assert(at_row(s2, 14) == at_row(s3, 13));
    lemma_at_step_by(s3, 13, 13, 280, 91, 2040, 80, 169, -4, 169, 7140);
    let s4 = s3.update(12, (169int, 7140int));
    assert(at_row(s3, 13) == at_row(s4, 12));
    lemma_at_step_by(s4, 12, 3, 130, 169, 7140, 600, -422, -3, -11, 1547);
    let s5 = s4.update(11, (-11int, 1547int));
    assert(at_row(s4, 12) == at_row(s5, 11));
    lemma_at_step_by(s5, 11, -11, 1092, -11, 1547, 91, 583, 19, -605, 18564);
    let s6 = s5.update(10, (-605int, 18564int));
    assert(at_row(s5, 11) == at_row(s6, 10));
    lemma_at_step_by(s6, 10, -205, 6006, -605, 18564, 22932, 1491, 23, -75, 4862);
    let s7 = s6.update(9, (-75int, 4862int));
    assert(at_row(s6, 10) == at_row(s7, 9));
    lemma_at_step_by(s7, 9, -6, 715, -75, 4862, 143, -6271, 397, 1539, 24310);
    let s8 = s7.update(8, (1539int, 24310int));
    assert(at_row(s7, 9) == at_row(s8, 8));
    lemma_at_step_by(s8, 8, 464, 6435, 1539, 24310, 78650, -412, 29, 140, 1989);
    let s9 = s8.update(7, (140int, 1989int));
    assert(at_row(s8, 8) == at_row(s9, 7));
    lemma_at_step_by(s9, 7, 133, 3432, 140, 1989, 39, 3265, 723, -38759, 175032);
    let s10 = s9.update(6, (-38759int, 175032int));
    assert(at_row(s9, 7) == at_row(s10, 6));
    lemma_at_step_by(s10, 6, -1013, 4004, -38759, 175032, 37752, 5725, 1084, -3515, 18564);
    let s11 = s10.update(5, (-3515int, 18564int));
    assert(at_row(s10, 6) == at_row(s11, 5));
    lemma_at_step_by(s11, 5, 15, 364, -3515, 18564, 1456, -1571, 1811, 5350, 4641);
    let s12 = s11.update(4, (5350int, 4641int));
    assert(at_row(s11, 5) == at_row(s12, 4));
    lemma_at_step_by(s12, 4, 1247, 1365, 5350, 4641, 24843, 116, 111, -244, 255);
    let s13 = s12.update(3, (-244int, 255int));
    assert(at_row(s12, 4) == at_row(s13, 3));
    lemma_at_step_by(s13, 3, -7, 4, -244, 255, 3, -29, -69, -809, 340);
    let s14 = s13.update(2, (-809int, 340int));
    assert(at_row(s13, 3) == at_row(s14, 2));
    lemma_at_step_by(s14, 2, 7, 6, -809, 340, 4, -217, 1539, 3617, 510);
    let s15 = s14.update(1, (3617int, 510int));
    assert(at_row(s14, 2) == at_row(s15, 1));
    lemma_at_step_by(s15, 1, 0, 1, 3617, 510, 1, 217, 1539, -3617, 510);
    let s16 = s15.update(0, (-3617int, 510int));
    assert(at_row(s15, 1) == at_row(s16, 0));
    assert(at_row(s16, 0) == s16);
}

/// Row 17 of the Akiyama-Tanigawa triangle, step by step.
#[verifier::nonlinear]
proof fn lemma_triangle_row_17()
    ensures
        at_rows(17).len() == 18,
        at_rows(17)[0] == (0int, 1int),
        at_rows(17)[1] == (-3617int, 510int),
        at_rows(17)[2] == (3617int, 340int),
        at_rows(17)[3] == (-1511int, 255int),
        at_rows(17)[4] == (107int, 204int),
        at_rows(17)[5] == (32421int, 30940int),
        at_rows(17)[6] == (-9653int, 26520int),
        at_rows(17)[7] == (-18536int, 109395int),
        at_rows(17)[8] == (1113int, 12155int),
        at_rows(17)[9] == (775int, 14586int),
        at_rows(17)[10] == (-55int, 2652int),
        at_rows(17)[11] == (-95int, 3094int),
        at_rows(17)[12] == (-13int, 2856int),
        at_rows(17)[13] == (49int, 2040int),
        at_rows(17)[14] == (35int, 816int),
        at_rows(17)[15] == (8int, 153int),
        at_rows(17)[16] == (1int, 18int),
        at_rows(17)[17] == (1int, 18int),
{
    lemma_triangle_row_16();
    let s0 = at_rows(16).push((1int, 18int));
    assert(at_rows(17) == at_row(s0, 17));
    lemma_at_step_by(s0, 17, 1, 17, 1, 18, 17, 1, 0, 1, 18);
    let s1 = s0.update(16, (1int, 18int));
    assert(at_row(s0, 17) == at_row(s1, 16));
    lemma_at_step_by(s1, 16, 1, 17, 1, 18, 2, -19, 1, 8, 153);
    let s2 = s1.update(15, (8int, 153int));
    assert(at_row(s1, 16) == at_row(s2, 15));
    lemma_at_step_by(s2, 15, 15, 272, 8, 153, 51, -373, 16, 35, 816);
    let s3 = s2.update(14, (35int, 816int));
    assert(at_row(s2, 15) == at_row(s3, 14));
    lemma_at_step_by(s3, 14, 91, 2040, 35, 816, 816, -791, 19, 49, 2040);
    let s4 = s3.update(13, (49int, 2040int));
    assert(at_row(s3, 14) == at_row(s4, 13));
    lemma_at_step_by(s4, 13, 169, 7140, 49, 2040, 5100, 659, 3, -13, 2856);
    let s5 = s4.update(12, (-13int, 2856int));
    assert(at_row(s4, 13) == at_row(s5, 12));
    lemma_at_step_by(s5, 12, -11, 1547, -13, 2856, 1428, 1433, 44, -95, 3094);
    let s6 = s5.update(11, (-95int, 3094int));
    assert(at_row(s5, 12) == at_row(s6, 11));
    lemma_at_step_by(s6, 11, -605, 18564, -95, 3094, 21658, 1109, 23, -55, 2652);
    let s7 = s6.update(10, (-55int, 2652int));
    assert(at_row(s6, 11) == at_row(s7, 10));
    lemma_at_step_by(s7, 10, -75, 4862, -55, 2652, 884, 3463, -184, 775, 14586);
    let s8 = s7.update(9, (775int, 14586int));
    assert(at_row(s7, 10) == at_row(s8, 9));
    lemma_at_step_by(s8, 9, 1539, 24310, 775, 14586, 29172, -2348, 215, 1113, 12155);
    let s9 = s8.update(8, (1113int, 12155int));
    assert(at_row(s8, 9) == at_row(s9, 8));
    lemma_at_step_by(s9, 8, 140, 1989, 1113, 12155, 221, -33221, -5629, -18536, 109395);
    let s10 = s9.update(7, (-18536int, 109395int));
    assert(at_row(s9, 8) == at_row(s10, 7));
    lemma_at_step_by(s10, 7, -38759, 175032, -18536, 109395, 722007, -6437, -2343, -9653, 26520);
    let s11 = s10.update(6, (-9653int, 26520int));
    assert(at_row(s10, 7) == at_row(s11, 6));
    lemma_at_step_by(s11, 6, -3515, 18564, -9653, 26520, 15912, 961, -1007, 32421, 30940);
    let s12 = s11.update(5, (32421int, 30940int));
    assert(at_row(s11, 6) == at_row(s12, 5));
    lemma_at_step_by(s12, 5, 5350, 4641, 32421, 30940, 703885, -61, 32, 107, 204);
    let s13 = s12.update(4, (107int, 204int));
    assert(at_row(s12, 5) == at_row(s13, 4));
    lemma_at_step_by(s13, 4, -244, 255, 107, 204, 204, 94, 557, -1511, 255);
    let s14 = s13.update(3, (-1511int, 255int));
    assert(at_row(s13, 4) == at_row(s14, 3));
    lemma_at_step_by(s14, 3, -809, 340, -1511, 255, 255, -47, 500, 3617, 340);
    let s15 = s14.update(2, (3617int, 340int));
    assert(at_row(s14, 3) == at_row(s15, 2));
    lemma_at_step_by(s15, 2, 3617, 510, 3617, 340, 340, 217, 1539, -3617, 510);
    let s16 = s15.update(1, (-3617int, 510int));
    assert(at_row(s15, 2) == at_row(s16, 1));
    lemma_at_step_by(s16, 1, -3617, 510, -3617, 510, 260100, 0, 1, 0, 1);
    let s17 = s16.update(0, (0int, 1int));
    assert(at_row(s16, 1) == at_row(s17, 0));
    assert(at_row(s17, 0) == s17);
}

/// Row 18 of the Akiyama-Tanigawa triangle, step by step.
#[verifier::nonlinear]
proof fn lemma_triangle_row_18()
    ensures
        at_rows(18).len() == 19,
        at_rows(18)[0] == (43867int, 798int),
        at_rows(18)[1] == (-43867int, 798int),
        at_rows(18)[2] == (922191int, 45220int),
        at_rows(18)[3] == (43416int, 11305int),
        at_rows(18)[4] == (-46705int, 6783int),
        at_rows(18)[5] == (3035int, 1596int),
        at_rows(18)[6] == (1104901int, 1511640int),
        at_rows(18)[7] == (-88508int, 188955int),
        at_rows(18)[8] == (-51219int, 461890int),
        at_rows(18)[9] == (9597int, 92378int),
        at_rows(18)[10] == (10769int, 251940int),
        at_rows(18)[11] == (-517int, 20995int),
        at_rows(18)[12] == (-3887int, 135660int),
        at_rows(18)[13] == (-91int, 38760int),
        at_rows(18)[14] == (125int, 5168int),
        at_rows(18)[15] == (40int, 969int),
        at_rows(18)[16] == (17int, 342int),
        at_rows(18)[17] == (1int, 19int),
        at_rows(18)[18] == (1int, 19int),
{
    lemma_triangle_row_17();
    let s0 = at_rows(17).push((1int, 19int));
    assert(at_rows(18) == at_row(s0, 18));
    lemma_at_step_by(s0, 18, 1, 18, 1, 19, 18, 1, 0, 1, 19);
    let s1 = s0.update(17, (1int, 19int));
    assert(at_row(s0, 18) == at_row(s1, 17));
    lemma_at_step_by(s1, 17, 1, 18, 1, 19, 1, 161, -8, 17, 342);
    let s2 = s1.update(16, (17int, 342int));
    assert(at_row(s1, 17) == at_row(s2, 16));
    lemma_at_step_by(s2, 16, 8, 153, 17, 342, 54, -218, 9, 40, 969);
    let s3 = s2.update(15, (40int, 969int));
    assert(at_row(s2, 16) == at_row(s3, 15));
    lemma_at_step_by(s3, 15, 35, 816, 40, 969, 153, -1323, 32, 125, 5168);
    let s4 = s3.update(14, (125int, 5168int));
    assert(at_row(s3, 15) == at_row(s4, 14));
    lemma_at_step_by(s4, 14, 49, 2040, 125, 5168, 272, 6389, 15, -91, 38760);
    let s5 = s4.update(13, (-91int, 38760int));
    assert(at_row(s4, 14) == at_row(s5, 13));
    lemma_at_step_by(s5, 13, -13, 2856, -91, 38760, 816, -18323, -525, -3887, 135660);
    let s6 = s5.update(12, (-3887int, 135660int));
    assert(at_row(s5, 13) == at_row(s6, 12));
    lemma_at_step_by(s6, 12, -95, 3094, -3887, 135660, 19992, 6132, 151, -517, 20995);
    let s7 = s6.update(11, (-517int, 20995int));
    assert(at_row(s6, 12) == at_row(s7, 11));
    lemma_at_step_by(s7, 11, -55, 2652, -517, 20995, 221, 35069, -1499, 10769, 251940);
    let s8 = s7.update(10, (10769int, 251940int));
    assert(at_row(s7, 11) == at_row(s8, 10));
    lemma_at_step_by(s8, 10, 775, 14586, 10769, 251940, 39780, -26875, 2792, 9597, 92378);
    let s9 = s8.update(9, (9597int, 92378int));
    assert(at_row(s8, 10) == at_row(s9, 9));
    lemma_at_step_by(s9, 9, 1113, 12155, 9597, 92378, 2431, -7539, -836, -51219, 461890);
    let s10 = s9.update(8, (-51219int, 461890int));
    assert(at_row(s9, 9) == at_row(s10, 8));
    lemma_at_step_by(s10, 8, -18536, 109395, -51219, 461890, 267410, -82742, -38757, -88508, 188955);
    let s11 = s10.update(7, (-88508int, 188955int));
    assert(at_row(s10, 8) == at_row(s11, 7));
    lemma_at_step_by(s11, 7, -9653, 26520, -88508, 188955, 3315, -685859, 501314, 1104901, 1511640);
    let s12 = s11.update(6, (1104901int, 1511640int));
    assert(at_row(s11, 7) == at_row(s12, 6));
    lemma_at_step_by(s12, 6, 32421, 30940, 1104901, 1511640, 29304600, -61, 116, 3035, 1596);
    let s13 = s12.update(5, (3035int, 1596int));
    assert(at_row(s12, 6) == at_row(s13, 5));
    lemma_at_step_by(s13, 5, 107, 204, 3035, 1596, 48, 2666, 18357, -46705, 6783);
    let s14 = s13.update(4, (-46705int, 6783int));
    assert(at_row(s13, 5) == at_row(s14, 4));
    lemma_at_step_by(s14, 4, -1511, 255, -46705, 6783, 153, -94, 361, 43416, 11305);
    let s15 = s14.update(3, (43416int, 11305int));
    assert(at_row(s14, 4) == at_row(s15, 3));
    lemma_at_step_by(s15, 3, 3617, 340, 43416, 11305, 85, 15591, -317954, 922191, 45220);
    let s16 = s15.update(2, (922191int, 45220int));
    assert(at_row(s15, 3) == at_row(s16, 2));
    lemma_at_step_by(s16, 2, -3617, 510, 922191, 45220, 28900, 347, 19075, -43867, 798);
    let s17 = s16.update(1, (-43867int, 798int));
    assert(at_row(s16, 2) == at_row(s17, 1));
    lemma_at_step_by(s17, 1, 0, 1, -43867, 798, 1, -347, 19075, 43867, 798);
    let s18 = s17.update(0, (43867int, 798int));
    assert(at_row(s17, 1) == at_row(s18, 0));
    assert(at_row(s18, 0) == s18);
}

/// Row 19 of the Akiyama-Tanigawa triangle, step by step.
#[verifier::nonlinear]
proof fn lemma_triangle_row_19()
    ensures
        at_rows(19).len() == 20,
        at_rows(19)[0] == (0int, 1int),
        at_rows(19)[1] == (43867int, 798int),
        at_rows(19)[2] == (-43867int, 532int),
        at_rows(19)[3] == (1623817int, 33915int),
        at_rows(19)[4] == (-220565int, 27132int),
        at_rows(19)[5] == (-47569int, 9044int),
        at_rows(19)[6] == (7179int, 2584int),
        at_rows(19)[7] == (441824int, 1322685int),
        at_rows(19)[8] == (-74976int, 146965int),
        at_rows(19)[9] == (-105155int, 1939938int),
        at_rows(19)[10] == (38555int, 352716int),
        at_rows(19)[11] == (9643int, 293930int),
        at_rows(19)[12] == (-7423int, 271320int),
        at_rows(19)[13] == (-343int, 12920int),
        at_rows(19)[14] == (-7int, 15504int),
        at_rows(19)[15] == (352int, 14535int),
        at_rows(19)[16] == (34int, 855int),
        at_rows(19)[17] == (9int, 190int),
        at_rows(19)[18] == (1int, 20int),
        at_rows(19)[19] == (1int, 20int),
{
    lemma_triangle_row_18();
    let s0 = at_rows(18).push((1int, 20int));
    assert(at_rows(19) == at_row(s0, 19));
    lemma_at_step_by(s0, 19, 1, 19, 1, 20, 19, 1, 0, 1, 20);
    let s1 = s0.update(18, (1int, 20int));
    assert(at_row(s0, 19) == at_row(s1, 18));
    lemma_at_step_by(s1, 18, 1, 19, 1, 20, 2, -21, 1, 9, 190);
    let s2 = s1.update(17, (9int, 190int));
    assert(at_row(s1, 18) == at_row(s2, 17));
    lemma_at_step_by(s2, 17, 17, 342, 9, 190, 76, -176, 7, 34, 855);
    let s3 = s2.update(16, (34int, 855int));
    assert(at_row(s2, 17) == at_row(s3, 16));
    lemma_at_step_by(s3, 16, 40, 969, 34, 855, 57, 1693, -41, 352, 14535);
    let s4 = s3.update(15, (352int, 14535int));
    assert(at_row(s3, 16) == at_row(s4, 15));
    lemma_at_step_by(s4, 15, 125, 5168, 352, 14535, 4845, -2215, -1, -7, 15504);
    let s5 = s4.update(14, (-7int, 15504int));
    assert(at_row(s4, 15) == at_row(s5, 14));
    lemma_at_step_by(s5, 14, -91, 38760, -7, 15504, 46512, 113, 3, -343, 12920);
    let s6 = s5.update(13, (-343int, 12920int));
    assert(at_row(s5, 14) == at_row(s6, 13));
    lemma_at_step_by(s6, 13, -3887, 135660, -343, 12920, 6460, 62393, 1707, -7423, 271320);
    let s7 = s6.update(12, (-7423int, 271320int));
    assert(at_row(s6, 13) == at_row(s7, 12));
    lemma_at_step_by(s7, 12, -517, 20995, -7423, 271320, 19380, -137653, 4516, 9643, 293930);
    let s8 = s7.update(11, (9643int, 293930int));
    assert(at_row(s7, 12) == at_row(s8, 11));
    lemma_at_step_by(s8, 11, 10769, 251940, 9643, 293930, 209950, -105673, 11551, 38555, 352716);
    let s9 = s8.update(10, (38555int, 352716int));
    assert(at_row(s8, 11) == at_row(s9, 10));
    lemma_at_step_by(s9, 10, 9597, 92378, 38555, 352716, 16796, -35015, -1898, -105155, 1939938);
    let s10 = s9.update(9, (-105155int, 1939938int));
    assert(at_row(s9, 10) == at_row(s10, 9));
    lemma_at_step_by(s10, 9, -51219, 461890, -105155, 1939938, 6096948, 70309, 35869, -74976, 146965);
    let s11 = s10.update(8, (-74976int, 146965int));
    assert(at_row(s10, 9) == at_row(s11, 8));
    lemma_at_step_by(s11, 8, -88508, 188955, -74976, 146965, 20995, 430454, -143787, 441824, 1322685);
    let s12 = s11.update(7, (441824int, 1322685int));
    assert(at_row(s11, 8) == at_row(s12, 7));
    lemma_at_step_by(s12, 7, 1104901, 1511640, 441824, 1322685, 773770725, -469, 1303, 7179, 2584);
    let s13 = s12.update(6, (7179int, 2584int));
    assert(at_row(s12, 7) == at_row(s13, 6));
    lemma_at_step_by(s13, 6, 3035, 1596, 7179, 2584, 456, 2595, 13649, -47569, 9044);
    let s14 = s13.update(5, (-47569int, 9044int));
    assert(at_row(s13, 6) == at_row(s14, 5));
    lemma_at_step_by(s14, 5, -46705, 6783, -47569, 9044, 2261, -5513, -44817, -220565, 27132);
    let s15 = s14.update(4, (-220565int, 27132int));
    assert(at_row(s14, 5) == at_row(s15, 4));
    lemma_at_step_by(s15, 4, 43416, 11305, -220565, 27132, 9044, -6497, 311070, 1623817, 33915);
    let s16 = s15.update(3, (1623817int, 33915int));
    assert(at_row(s15, 4) == at_row(s16, 3));
    lemma_at_step_by(s16, 3, 922191, 45220, 1623817, 33915, 2882775, 81, 6679, -43867, 532);
    let s17 = s16.update(2, (-43867int, 532int));
    assert(at_row(s16, 3) == at_row(s17, 2));
    lemma_at_step_by(s17, 2, -43867, 798, -43867, 532, 532, -347, 19075, 43867, 798);
    let s18 = s17.update(1, (43867int, 798int));
    assert(at_row(s17, 2) == at_row(s18, 1));
    lemma_at_step_by(s18, 1, 43867, 798, 43867, 798, 636804, 0, 1, 0, 1);
    let s19 = s18.update(0, (0int, 1int));
    assert(at_row(s18, 1) == at_row(s19, 0));
    assert(at_row(s19, 0) == s19);
}

/// Row 20 of the Akiyama-Tanigawa triangle, step by step.
#[verifier::nonlinear]
proof fn lemma_triangle_row_20()
    ensures
        at_rows(20).len() == 21,
        at_rows(20)[0] == (-174611int, 330int),
        at_rows(20)[1] == (174611int, 330int),
        at_rows(20)[2] == (-6132631int, 29260int),
        at_rows(20)[3] == (-276356int, 21945int),
        at_rows(20)[4] == (181300int, 3553int),
        at_rows(20)[5] == (-5472055int, 298452int),
        at_rows(20)[6] == (-563801int, 255816int),
        at_rows(20)[7] == (98908int, 31977int),
        at_rows(20)[8] == (-170073int, 3233230int),
        at_rows(20)[9] == (-326115int, 646646int),
        at_rows(20)[10] == (-1331int, 352716int),
        at_rows(20)[11] == (3223int, 29393int),
        at_rows(20)[12] == (169int, 7140int),
        at_rows(20)[13] == (-377int, 12920int),
        at_rows(20)[14] == (-885int, 36176int),
        at_rows(20)[15] == (8int, 6783int),
        at_rows(20)[16] == (289int, 11970int),
        at_rows(20)[17] == (51int, 1330int),
        at_rows(20)[18] == (19int, 420int),
        at_rows(20)[19] == (1int, 21int),
        at_rows(20)[20] == (1int, 21int),
{
    lemma_triangle_row_19();
    let s0 = at_rows(19).push((1int, 21int));
    assert(at_rows(20) == at_row(s0, 20));
    lemma_at_step_by(s0, 20, 1, 20, 1, 21, 20, 1, 0, 1, 21);
    let s1 = s0.update(19, (1int, 21int));
    assert(at_row(s0, 20) == at_row(s1, 19));
    lemma_at_step_by(s1, 19, 1, 20, 1, 21, 1, 199, -9, 19, 420);
    let s2 = s1.update(18, (19int, 420int));
    assert(at_row(s1, 19) == at_row(s2, 18));
    lemma_at_step_by(s2, 18, 9, 190, 19, 420, 60, -339, 13, 51, 1330);
    let s3 = s2.update(17, (51int, 1330int));
    assert(at_row(s2, 18) == at_row(s3, 17));
    lemma_at_step_by(s3, 17, 34, 855, 51, 1330, 95, -1781, 43, 289, 11970);
    let s4 = s3.update(16, (289int, 11970int));
    assert(at_row(s3, 17) == at_row(s4, 16));
    lemma_at_step_by(s4, 16, 352, 14535, 289, 11970, 25650, 848, -1, 8, 6783);
    let s5 = s4.update(15, (8int, 6783int));
    assert(at_row(s4, 16) == at_row(s5, 15));
    lemma_at_step_by(s5, 15, -7, 15504, 8, 6783, 2907, 13939, 341, -885, 36176);
    let s6 = s5.update(14, (-885int, 36176int));
    assert(at_row(s5, 15) == at_row(s6, 14));
    lemma_at_step_by(s6, 14, -343, 12920, -885, 36176, 36176, -2913, -85, -377, 12920);
    let s7 = s6.update(13, (-377int, 12920int));
    assert(at_row(s6, 14) == at_row(s7, 13));
    lemma_at_step_by(s7, 13, -7423, 271320, -377, 12920, 490960, 169, -4, 169, 7140);
    let s8 = s7.update(12, (169int, 7140int));
    assert(at_row(s7, 13) == at_row(s8, 12));
    lemma_at_step_by(s8, 12, 9643, 293930, 169, 7140, 71400, 13935, -1528, 3223, 29393);
    let s9 = s8.update(11, (3223int, 29393int));
    assert(at_row(s8, 12) == at_row(s9, 11));
    lemma_at_step_by(s9, 11, 38555, 352716, 3223, 29393, 29393, 265, 1, -1331, 352716);
    let s10 = s9.update(10, (-1331int, 352716int));
    assert(at_row(s9, 11) == at_row(s10, 10));
    lemma_at_step_by(s10, 10, -105155, 1939938, -1331, 352716, 1058148, 151355, 76331, -326115, 646646);
    let s11 = s10.update(9, (-326115int, 646646int));
    assert(at_row(s10, 10) == at_row(s11, 9));
    lemma_at_step_by(s11, 9, -74976, 146965, -326115, 646646, 29393, -675417, -35528, -170073, 3233230);
    let s12 = s11.update(8, (-170073int, 3233230int));
    assert(at_row(s11, 9) == at_row(s12, 8));
    lemma_at_step_by(s12, 8, 441824, 1322685, -170073, 3233230, 133738150, 6520, -20167, 98908, 31977);
    let s13 = s12.update(7, (98908int, 31977int));
    assert(at_row(s12, 8) == at_row(s13, 7));
    lemma_at_step_by(s13, 7, 7179, 2584, 98908, 31977, 323, -83729, -184533, -563801, 255816);
    let s14 = s13.update(6, (-563801int, 255816int));
    assert(at_row(s13, 7) == at_row(s14, 6));
    lemma_at_step_by(s14, 6, -47569, 9044, -563801, 255816, 7752, -139735, -2562012, -5472055, 298452);
    let s15 = s14.update(5, (-5472055int, 298452int));
    assert(at_row(s14, 6) == at_row(s15, 5));
    lemma_at_step_by(s15, 5, -220565, 27132, -5472055, 298452, 2279088, -1282, 65417, 181300, 3553);
    let s16 = s15.update(4, (181300int, 3553int));
    assert(at_row(s15, 5) == at_row(s16, 4));
    lemma_at_step_by(s16, 4, 1623817, 33915, 181300, 3553, 5491, 9214, 116033, -276356, 21945);
    let s17 = s16.update(3, (-276356int, 21945int));
    assert(at_row(s16, 4) == at_row(s17, 3));
    lemma_at_step_by(s17, 3, -43867, 532, -276356, 21945, 399, 11969, 2508594, -6132631, 29260);
    let s18 = s17.update(2, (-6132631int, 29260int));
    assert(at_row(s17, 3) == at_row(s18, 2));
    lemma_at_step_by(s18, 2, 43867, 798, -6132631, 29260, 70756, 161, -85189, 174611, 330);
    let s19 = s18.update(1, (174611int, 330int));
    assert(at_row(s18, 2) == at_row(s19, 1));
    lemma_at_step_by(s19, 1, 0, 1, 174611, 330, 1, -161, -85189, -174611, 330);
    let s20 = s19.update(0, (-174611int, 330int));
    assert(at_row(s19, 1) == at_row(s20, 0));
    assert(at_row(s20, 0) == s20);
}

/// Row 21 of the Akiyama-Tanigawa triangle, step by step.
#[verifier::nonlinear]
proof fn lemma_triangle_row_21()
    ensures
        at_rows(21).len() == 22,
        at_rows(21)[0] == (0int, 1int),
        at_rows(21)[1] == (-174611int, 330int),
        at_rows(21)[2] == (174611int, 220int),
        at_rows(21)[3] == (-10405289int, 21945int),
        at_rows(21)[4] == (619991int, 5852int),
        at_rows(21)[5] == (14842153int, 497420int),
        at_rows(21)[6] == (-9937529int, 426360int),
        at_rows(21)[7] == (179992int, 159885int),
        at_rows(21)[8] == (52449int, 17765int),
        at_rows(21)[9] == (-738425int, 1939938int),
        at_rows(21)[10] == (-164455int, 352716int),
        at_rows(21)[11] == (3567int, 92378int),
        at_rows(21)[12] == (21177int, 198968int),
        at_rows(21)[13] == (6601int, 426360int),
        at_rows(21)[14] == (-5165int, 170544int),
        at_rows(21)[15] == (-5024int, 223839int),
        at_rows(21)[16] == (34int, 13167int),
        at_rows(21)[17] == (351int, 14630int),
        at_rows(21)[18] == (57int, 1540int),
        at_rows(21)[19] == (10int, 231int),
        at_rows(21)[20] == (1int, 22int),
        at_rows(21)[21] == (1int, 22int),
{
    lemma_triangle_row_20();
    let s0 = at_rows(20).push((1int, 22int));
    assert(at_rows(21) == at_row(s0, 21));
    lemma_at_step_by(s0, 21, 1, 21, 1, 22, 21, 1, 0, 1, 22);
    let s1 = s0.update(20, (1int, 22int));
    assert(at_row(s0, 21) == at_row(s1, 20));
    lemma_at_step_by(s1, 20, 1, 21, 1, 22, 2, -23, 1, 10, 231);
    let s2 = s1.update(19, (10int, 231int));
    assert(at_row(s1, 20) == at_row(s2, 19));
    lemma_at_step_by(s2, 19, 19, 420, 10, 231, 63, -27, 1, 57, 1540);
    let s3 = s2.update(18, (57int, 1540int));
    assert(at_row(s2, 19) == at_row(s3, 18));
    lemma_at_step_by(s3, 18, 51, 1330, 57, 1540, 140, -1959, 47, 351, 14630);
    let s4 = s3.update(17, (351int, 14630int));
    assert(at_row(s3, 18) == at_row(s4, 17));
    lemma_at_step_by(s4, 17, 289, 11970, 351, 14630, 13300, 5809, -15, 34, 13167);
    let s5 = s4.update(16, (34int, 13167int));
    assert(at_row(s4, 17) == at_row(s5, 16));
    lemma_at_step_by(s5, 16, 8, 6783, 34, 13167, 399, 101182, 2271, -5024, 223839);
    let s6 = s5.update(15, (-5024int, 223839int));
    assert(at_row(s5, 16) == at_row(s6, 15));
    lemma_at_step_by(s6, 15, -885, 36176, -5024, 223839, 47481, -60293, -1826, -5165, 170544);
    let s7 = s6.update(14, (-5165int, 170544int));
    assert(at_row(s6, 15) == at_row(s7, 14));
    lemma_at_step_by(s7, 14, -377, 12920, -5165, 170544, 5168, 21121, -327, 6601, 426360);
    let s8 = s7.update(13, (6601int, 426360int));
    assert(at_row(s7, 14) == at_row(s8, 13));
    lemma_at_step_by(s8, 13, 169, 7140, 6601, 426360, 15300, 53169, -5659, 21177, 198968);
    let s9 = s8.update(12, (21177int, 198968int));
    assert(at_row(s8, 13) == at_row(s9, 12));
    lemma_at_step_by(s9, 12, 3223, 29393, 21177, 198968, 63308, 1269, -49, 3567, 92378);
    let s10 = s9.update(11, (3567int, 92378int));
    assert(at_row(s9, 12) == at_row(s10, 11));
    lemma_at_step_by(s10, 11, -1331, 352716, 3567, 92378, 92378, -171439, -79934, -164455, 352716);
    let s11 = s10.update(10, (-164455int, 352716int));
    assert(at_row(s10, 11) == at_row(s11, 10));
    lemma_at_step_by(s11, 10, -326115, 646646, -164455, 352716, 117572, 452791, 172352, -738425, 1939938);
    let s12 = s11.update(9, (-738425int, 1939938int));
    assert(at_row(s11, 10) == at_row(s12, 9));
    lemma_at_step_by(s12, 9, -170073, 3233230, -738425, 1939938, 353068716, -21, 62, 52449, 17765);
    let s13 = s12.update(8, (52449int, 17765int));
    assert(at_row(s12, 9) == at_row(s13, 8));
    lemma_at_step_by(s13, 8, 98908, 31977, 52449, 17765, 3553, 59113, -66547, 179992, 159885);
    let s14 = s13.update(7, (179992int, 159885int));
    assert(at_row(s13, 8) == at_row(s14, 7));
    lemma_at_step_by(s14, 7, -563801, 255816, 179992, 159885, 95931, -73289, -1708208, -9937529, 426360);
    let s15 = s14.update(6, (-9937529int, 426360int));
    assert(at_row(s14, 7) == at_row(s15, 6));
    lemma_at_step_by(s15, 6, -5472055, 298452, -9937529, 426360, 255816, 228797, -6826907, 14842153, 497420);
    let s16 = s15.update(5, (14842153int, 497420int));
    assert(at_row(s15, 6) == at_row(s16, 5));
    lemma_at_step_by(s16, 5, 181300, 3553, 14842153, 497420, 302005, -237, 25109, 619991, 5852);
    let s17 = s16.update(4, (619991int, 5852int));
    assert(at_row(s16, 5) == at_row(s17, 4));
    lemma_at_step_by(s17, 4, -276356, 21945, 619991, 5852, 5852, -3149, -1493108, -10405289, 21945);
    let s18 = s17.update(3, (-10405289int, 21945int));
    assert(at_row(s17, 4) == at_row(s18, 3));
    lemma_at_step_by(s18, 3, -6132631, 29260, -10405289, 21945, 2918685, 51, -40478, 174611, 220);
    let s19 = s18.update(2, (174611int, 220int));
    assert(at_row(s18, 3) == at_row(s19, 2));
    lemma_at_step_by(s19, 2, 174611, 330, 174611, 220, 220, -161, -85189, -174611, 330);
    let s20 = s19.update(1, (-174611int, 330int));
    assert(at_row(s19, 2) == at_row(s20, 1));
    lemma_at_step_by(s20, 1, -174611, 330, -174611, 330, 108900, 0, 1, 0, 1);
    let s21 = s20.update(0, (0int, 1int));
    assert(at_row(s20, 1) == at_row(s21, 0));
    assert(at_row(s21, 0) == s21);
}

/// Row 22 of the Akiyama-Tanigawa triangle, step by step.
#[verifier::nonlinear]
proof fn lemma_triangle_row_22()
    ensures
        at_rows(22).len() == 23,
        at_rows(22)[0] == (854513int, 138int),
        at_rows(22)[1] == (-854513int, 138int),
        at_rows(22)[2] == (12988703int, 5060int),
        at_rows(22)[3] == (-21376int, 345int),
        at_rows(22)[4] == (-46300675int, 100947int),
        at_rows(22)[5] == (79819919int, 403788int),
        at_rows(22)[6] == (-91434539int, 29418840int),
        at_rows(22)[7] == (-84078428int, 3677355int),
        at_rows(22)[8] == (3255471int, 817190int),
        at_rows(22)[9] == (410187int, 163438int),
        at_rows(22)[10] == (-25619891int, 40562340int),
        at_rows(22)[11] == (-1381937int, 3380195int),
        at_rows(22)[12] == (2494609int, 34321980int),
        at_rows(22)[13] == (988897int, 9806280int),
        at_rows(22)[14] == (10825int, 1307504int),
        at_rows(22)[15] == (-2520int, 81719int),
        at_rows(22)[16] == (-12427int, 605682int),
        at_rows(22)[17] == (255int, 67298int),
        at_rows(22)[18] == (361int, 15180int),
        at_rows(22)[19] == (190int, 5313int),
        at_rows(22)[20] == (21int, 506int),
        at_rows(22)[21] == (1int, 23int),
        at_rows(22)[22] == (1int, 23int),
{
    lemma_triangle_row_21();
    let s0 = at_rows(21).push((1int, 23int));
    assert(at_rows(22) == at_row(s0, 22));
    lemma_at_step_by(s0, 22, 1, 22, 1, 23, 22, 1, 0, 1, 23);
    let s1 = s0.update(21, (1int, 23int));
    assert(at_row(s0, 22) == at_row(s1, 21));
    lemma_at_step_by(s1, 21, 1, 22, 1, 23, 1, 241, -10, 21, 506);
    let s2 = s1.update(20, (21int, 506int));
    assert(at_row(s1, 21) == at_row(s2, 20));
    lemma_at_step_by(s2, 20, 10, 231, 21, 506, 22, -755, 27, 190, 5313);
    let s3 = s2.update(19, (190int, 5313int));
    assert(at_row(s2, 20) == at_row(s3, 19));
    lemma_at_step_by(s3, 19, 57, 1540, 190, 5313, 539, 841, -20, 361, 15180);
    let s4 = s3.update(18, (361int, 15180int));
    assert(at_row(s3, 19) == at_row(s4, 18));
    lemma_at_step_by(s4, 18, 351, 14630, 361, 15180, 3300, 15307, -58, 255, 67298);
    let s5 = s4.update(17, (255int, 67298int));
    assert(at_row(s4, 18) == at_row(s5, 17));
    lemma_at_step_by(s5, 17, 34, 13167, 255, 67298, 1463, -127453, -2615, -12427, 605682);
    let s6 = s5.update(16, (-12427int, 605682int));
    assert(at_row(s5, 17) == at_row(s6, 16));
    lemma_at_step_by(s6, 16, -5024, 223839, -12427, 605682, 1659042, 34990, 1079, -2520, 81719);
    let s7 = s6.update(15, (-2520int, 81719int));
    assert(at_row(s6, 16) == at_row(s7, 15));
    lemma_at_step_by(s7, 15, -5165, 170544, -2520, 81719, 10659, -68727, 569, 10825, 1307504);
    let s8 = s7.update(14, (10825int, 1307504int));
    assert(at_row(s7, 15) == at_row(s8, 14));
    lemma_at_step_by(s8, 14, 6601, 426360, 10825, 1307504, 56848, -4510367, 454840, 988897, 9806280);
    let s9 = s8.update(13, (988897int, 9806280int));
    assert(at_row(s8, 14) == at_row(s9, 13));
    lemma_at_step_by(s9, 13, 21177, 198968, 988897, 9806280, 56848, -2853491, 207399, 2494609, 34321980);
    let s10 = s9.update(12, (2494609int, 34321980int));
    assert(at_row(s9, 13) == at_row(s10, 12));
    lemma_at_step_by(s10, 12, 3567, 92378, 2494609, 34321980, 937992, 985927, 403080, -1381937, 3380195);
    let s11 = s10.update(11, (-1381937int, 3380195int));
    assert(at_row(s10, 12) == at_row(s11, 11));
    lemma_at_step_by(s11, 11, -164455, 352716, -1381937, 3380195, 29393, 5941189, 3752560, -25619891, 40562340);
    let s12 = s11.update(10, (-25619891int, 40562340int));
    assert(at_row(s11, 11) == at_row(s12, 10));
    lemma_at_step_by(s12, 10, -738425, 1939938, -25619891, 40562340, 481457340, 7443, -18680, 410187, 163438);
    let s13 = s12.update(9, (410187int, 163438int));
    assert(at_row(s12, 10) == at_row(s13, 9));
    lemma_at_step_by(s13, 9, 52449, 17765, 410187, 163438, 3553, -391469, 1559510, 3255471, 817190);
    let s14 = s13.update(8, (3255471int, 817190int));
    assert(at_row(s13, 9) == at_row(s14, 8));
    lemma_at_step_by(s14, 8, 179992, 159885, 3255471, 817190, 35530, 1241638, 28388603, -84078428, 3677355);
    let s15 = s14.update(7, (-84078428int, 3677355int));
    assert(at_row(s14, 8) == at_row(s15, 7));
    lemma_at_step_by(s15, 7, -9937529, 426360, -84078428, 3677355, 53295, 8998501, 27967581, -91434539, 29418840);
    let s16 = s15.update(6, (-91434539int, 29418840int));
    assert(at_row(s15, 7) == at_row(s16, 6));
    lemma_at_step_by(s16, 6, 14842153, 497420, -91434539, 29418840, 36240600, -101449, 20054214, 79819919, 403788);
    let s17 = s16.update(5, (79819919int, 403788int));
    assert(at_row(s16, 6) == at_row(s17, 5));
    lemma_at_step_by(s17, 5, 619991, 5852, 79819919, 403788, 23408, 13691, 6279558, -46300675, 100947);
    let s18 = s17.update(4, (-46300675int, 100947int));
    assert(at_row(s17, 5) == at_row(s18, 4));
    lemma_at_step_by(s18, 4, -10405289, 21945, -46300675, 100947, 6421107, 74, 4585, -21376, 345);
    let s19 = s18.update(3, (-21376int, 345int));
    assert(at_row(s18, 4) == at_row(s19, 3));
    lemma_at_step_by(s19, 3, 174611, 220, -21376, 345, 15, 2107, -5408537, 12988703, 5060);
    let s20 = s19.update(2, (12988703int, 5060int));
    assert(at_row(s19, 3) == at_row(s20, 2));
    lemma_at_step_by(s20, 2, -174611, 330, 12988703, 5060, 12100, -65, -402488, -854513, 138);
    let s21 = s20.update(1, (-854513int, 138int));
    assert(at_row(s20, 2) == at_row(s21, 1));
    lemma_at_step_by(s21, 1, 0, 1, -854513, 138, 1, 65, -402488, 854513, 138);
    let s22 = s21.update(0, (854513int, 138int));
    assert(at_row(s21, 1) == at_row(s22, 0));
    assert(at_row(s22, 0) == s22);
}

/// Row 23 of the Akiyama-Tanigawa triangle, step by step.
#[verifier::nonlinear]
proof fn lemma_triangle_row_23()
    ensures
        at_rows(23).len() == 24,
        at_rows(23)[0] == (0int, 1int),
        at_rows(23)[1] == (854513int, 138int),
        at_rows(23)[2] == (-854513int, 92int),
        at_rows(23)[3] == (21491081int, 3795int),
        at_rows(23)[4] == (-4486325int, 3036int),
        at_rows(23)[5] == (-21955485int, 134596int),
        at_rows(23)[6] == (25942189int, 115368int),
        at_rows(23)[7] == (-129558928int, 3677355int),
        at_rows(23)[8] == (-7542618int, 408595int),
        at_rows(23)[9] == (155735int, 25806int),
        at_rows(23)[10] == (169939int, 89148int),
        at_rows(23)[11] == (-5441531int, 6760390int),
        at_rows(23)[12] == (-2132689int, 6240360int),
        at_rows(23)[13] == (970543int, 9806280int),
        at_rows(23)[14] == (1967int, 20976int),
        at_rows(23)[15] == (7456int, 3677355int),
        at_rows(23)[16] == (-6698int, 216315int),
        at_rows(23)[17] == (-6291int, 336490int),
        at_rows(23)[18] == (171int, 35420int),
        at_rows(23)[19] == (125int, 5313int),
        at_rows(23)[20] == (35int, 1012int),
        at_rows(23)[21] == (11int, 276int),
        at_rows(23)[22] == (1int, 24int),
        at_rows(23)[23] == (1int, 24int),
{
    lemma_triangle_row_22();
    let s0 = at_rows(22).push((1int, 24int));
    assert(at_rows(23) == at_row(s0, 23));
    lemma_at_step_by(s0, 23, 1, 23, 1, 24, 23, 1, 0, 1, 24);
    let s1 = s0.update(22, (1int, 24int));
    assert(at_row(s0, 23) == at_row(s1, 22));
    lemma_at_step_by(s1, 22, 1, 23, 1, 24, 2, -25, 1, 11, 276);
    let s2 = s1.update(21, (11int, 276int));
    assert(at_row(s1, 22) == at_row(s2, 21));
    lemma_at_step_by(s2, 21, 21, 506, 11, 276, 138, 347, -12, 35, 1012);
    let s3 = s2.update(20, (35int, 1012int));
    assert(at_row(s2, 21) == at_row(s3, 20));
    lemma_at_step_by(s3, 20, 190, 5313, 35, 1012, 1012, -85, 2, 125, 5313);
    let s4 = s3.update(19, (125int, 5313int));
    assert(at_row(s3, 20) == at_row(s4, 19));
    lemma_at_step_by(s4, 19, 361, 15180, 125, 5313, 2277, 10771, -52, 171, 35420);
    let s5 = s4.update(18, (171int, 35420int));
    assert(at_row(s4, 19) == at_row(s5, 18));
    lemma_at_step_by(s5, 18, 255, 67298, 171, 35420, 7084, 92159, 1723, -6291, 336490);
    let s6 = s5.update(17, (-6291int, 336490int));
    assert(at_row(s5, 18) == at_row(s6, 17));
    lemma_at_step_by(s6, 17, -12427, 605682, -6291, 336490, 942172, -107447, -3327, -6698, 216315);
    let s7 = s6.update(16, (-6698int, 216315int));
    assert(at_row(s6, 17) == at_row(s7, 16));
    lemma_at_step_by(s7, 16, -2520, 81719, -6698, 216315, 4807, 1766176, -3581, 7456, 3677355);
    let s8 = s7.update(15, (7456int, 3677355int));
    assert(at_row(s7, 16) == at_row(s8, 15));
    lemma_at_step_by(s8, 15, 10825, 1307504, 7456, 3677355, 229221795, 3935, -369, 1967, 20976);
    let s9 = s8.update(14, (1967int, 20976int));
    assert(at_row(s8, 15) == at_row(s9, 14));
    lemma_at_step_by(s9, 14, 988897, 9806280, 1967, 20976, 20976, 1250167, -123731, 970543, 9806280);
    let s10 = s9.update(13, (970543int, 9806280int));
    assert(at_row(s9, 14) == at_row(s10, 13));
    lemma_at_step_by(s10, 13, 2494609, 34321980, 970543, 9806280, 53934540, 2499911, 854363, -2132689, 6240360);
    let s11 = s10.update(12, (-2132689int, 6240360int));
    assert(at_row(s10, 13) == at_row(s11, 12));
    lemma_at_step_by(s11, 12, -1381937, 3380195, -2132689, 6240360, 3120180, -3276751, -2637502, -5441531, 6760390);
    let s12 = s11.update(11, (-5441531int, 6760390int));
    assert(at_row(s11, 12) == at_row(s12, 11));
    lemma_at_step_by(s12, 11, -25619891, 40562340, -5441531, 6760390, 3075977450, 4459, -8500, 169939, 89148);
    let s13 = s12.update(10, (169939int, 89148int));
    assert(at_row(s12, 11) == at_row(s13, 10));
    lemma_at_step_by(s13, 10, 410187, 163438, 169939, 89148, 564604, -7693, 46426, 155735, 25806);
    let s14 = s13.update(9, (155735int, 25806int));
    assert(at_row(s13, 10) == at_row(s14, 9));
    lemma_at_step_by(s14, 9, 3255471, 817190, 155735, 25806, 51612, -79752, -1472213, -7542618, 408595);
    let s15 = s14.update(8, (-7542618int, 408595int));
    assert(at_row(s14, 9) == at_row(s15, 8));
    lemma_at_step_by(s15, 8, -84078428, 3677355, -7542618, 408595, 408595, -254257, -8957869, -129558928, 3677355);
    let s16 = s15.update(7, (-129558928int, 3677355int));
    assert(at_row(s15, 8) == at_row(s16, 7));
    lemma_at_step_by(s16, 7, -91434539, 29418840, -129558928, 3677355, 937725525, 2557, -574979, 25942189, 115368);
    let s17 = s16.update(6, (25942189int, 115368int));
    assert(at_row(s16, 7) == at_row(s17, 6));
    lemma_at_step_by(s17, 6, 79819919, 403788, 25942189, 115368, 346104, 4383, 714961, -21955485, 134596);
    let s18 = s17.update(5, (-21955485int, 134596int));
    assert(at_row(s17, 6) == at_row(s18, 5));
    lemma_at_step_by(s18, 5, -46300675, 100947, -21955485, 134596, 4475317, -557, -823084, -4486325, 3036);
    let s19 = s18.update(4, (-4486325int, 3036int));
    assert(at_row(s18, 5) == at_row(s19, 4));
    lemma_at_step_by(s19, 4, -21376, 345, -4486325, 3036, 276, -949, 5374186, 21491081, 3795);
    let s20 = s19.update(3, (21491081int, 3795int));
    assert(at_row(s19, 4) == at_row(s20, 3));
    lemma_at_step_by(s20, 3, 12988703, 5060, 21491081, 3795, 208725, 27, 250781, -854513, 92);
    let s21 = s20.update(2, (-854513int, 92int));
    assert(at_row(s20, 3) == at_row(s21, 2));
    lemma_at_step_by(s21, 2, -854513, 138, -854513, 92, 92, 65, -402488, 854513, 138);
    let s22 = s21.update(1, (854513int, 138int));
    assert(at_row(s21, 2) == at_row(s22, 1));
    lemma_at_step_by(s22, 1, 854513, 138, 854513, 138, 19044, 0, 1, 0, 1);
    let s23 = s22.update(0, (0int, 1int));
    assert(at_row(s22, 1) == at_row(s23, 0));
    assert(at_row(s23, 0) == s23);
}

/// Row 24 of the Akiyama-Tanigawa triangle, step by step.
#[verifier::nonlinear]
proof fn lemma_triangle_row_24()
    ensures
        at_rows(24).len() == 25,
        at_rows(24)[0] == (-236364091int, 2730int),
        at_rows(24)[1] == (236364091int, 2730int),
        at_rows(24)[2] == (-1552922421int, 41860int),
        at_rows(24)[3] == (32209348int, 10465int),
        at_rows(24)[4] == (337992250int, 69069int),
        at_rows(24)[5] == (-678649375int, 276276int),
        at_rows(24)[6] == (1108107805int, 4499352int),
        at_rows(24)[7] == (4638284int, 24453int),
        at_rows(24)[8] == (-626165937int, 10623470int),
        at_rows(24)[9] == (-25306815int, 2124694int),
        at_rows(24)[10] == (8374289int, 1158924int),
        at_rows(24)[11] == (120659int, 96577int),
        at_rows(24)[12] == (-2836327int, 3120180int),
        at_rows(24)[13] == (-242333int, 891480int),
        at_rows(24)[14] == (8147int, 68816int),
        at_rows(24)[15] == (105272int, 1225785int),
        at_rows(24)[16] == (-289int, 86526int),
        at_rows(24)[17] == (-1479int, 48070int),
        at_rows(24)[18] == (-361int, 21252int),
        at_rows(24)[19] == (152int, 26565int),
        at_rows(24)[20] == (147int, 6325int),
        at_rows(24)[21] == (77int, 2300int),
        at_rows(24)[22] == (23int, 600int),
        at_rows(24)[23] == (1int, 25int),
        at_rows(24)[24] == (1int, 25int),
{
    lemma_triangle_row_23();
    let s0 = at_rows(23).push((1int, 25int));
    assert(at_rows(24) == at_row(s0, 24));
    lemma_at_step_by(s0, 24, 1, 24, 1, 25, 24, 1, 0, 1, 25);
    let s1 = s0.update(23, (1int, 25int));
    assert(at_row(s0, 24) == at_row(s1, 23));
    lemma_at_step_by(s1, 23, 1, 24, 1, 25, 1, 287, -11, 23, 600);
    let s2 = s1.update(22, (23int, 600int));
    assert(at_row(s1, 23) == at_row(s2, 22));
    lemma_at_step_by(s2, 22, 11, 276, 23, 600, 72, -687, 23, 77, 2300);
    let s3 = s2.update(21, (77int, 2300int));
    assert(at_row(s2, 22) == at_row(s3, 21));
    lemma_at_step_by(s3, 21, 35, 1012, 77, 2300, 368, -1592, 37, 147, 6325);
    let s4 = s3.update(20, (147int, 6325int));
    assert(at_row(s3, 21) == at_row(s4, 20));
    lemma_at_step_by(s4, 20, 125, 5313, 147, 6325, 1265, -2272, 13, 152, 26565);
    let s5 = s4.update(19, (152int, 26565int));
    assert(at_row(s4, 20) == at_row(s5, 19));
    lemma_at_step_by(s5, 19, 171, 35420, 152, 26565, 44275, -9949, -169, -361, 21252);
    let s6 = s5.update(18, (-361int, 21252int));
    assert(at_row(s5, 19) == at_row(s6, 18));
    lemma_at_step_by(s6, 18, -6291, 336490, -361, 21252, 148764, 19241, 592, -1479, 48070);
    let s7 = s6.update(17, (-1479int, 48070int));
    assert(at_row(s6, 18) == at_row(s7, 17));
    lemma_at_step_by(s7, 17, -6698, 216315, -1479, 48070, 120175, -29341, -98, -289, 86526);
    let s8 = s7.update(16, (-289int, 86526int));
    assert(at_row(s7, 17) == at_row(s8, 16));
    lemma_at_step_by(s8, 16, 7456, 3677355, -289, 86526, 259578, -350542, 30105, 105272, 1225785);
    let s9 = s8.update(15, (105272int, 1225785int));
    assert(at_row(s8, 16) == at_row(s9, 15));
    lemma_at_step_by(s9, 15, 1967, 20976, 105272, 1225785, 373635, -19605, 2321, 8147, 68816);
    let s10 = s9.update(14, (8147int, 68816int));
    assert(at_row(s9, 15) == at_row(s10, 14));
    lemma_at_step_by(s10, 14, 970543, 9806280, 8147, 68816, 756976, -10157, -2761, -242333, 891480);
    let s11 = s10.update(13, (-242333int, 891480int));
    assert(at_row(s10, 14) == at_row(s11, 13));
    lemma_at_step_by(s11, 13, -2132689, 6240360, -242333, 891480, 1782960, -439063, -399120, -2836327, 3120180);
    let s12 = s11.update(12, (-2836327int, 3120180int));
    assert(at_row(s11, 13) == at_row(s12, 12));
    lemma_at_step_by(s12, 12, -5441531, 6760390, -2836327, 3120180, 218412600, 2715, -3392, 120659, 96577);
    let s13 = s12.update(11, (120659int, 96577int));
    assert(at_row(s12, 12) == at_row(s13, 11));
    lemma_at_step_by(s13, 11, 169939, 89148, 120659, 96577, 7429, 89909, -649675, 8374289, 1158924);
    let s14 = s13.update(10, (8374289int, 1158924int));
    assert(at_row(s13, 11) == at_row(s14, 10));
    lemma_at_step_by(s14, 10, 155735, 25806, 8374289, 1158924, 14076, -1039403, -12380126, -25306815, 2124694);
    let s15 = s14.update(9, (-25306815int, 2124694int));
    assert(at_row(s14, 10) == at_row(s15, 9));
    lemma_at_step_by(s15, 9, -7542618, 408595, -25306815, 2124694, 81719, 4089447, 241039172, -626165937, 10623470);
    let s16 = s15.update(8, (-626165937int, 10623470int));
    assert(at_row(s15, 9) == at_row(s16, 8));
    lemma_at_step_by(s16, 8, -129558928, 3677355, -626165937, 10623470, 1597606450, -4042, 766693, 4638284, 24453);
    let s17 = s16.update(7, (4638284int, 24453int));
    assert(at_row(s16, 8) == at_row(s17, 7));
    lemma_at_step_by(s17, 7, 25942189, 115368, 4638284, 24453, 627, 49165, -12108437, 1108107805, 4499352);
    let s18 = s17.update(6, (1108107805int, 4499352int));
    assert(at_row(s17, 7) == at_row(s18, 6));
    lemma_at_step_by(s18, 6, -21955485, 134596, 1108107805, 4499352, 2191992, -119731, -294109399, -678649375, 276276);
    let s19 = s18.update(5, (-678649375int, 276276int));
    assert(at_row(s18, 6) == at_row(s19, 5));
    lemma_at_step_by(s19, 5, -4486325, 3036, -678649375, 276276, 12144, 32467, -158878721, 337992250, 69069);
    let s20 = s19.update(4, (337992250int, 69069int));
    assert(at_row(s19, 5) == at_row(s20, 4));
    lemma_at_step_by(s20, 4, 21491081, 3795, 337992250, 69069, 25047, 4492, -13825551, 32209348, 10465);
    let s21 = s20.update(3, (32209348int, 10465int));
    assert(at_row(s20, 4) == at_row(s21, 3));
    lemma_at_step_by(s21, 3, -854513, 92, 32209348, 10465, 23, 17219, 638790520, -1552922421, 41860);
    let s22 = s21.update(2, (-1552922421int, 41860int));
    assert(at_row(s21, 3) == at_row(s22, 2));
    lemma_at_step_by(s22, 2, 854513, 138, -1552922421, 41860, 2116, 241, -20865841, 236364091, 2730);
    let s23 = s22.update(1, (236364091int, 2730int));
    assert(at_row(s22, 2) == at_row(s23, 1));
    lemma_at_step_by(s23, 1, 0, 1, 236364091, 2730, 1, -241, -20865841, -236364091, 2730);
    let s24 = s23.update(0, (-236364091int, 2730int));
    assert(at_row(s23, 1) == at_row(s24, 0));
    assert(at_row(s24, 0) == s24);
}

/// Row 25 of the Akiyama-Tanigawa triangle, step by step.
#[verifier::nonlinear]
proof fn lemma_triangle_row_25()
    ensures
        at_rows(25).len() == 26,
        at_rows(25)[0] == (0int, 1int),
        at_rows(25)[1] == (-236364091int, 2730int),
        at_rows(25)[2] == (236364091int, 1820int),
        at_rows(25)[3] == (-2523785339int, 31395int),
        at_rows(25)[4] == (582059503int, 25116int),
        at_rows(25)[5] == (119063489int, 460460int),
        at_rows(25)[6] == (-328836059int, 131560int),
        at_rows(25)[7] == (11876842408int, 19684665int),
        at_rows(25)[8] == (249912591int, 2187185int),
        at_rows(25)[9] == (-3196365475int, 44618574int),
        at_rows(25)[10] == (-38510285int, 8112468int),
        at_rows(25)[11] == (609029int, 79534int),
        at_rows(25)[12] == (762863int, 1248072int),
        at_rows(25)[13] == (-194383int, 203320int),
        at_rows(25)[14] == (-943565int, 4635696int),
        at_rows(25)[15] == (1261664int, 9561123int),
        at_rows(25)[16] == (218314int, 2812095int),
        at_rows(25)[17] == (-4941int, 624910int),
        at_rows(25)[18] == (-399int, 13156int),
        at_rows(25)[19] == (-1063int, 69069int),
        at_rows(25)[20] == (427int, 65780int),
        at_rows(25)[21] == (2057int, 89700int),
        at_rows(25)[22] == (253int, 7800int),
        at_rows(25)[23] == (12int, 325int),
        at_rows(25)[24] == (1int, 26int),
        at_rows(25)[25] == (1int, 26int),
{
    lemma_triangle_row_24();
    let s0 = at_rows(24).push((1int, 26int));
    assert(at_rows(25) == at_row(s0, 25));
    lemma_at_step_by(s0, 25, 1, 25, 1, 26, 25, 1, 0, 1, 26);
    let s1 = s0.update(24, (1int, 26int));
    assert(at_row(s0, 25) == at_row(s1, 24));
    lemma_at_step_by(s1, 24, 1, 25, 1, 26, 2, -27, 1, 12, 325);
    let s2 = s1.update(23, (12int, 325int));
    assert(at_row(s1, 24) == at_row(s2, 23));
    lemma_at_step_by(s2, 23, 23, 600, 12, 325, 25, -3083, 100, 253, 7800);
    let s3 = s2.update(22, (253int, 7800int));
    assert(at_row(s2, 23) == at_row(s3, 22));
    lemma_at_step_by(s3, 22, 77, 2300, 253, 7800, 200, -30307, 695, 2057, 89700);
    let s4 = s3.update(21, (2057int, 89700int));
    assert(at_row(s3, 22) == at_row(s4, 21));
    lemma_at_step_by(s4, 21, 147, 6325, 2057, 89700, 8625, 14943, -97, 427, 65780);
    let s5 = s4.update(20, (427int, 65780int));
    assert(at_row(s4, 21) == at_row(s5, 20));
    lemma_at_step_by(s5, 20, 152, 26565, 427, 65780, 25300, -23911, -368, -1063, 69069);
    let s6 = s5.update(19, (-1063int, 69069int));
    assert(at_row(s5, 20) == at_row(s6, 19));
    lemma_at_step_by(s6, 19, -361, 21252, -1063, 69069, 111573, 4781, 145, -399, 13156);
    let s7 = s6.update(18, (-399int, 13156int));
    assert(at_row(s6, 19) == at_row(s7, 18));
    lemma_at_step_by(s7, 18, -1479, 48070, -399, 13156, 1012, 83979, 664, -4941, 624910);
    let s8 = s7.update(17, (-4941int, 624910int));
    assert(at_row(s7, 18) == at_row(s8, 17));
    lemma_at_step_by(s8, 17, -289, 86526, -4941, 624910, 19228, -896966, 69635, 218314, 2812095);
    let s9 = s8.update(16, (218314int, 2812095int));
    assert(at_row(s8, 17) == at_row(s9, 16));
    lemma_at_step_by(s9, 16, 105272, 1225785, 218314, 2812095, 360525, -1157545, 152747, 1261664, 9561123);
    let s10 = s9.update(15, (1261664int, 9561123int));
    assert(at_row(s9, 16) == at_row(s10, 15));
    lemma_at_step_by(s10, 15, 8147, 68816, 1261664, 9561123, 141933, -951365, -193644, -943565, 4635696);
    let s11 = s10.update(14, (-943565int, 4635696int));
    assert(at_row(s10, 15) == at_row(s11, 14));
    lemma_at_step_by(s11, 14, -242333, 891480, -943565, 4635696, 20325744, 78193, 74756, -194383, 203320);
    let s12 = s11.update(13, (-194383int, 203320int));
    assert(at_row(s11, 14) == at_row(s12, 13));
    lemma_at_step_by(s12, 13, -2836327, 3120180, -194383, 203320, 508300, -459265, 280718, 762863, 1248072);
    let s13 = s12.update(12, (762863int, 1248072int));
    assert(at_row(s12, 13) == at_row(s13, 12));
    lemma_at_step_by(s13, 12, 120659, 96577, 762863, 1248072, 1515516, -5725, 43839, 609029, 79534);
    let s14 = s13.update(11, (609029int, 79534int));
    assert(at_row(s13, 12) == at_row(s14, 11));
    lemma_at_step_by(s14, 11, 8374289, 1158924, 609029, 79534, 11362, -1530365, -7264718, -38510285, 8112468);
    let s15 = s14.update(10, (-38510285int, 8112468int));
    assert(at_row(s14, 11) == at_row(s15, 10));
    lemma_at_step_by(s15, 10, -25306815, 2124694, -38510285, 8112468, 386308, 14090261, 1009391824, -3196365475, 44618574);
    let s16 = s15.update(9, (-3196365475int, 44618574int));
    assert(at_row(s15, 10) == at_row(s16, 9));
    lemma_at_step_by(s16, 9, -626165937, 10623470, -3196365475, 44618574, 216718788, -1014444, 115912613, 249912591, 2187185);
    let s17 = s16.update(8, (249912591int, 2187185int));
    assert(at_row(s16, 9) == at_row(s17, 8));
    lemma_at_step_by(s17, 8, 4638284, 24453, 249912591, 2187185, 2717, -2442368, 1473615113, 11876842408, 19684665);
    let s18 = s17.update(7, (11876842408int, 19684665int));
    assert(at_row(s17, 8) == at_row(s18, 7));
    lemma_at_step_by(s18, 7, 1108107805, 4499352, 11876842408, 19684665, 673215543, -26219, -65534757, -328836059, 131560);
    let s19 = s18.update(6, (-328836059int, 131560int));
    assert(at_row(s18, 7) == at_row(s19, 6));
    lemma_at_step_by(s19, 6, -678649375, 276276, -328836059, 131560, 78936, 179269, -46354499, 119063489, 460460);
    let s20 = s19.update(5, (119063489int, 460460int));
    assert(at_row(s19, 6) == at_row(s20, 5));
    lemma_at_step_by(s20, 5, 337992250, 69069, 119063489, 460460, 1266265, 3691, -85538367, 582059503, 25116);
    let s21 = s20.update(4, (582059503int, 25116int));
    assert(at_row(s20, 5) == at_row(s21, 4));
    lemma_at_step_by(s21, 4, 32209348, 10465, 582059503, 25116, 8372, 7081, 569228348, -2523785339, 31395);
    let s22 = s21.update(3, (-2523785339int, 31395int));
    assert(at_row(s21, 4) == at_row(s22, 3));
    lemma_at_step_by(s22, 3, -1552922421, 41860, -2523785339, 31395, 722085, -669, 86883284, 236364091, 1820);
    let s23 = s22.update(2, (236364091int, 1820int));
    assert(at_row(s22, 3) == at_row(s23, 2));
    lemma_at_step_by(s23, 2, 236364091, 2730, 236364091, 1820, 1820, -241, -20865841, -236364091, 2730);
    let s24 = s23.update(1, (-236364091int, 2730int));
    assert(at_row(s23, 2) == at_row(s24, 1));
    lemma_at_step_by(s24, 1, -236364091, 2730, -236364091, 2730, 7452900, 0, 1, 0, 1);
    let s25 = s24.update(0, (0int, 1int));
    assert(at_row(s24, 1) == at_row(s25, 0));
    assert(at_row(s25, 0) == s25);
}

/// Row 26 of the Akiyama-Tanigawa triangle, step by step.
#[verifier::nonlinear]
proof fn lemma_triangle_row_26()
    ensures
        at_rows(26).len() == 27,
        at_rows(26)[0] == (8553103int, 6int),
        at_rows(26)[1] == (-8553103int, 6int),
        at_rows(26)[2] == (1139644561int, 1820int),
        at_rows(26)[3] == (-107638072int, 1365int),
        at_rows(26)[4] == (-18141585int, 299int),
        at_rows(26)[5] == (886838131int, 25116int),
        at_rows(26)[6] == (-6661850629int, 1184040int),
        at_rows(26)[7] == (-22816268int, 13455int),
        at_rows(26)[8] == (274348161int, 336490int),
        at_rows(26)[9] == (900387int, 38038int),
        at_rows(26)[10] == (-3001800791int, 40562340int),
        at_rows(26)[11] == (6694963int, 3380195int),
        at_rows(26)[12] == (23377679int, 3120180int),
        at_rows(26)[13] == (10369int, 297160int),
        at_rows(26)[14] == (-10368135int, 10816624int),
        at_rows(26)[15] == (-283208int, 2028117int),
        at_rows(26)[16] == (1107737int, 7873866int),
        at_rows(26)[17] == (303399int, 4374370int),
        at_rows(26)[18] == (-1083int, 92092int),
        at_rows(26)[19] == (-684int, 23023int),
        at_rows(26)[20] == (-686int, 49335int),
        at_rows(26)[21] == (77int, 10764int),
        at_rows(26)[22] == (529int, 23400int),
        at_rows(26)[23] == (92int, 2925int),
        at_rows(26)[24] == (25int, 702int),
        at_rows(26)[25] == (1int, 27int),
        at_rows(26)[26] == (1int, 27int),
{
    lemma_triangle_row_25();
    let s0 = at_rows(25).push((1int, 27int));
    assert(at_rows(26) == at_row(s0, 26));
    lemma_at_step_by(s0, 26, 1, 26, 1, 27, 26, 1, 0, 1, 27);
    let s1 = s0.update(25, (1int, 27int));
    assert(at_row(s0, 26) == at_row(s1, 25));
    lemma_at_step_by(s1, 25, 1, 26, 1, 27, 1, 337, -12, 25, 702);
    let s2 = s1.update(24, (25int, 702int));
    assert(at_row(s1, 25) == at_row(s2, 24));
    lemma_at_step_by(s2, 24, 12, 325, 25, 702, 78, -922, 29, 92, 2925);
    let s3 = s2.update(23, (92int, 2925int));
    assert(at_row(s2, 24) == at_row(s3, 23));
    lemma_at_step_by(s3, 23, 253, 7800, 92, 2925, 975, -2831, 64, 529, 23400);
    let s4 = s3.update(22, (529int, 23400int));
    assert(at_row(s3, 23) == at_row(s4, 22));
    lemma_at_step_by(s4, 22, 2057, 89700, 529, 23400, 195000, -3355, 24, 77, 10764);
    let s5 = s4.update(21, (77int, 10764int));
    assert(at_row(s4, 22) == at_row(s5, 21));
    lemma_at_step_by(s5, 21, 427, 65780, 77, 10764, 14352, -24236, -337, -686, 49335);
    let s6 = s5.update(20, (-686int, 49335int));
    assert(at_row(s5, 21) == at_row(s6, 20));
    lemma_at_step_by(s6, 20, -1063, 69069, -686, 49335, 148005, 3063, 91, -684, 23023);
    let s7 = s6.update(19, (-684int, 23023int));
    assert(at_row(s6, 20) == at_row(s7, 19));
    lemma_at_step_by(s7, 19, -399, 13156, -684, 23023, 3289, 27381, 322, -1083, 92092);
    let s8 = s7.update(18, (-1083int, 92092int));
    assert(at_row(s7, 19) == at_row(s8, 18));
    lemma_at_step_by(s8, 18, -4941, 624910, -1083, 92092, 13156, -414341, 28738, 303399, 4374370);
    let s9 = s8.update(17, (303399int, 4374370int));
    assert(at_row(s8, 18) == at_row(s9, 17));
    lemma_at_step_by(s9, 17, 218314, 2812095, 303399, 4374370, 1562275, 1615265, -227244, 1107737, 7873866);
    let s10 = s9.update(16, (1107737int, 7873866int));
    assert(at_row(s9, 17) == at_row(s10, 16));
    lemma_at_step_by(s10, 16, 1261664, 9561123, 1107737, 7873866, 37119654, -668651, -93371, -283208, 2028117);
    let s11 = s10.update(15, (-283208int, 2028117int));
    assert(at_row(s10, 16) == at_row(s11, 15));
    lemma_at_step_by(s11, 15, -943565, 4635696, -283208, 2028117, 869193, -1046935, -1003526, -10368135, 10816624);
    let s12 = s11.update(14, (-10368135int, 10816624int));
    assert(at_row(s11, 15) == at_row(s12, 14));
    lemma_at_step_by(s12, 14, -194383, 203320, -10368135, 10816624, 7400848, 19889, -694, 10369, 297160);
    let s13 = s12.update(13, (10369int, 297160int));
    assert(at_row(s12, 14) == at_row(s13, 13));
    lemma_at_step_by(s13, 13, 762863, 1248072, 10369, 297160, 118864, 115799, -867614, 23377679, 3120180);
    let s14 = s13.update(12, (23377679int, 3120180int));
    assert(at_row(s13, 13) == at_row(s14, 12));
    lemma_at_step_by(s14, 12, 609029, 79534, 23377679, 3120180, 73416, 1628127, -3224740, 6694963, 3380195);
    let s15 = s14.update(11, (6694963int, 3380195int));
    assert(at_row(s14, 12) == at_row(s15, 11));
    lemma_at_step_by(s15, 11, -38510285, 8112468, 6694963, 3380195, 676039, -14024771, -1037897929, -3001800791, 40562340);
    let s16 = s15.update(10, (-3001800791int, 40562340int));
    assert(at_row(s15, 11) == at_row(s16, 10));
    lemma_at_step_by(s16, 10, -3196365475, 44618574, -3001800791, 40562340, 47579624820, 11091, -262532, 900387, 38038);
    let s17 = s16.update(9, (900387int, 38038int));
    assert(at_row(s16, 10) == at_row(s17, 9));
    lemma_at_step_by(s17, 9, 249912591, 2187185, 900387, 38038, 247247, 60961, -49702928, 274348161, 336490);
    let s18 = s17.update(8, (274348161int, 336490int));
    assert(at_row(s17, 9) == at_row(s18, 8));
    lemma_at_step_by(s18, 8, 11876842408, 19684665, 274348161, 336490, 492284870, -1952, -3310097, -22816268, 13455);
    let s19 = s18.update(7, (-22816268int, 13455int));
    assert(at_row(s18, 8) == at_row(s19, 7));
    lemma_at_step_by(s19, 7, -328836059, 131560, -22816268, 13455, 1495, 171371, 964197159, -6661850629, 1184040);
    let s20 = s19.update(6, (-6661850629int, 1184040int));
    assert(at_row(s19, 7) == at_row(s20, 6));
    lemma_at_step_by(s20, 6, 119063489, 460460, -6661850629, 1184040, 21707400, -10253, 362030234, 886838131, 25116);
    let s21 = s20.update(5, (886838131int, 25116int));
    assert(at_row(s20, 6) == at_row(s21, 5));
    lemma_at_step_by(s21, 5, 582059503, 25116, 886838131, 25116, 2109744, 76, 4611239, -18141585, 299);
    let s22 = s21.update(4, (-18141585int, 299int));
    assert(at_row(s21, 5) == at_row(s22, 4));
    lemma_at_step_by(s22, 4, -2523785339, 31395, -18141585, 299, 6877, -523, -41241547, -107638072, 1365);
    let s23 = s22.update(3, (-107638072int, 1365int));
    assert(at_row(s22, 4) == at_row(s23, 3));
    lemma_at_step_by(s23, 3, 236364091, 1820, -107638072, 1365, 1365, 321, -201003244, 1139644561, 1820);
    let s24 = s23.update(2, (1139644561int, 1820int));
    assert(at_row(s23, 3) == at_row(s24, 2));
    lemma_at_step_by(s24, 2, -236364091, 2730, 1139644561, 1820, 828100, -1, -1425517, -8553103, 6);
    let s25 = s24.update(1, (-8553103int, 6int));
    assert(at_row(s24, 2) == at_row(s25, 1));
    lemma_at_step_by(s25, 1, 0, 1, -8553103, 6, 1, 1, -1425517, 8553103, 6);
    let s26 = s25.update(0, (8553103int, 6int));
    assert(at_row(s25, 1) == at_row(s26, 0));
    assert(at_row(s26, 0) == s26);
}

/// Row 27 of the Akiyama-Tanigawa triangle, step by step.
#[verifier::nonlinear]
proof fn lemma_triangle_row_27()
    ensures
        at_rows(27).len() == 28,
        at_rows(27)[0] == (0int, 1int),
        at_rows(27)[1] == (8553103int, 6int),
        at_rows(27)[2] == (-8553103int, 4int),
        at_rows(27)[3] == (1827648887int, 1365int),
        at_rows(27)[4] == (-150546745int, 364int),
        at_rows(27)[5] == (184550647int, 8372int),
        at_rows(27)[6] == (227017945int, 7176int),
        at_rows(27)[7] == (-1501623488int, 148005int),
        at_rows(27)[8] == (-7030668int, 16445int),
        at_rows(27)[9] == (2264592835int, 2624622int),
        at_rows(27)[10] == (-29878651int, 477204int),
        at_rows(27)[11] == (-65974293int, 965770int),
        at_rows(27)[12] == (693979int, 90440int),
        at_rows(27)[13] == (361949int, 52440int),
        at_rows(27)[14] == (-163361int, 356592int),
        at_rows(27)[15] == (-1485856int, 1601145int),
        at_rows(27)[16] == (-146098int, 1789515int),
        at_rows(27)[17] == (636417int, 4374370int),
        at_rows(27)[18] == (513int, 8372int),
        at_rows(27)[19] == (-15int, 1001int),
        at_rows(27)[20] == (-381int, 13156int),
        at_rows(27)[21] == (-121int, 9660int),
        at_rows(27)[22] == (253int, 32760int),
        at_rows(27)[23] == (152int, 6825int),
        at_rows(27)[24] == (25int, 819int),
        at_rows(27)[25] == (13int, 378int),
        at_rows(27)[26] == (1int, 28int),
        at_rows(27)[27] == (1int, 28int),
{
    lemma_triangle_row_26();
    let s0 = at_rows(26).push((1int, 28int));
    assert(at_rows(27) == at_row(s0, 27));
    lemma_at_step_by(s0, 27, 1, 27, 1, 28, 27, 1, 0, 1, 28);
    let s1 = s0.update(26, (1int, 28int));
    assert(at_row(s0, 27) == at_row(s1, 26));
    lemma_at_step_by(s1, 26, 1, 27, 1, 28, 2, -29, 1, 13, 378);
    let s2 = s1.update(25, (13int, 378int));
    assert(at_row(s1, 26) == at_row(s2, 25));
    lemma_at_step_by(s2, 25, 25, 702, 13, 378, 324, -131, 4, 25, 819);
    let s3 = s2.update(24, (25int, 819int));
    assert(at_row(s2, 25) == at_row(s3, 24));
    lemma_at_step_by(s3, 24, 92, 2925, 25, 819, 351, 3188, -71, 152, 6825);
    let s4 = s3.update(23, (152int, 6825int));
    assert(at_row(s3, 24) == at_row(s4, 23));
    lemma_at_step_by(s4, 23, 529, 23400, 152, 6825, 4875, -9323, 72, 253, 32760);
    let s5 = s4.update(22, (253int, 32760int));
    assert(at_row(s4, 23) == at_row(s5, 22));
    lemma_at_step_by(s5, 22, 77, 10764, 253, 32760, 36504, 479, 6, -121, 9660);
    let s6 = s5.update(21, (-121int, 9660int));
    assert(at_row(s5, 22) == at_row(s6, 21));
    lemma_at_step_by(s6, 21, -686, 49335, -121, 9660, 36225, -5145, -149, -381, 13156);
    let s7 = s6.update(20, (-381int, 13156int));
    assert(at_row(s6, 21) == at_row(s7, 20));
    lemma_at_step_by(s7, 20, -684, 23023, -381, 13156, 302588, -267, -4, -15, 1001);
    let s8 = s7.update(19, (-15int, 1001int));
    assert(at_row(s7, 20) == at_row(s8, 19));
    lemma_at_step_by(s8, 19, -1083, 92092, -15, 1001, 11011, -1991, 122, 513, 8372);
    let s9 = s8.update(18, (513int, 8372int));
    assert(at_row(s8, 19) == at_row(s9, 18));
    lemma_at_step_by(s9, 18, 303399, 4374370, 513, 8372, 8372, 1166133, -169658, 636417, 4374370);
    let s10 = s9.update(17, (636417int, 4374370int));
    assert(at_row(s9, 18) == at_row(s10, 17));
    lemma_at_step_by(s10, 17, 1107737, 7873866, 636417, 4374370, 19247228, 94058, 7679, -146098, 1789515);
    let s11 = s10.update(16, (-146098int, 1789515int));
    assert(at_row(s10, 17) == at_row(s11, 16));
    lemma_at_step_by(s11, 16, -283208, 2028117, -146098, 1789515, 2266719, -314371, -291735, -1485856, 1601145);
    let s12 = s11.update(15, (-1485856int, 1601145int));
    assert(at_row(s11, 16) == at_row(s12, 15));
    lemma_at_step_by(s12, 15, -10368135, 10816624, -1485856, 1601145, 48568065, -128705, -58962, -163361, 356592);
    let s13 = s12.update(14, (-163361int, 356592int));
    assert(at_row(s12, 15) == at_row(s13, 14));
    lemma_at_step_by(s13, 14, 10369, 297160, -163361, 356592, 2020688, 22229, -153428, 361949, 52440);
    let s14 = s13.update(13, (361949int, 52440int));
    assert(at_row(s13, 14) == at_row(s14, 13));
    lemma_at_step_by(s14, 13, 23377679, 3120180, 361949, 52440, 1809180, -30661, 235273, 693979, 90440);
    let s15 = s14.update(12, (693979int, 90440int));
    assert(at_row(s14, 13) == at_row(s15, 12));
    lemma_at_step_by(s15, 12, 6694963, 3380195, 693979, 90440, 316540, 235633, 16096711, -65974293, 965770);
    let s16 = s15.update(11, (-65974293int, 965770int));
    assert(at_row(s15, 12) == at_row(s16, 11));
    lemma_at_step_by(s16, 11, -3001800791, 40562340, -65974293, 965770, 82090450, 36929, 2312195, -29878651, 477204);
    let s17 = s16.update(10, (-29878651int, 477204int));
    assert(at_row(s16, 11) == at_row(s17, 10));
    lemma_at_step_by(s17, 10, 900387, 38038, -29878651, 477204, 6916, 1191079, -1027694262, 2264592835, 2624622);
    let s18 = s17.update(9, (2264592835int, 2624622int));
    assert(at_row(s17, 10) == at_row(s18, 9));
    lemma_at_step_by(s18, 9, 274348161, 336490, 2264592835, 2624622, 53703804, -382, -163315, -7030668, 16445);
    let s19 = s18.update(8, (-7030668int, 16445int));
    assert(at_row(s18, 9) == at_row(s19, 8));
    lemma_at_step_by(s19, 8, -22816268, 13455, -7030668, 16445, 1495, -28562, -289783251, -1501623488, 148005);
    let s20 = s19.update(7, (-1501623488int, 148005int));
    assert(at_row(s19, 8) == at_row(s20, 7));
    lemma_at_step_by(s20, 7, -6661850629, 1184040, -1501623488, 148005, 24420825, 2905, -91901774, 227017945, 7176);
    let s21 = s20.update(6, (227017945int, 7176int));
    assert(at_row(s20, 7) == at_row(s21, 6));
    lemma_at_step_by(s21, 6, 886838131, 25116, 227017945, 7176, 21528, -1581, 34851239, 184550647, 8372);
    let s22 = s21.update(5, (184550647int, 8372int));
    assert(at_row(s21, 6) == at_row(s22, 5));
    lemma_at_step_by(s22, 5, -18141585, 299, 184550647, 8372, 6877, -97, -40118226, -150546745, 364);
    let s23 = s22.update(4, (-150546745int, 364int));
    assert(at_row(s22, 5) == at_row(s23, 4));
    lemma_at_step_by(s23, 4, -107638072, 1365, -150546745, 364, 364, 428, -573064999, 1827648887, 1365);
    let s24 = s23.update(3, (1827648887int, 1365int));
    assert(at_row(s23, 4) == at_row(s24, 3));
    lemma_at_step_by(s24, 3, 1139644561, 1820, 1827648887, 1365, 621075, 1, 2138276, -8553103, 4);
    let s25 = s24.update(2, (-8553103int, 4int));
    assert(at_row(s24, 3) == at_row(s25, 2));
    lemma_at_step_by(s25, 2, -8553103, 6, -8553103, 4, 4, 1, -1425517, 8553103, 6);
    let s26 = s25.update(1, (8553103int, 6int));
    assert(at_row(s25, 2) == at_row(s26, 1));
    lemma_at_step_by(s26, 1, 8553103, 6, 8553103, 6, 36, 0, 1, 0, 1);
    let s27 = s26.update(0, (0int, 1int));
    assert(at_row(s26, 1) == at_row(s27, 0));
    assert(at_row(s27, 0) == s27);
}

/// Row 28 of the Akiyama-Tanigawa triangle, step by step.
#[verifier::nonlinear]
proof fn lemma_triangle_row_28()
    ensures
        at_rows(28).len() == 29,
        at_rows(28)[0] == (-23749461029int, 870int),
        at_rows(28)[1] == (23749461029int, 870int),
        at_rows(28)[2] == (-7089687053int, 580int),
        at_rows(28)[3] == (842271812int, 435int),
        at_rows(28)[4] == (6768026800int, 7917int),
        at_rows(28)[5] == (-18511988255int, 31668int),
        at_rows(28)[6] == (74587309657int, 624312int),
        at_rows(28)[7] == (1136903908int, 78039int),
        at_rows(28)[8] == (-11414065671int, 953810int),
        at_rows(28)[9] == (172090155int, 190762int),
        at_rows(28)[10] == (10692144551int, 13838916int),
        at_rows(28)[11] == (-153207835int, 1153243int),
        at_rows(28)[12] == (-225197401int, 3934140int),
        at_rows(28)[13] == (13574561int, 1124040int),
        at_rows(28)[14] == (20818639int, 3447056int),
        at_rows(28)[15] == (-927208int, 1077205int),
        at_rows(28)[16] == (-90734729int, 103791870int),
        at_rows(28)[17] == (-348483int, 11532430int),
        at_rows(28)[18] == (842213int, 5722860int),
        at_rows(28)[19] == (536104int, 10015005int),
        at_rows(28)[20] == (-126343int, 7153575int),
        at_rows(28)[21] == (-219439int, 7803900int),
        at_rows(28)[22] == (-53429int, 4750200int),
        at_rows(28)[23] == (4876int, 593775int),
        at_rows(28)[24] == (3125int, 142506int),
        at_rows(28)[25] == (325int, 10962int),
        at_rows(28)[26] == (27int, 812int),
        at_rows(28)[27] == (1int, 29int),
        at_rows(28)[28] == (1int, 29int),
{
    lemma_triangle_row_27();
    let s0 = at_rows(27).push((1int, 29int));
    assert(at_rows(28) == at_row(s0, 28));
    lemma_at_step_by(s0, 28, 1, 28, 1, 29, 28, 1, 0, 1, 29);
    let s1 = s0.update(27, (1int, 29int));
    assert(at_row(s0, 28) == at_row(s1, 27));
    lemma_at_step_by(s1, 27, 1, 28, 1, 29, 1, 391, -13, 27, 812);
    let s2 = s1.update(26, (27int, 812int));
    assert(at_row(s1, 27) == at_row(s2, 26));
    lemma_at_step_by(s2, 26, 13, 378, 27, 812, 28, -1619, 48, 325, 10962);
    let s3 = s2.update(25, (325int, 10962int));
    assert(at_row(s2, 26) == at_row(s3, 25));
    lemma_at_step_by(s3, 25, 25, 819, 325, 10962, 63, 61745, -1354, 3125, 142506);
    let s4 = s3.update(24, (3125int, 142506int));
    assert(at_row(s3, 25) == at_row(s4, 24));
    lemma_at_step_by(s4, 24, 152, 6825, 3125, 142506, 1638, 147226, -1209, 4876, 593775);
    let s5 = s4.update(23, (4876int, 593775int));
    assert(at_row(s4, 24) == at_row(s5, 23));
    lemma_at_step_by(s5, 23, 253, 32760, 4876, 593775, 4095, -122069, -1373, -53429, 4750200);
    let s6 = s5.update(22, (-53429int, 4750200int));
    assert(at_row(s5, 23) == at_row(s6, 22));
    lemma_at_step_by(s6, 22, -121, 9660, -53429, 4750200, 5880, -1852759, -52098, -219439, 7803900);
    let s7 = s6.update(21, (-219439int, 7803900int));
    assert(at_row(s6, 22) == at_row(s7, 21));
    lemma_at_step_by(s7, 21, -381, 13156, -219439, 7803900, 14352, -499957, -8830, -126343, 7153575);
    let s8 = s7.update(20, (-126343int, 7153575int));
    assert(at_row(s7, 21) == at_row(s8, 20));
    lemma_at_step_by(s8, 20, -15, 1001, -126343, 7153575, 715, 3938029, -210803, 536104, 10015005);
    let s9 = s8.update(19, (536104int, 10015005int));
    assert(at_row(s8, 20) == at_row(s9, 19));
    lemma_at_step_by(s9, 19, 513, 8372, 536104, 10015005, 14651, 2474477, -364160, 842213, 5722860);
    let s10 = s9.update(18, (842213int, 5722860int));
    assert(at_row(s9, 19) == at_row(s10, 18));
    lemma_at_step_by(s10, 18, 636417, 4374370, 842213, 5722860, 2170740, 5148083, 155563, -348483, 11532430);
    let s11 = s10.update(17, (-348483int, 11532430int));
    assert(at_row(s10, 18) == at_row(s11, 17));
    lemma_at_step_by(s11, 17, -146098, 1789515, -348483, 11532430, 198835, -19174079, -16761957, -90734729, 103791870);
    let s12 = s11.update(16, (-90734729int, 103791870int));
    assert(at_row(s11, 17) == at_row(s12, 16));
    lemma_at_step_by(s12, 16, -1485856, 1601145, -90734729, 103791870, 154275030, 78458, 67533, -927208, 1077205);
    let s13 = s12.update(15, (-927208int, 1077205int));
    assert(at_row(s12, 16) == at_row(s13, 15));
    lemma_at_step_by(s13, 15, -163361, 356592, -927208, 1077205, 111435, -725889, 4384037, 20818639, 3447056);
    let s14 = s13.update(14, (20818639int, 3447056int));
    assert(at_row(s13, 15) == at_row(s14, 14));
    lemma_at_step_by(s14, 14, 361949, 52440, 20818639, 3447056, 160816, -233959, 2825425, 13574561, 1124040);
    let s15 = s14.update(13, (13574561int, 1124040int));
    assert(at_row(s14, 14) == at_row(s15, 13));
    lemma_at_step_by(s15, 13, 693979, 90440, 13574561, 1124040, 25840, 834599, 47773980, -225197401, 3934140);
    let s16 = s15.update(12, (-225197401int, 3934140int));
    assert(at_row(s15, 13) == at_row(s16, 12));
    lemma_at_step_by(s16, 12, -65974293, 965770, -225197401, 3934140, 3294600, 368653, 48975392, -153207835, 1153243);
    let s17 = s16.update(11, (-153207835int, 1153243int));
    assert(at_row(s16, 12) == at_row(s17, 11));
    lemma_at_step_by(s17, 11, -29878651, 477204, -153207835, 1153243, 39767, -4907509, 3791611685, 10692144551, 13838916);
    let s18 = s17.update(10, (10692144551int, 13838916int));
    assert(at_row(s17, 11) == at_row(s18, 10));
    lemma_at_step_by(s18, 10, 2264592835, 2624622, 10692144551, 13838916, 190404396, -56307, 50795653, 172090155, 190762);
    let s19 = s18.update(9, (172090155int, 190762int));
    assert(at_row(s18, 10) == at_row(s19, 9));
    lemma_at_step_by(s19, 9, -7030668, 16445, 172090155, 190762, 3289, -474921, -5683290679, -11414065671, 953810);
    let s20 = s19.update(8, (-11414065671int, 953810int));
    assert(at_row(s19, 9) == at_row(s20, 8));
    lemma_at_step_by(s20, 8, -1501623488, 148005, -11414065671, 953810, 1808950, -28622, 416976943, 1136903908, 78039);
    let s21 = s20.update(7, (1136903908int, 78039int));
    assert(at_row(s20, 8) == at_row(s21, 7));
    lemma_at_step_by(s21, 7, 227017945, 7176, 1136903908, 78039, 897, -251879, 30092288742, 74587309657, 624312);
    let s22 = s21.update(6, (74587309657int, 624312int));
    assert(at_row(s21, 7) == at_row(s22, 6));
    lemma_at_step_by(s22, 6, 184550647, 8372, 74587309657, 624312, 165048, 6745, 3942887482, -18511988255, 31668);
    let s23 = s22.update(5, (-18511988255int, 31668int));
    assert(at_row(s22, 6) == at_row(s23, 5));
    lemma_at_step_by(s23, 5, -150546745, 364, -18511988255, 31668, 1456, 1216, -1039525147, 6768026800, 7917);
    let s24 = s23.update(4, (6768026800int, 7917int));
    assert(at_row(s23, 5) == at_row(s24, 4));
    lemma_at_step_by(s24, 4, 1827648887, 1365, 6768026800, 7917, 24843, 128, -247840901, 842271812, 435);
    let s25 = s24.update(3, (842271812int, 435int));
    assert(at_row(s24, 4) == at_row(s25, 3));
    lemma_at_step_by(s25, 3, -8553103, 4, 842271812, 435, 3, -177, -2163576911, -7089687053, 580);
    let s26 = s25.update(2, (-7089687053int, 580int));
    assert(at_row(s25, 3) == at_row(s26, 2));
    lemma_at_step_by(s26, 2, 8553103, 6, -7089687053, 580, 4, 59, -1610595633, 23749461029, 870);
    let s27 = s26.update(1, (23749461029int, 870int));
    assert(at_row(s26, 2) == at_row(s27, 1));
    lemma_at_step_by(s27, 1, 0, 1, 23749461029, 870, 1, -59, -1610595633, -23749461029, 870);
    let s28 = s27.update(0, (-23749461029int, 870int));
    assert(at_row(s27, 1) == at_row(s28, 0));
    assert(at_row(s28, 0) == s28);
}

/// Row 29 of the Akiyama-Tanigawa triangle, step by step.
#[verifier::nonlinear]
proof fn lemma_triangle_row_29()
    ensures
        at_rows(29).len() == 30,
        at_rows(29)[0] == (0int, 1int),
        at_rows(29)[1] == (-23749461029int, 870int),
        at_rows(29)[2] == (23749461029int, 580int),
        at_rows(29)[3] == (-11254630547int, 435int),
        at_rows(29)[4] == (2924743559int, 348int),
        at_rows(29)[5] == (-43597042623int, 52780int),
        at_rows(29)[6] == (-20217548561int, 45240int),
        at_rows(29)[7] == (71527976584int, 390195int),
        at_rows(29)[8] == (-361830837int, 43355int),
        at_rows(29)[9] == (-6317754175int, 572286int),
        at_rows(29)[10] == (208735615int, 104052int),
        at_rows(29)[11] == (1361390201int, 2306486int),
        at_rows(29)[12] == (-387567557int, 2129064int),
        at_rows(29)[13] == (-1117854983int, 25852920int),
        at_rows(29)[14] == (156824675int, 10341168int),
        at_rows(29)[15] == (9750176int, 1938969int),
        at_rows(29)[16] == (-670106int, 570285int),
        at_rows(29)[17] == (-9284517int, 11532430int),
        at_rows(29)[18] == (17613int, 1213940int),
        at_rows(29)[19] == (293245int, 2003001int),
        at_rows(29)[20] == (88151int, 1907620int),
        at_rows(29)[21] == (-51667int, 2601300int),
        at_rows(29)[22] == (-18469int, 678600int),
        at_rows(29)[23] == (-664int, 65975int),
        at_rows(29)[24] == (205int, 23751int),
        at_rows(29)[25] == (169int, 7830int),
        at_rows(29)[26] == (117int, 4060int),
        at_rows(29)[27] == (14int, 435int),
        at_rows(29)[28] == (1int, 30int),
        at_rows(29)[29] == (1int, 30int),
{
    lemma_triangle_row_28();
    let s0 = at_rows(28).push((1int, 30int));
    assert(at_rows(29) == at_row(s0, 29));
    lemma_at_step_by(s0, 29, 1, 29, 1, 30, 29, 1, 0, 1, 30);
    let s1 = s0.update(28, (1int, 30int));
    assert(at_row(s0, 29) == at_row(s1, 28));
    lemma_at_step_by(s1, 28, 1, 29, 1, 30, 2, -31, 1, 14, 435);
    let s2 = s1.update(27, (14int, 435int));
    assert(at_row(s1, 28) == at_row(s2, 27));
    lemma_at_step_by(s2, 27, 27, 812, 14, 435, 87, -347, 10, 117, 4060);
    let s3 = s2.update(26, (117int, 4060int));
    assert(at_row(s2, 27) == at_row(s3, 26));
    lemma_at_step_by(s3, 26, 325, 10962, 117, 4060, 5684, 139, -3, 169, 7830);
    let s4 = s3.update(25, (169int, 7830int));
    assert(at_row(s3, 26) == at_row(s4, 25));
    lemma_at_step_by(s4, 25, 3125, 142506, 169, 7830, 46980, 11470, -99, 205, 23751);
    let s5 = s4.update(24, (205int, 23751int));
    assert(at_row(s4, 25) == at_row(s5, 24));
    lemma_at_step_by(s5, 24, 4876, 593775, 205, 23751, 213759, -2484, -25, -664, 65975);
    let s6 = s5.update(23, (-664int, 65975int));
    assert(at_row(s5, 24) == at_row(s6, 23));
    lemma_at_step_by(s6, 23, -53429, 4750200, -664, 65975, 461825, -96229, -2619, -18469, 678600);
    let s7 = s6.update(22, (-18469int, 678600int));
    assert(at_row(s6, 23) == at_row(s7, 22));
    lemma_at_step_by(s7, 22, -219439, 7803900, -18469, 678600, 2035800, -326503, -6485, -51667, 2601300);
    let s8 = s7.update(21, (-51667int, 2601300int));
    assert(at_row(s7, 22) == at_row(s8, 21));
    lemma_at_step_by(s8, 21, -126343, 7153575, -51667, 2601300, 9754875, 315971, -14601, 88151, 1907620);
    let s9 = s8.update(20, (88151int, 1907620int));
    assert(at_row(s8, 21) == at_row(s9, 20));
    lemma_at_step_by(s9, 20, 536104, 10015005, 88151, 1907620, 9538100, 678532, -99339, 293245, 2003001);
    let s10 = s9.update(19, (293245int, 2003001int));
    assert(at_row(s9, 20) == at_row(s10, 19));
    lemma_at_step_by(s10, 19, 842213, 5722860, 293245, 2003001, 9442719, -563583, 8177, 17613, 1213940);
    let s11 = s10.update(18, (17613int, 1213940int));
    assert(at_row(s10, 19) == at_row(s11, 18));
    lemma_at_step_by(s11, 18, -348483, 11532430, 17613, 1213940, 1213940, -4303343, -3464531, -9284517, 11532430);
    let s12 = s11.update(17, (-9284517int, 11532430int));
    assert(at_row(s11, 18) == at_row(s12, 17));
    lemma_at_step_by(s12, 17, -90734729, 103791870, -9284517, 11532430, 2098902260, -25646, -30135, -670106, 570285);
    let s13 = s12.update(16, (-670106int, 570285int));
    assert(at_row(s12, 17) == at_row(s13, 16));
    lemma_at_step_by(s13, 16, -927208, 1077205, -670106, 570285, 316825, 34973, -175863, 9750176, 1938969);
    let s14 = s13.update(15, (9750176int, 1938969int));
    assert(at_row(s13, 16) == at_row(s14, 15));
    lemma_at_step_by(s14, 15, 20818639, 3447056, 9750176, 1938969, 646323, -4327189, 65622182, 156824675, 10341168);
    let s15 = s14.update(14, (156824675int, 10341168int));
    assert(at_row(s14, 15) == at_row(s15, 14));
    lemma_at_step_by(s15, 14, 13574561, 1124040, 156824675, 10341168, 449616, -8719247, -377011715, -1117854983, 25852920);
    let s16 = s15.update(13, (-1117854983int, 25852920int));
    assert(at_row(s15, 14) == at_row(s16, 13));
    lemma_at_step_by(s16, 13, -225197401, 3934140, -1117854983, 25852920, 47771700, -200885, -36568421, -387567557, 2129064);
    let s17 = s16.update(12, (-387567557int, 2129064int));
    assert(at_row(s16, 13) == at_row(s17, 12));
    lemma_at_step_by(s17, 12, -153207835, 1153243, -387567557, 2129064, 1064532, -456241, 269293647, 1361390201, 2306486);
    let s18 = s17.update(11, (1361390201int, 2306486int));
    assert(at_row(s17, 12) == at_row(s18, 11));
    lemma_at_step_by(s18, 11, 10692144551, 13838916, 1361390201, 2306486, 306762638, 42943, -86146672, 208735615, 104052);
    let s19 = s18.update(10, (208735615int, 104052int));
    assert(at_row(s18, 11) == at_row(s19, 10));
    lemma_at_step_by(s19, 10, 172090155, 190762, 208735615, 104052, 34684, 3281, 36220616, -6317754175, 572286);
    let s20 = s19.update(9, (-6317754175int, 572286int));
    assert(at_row(s19, 10) == at_row(s20, 9));
    lemma_at_step_by(s20, 9, -11414065671, 953810, -6317754175, 572286, 12590292, 9727, 81179300, -361830837, 43355);
    let s21 = s20.update(8, (-361830837int, 43355int));
    assert(at_row(s20, 9) == at_row(s21, 8));
    lemma_at_step_by(s21, 8, 1136903908, 78039, -361830837, 43355, 8671, -130001, 23830926803, 71527976584, 390195);
    let s22 = s21.update(7, (71527976584int, 390195int));
    assert(at_row(s21, 8) == at_row(s22, 7));
    lemma_at_step_by(s22, 7, 74587309657, 624312, 71527976584, 390195, 5384691, 8599, 3842853671, -20217548561, 45240);
    let s23 = s22.update(6, (-20217548561int, 45240int));
    assert(at_row(s22, 7) == at_row(s23, 6));
    lemma_at_step_by(s23, 6, -18511988255, 31668, -20217548561, 45240, 27144, 5333, 4405135057, -43597042623, 52780);
    let s24 = s23.update(5, (-43597042623int, 52780int));
    assert(at_row(s23, 6) == at_row(s24, 5));
    lemma_at_step_by(s24, 5, 6768026800, 7917, -43597042623, 52780, 1200745, 35, -294155243, 2924743559, 348);
    let s25 = s24.update(4, (2924743559int, 348int));
    assert(at_row(s24, 5) == at_row(s25, 4));
    lemma_at_step_by(s25, 4, 842271812, 435, 2924743559, 348, 348, 172, 4450106791, -11254630547, 435);
    let s26 = s25.update(3, (-11254630547int, 435int));
    assert(at_row(s25, 4) == at_row(s26, 3));
    lemma_at_step_by(s26, 3, -7089687053, 580, -11254630547, 435, 435, -231, 9458837065, 23749461029, 580);
    let s27 = s26.update(2, (23749461029int, 580int));
    assert(at_row(s26, 3) == at_row(s27, 2));
    lemma_at_step_by(s27, 2, 23749461029, 870, 23749461029, 580, 580, -59, -1610595633, -23749461029, 870);
    let s28 = s27.update(1, (-23749461029int, 870int));
    assert(at_row(s27, 2) == at_row(s28, 1));
    lemma_at_step_by(s28, 1, -23749461029, 870, -23749461029, 870, 756900, 0, 1, 0, 1);
    let s29 = s28.update(0, (0int, 1int));
    assert(at_row(s28, 1) == at_row(s29, 0));
    assert(at_row(s29, 0) == s29);
}

/// Row 30 of the triangle leaves the range of `i64`.
#[verifier::nonlinear]
proof fn lemma_triangle_row_30_overflows()
    ensures
        !at_rows_fit(30),
{
    lemma_triangle_row_29();
    let s0 = at_rows(29).push((1int, 31int));
    lemma_at_step_by(s0, 30, 1, 30, 1, 31, 30, 1, 0, 1, 31);
    let s1 = s0.update(29, (1int, 31int));
    assert(at_row_fits(s0, 30) ==> at_row_fits(s1, 29));
    lemma_at_step_by(s1, 29, 1, 30, 1, 31, 1, 449, -14, 29, 930);
    let s2 = s1.update(28, (29int, 930int));
    assert(at_row_fits(s1, 29) ==> at_row_fits(s2, 28));
    lemma_at_step_by(s2, 28, 14, 435, 29, 930, 90, -1534, 43, 126, 4495);
    let s3 = s2.update(27, (126int, 4495int));
    assert(at_row_fits(s2, 28) ==> at_row_fits(s3, 27));
    lemma_at_step_by(s3, 27, 117, 4060, 126, 4495, 145, 31877, -677, 2673, 125860);
    let s4 = s3.update(26, (2673int, 125860int));
    assert(at_row_fits(s3, 27) ==> at_row_fits(s4, 26));
    lemma_at_step_by(s4, 26, 169, 7830, 2673, 125860, 2900, -10901, 98, 3055, 339822);
    let s5 = s4.update(25, (3055int, 339822int));
    assert(at_row_fits(s4, 26) ==> at_row_fits(s5, 25));
    lemma_at_step_by(s5, 25, 205, 23751, 3055, 339822, 1827, -678289, -6084, -39625, 4417686);
    let s6 = s5.update(24, (-39625int, 4417686int));
    assert(at_row_fits(s5, 25) ==> at_row_fits(s6, 24));
    lemma_at_step_by(s6, 24, -664, 65975, -39625, 4417686, 110838, -41903, -1101, -69092, 2629575);
    let s7 = s6.update(23, (-69092int, 2629575int));
    assert(at_row_fits(s6, 24) ==> at_row_fits(s7, 23));
    lemma_at_step_by(s7, 23, -18469, 678600, -69092, 2629575, 254475, -273887, -5930, -151823, 7012200);
    let s8 = s7.update(22, (-151823int, 7012200int));
    assert(at_row_fits(s7, 23) ==> at_row_fits(s8, 22));
    lemma_at_step_by(s8, 22, -51667, 2601300, -151823, 7012200, 5655000, 854029, -33618, 126973, 3225612);
    let s9 = s8.update(21, (126973int, 3225612int));
    assert(at_row_fits(s8, 22) ==> at_row_fits(s9, 21));
    lemma_at_step_by(s9, 21, 88151, 1907620, 126973, 3225612, 416208, -6820976, 980615, 2125424, 14784055);
    let s10 = s9.update(20, (2125424int, 14784055int));
    assert(at_row_fits(s9, 21) ==> at_row_fits(s10, 20));
    lemma_at_step_by(s10, 20, 293245, 2003001, 2125424, 14784055, 5245955, -773954, 40837, 297844, 5644821);
    let s11 = s10.update(19, (297844int, 5644821int));
    assert(at_row_fits(s10, 20) ==> at_row_fits(s11, 19));
    lemma_at_step_by(s11, 19, 17613, 1213940, 297844, 5644821, 1396031, -97627, -70960, -3567763, 4908540);
    let s12 = s11.update(18, (-3567763int, 4908540int));
    assert(at_row_fits(s11, 19) ==> at_row_fits(s12, 18));
    lemma_at_step_by(s12, 18, -9284517, 11532430, -3567763, 4908540, 14408940, -1227867, -1729028, -5532123, 3928630);
    let s13 = s12.update(17, (-5532123int, 3928630int));
    assert(at_row_fits(s12, 18) ==> at_row_fits(s13, 17));
    lemma_at_step_by(s13, 17, -670106, 570285, -5532123, 3928630, 316825, -1774069, 7030668, 28024619, 7071534);
    let s14 = s13.update(16, (28024619int, 7071534int));
    assert(at_row_fits(s13, 17) ==> at_row_fits(s14, 16));
    lemma_at_step_by(s14, 16, 9750176, 1938969, 28024619, 7071534, 684342, 9338665, -159208243, 341579704, 20036013);
    let s15 = s14.update(15, (341579704int, 20036013int));
    assert(at_row_fits(s14, 16) ==> at_row_fits(s15, 15));
    lemma_at_step_by(s15, 15, 156824675, 10341168, 341579704, 20036013, 1938969, 27448705, 775372591, -3018551695, 106858736);
    let s16 = s15.update(14, (-3018551695int, 106858736int));
    assert(at_row_fits(s15, 15) ==> at_row_fits(s16, 14));
    lemma_at_step_by(s16, 14, -1117854983, 25852920, -3018551695, 106858736, 58599952, -2076671, -435838231, -9894184391, 47143560);
    let s17 = s16.update(13, (-9894184391int, 47143560int));
    assert(at_row_fits(s16, 14) ==> at_row_fits(s17, 13));
    lemma_at_step_by(s17, 13, -387567557, 2129064, -9894184391, 47143560, 608304, -38258383, 13844940368, 59711076113, 165002460);
    let s18 = s17.update(12, (59711076113int, 165002460int));
    assert(at_row_fits(s17, 13) ==> at_row_fits(s18, 12));
    lemma_at_step_by(s18, 12, 1361390201, 2306486, 59711076113, 165002460, 283165512, 412883, -1131453242, 3683074417, 1344005);
    let s19 = s18.update(11, (3683074417int, 1344005int));
    assert(at_row_fits(s18, 12) ==> at_row_fits(s19, 11));
    lemma_at_step_by(s19, 11, 208735615, 104052, 3683074417, 1344005, 8671, -3034349, -24509426278, -130271599469, 16128060);
    let s20 = s19.update(10, (-130271599469int, 16128060int));
    assert(at_row_fits(s19, 11) ==> at_row_fits(s20, 10));
    lemma_at_step_by(s20, 10, -6317754175, 572286, -130271599469, 16128060, 45262620, 64541, 1911819923, -6040416093, 203918);
    let s21 = s20.update(9, (-6040416093int, 203918int));
    assert(at_row_fits(s20, 10) ==> at_row_fits(s21, 9));
    lemma_at_step_by(s21, 9, -361830837, 43355, -6040416093, 203918, 299, 3099339, -593474389720, 5661825323859, 29568110);
    let s22 = s21.update(8, (5661825323859int, 29568110int));
    assert(at_row_fits(s21, 9) ==> at_row_fits(s22, 8));
    lemma_at_step_by(s22, 8, 71527976584, 390195, 5661825323859, 29568110, 1994330, 338411, 22120626037, -378147458164, 5785065);
    let s23 = s22.update(7, (-378147458164int, 5785065int));
    assert(at_row_fits(s22, 8) ==> at_row_fits(s23, 7));
    lemma_at_step_by(s23, 7, -20217548561, 45240, -378147458164, 5785065, 5655, 9074927, 24236451231425, -123601607588137, 46280520);
    let s24 = s23.update(6, (-123601607588137int, 46280520int));
    assert(at_row_fits(s23, 7) ==> at_row_fits(s24, 6));
    lemma_step_overflows(s24, 6, -43597042623, 52780, -123601607588137, 46280520);
    assert(!at_row_fits(s0, 30));
}

/// The Bernoulli numbers up to the last row that fits.
proof fn lemma_bernoulli_values()
    ensures
        bernoulli_spec(0) == (1int, 1int),
        bernoulli_spec(1) == (-1int, 2int),
        bernoulli_spec(2) == (1int, 6int),
        bernoulli_spec(3) == (0int, 1int),
        bernoulli_spec(4) == (-1int, 30int),
        bernoulli_spec(5) == (0int, 1int),
        bernoulli_spec(6) == (1int, 42int),
        bernoulli_spec(7) == (0int, 1int),
        bernoulli_spec(8) == (-1int, 30int),
        bernoulli_spec(9) == (0int, 1int),
        bernoulli_spec(10) == (5int, 66int),
        bernoulli_spec(11) == (0int, 1int),
        bernoulli_spec(12) == (-691int, 2730int),
        bernoulli_spec(13) == (0int, 1int),
        bernoulli_spec(14) == (7int, 6int),
        bernoulli_spec(15) == (0int, 1int),
        bernoulli_spec(16) == (-3617int, 510int),
        bernoulli_spec(17) == (0int, 1int),
        bernoulli_spec(18) == (43867int, 798int),
        bernoulli_spec(19) == (0int, 1int),
        bernoulli_spec(20) == (-174611int, 330int),
        bernoulli_spec(21) == (0int, 1int),
        bernoulli_spec(22) == (854513int, 138int),
        bernoulli_spec(23) == (0int, 1int),
        bernoulli_spec(24) == (-236364091int, 2730int),
        bernoulli_spec(25) == (0int, 1int),
        bernoulli_spec(26) == (8553103int, 6int),
        bernoulli_spec(27) == (0int, 1int),
        bernoulli_spec(28) == (-23749461029int, 870int),
        bernoulli_spec(29) == (0int, 1int),
{
    lemma_triangle_row_29();
    lemma_triangle_row_2();
    lemma_triangle_row_4();
    lemma_triangle_row_6();
    lemma_triangle_row_8();
    lemma_triangle_row_10();
    lemma_triangle_row_12();
    lemma_triangle_row_14();
    lemma_triangle_row_16();
    lemma_triangle_row_18();
    lemma_triangle_row_20();
    lemma_triangle_row_22();
    lemma_triangle_row_24();
    lemma_triangle_row_26();
    lemma_triangle_row_28();
}

/// Row 1 of Pascal's triangle.
proof fn lemma_pascal_row_1()
    ensures
        binomial(1, 0) == 1,
        binomial(1, 1) == 1,
{
    assert(binomial(0, 0) == 1);
    assert(binomial(0, 1) == 0);
    lemma_binomial_above(0, 1);
    assert(binomial(1, 0) == 1);
    assert(binomial(1, 1) == 1);
}

/// Row 2 of Pascal's triangle.
proof fn lemma_pascal_row_2()
    ensures
        binomial(2, 0) == 1,
        binomial(2, 1) == 2,
        binomial(2, 2) == 1,
{
    lemma_pascal_row_1();
    lemma_binomial_above(1, 2);
    assert(binomial(2, 0) == 1);
    assert(binomial(2, 1) == 2);
    assert(binomial(2, 2) == 1);
}

/// Row 3 of Pascal's triangle.
proof fn lemma_pascal_row_3()
    ensures
        binomial(3, 0) == 1,
        binomial(3, 1) == 3,
        binomial(3, 2) == 3,
        binomial(3, 3) == 1,
{
    lemma_pascal_row_2();
    lemma_binomial_above(2, 3);
    assert(binomial(3, 0) == 1);
    assert(binomial(3, 1) == 3);
    assert(binomial(3, 2) == 3);
    assert(binomial(3, 3) == 1);
}

/// Row 4 of Pascal's triangle.
proof fn lemma_pascal_row_4()
    ensures
        binomial(4, 0) == 1,
        binomial(4, 1) == 4,
        binomial(4, 2) == 6,
        binomial(4, 3) == 4,
        binomial(4, 4) == 1,
{
    lemma_pascal_row_3();
    lemma_binomial_above(3, 4);
    assert(binomial(4, 0) == 1);
    assert(binomial(4, 1) == 4);
    assert(binomial(4, 2) == 6);
    assert(binomial(4, 3) == 4);
    assert(binomial(4, 4) == 1);
}

/// Row 5 of Pascal's triangle.
proof fn lemma_pascal_row_5()
    ensures
        binomial(5, 0) == 1,
        binomial(5, 1) == 5,
        binomial(5, 2) == 10,
        binomial(5, 3) == 10,
        binomial(5, 4) == 5,
        binomial(5, 5) == 1,
{
    lemma_pascal_row_4();
    lemma_binomial_above(4, 5);
    assert(binomial(5, 0) == 1);
    assert(binomial(5, 1) == 5);
    assert(binomial(5, 2) == 10);
    assert(binomial(5, 3) == 10);
    assert(binomial(5, 4) == 5);
    assert(binomial(5, 5) == 1);
}

/// Row 6 of Pascal's triangle.
proof fn lemma_pascal_row_6()
    ensures
        binomial(6, 0) == 1,
        binomial(6, 1) == 6,
        binomial(6, 2) == 15,
        binomial(6, 3) == 20,
        binomial(6, 4) == 15,
        binomial(6, 5) == 6,
        binomial(6, 6) == 1,
{
    lemma_pascal_row_5();
    lemma_binomial_above(5, 6);
    assert(binomial(6, 0) == 1);
    assert(binomial(6, 1) == 6);
    assert(binomial(6, 2) == 15);
    assert(binomial(6, 3) == 20);
    assert(binomial(6, 4) == 15);
    assert(binomial(6, 5) == 6);
    assert(binomial(6, 6) == 1);
}

/// Row 7 of Pascal's triangle.
proof fn lemma_pascal_row_7()
    ensures
        binomial(7, 0) == 1,
        binomial(7, 1) == 7,
        binomial(7, 2) == 21,
        binomial(7, 3) == 35,
        binomial(7, 4) == 35,
        binomial(7, 5) == 21,
        binomial(7, 6) == 7,
        binomial(7, 7) == 1,
{
    lemma_pascal_row_6();
    lemma_binomial_above(6, 7);
    assert(binomial(7, 0) == 1);
    assert(binomial(7, 1) == 7);
    assert(binomial(7, 2) == 21);
    assert(binomial(7, 3) == 35);
    assert(binomial(7, 4) == 35);
    assert(binomial(7, 5) == 21);
    assert(binomial(7, 6) == 7);
    assert(binomial(7, 7) == 1);
}

/// Row 8 of Pascal's triangle.
proof fn lemma_pascal_row_8()
    ensures
        binomial(8, 0) == 1,
        binomial(8, 1) == 8,
        binomial(8, 2) == 28,
        binomial(8, 3) == 56,
        binomial(8, 4) == 70,
        binomial(8, 5) == 56,
        binomial(8, 6) == 28,
        binomial(8, 7) == 8,
        binomial(8, 8) == 1,
{
    lemma_pascal_row_7();
    lemma_binomial_above(7, 8);
    assert(binomial(8, 0) == 1);
    assert(binomial(8, 1) == 8);
    assert(binomial(8, 2) == 28);
    assert(binomial(8, 3) == 56);
    assert(binomial(8, 4) == 70);
    assert(binomial(8, 5) == 56);
    assert(binomial(8, 6) == 28);
    assert(binomial(8, 7) == 8);
    assert(binomial(8, 8) == 1);
}

/// Row 9 of Pascal's triangle.
proof fn lemma_pascal_row_9()
    ensures
        binomial(9, 0) == 1,
        binomial(9, 1) == 9,
        binomial(9, 2) == 36,
        binomial(9, 3) == 84,
        binomial(9, 4) == 126,
        binomial(9, 5) == 126,
        binomial(9, 6) == 84,
        binomial(9, 7) == 36,
        binomial(9, 8) == 9,
        binomial(9, 9) == 1,
{
    lemma_pascal_row_8();
    lemma_binomial_above(8, 9);
    assert(binomial(9, 0) == 1);
    assert(binomial(9, 1) == 9);
    assert(binomial(9, 2) == 36);
    assert(binomial(9, 3) == 84);
    assert(binomial(9, 4) == 126);
    assert(binomial(9, 5) == 126);
    assert(binomial(9, 6) == 84);
    assert(binomial(9, 7) == 36);
    assert(binomial(9, 8) == 9);
    assert(binomial(9, 9) == 1);
}

/// Row 10 of Pascal's triangle.
proof fn lemma_pascal_row_10()
    ensures
        binomial(10, 0) == 1,
        binomial(10, 1) == 10,
        binomial(10, 2) == 45,
        binomial(10, 3) == 120,
        binomial(10, 4) == 210,
        binomial(10, 5) == 252,
        binomial(10, 6) == 210,
        binomial(10, 7) == 120,
        binomial(10, 8) == 45,
        binomial(10, 9) == 10,
        binomial(10, 10) == 1,
{
    lemma_pascal_row_9();
    lemma_binomial_above(9, 10);
    assert(binomial(10, 0) == 1);
    assert(binomial(10, 1) == 10);
    assert(binomial(10, 2) == 45);
    assert(binomial(10, 3) == 120);
    assert(binomial(10, 4) == 210);
    assert(binomial(10, 5) == 252);
    assert(binomial(10, 6) == 210);
    assert(binomial(10, 7) == 120);
    assert(binomial(10, 8) == 45);
    assert(binomial(10, 9) == 10);
    assert(binomial(10, 10) == 1);
}

/// Row 11 of Pascal's triangle.
proof fn lemma_pascal_row_11()
    ensures
        binomial(11, 0) == 1,
        binomial(11, 1) == 11,
        binomial(11, 2) == 55,
        binomial(11, 3) == 165,
        binomial(11, 4) == 330,
        binomial(11, 5) == 462,
        binomial(11, 6) == 462,
        binomial(11, 7) == 330,
        binomial(11, 8) == 165,
        binomial(11, 9) == 55,
        binomial(11, 10) == 11,
        binomial(11, 11) == 1,
{
    lemma_pascal_row_10();
    lemma_binomial_above(10, 11);
    assert(binomial(11, 0) == 1);
    assert(binomial(11, 1) == 11);
    assert(binomial(11, 2) == 55);
    assert(binomial(11, 3) == 165);
    assert(binomial(11, 4) == 330);
    assert(binomial(11, 5) == 462);
    assert(binomial(11, 6) == 462);
    assert(binomial(11, 7) == 330);
    assert(binomial(11, 8) == 165);
    assert(binomial(11, 9) == 55);
    assert(binomial(11, 10) == 11);
    assert(binomial(11, 11) == 1);
}

/// Row 12 of Pascal's triangle.
proof fn lemma_pascal_row_12()
    ensures
        binomial(12, 0) == 1,
        binomial(12, 1) == 12,
        binomial(12, 2) == 66,
        binomial(12, 3) == 220,
        binomial(12, 4) == 495,
        binomial(12, 5) == 792,
        binomial(12, 6) == 924,
        binomial(12, 7) == 792,
        binomial(12, 8) == 495,
        binomial(12, 9) == 220,
        binomial(12, 10) == 66,
        binomial(12, 11) == 12,
        binomial(12, 12) == 1,
{
    lemma_pascal_row_11();
    lemma_binomial_above(11, 12);
    assert(binomial(12, 0) == 1);
    assert(binomial(12, 1) == 12);
    assert(binomial(12, 2) == 66);
    assert(binomial(12, 3) == 220);
    assert(binomial(12, 4) == 495);
    assert(binomial(12, 5) == 792);
    assert(binomial(12, 6) == 924);
    assert(binomial(12, 7) == 792);
    assert(binomial(12, 8) == 495);
    assert(binomial(12, 9) == 220);
    assert(binomial(12, 10) == 66);
    assert(binomial(12, 11) == 12);
    assert(binomial(12, 12) == 1);
}

/// Row 13 of Pascal's triangle.
proof fn lemma_pascal_row_13()
    ensures
        binomial(13, 0) == 1,
        binomial(13, 1) == 13,
        binomial(13, 2) == 78,
        binomial(13, 3) == 286,
        binomial(13, 4) == 715,
        binomial(13, 5) == 1287,
        binomial(13, 6) == 1716,
        binomial(13, 7) == 1716,
        binomial(13, 8) == 1287,
        binomial(13, 9) == 715,
        binomial(13, 10) == 286,
        binomial(13, 11) == 78,
        binomial(13, 12) == 13,
        binomial(13, 13) == 1,
{
    lemma_pascal_row_12();
    lemma_binomial_above(12, 13);
    assert(binomial(13, 0) == 1);
    assert(binomial(13, 1) == 13);
    assert(binomial(13, 2) == 78);
    assert(binomial(13, 3) == 286);
    assert(binomial(13, 4) == 715);
    assert(binomial(13, 5) == 1287);
    assert(binomial(13, 6) == 1716);
    assert(binomial(13, 7) == 1716);
    assert(binomial(13, 8) == 1287);
    assert(binomial(13, 9) == 715);
    assert(binomial(13, 10) == 286);
    assert(binomial(13, 11) == 78);
    assert(binomial(13, 12) == 13);
    assert(binomial(13, 13) == 1);
}

/// Row 14 of Pascal's triangle.
proof fn lemma_pascal_row_14()
    ensures
        binomial(14, 0) == 1,
        binomial(14, 1) == 14,
        binomial(14, 2) == 91,
        binomial(14, 3) == 364,
        binomial(14, 4) == 1001,
        binomial(14, 5) == 2002,
        binomial(14, 6) == 3003,
        binomial(14, 7) == 3432,
        binomial(14, 8) == 3003,
        binomial(14, 9) == 2002,
        binomial(14, 10) == 1001,
        binomial(14, 11) == 364,
        binomial(14, 12) == 91,
        binomial(14, 13) == 14,
        binomial(14, 14) == 1,
{
    lemma_pascal_row_13();
    lemma_binomial_above(13, 14);
    assert(binomial(14, 0) == 1);
    assert(binomial(14, 1) == 14);
    assert(binomial(14, 2) == 91);
    assert(binomial(14, 3) == 364);
    assert(binomial(14, 4) == 1001);
    assert(binomial(14, 5) == 2002);
    assert(binomial(14, 6) == 3003);
    assert(binomial(14, 7) == 3432);
    assert(binomial(14, 8) == 3003);
    assert(binomial(14, 9) == 2002);
    assert(binomial(14, 10) == 1001);
    assert(binomial(14, 11) == 364);
    assert(binomial(14, 12) == 91);
    assert(binomial(14, 13) == 14);
    assert(binomial(14, 14) == 1);
}

/// Row 15 of Pascal's triangle.
proof fn lemma_pascal_row_15()
    ensures
        binomial(15, 0) == 1,
        binomial(15, 1) == 15,
        binomial(15, 2) == 105,
        binomial(15, 3) == 455,
        binomial(15, 4) == 1365,
        binomial(15, 5) == 3003,
        binomial(15, 6) == 5005,
        binomial(15, 7) == 6435,
        binomial(15, 8) == 6435,
        binomial(15, 9) == 5005,
        binomial(15, 10) == 3003,
        binomial(15, 11) == 1365,
        binomial(15, 12) == 455,
        binomial(15, 13) == 105,
        binomial(15, 14) == 15,
        binomial(15, 15) == 1,
{
    lemma_pascal_row_14();
    lemma_binomial_above(14, 15);
    assert(binomial(15, 0) == 1);
    assert(binomial(15, 1) == 15);
    assert(binomial(15, 2) == 105);
    assert(binomial(15, 3) == 455);
    assert(binomial(15, 4) == 1365);
    assert(binomial(15, 5) == 3003);
    assert(binomial(15, 6) == 5005);
    assert(binomial(15, 7) == 6435);
    assert(binomial(15, 8) == 6435);
    assert(binomial(15, 9) == 5005);
    assert(binomial(15, 10) == 3003);
    assert(binomial(15, 11) == 1365);
    assert(binomial(15, 12) == 455);
    assert(binomial(15, 13) == 105);
    assert(binomial(15, 14) == 15);
    assert(binomial(15, 15) == 1);
}

/// Row 16 of Pascal's triangle.
proof fn lemma_pascal_row_16()
    ensures
        binomial(16, 0) == 1,
        binomial(16, 1) == 16,
        binomial(16, 2) == 120,
        binomial(16, 3) == 560,
        binomial(16, 4) == 1820,
        binomial(16, 5) == 4368,
        binomial(16, 6) == 8008,
        binomial(16, 7) == 11440,
        binomial(16, 8) == 12870,
        binomial(16, 9) == 11440,
        binomial(16, 10) == 8008,
        binomial(16, 11) == 4368,
        binomial(16, 12) == 1820,
        binomial(16, 13) == 560,
        binomial(16, 14) == 120,
        binomial(16, 15) == 16,
        binomial(16, 16) == 1,
{
    lemma_pascal_row_15();
    lemma_binomial_above(15, 16);
    assert(binomial(16, 0) == 1);
    assert(binomial(16, 1) == 16);
    assert(binomial(16, 2) == 120);
    assert(binomial(16, 3) == 560);
    assert(binomial(16, 4) == 1820);
    assert(binomial(16, 5) == 4368);
    assert(binomial(16, 6) == 8008);
    assert(binomial(16, 7) == 11440);
    assert(binomial(16, 8) == 12870);
    assert(binomial(16, 9) == 11440);
    assert(binomial(16, 10) == 8008);
    assert(binomial(16, 11) == 4368);
    assert(binomial(16, 12) == 1820);
    assert(binomial(16, 13) == 560);
    assert(binomial(16, 14) == 120);
    assert(binomial(16, 15) == 16);
    assert(binomial(16, 16) == 1);
}

/// Row 17 of Pascal's triangle.
proof fn lemma_pascal_row_17()
    ensures
        binomial(17, 0) == 1,
        binomial(17, 1) == 17,
        binomial(17, 2) == 136,
        binomial(17, 3) == 680,
        binomial(17, 4) == 2380,
        binomial(17, 5) == 6188,
        binomial(17, 6) == 12376,
        binomial(17, 7) == 19448,
        binomial(17, 8) == 24310,
        binomial(17, 9) == 24310,
        binomial(17, 10) == 19448,
        binomial(17, 11) == 12376,
        binomial(17, 12) == 6188,
        binomial(17, 13) == 2380,
        binomial(17, 14) == 680,
        binomial(17, 15) == 136,
        binomial(17, 16) == 17,
        binomial(17, 17) == 1,
{
    lemma_pascal_row_16();
    lemma_binomial_above(16, 17);
    assert(binomial(17, 0) == 1);
    assert(binomial(17, 1) == 17);
    assert(binomial(17, 2) == 136);
    assert(binomial(17, 3) == 680);
    assert(binomial(17, 4) == 2380);
    assert(binomial(17, 5) == 6188);
    assert(binomial(17, 6) == 12376);
    assert(binomial(17, 7) == 19448);
    assert(binomial(17, 8) == 24310);
    assert(binomial(17, 9) == 24310);
    assert(binomial(17, 10) == 19448);
    assert(binomial(17, 11) == 12376);
    assert(binomial(17, 12) == 6188);
    assert(binomial(17, 13) == 2380);
    assert(binomial(17, 14) == 680);
    assert(binomial(17, 15) == 136);
    assert(binomial(17, 16) == 17);
    assert(binomial(17, 17) == 1);
}

/// Row 18 of Pascal's triangle.
proof fn lemma_pascal_row_18()
    ensures
        binomial(18, 0) == 1,
        binomial(18, 1) == 18,
        binomial(18, 2) == 153,
        binomial(18, 3) == 816,
        binomial(18, 4) == 3060,
        binomial(18, 5) == 8568,
        binomial(18, 6) == 18564,
        binomial(18, 7) == 31824,
        binomial(18, 8) == 43758,
        binomial(18, 9) == 48620,
        binomial(18, 10) == 43758,
        binomial(18, 11) == 31824,
        binomial(18, 12) == 18564,
        binomial(18, 13) == 8568,
        binomial(18, 14) == 3060,
        binomial(18, 15) == 816,
        binomial(18, 16) == 153,
        binomial(18, 17) == 18,
        binomial(18, 18) == 1,
{
    lemma_pascal_row_17();
    lemma_binomial_above(17, 18);
    assert(binomial(18, 0) == 1);
    assert(binomial(18, 1) == 18);
    assert(binomial(18, 2) == 153);
    assert(binomial(18, 3) == 816);
    assert(binomial(18, 4) == 3060);
    assert(binomial(18, 5) == 8568);
    assert(binomial(18, 6) == 18564);
    assert(binomial(18, 7) == 31824);
    assert(binomial(18, 8) == 43758);
    assert(binomial(18, 9) == 48620);
    assert(binomial(18, 10) == 43758);
    assert(binomial(18, 11) == 31824);
    assert(binomial(18, 12) == 18564);
    assert(binomial(18, 13) == 8568);
    assert(binomial(18, 14) == 3060);
    assert(binomial(18, 15) == 816);
    assert(binomial(18, 16) == 153);
    assert(binomial(18, 17) == 18);
    assert(binomial(18, 18) == 1);
}

/// Row 19 of Pascal's triangle.
proof fn lemma_pascal_row_19()
    ensures
        binomial(19, 0) == 1,
        binomial(19, 1) == 19,
        binomial(19, 2) == 171,
        binomial(19, 3) == 969,
        binomial(19, 4) == 3876,
        binomial(19, 5) == 11628,
        binomial(19, 6) == 27132,
        binomial(19, 7) == 50388,
        binomial(19, 8) == 75582,
        binomial(19, 9) == 92378,
        binomial(19, 10) == 92378,
        binomial(19, 11) == 75582,
        binomial(19, 12) == 50388,
        binomial(19, 13) == 27132,
        binomial(19, 14) == 11628,
        binomial(19, 15) == 3876,
        binomial(19, 16) == 969,
        binomial(19, 17) == 171,
        binomial(19, 18) == 19,
        binomial(19, 19) == 1,
{
    lemma_pascal_row_18();
    lemma_binomial_above(18, 19);
    assert(binomial(19, 0) == 1);
    assert(binomial(19, 1) == 19);
    assert(binomial(19, 2) == 171);
    assert(binomial(19, 3) == 969);
    assert(binomial(19, 4) == 3876);
    assert(binomial(19, 5) == 11628);
    assert(binomial(19, 6) == 27132);
    assert(binomial(19, 7) == 50388);
    assert(binomial(19, 8) == 75582);
    assert(binomial(19, 9) == 92378);
    assert(binomial(19, 10) == 92378);
    assert(binomial(19, 11) == 75582);
    assert(binomial(19, 12) == 50388);
    assert(binomial(19, 13) == 27132);
    assert(binomial(19, 14) == 11628);
    assert(binomial(19, 15) == 3876);
    assert(binomial(19, 16) == 969);
    assert(binomial(19, 17) == 171);
    assert(binomial(19, 18) == 19);
    assert(binomial(19, 19) == 1);
}

/// Row 20 of Pascal's triangle.
proof fn lemma_pascal_row_20()
    ensures
        binomial(20, 0) == 1,
        binomial(20, 1) == 20,
        binomial(20, 2) == 190,
        binomial(20, 3) == 1140,
        binomial(20, 4) == 4845,
        binomial(20, 5) == 15504,
        binomial(20, 6) == 38760,
        binomial(20, 7) == 77520,
        binomial(20, 8) == 125970,
        binomial(20, 9) == 167960,
        binomial(20, 10) == 184756,
        binomial(20, 11) == 167960,
        binomial(20, 12) == 125970,
        binomial(20, 13) == 77520,
        binomial(20, 14) == 38760,
        binomial(20, 15) == 15504,
        binomial(20, 16) == 4845,
        binomial(20, 17) == 1140,
        binomial(20, 18) == 190,
        binomial(20, 19) == 20,
        binomial(20, 20) == 1,
{
    lemma_pascal_row_19();
    lemma_binomial_above(19, 20);
    assert(binomial(20, 0) == 1);
    assert(binomial(20, 1) == 20);
    assert(binomial(20, 2) == 190);
    assert(binomial(20, 3) == 1140);
    assert(binomial(20, 4) == 4845);
    assert(binomial(20, 5) == 15504);
    assert(binomial(20, 6) == 38760);
    assert(binomial(20, 7) == 77520);
    assert(binomial(20, 8) == 125970);
    assert(binomial(20, 9) == 167960);
    assert(binomial(20, 10) == 184756);
    assert(binomial(20, 11) == 167960);
    assert(binomial(20, 12) == 125970);
    assert(binomial(20, 13) == 77520);
    assert(binomial(20, 14) == 38760);
    assert(binomial(20, 15) == 15504);
    assert(binomial(20, 16) == 4845);
    assert(binomial(20, 17) == 1140);
    assert(binomial(20, 18) == 190);
    assert(binomial(20, 19) == 20);
    assert(binomial(20, 20) == 1);
}

/// Row 21 of Pascal's triangle.
proof fn lemma_pascal_row_21()
    ensures
        binomial(21, 0) == 1,
        binomial(21, 1) == 21,
        binomial(21, 2) == 210,
        binomial(21, 3) == 1330,
        binomial(21, 4) == 5985,
        binomial(21, 5) == 20349,
        binomial(21, 6) == 54264,
        binomial(21, 7) == 116280,
        binomial(21, 8) == 203490,
        binomial(21, 9) == 293930,
        binomial(21, 10) == 352716,
        binomial(21, 11) == 352716,
        binomial(21, 12) == 293930,
        binomial(21, 13) == 203490,
        binomial(21, 14) == 116280,
        binomial(21, 15) == 54264,
        binomial(21, 16) == 20349,
        binomial(21, 17) == 5985,
        binomial(21, 18) == 1330,
        binomial(21, 19) == 210,
        binomial(21, 20) == 21,
        binomial(21, 21) == 1,
{
    lemma_pascal_row_20();
    lemma_binomial_above(20, 21);
    assert(binomial(21, 0) == 1);
    assert(binomial(21, 1) == 21);
    assert(binomial(21, 2) == 210);
    assert(binomial(21, 3) == 1330);
    assert(binomial(21, 4) == 5985);
    assert(binomial(21, 5) == 20349);
    assert(binomial(21, 6) == 54264);
    assert(binomial(21, 7) == 116280);
    assert(binomial(21, 8) == 203490);
    assert(binomial(21, 9) == 293930);
    assert(binomial(21, 10) == 352716);
    assert(binomial(21, 11) == 352716);
    assert(binomial(21, 12) == 293930);
    assert(binomial(21, 13) == 203490);
    assert(binomial(21, 14) == 116280);
    assert(binomial(21, 15) == 54264);
    assert(binomial(21, 16) == 20349);
    assert(binomial(21, 17) == 5985);
    assert(binomial(21, 18) == 1330);
    assert(binomial(21, 19) == 210);
    assert(binomial(21, 20) == 21);
    assert(binomial(21, 21) == 1);
}

/// Row 22 of Pascal's triangle.
proof fn lemma_pascal_row_22()
    ensures
        binomial(22, 0) == 1,
        binomial(22, 1) == 22,
        binomial(22, 2) == 231,
        binomial(22, 3) == 1540,
        binomial(22, 4) == 7315,
        binomial(22, 5) == 26334,
        binomial(22, 6) == 74613,
        binomial(22, 7) == 170544,
        binomial(22, 8) == 319770,
        binomial(22, 9) == 497420,
        binomial(22, 10) == 646646,
        binomial(22, 11) == 705432,
        binomial(22, 12) == 646646,
        binomial(22, 13) == 497420,
        binomial(22, 14) == 319770,
        binomial(22, 15) == 170544,
        binomial(22, 16) == 74613,
        binomial(22, 17) == 26334,
        binomial(22, 18) == 7315,
        binomial(22, 19) == 1540,
        binomial(22, 20) == 231,
        binomial(22, 21) == 22,
        binomial(22, 22) == 1,
{
    lemma_pascal_row_21();
    lemma_binomial_above(21, 22);
    assert(binomial(22, 0) == 1);
    assert(binomial(22, 1) == 22);
    assert(binomial(22, 2) == 231);
    assert(binomial(22, 3) == 1540);
    assert(binomial(22, 4) == 7315);
    assert(binomial(22, 5) == 26334);
    assert(binomial(22, 6) == 74613);
    assert(binomial(22, 7) == 170544);
    assert(binomial(22, 8) == 319770);
    assert(binomial(22, 9) == 497420);
    assert(binomial(22, 10) == 646646);
    assert(binomial(22, 11) == 705432);
    assert(binomial(22, 12) == 646646);
    assert(binomial(22, 13) == 497420);
    assert(binomial(22, 14) == 319770);
    assert(binomial(22, 15) == 170544);
    assert(binomial(22, 16) == 74613);
    assert(binomial(22, 17) == 26334);
    assert(binomial(22, 18) == 7315);
    assert(binomial(22, 19) == 1540);
    assert(binomial(22, 20) == 231);
    assert(binomial(22, 21) == 22);
    assert(binomial(22, 22) == 1);
}

/// Row 23 of Pascal's triangle.
proof fn lemma_pascal_row_23()
    ensures
        binomial(23, 0) == 1,
        binomial(23, 1) == 23,
        binomial(23, 2) == 253,
        binomial(23, 3) == 1771,
        binomial(23, 4) == 8855,
        binomial(23, 5) == 33649,
        binomial(23, 6) == 100947,
        binomial(23, 7) == 245157,
        binomial(23, 8) == 490314,
        binomial(23, 9) == 817190,
        binomial(23, 10) == 1144066,
        binomial(23, 11) == 1352078,
        binomial(23, 12) == 1352078,
        binomial(23, 13) == 1144066,
        binomial(23, 14) == 817190,
        binomial(23, 15) == 490314,
        binomial(23, 16) == 245157,
        binomial(23, 17) == 100947,
        binomial(23, 18) == 33649,
        binomial(23, 19) == 8855,
        binomial(23, 20) == 1771,
        binomial(23, 21) == 253,
        binomial(23, 22) == 23,
        binomial(23, 23) == 1,
{
    lemma_pascal_row_22();
    lemma_binomial_above(22, 23);
    assert(binomial(23, 0) == 1);
    assert(binomial(23, 1) == 23);
    assert(binomial(23, 2) == 253);
    assert(binomial(23, 3) == 1771);
    assert(binomial(23, 4) == 8855);
    assert(binomial(23, 5) == 33649);
    assert(binomial(23, 6) == 100947);
    assert(binomial(23, 7) == 245157);
    assert(binomial(23, 8) == 490314);
    assert(binomial(23, 9) == 817190);
    assert(binomial(23, 10) == 1144066);
    assert(binomial(23, 11) == 1352078);
    assert(binomial(23, 12) == 1352078);
    assert(binomial(23, 13) == 1144066);
    assert(binomial(23, 14) == 817190);
    assert(binomial(23, 15) == 490314);
    assert(binomial(23, 16) == 245157);
    assert(binomial(23, 17) == 100947);
    assert(binomial(23, 18) == 33649);
    assert(binomial(23, 19) == 8855);
    assert(binomial(23, 20) == 1771);
    assert(binomial(23, 21) == 253);
    assert(binomial(23, 22) == 23);
    assert(binomial(23, 23) == 1);
}

/// Row 24 of Pascal's triangle.
proof fn lemma_pascal_row_24()
    ensures
        binomial(24, 0) == 1,
        binomial(24, 1) == 24,
        binomial(24, 2) == 276,
        binomial(24, 3) == 2024,
        binomial(24, 4) == 10626,
        binomial(24, 5) == 42504,
        binomial(24, 6) == 134596,
        binomial(24, 7) == 346104,
        binomial(24, 8) == 735471,
        binomial(24, 9) == 1307504,
        binomial(24, 10) == 1961256,
        binomial(24, 11) == 2496144,
        binomial(24, 12) == 2704156,
        binomial(24, 13) == 2496144,
        binomial(24, 14) == 1961256,
        binomial(24, 15) == 1307504,
        binomial(24, 16) == 735471,
        binomial(24, 17) == 346104,
        binomial(24, 18) == 134596,
        binomial(24, 19) == 42504,
        binomial(24, 20) == 10626,
        binomial(24, 21) == 2024,
        binomial(24, 22) == 276,
        binomial(24, 23) == 24,
        binomial(24, 24) == 1,
{
    lemma_pascal_row_23();
    lemma_binomial_above(23, 24);
    assert(binomial(24, 0) == 1);
    assert(binomial(24, 1) == 24);
    assert(binomial(24, 2) == 276);
    assert(binomial(24, 3) == 2024);
    assert(binomial(24, 4) == 10626);
    assert(binomial(24, 5) == 42504);
    assert(binomial(24, 6) == 134596);
    assert(binomial(24, 7) == 346104);
    assert(binomial(24, 8) == 735471);
    assert(binomial(24, 9) == 1307504);
    assert(binomial(24, 10) == 1961256);
    assert(binomial(24, 11) == 2496144);
    assert(binomial(24, 12) == 2704156);
    assert(binomial(24, 13) == 2496144);
    assert(binomial(24, 14) == 1961256);
    assert(binomial(24, 15) == 1307504);
    assert(binomial(24, 16) == 735471);
    assert(binomial(24, 17) == 346104);
    assert(binomial(24, 18) == 134596);
    assert(binomial(24, 19) == 42504);
    assert(binomial(24, 20) == 10626);
    assert(binomial(24, 21) == 2024);
    assert(binomial(24, 22) == 276);
    assert(binomial(24, 23) == 24);
    assert(binomial(24, 24) == 1);
}

/// Row 25 of Pascal's triangle.
proof fn lemma_pascal_row_25()
    ensures
        binomial(25, 0) == 1,
        binomial(25, 1) == 25,
        binomial(25, 2) == 300,
        binomial(25, 3) == 2300,
        binomial(25, 4) == 12650,
        binomial(25, 5) == 53130,
        binomial(25, 6) == 177100,
        binomial(25, 7) == 480700,
        binomial(25, 8) == 1081575,
        binomial(25, 9) == 2042975,
        binomial(25, 10) == 3268760,
        binomial(25, 11) == 4457400,
        binomial(25, 12) == 5200300,
        binomial(25, 13) == 5200300,
        binomial(25, 14) == 4457400,
        binomial(25, 15) == 3268760,
        binomial(25, 16) == 2042975,
        binomial(25, 17) == 1081575,
        binomial(25, 18) == 480700,
        binomial(25, 19) == 177100,
        binomial(25, 20) == 53130,
        binomial(25, 21) == 12650,
        binomial(25, 22) == 2300,
        binomial(25, 23) == 300,
        binomial(25, 24) == 25,
        binomial(25, 25) == 1,
{
    lemma_pascal_row_24();
    lemma_binomial_above(24, 25);
    assert(binomial(25, 0) == 1);
    assert(binomial(25, 1) == 25);
    assert(binomial(25, 2) == 300);
    assert(binomial(25, 3) == 2300);
    assert(binomial(25, 4) == 12650);
    assert(binomial(25, 5) == 53130);
    assert(binomial(25, 6) == 177100);
    assert(binomial(25, 7) == 480700);
    assert(binomial(25, 8) == 1081575);
    assert(binomial(25, 9) == 2042975);
    assert(binomial(25, 10) == 3268760);
    assert(binomial(25, 11) == 4457400);
    assert(binomial(25, 12) == 5200300);
    assert(binomial(25, 13) == 5200300);
    assert(binomial(25, 14) == 4457400);
    assert(binomial(25, 15) == 3268760);
    assert(binomial(25, 16) == 2042975);
    assert(binomial(25, 17) == 1081575);
    assert(binomial(25, 18) == 480700);
    assert(binomial(25, 19) == 177100);
    assert(binomial(25, 20) == 53130);
    assert(binomial(25, 21) == 12650);
    assert(binomial(25, 22) == 2300);
    assert(binomial(25, 23) == 300);
    assert(binomial(25, 24) == 25);
    assert(binomial(25, 25) == 1);
}

/// Row 26 of Pascal's triangle.
proof fn lemma_pascal_row_26()
    ensures
        binomial(26, 0) == 1,
        binomial(26, 1) == 26,
        binomial(26, 2) == 325,
        binomial(26, 3) == 2600,
        binomial(26, 4) == 14950,
        binomial(26, 5) == 65780,
        binomial(26, 6) == 230230,
        binomial(26, 7) == 657800,
        binomial(26, 8) == 1562275,
        binomial(26, 9) == 3124550,
        binomial(26, 10) == 5311735,
        binomial(26, 11) == 7726160,
        binomial(26, 12) == 9657700,
        binomial(26, 13) == 10400600,
        binomial(26, 14) == 9657700,
        binomial(26, 15) == 7726160,
        binomial(26, 16) == 5311735,
        binomial(26, 17) == 3124550,
        binomial(26, 18) == 1562275,
        binomial(26, 19) == 657800,
        binomial(26, 20) == 230230,
        binomial(26, 21) == 65780,
        binomial(26, 22) == 14950,
        binomial(26, 23) == 2600,
        binomial(26, 24) == 325,
        binomial(26, 25) == 26,
        binomial(26, 26) == 1,
{
    lemma_pascal_row_25();
    lemma_binomial_above(25, 26);
    assert(binomial(26, 0) == 1);
    assert(binomial(26, 1) == 26);
    assert(binomial(26, 2) == 325);
    assert(binomial(26, 3) == 2600);
    assert(binomial(26, 4) == 14950);
    assert(binomial(26, 5) == 65780);
    assert(binomial(26, 6) == 230230);
    assert(binomial(26, 7) == 657800);
    assert(binomial(26, 8) == 1562275);
    assert(binomial(26, 9) == 3124550);
    assert(binomial(26, 10) == 5311735);
    assert(binomial(26, 11) == 7726160);
    assert(binomial(26, 12) == 9657700);
    assert(binomial(26, 13) == 10400600);
    assert(binomial(26, 14) == 9657700);
    assert(binomial(26, 15) == 7726160);
    assert(binomial(26, 16) == 5311735);
    assert(binomial(26, 17) == 3124550);
    assert(binomial(26, 18) == 1562275);
    assert(binomial(26, 19) == 657800);
    assert(binomial(26, 20) == 230230);
    assert(binomial(26, 21) == 65780);
    assert(binomial(26, 22) == 14950);
    assert(binomial(26, 23) == 2600);
    assert(binomial(26, 24) == 325);
    assert(binomial(26, 25) == 26);
    assert(binomial(26, 26) == 1);
}

/// Row 27 of Pascal's triangle.
proof fn lemma_pascal_row_27()
    ensures
        binomial(27, 0) == 1,
        binomial(27, 1) == 27,
        binomial(27, 2) == 351,
        binomial(27, 3) == 2925,
        binomial(27, 4) == 17550,
        binomial(27, 5) == 80730,
        binomial(27, 6) == 296010,
        binomial(27, 7) == 888030,
        binomial(27, 8) == 2220075,
        binomial(27, 9) == 4686825,
        binomial(27, 10) == 8436285,
        binomial(27, 11) == 13037895,
        binomial(27, 12) == 17383860,
        binomial(27, 13) == 20058300,
        binomial(27, 14) == 20058300,
        binomial(27, 15) == 17383860,
        binomial(27, 16) == 13037895,
        binomial(27, 17) == 8436285,
        binomial(27, 18) == 4686825,
        binomial(27, 19) == 2220075,
        binomial(27, 20) == 888030,
        binomial(27, 21) == 296010,
        binomial(27, 22) == 80730,
        binomial(27, 23) == 17550,
        binomial(27, 24) == 2925,
        binomial(27, 25) == 351,
        binomial(27, 26) == 27,
        binomial(27, 27) == 1,
{
    lemma_pascal_row_26();
    lemma_binomial_above(26, 27);
    assert(binomial(27, 0) == 1);
    assert(binomial(27, 1) == 27);
    assert(binomial(27, 2) == 351);
    assert(binomial(27, 3) == 2925);
    assert(binomial(27, 4) == 17550);
    assert(binomial(27, 5) == 80730);
    assert(binomial(27, 6) == 296010);
    assert(binomial(27, 7) == 888030);
    assert(binomial(27, 8) == 2220075);
    assert(binomial(27, 9) == 4686825);
    assert(binomial(27, 10) == 8436285);
    assert(binomial(27, 11) == 13037895);
    assert(binomial(27, 12) == 17383860);
    assert(binomial(27, 13) == 20058300);
    assert(binomial(27, 14) == 20058300);
    assert(binomial(27, 15) == 17383860);
    assert(binomial(27, 16) == 13037895);
    assert(binomial(27, 17) == 8436285);
    assert(binomial(27, 18) == 4686825);
    assert(binomial(27, 19) == 2220075);
    assert(binomial(27, 20) == 888030);
    assert(binomial(27, 21) == 296010);
    assert(binomial(27, 22) == 80730);
    assert(binomial(27, 23) == 17550);
    assert(binomial(27, 24) == 2925);
    assert(binomial(27, 25) == 351);
    assert(binomial(27, 26) == 27);
    assert(binomial(27, 27) == 1);
}

/// Row 28 of Pascal's triangle.
proof fn lemma_pascal_row_28()
    ensures
        binomial(28, 0) == 1,
        binomial(28, 1) == 28,
        binomial(28, 2) == 378,
        binomial(28, 3) == 3276,
        binomial(28, 4) == 20475,
        binomial(28, 5) == 98280,
        binomial(28, 6) == 376740,
        binomial(28, 7) == 1184040,
        binomial(28, 8) == 3108105,
        binomial(28, 9) == 6906900,
        binomial(28, 10) == 13123110,
        binomial(28, 11) == 21474180,
        binomial(28, 12) == 30421755,
        binomial(28, 13) == 37442160,
        binomial(28, 14) == 40116600,
        binomial(28, 15) == 37442160,
        binomial(28, 16) == 30421755,
        binomial(28, 17) == 21474180,
        binomial(28, 18) == 13123110,
        binomial(28, 19) == 6906900,
        binomial(28, 20) == 3108105,
        binomial(28, 21) == 1184040,
        binomial(28, 22) == 376740,
        binomial(28, 23) == 98280,
        binomial(28, 24) == 20475,
        binomial(28, 25) == 3276,
        binomial(28, 26) == 378,
        binomial(28, 27) == 28,
        binomial(28, 28) == 1,
{
    lemma_pascal_row_27();
    lemma_binomial_above(27, 28);
    assert(binomial(28, 0) == 1);
    assert(binomial(28, 1) == 28);
    assert(binomial(28, 2) == 378);
    assert(binomial(28, 3) == 3276);
    assert(binomial(28, 4) == 20475);
    assert(binomial(28, 5) == 98280);
    assert(binomial(28, 6) == 376740);
    assert(binomial(28, 7) == 1184040);
    assert(binomial(28, 8) == 3108105);
    assert(binomial(28, 9) == 6906900);
    assert(binomial(28, 10) == 13123110);
    assert(binomial(28, 11) == 21474180);
    assert(binomial(28, 12) == 30421755);
    assert(binomial(28, 13) == 37442160);
    assert(binomial(28, 14) == 40116600);
    assert(binomial(28, 15) == 37442160);
    assert(binomial(28, 16) == 30421755);
    assert(binomial(28, 17) == 21474180);
    assert(binomial(28, 18) == 13123110);
    assert(binomial(28, 19) == 6906900);
    assert(binomial(28, 20) == 3108105);
    assert(binomial(28, 21) == 1184040);
    assert(binomial(28, 22) == 376740);
    assert(binomial(28, 23) == 98280);
    assert(binomial(28, 24) == 20475);
    assert(binomial(28, 25) == 3276);
    assert(binomial(28, 26) == 378);
    assert(binomial(28, 27) == 28);
    assert(binomial(28, 28) == 1);
}

/// Row 29 of Pascal's triangle.
proof fn lemma_pascal_row_29()
    ensures
        binomial(29, 0) == 1,
        binomial(29, 1) == 29,
        binomial(29, 2) == 406,
        binomial(29, 3) == 3654,
        binomial(29, 4) == 23751,
        binomial(29, 5) == 118755,
        binomial(29, 6) == 475020,
        binomial(29, 7) == 1560780,
        binomial(29, 8) == 4292145,
        binomial(29, 9) == 10015005,
        binomial(29, 10) == 20030010,
        binomial(29, 11) == 34597290,
        binomial(29, 12) == 51895935,
        binomial(29, 13) == 67863915,
        binomial(29, 14) == 77558760,
        binomial(29, 15) == 77558760,
        binomial(29, 16) == 67863915,
        binomial(29, 17) == 51895935,
        binomial(29, 18) == 34597290,
        binomial(29, 19) == 20030010,
        binomial(29, 20) == 10015005,
        binomial(29, 21) == 4292145,
        binomial(29, 22) == 1560780,
        binomial(29, 23) == 475020,
        binomial(29, 24) == 118755,
        binomial(29, 25) == 23751,
        binomial(29, 26) == 3654,
        binomial(29, 27) == 406,
        binomial(29, 28) == 29,
        binomial(29, 29) == 1,
{
    lemma_pascal_row_28();
    lemma_binomial_above(28, 29);
    assert(binomial(29, 0) == 1);
    assert(binomial(29, 1) == 29);
    assert(binomial(29, 2) == 406);
    assert(binomial(29, 3) == 3654);
    assert(binomial(29, 4) == 23751);
    assert(binomial(29, 5) == 118755);
    assert(binomial(29, 6) == 475020);
    assert(binomial(29, 7) == 1560780);
    assert(binomial(29, 8) == 4292145);
    assert(binomial(29, 9) == 10015005);
    assert(binomial(29, 10) == 20030010);
    assert(binomial(29, 11) == 34597290);
    assert(binomial(29, 12) == 51895935);
    assert(binomial(29, 13) == 67863915);
    assert(binomial(29, 14) == 77558760);
    assert(binomial(29, 15) == 77558760);
    assert(binomial(29, 16) == 67863915);
    assert(binomial(29, 17) == 51895935);
    assert(binomial(29, 18) == 34597290);
    assert(binomial(29, 19) == 20030010);
    assert(binomial(29, 20) == 10015005);
    assert(binomial(29, 21) == 4292145);
    assert(binomial(29, 22) == 1560780);
    assert(binomial(29, 23) == 475020);
    assert(binomial(29, 24) == 118755);
    assert(binomial(29, 25) == 23751);
    assert(binomial(29, 26) == 3654);
    assert(binomial(29, 27) == 406);
    assert(binomial(29, 28) == 29);
    assert(binomial(29, 29) == 1);
}

/// Row 30 of Pascal's triangle.
proof fn lemma_pascal_row_30()
    ensures
        binomial(30, 0) == 1,
        binomial(30, 1) == 30,
        binomial(30, 2) == 435,
        binomial(30, 3) == 4060,
        binomial(30, 4) == 27405,
        binomial(30, 5) == 142506,
        binomial(30, 6) == 593775,
        binomial(30, 7) == 2035800,
        binomial(30, 8) == 5852925,
        binomial(30, 9) == 14307150,
        binomial(30, 10) == 30045015,
        binomial(30, 11) == 54627300,
        binomial(30, 12) == 86493225,
        binomial(30, 13) == 119759850,
        binomial(30, 14) == 145422675,
        binomial(30, 15) == 155117520,
        binomial(30, 16) == 145422675,
        binomial(30, 17) == 119759850,
        binomial(30, 18) == 86493225,
        binomial(30, 19) == 54627300,
        binomial(30, 20) == 30045015,
        binomial(30, 21) == 14307150,
        binomial(30, 22) == 5852925,
        binomial(30, 23) == 2035800,
        binomial(30, 24) == 593775,
        binomial(30, 25) == 142506,
        binomial(30, 26) == 27405,
        binomial(30, 27) == 4060,
        binomial(30, 28) == 435,
        binomial(30, 29) == 30,
        binomial(30, 30) == 1,
{
    lemma_pascal_row_29();
    lemma_binomial_above(29, 30);
    assert(binomial(30, 0) == 1);
    assert(binomial(30, 1) == 30);
    assert(binomial(30, 2) == 435);
    assert(binomial(30, 3) == 4060);
    assert(binomial(30, 4) == 27405);
    assert(binomial(30, 5) == 142506);
    assert(binomial(30, 6) == 593775);
    assert(binomial(30, 7) == 2035800);
    assert(binomial(30, 8) == 5852925);
    assert(binomial(30, 9) == 14307150);
    assert(binomial(30, 10) == 30045015);
    assert(binomial(30, 11) == 54627300);
    assert(binomial(30, 12) == 86493225);
    assert(binomial(30, 13) == 119759850);
    assert(binomial(30, 14) == 145422675);
    assert(binomial(30, 15) == 155117520);
    assert(binomial(30, 16) == 145422675);
    assert(binomial(30, 17) == 119759850);
    assert(binomial(30, 18) == 86493225);
    assert(binomial(30, 19) == 54627300);
    assert(binomial(30, 20) == 30045015);
    assert(binomial(30, 21) == 14307150);
    assert(binomial(30, 22) == 5852925);
    assert(binomial(30, 23) == 2035800);
    assert(binomial(30, 24) == 593775);
    assert(binomial(30, 25) == 142506);
    assert(binomial(30, 26) == 27405);
    assert(binomial(30, 27) == 4060);
    assert(binomial(30, 28) == 435);
    assert(binomial(30, 29) == 30);
    assert(binomial(30, 30) == 1);
}

/// The recurrence for `m = 1`.
#[verifier::nonlinear]
proof fn lemma_recurrence_at_1()
    ensures
        bernoulli_weighted_sum(2, 2).0 == 0,
{
    lemma_bernoulli_values();
    lemma_pascal_row_2();
    assert(bernoulli_weighted_sum(2, 0) == (0int, 1int));
    lemma_sum_step(2, 1, 0, 1, 1, 1, 1, 1, 1);
    lemma_sum_step(2, 2, 1, 1, -1, 2, 2, 0, 2);
}

/// The recurrence for `m = 2`.
#[verifier::nonlinear]
proof fn lemma_recurrence_at_2()
    ensures
        bernoulli_weighted_sum(3, 3).0 == 0,
{
    lemma_bernoulli_values();
    lemma_pascal_row_3();
    assert(bernoulli_weighted_sum(3, 0) == (0int, 1int));
    lemma_sum_step(3, 1, 0, 1, 1, 1, 1, 1, 1);
    lemma_sum_step(3, 2, 1, 1, -1, 2, 3, -1, 2);
    lemma_sum_step(3, 3, -1, 2, 1, 6, 3, 0, 12);
}

/// The recurrence for `m = 3`.
#[verifier::nonlinear]
proof fn lemma_recurrence_at_3()
    ensures
        bernoulli_weighted_sum(4, 4).0 == 0,
{
    lemma_bernoulli_values();
    lemma_pascal_row_4();
    assert(bernoulli_weighted_sum(4, 0) == (0int, 1int));
    lemma_sum_step(4, 1, 0, 1, 1, 1, 1, 1, 1);
    lemma_sum_step(4, 2, 1, 1, -1, 2, 4, -2, 2);
    lemma_sum_step(4, 3, -2, 2, 1, 6, 6, 0, 12);
    lemma_sum_step(4, 4, 0, 12, 0, 1, 4, 0, 12);
}

/// The recurrence for `m = 4`.
#[verifier::nonlinear]
proof fn lemma_recurrence_at_4()
    ensures
        bernoulli_weighted_sum(5, 5).0 == 0,
{
    lemma_bernoulli_values();
    lemma_pascal_row_5();
    assert(bernoulli_weighted_sum(5, 0) == (0int, 1int));
    lemma_sum_step(5, 1, 0, 1, 1, 1, 1, 1, 1);
    lemma_sum_step(5, 2, 1, 1, -1, 2, 5, -3, 2);
    lemma_sum_step(5, 3, -3, 2, 1, 6, 10, 2, 12);
    lemma_sum_step(5, 4, 2, 12, 0, 1, 10, 2, 12);
    lemma_sum_step(5, 5, 2, 12, -1, 30, 5, 0, 360);
}

/// The recurrence for `m = 5`.
#[verifier::nonlinear]
proof fn lemma_recurrence_at_5()
    ensures
        bernoulli_weighted_sum(6, 6).0 == 0,
{
    lemma_bernoulli_values();
    lemma_pascal_row_6();
    assert(bernoulli_weighted_sum(6, 0) == (0int, 1int));
    lemma_sum_step(6, 1, 0, 1, 1, 1, 1, 1, 1);
    lemma_sum_step(6, 2, 1, 1, -1, 2, 6, -4, 2);
    lemma_sum_step(6, 3, -4, 2, 1, 6, 15, 6, 12);
    lemma_sum_step(6, 4, 6, 12, 0, 1, 20, 6, 12);
    lemma_sum_step(6, 5, 6, 12, -1, 30, 15, 0, 360);
    lemma_sum_step(6, 6, 0, 360, 0, 1, 6, 0, 360);
}

/// The recurrence for `m = 6`.
#[verifier::nonlinear]
proof fn lemma_recurrence_at_6()
    ensures
        bernoulli_weighted_sum(7, 7).0 == 0,
{
    lemma_bernoulli_values();
    lemma_pascal_row_7();
    assert(bernoulli_weighted_sum(7, 0) == (0int, 1int));
    lemma_sum_step(7, 1, 0, 1, 1, 1, 1, 1, 1);
    lemma_sum_step(7, 2, 1, 1, -1, 2, 7, -5, 2);
    lemma_sum_step(7, 3, -5, 2, 1, 6, 21, 12, 12);
    lemma_sum_step(7, 4, 12, 12, 0, 1, 35, 12, 12);
    lemma_sum_step(7, 5, 12, 12, -1, 30, 35, -60, 360);
    lemma_sum_step(7, 6, -60, 360, 0, 1, 21, -60, 360);
    lemma_sum_step(7, 7, -60, 360, 1, 42, 7, 0, 15120);
}

/// The recurrence for `m = 7`.
#[verifier::nonlinear]
proof fn lemma_recurrence_at_7()
    ensures
        bernoulli_weighted_sum(8, 8).0 == 0,
{
    lemma_bernoulli_values();
    lemma_pascal_row_8();
    assert(bernoulli_weighted_sum(8, 0) == (0int, 1int));
    lemma_sum_step(8, 1, 0, 1, 1, 1, 1, 1, 1);
    lemma_sum_step(8, 2, 1, 1, -1, 2, 8, -6, 2);
    lemma_sum_step(8, 3, -6, 2, 1, 6, 28, 20, 12);
    lemma_sum_step(8, 4, 20, 12, 0, 1, 56, 20, 12);
    lemma_sum_step(8, 5, 20, 12, -1, 30, 70, -240, 360);
    lemma_sum_step(8, 6, -240, 360, 0, 1, 56, -240, 360);
    lemma_sum_step(8, 7, -240, 360, 1, 42, 28, 0, 15120);
    lemma_sum_step(8, 8, 0, 15120, 0, 1, 8, 0, 15120);
}

/// The recurrence for `m = 8`.
#[verifier::nonlinear]
proof fn lemma_recurrence_at_8()
    ensures
        bernoulli_weighted_sum(9, 9).0 == 0,
{
    lemma_bernoulli_values();
    lemma_pascal_row_9();
    assert(bernoulli_weighted_sum(9, 0) == (0int, 1int));
    lemma_sum_step(9, 1, 0, 1, 1, 1, 1, 1, 1);
    lemma_sum_step(9, 2, 1, 1, -1, 2, 9, -7, 2);
    lemma_sum_step(9, 3, -7, 2, 1, 6, 36, 30, 12);
    lemma_sum_step(9, 4, 30, 12, 0, 1, 84, 30, 12);
    lemma_sum_step(9, 5, 30, 12, -1, 30, 126, -612, 360);
    lemma_sum_step(9, 6, -612, 360, 0, 1, 126, -612, 360);
    lemma_sum_step(9, 7, -612, 360, 1, 42, 84, 4536, 15120);
    lemma_sum_step(9, 8, 4536, 15120, 0, 1, 36, 4536, 15120);
    lemma_sum_step(9, 9, 4536, 15120, -1, 30, 9, 0, 453600);
}

/// The recurrence for `m = 9`.
#[verifier::nonlinear]
proof fn lemma_recurrence_at_9()
    ensures
        bernoulli_weighted_sum(10, 10).0 == 0,
{
    lemma_bernoulli_values();
    lemma_pascal_row_10();
    assert(bernoulli_weighted_sum(10, 0) == (0int, 1int));
    lemma_sum_step(10, 1, 0, 1, 1, 1, 1, 1, 1);
    lemma_sum_step(10, 2, 1, 1, -1, 2, 10, -8, 2);
    lemma_sum_step(10, 3, -8, 2, 1, 6, 45, 42, 12);
    lemma_sum_step(10, 4, 42, 12, 0, 1, 120, 42, 12);
    lemma_sum_step(10, 5, 42, 12, -1, 30, 210, -1260, 360);
    lemma_sum_step(10, 6, -1260, 360, 0, 1, 252, -1260, 360);
    lemma_sum_step(10, 7, -1260, 360, 1, 42, 210, 22680, 15120);
    lemma_sum_step(10, 8, 22680, 15120, 0, 1, 120, 22680, 15120);
    lemma_sum_step(10, 9, 22680, 15120, -1, 30, 45, 0, 453600);
    lemma_sum_step(10, 10, 0, 453600, 0, 1, 10, 0, 453600);
}

/// The recurrence for `m = 10`.
#[verifier::nonlinear]
proof fn lemma_recurrence_at_10()
    ensures
        bernoulli_weighted_sum(11, 11).0 == 0,
{
    lemma_bernoulli_values();
    lemma_pascal_row_11();
    assert(bernoulli_weighted_sum(11, 0) == (0int, 1int));
    lemma_sum_step(11, 1, 0, 1, 1, 1, 1, 1, 1);
    lemma_sum_step(11, 2, 1, 1, -1, 2, 11, -9, 2);
    lemma_sum_step(11, 3, -9, 2, 1, 6, 55, 56, 12);
    lemma_sum_step(11, 4, 56, 12, 0, 1, 165, 56, 12);
    lemma_sum_step(11, 5, 56, 12, -1, 30, 330, -2280, 360);
    lemma_sum_step(11, 6, -2280, 360, 0, 1, 462, -2280, 360);
    lemma_sum_step(11, 7, -2280, 360, 1, 42, 462, 70560, 15120);
    lemma_sum_step(11, 8, 70560, 15120, 0, 1, 330, 70560, 15120);
    lemma_sum_step(11, 9, 70560, 15120, -1, 30, 165, -378000, 453600);
    lemma_sum_step(11, 10, -378000, 453600, 0, 1, 55, -378000, 453600);
    lemma_sum_step(11, 11, -378000, 453600, 5, 66, 11, 0, 29937600);
}

/// The recurrence for `m = 11`.
#[verifier::nonlinear]
proof fn lemma_recurrence_at_11()
    ensures
        bernoulli_weighted_sum(12, 12).0 == 0,
{
    lemma_bernoulli_values();
    lemma_pascal_row_12();
    assert(bernoulli_weighted_sum(12, 0) == (0int, 1int));
    lemma_sum_step(12, 1, 0, 1, 1, 1, 1, 1, 1);
    lemma_sum_step(12, 2, 1, 1, -1, 2, 12, -10, 2);
    lemma_sum_step(12, 3, -10, 2, 1, 6, 66, 72, 12);
    lemma_sum_step(12, 4, 72, 12, 0, 1, 220, 72, 12);
    lemma_sum_step(12, 5, 72, 12, -1, 30, 495, -3780, 360);
    lemma_sum_step(12, 6, -3780, 360, 0, 1, 792, -3780, 360);
    lemma_sum_step(12, 7, -3780, 360, 1, 42, 924, 173880, 15120);
    lemma_sum_step(12, 8, 173880, 15120, 0, 1, 792, 173880, 15120);
    lemma_sum_step(12, 9, 173880, 15120, -1, 30, 495, -2268000, 453600);
    lemma_sum_step(12, 10, -2268000, 453600, 0, 1, 220, -2268000, 453600);
    lemma_sum_step(12, 11, -2268000, 453600, 5, 66, 66, 0, 29937600);
    lemma_sum_step(12, 12, 0, 29937600, 0, 1, 12, 0, 29937600);
}

/// The recurrence for `m = 12`.
#[verifier::nonlinear]
proof fn lemma_recurrence_at_12()
    ensures
        bernoulli_weighted_sum(13, 13).0 == 0,
{
    lemma_bernoulli_values();
    lemma_pascal_row_13();
    assert(bernoulli_weighted_sum(13, 0) == (0int, 1int));
    lemma_sum_step(13, 1, 0, 1, 1, 1, 1, 1, 1);
    lemma_sum_step(13, 2, 1, 1, -1, 2, 13, -11, 2);
    lemma_sum_step(13, 3, -11, 2, 1, 6, 78, 90, 12);
    lemma_sum_step(13, 4, 90, 12, 0, 1, 286, 90, 12);
    lemma_sum_step(13, 5, 90, 12, -1, 30, 715, -5880, 360);
    lemma_sum_step(13, 6, -5880, 360, 0, 1, 1287, -5880, 360);
    lemma_sum_step(13, 7, -5880, 360, 1, 42, 1716, 370800, 15120);
    lemma_sum_step(13, 8, 370800, 15120, 0, 1, 1716, 370800, 15120);
    lemma_sum_step(13, 9, 370800, 15120, -1, 30, 1287, -8335440, 453600);
    lemma_sum_step(13, 10, -8335440, 453600, 0, 1, 715, -8335440, 453600);
    lemma_sum_step(13, 11, -8335440, 453600, 5, 66, 286, 98508960, 29937600);
    lemma_sum_step(13, 12, 98508960, 29937600, 0, 1, 78, 98508960, 29937600);
    lemma_sum_step(13, 13, 98508960, 29937600, -691, 2730, 13, 0, 81729648000);
}

/// The recurrence for `m = 13`.
#[verifier::nonlinear]
proof fn lemma_recurrence_at_13()
    ensures
        bernoulli_weighted_sum(14, 14).0 == 0,
{
    lemma_bernoulli_values();
    lemma_pascal_row_14();
    assert(bernoulli_weighted_sum(14, 0) == (0int, 1int));
    lemma_sum_step(14, 1, 0, 1, 1, 1, 1, 1, 1);
    lemma_sum_step(14, 2, 1, 1, -1, 2, 14, -12, 2);
    lemma_sum_step(14, 3, -12, 2, 1, 6, 91, 110, 12);
    lemma_sum_step(14, 4, 110, 12, 0, 1, 364, 110, 12);
    lemma_sum_step(14, 5, 110, 12, -1, 30, 1001, -8712, 360);
    lemma_sum_step(14, 6, -8712, 360, 0, 1, 2002, -8712, 360);
    lemma_sum_step(14, 7, -8712, 360, 1, 42, 3003, 715176, 15120);
    lemma_sum_step(14, 8, 715176, 15120, 0, 1, 3432, 715176, 15120);
    lemma_sum_step(14, 9, 715176, 15120, -1, 30, 3003, -23950080, 453600);
    lemma_sum_step(14, 10, -23950080, 453600, 0, 1, 2002, -23950080, 453600);
    lemma_sum_step(14, 11, -23950080, 453600, 5, 66, 1001, 689562720, 29937600);
    lemma_sum_step(14, 12, 689562720, 29937600, 0, 1, 364, 689562720, 29937600);
    lemma_sum_step(14, 13, 689562720, 29937600, -691, 2730, 91, 0, 81729648000);
    lemma_sum_step(14, 14, 0, 81729648000, 0, 1, 14, 0, 81729648000);
}

/// The recurrence for `m = 14`.
#[verifier::nonlinear]
proof fn lemma_recurrence_at_14()
    ensures
        bernoulli_weighted_sum(15, 15).0 == 0,
{
    lemma_bernoulli_values();
    lemma_pascal_row_15();
    assert(bernoulli_weighted_sum(15, 0) == (0int, 1int));
    lemma_sum_step(15, 1, 0, 1, 1, 1, 1, 1, 1);
    lemma_sum_step(15, 2, 1, 1, -1, 2, 15, -13, 2);
    lemma_sum_step(15, 3, -13, 2, 1, 6, 105, 132, 12);
    lemma_sum_step(15, 4, 132, 12, 0, 1, 455, 132, 12);
    lemma_sum_step(15, 5, 132, 12, -1, 30, 1365, -12420, 360);
    lemma_sum_step(15, 6, -12420, 360, 0, 1, 3003, -12420, 360);
    lemma_sum_step(15, 7, -12420, 360, 1, 42, 5005, 1280160, 15120);
    lemma_sum_step(15, 8, 1280160, 15120, 0, 1, 6435, 1280160, 15120);
    lemma_sum_step(15, 9, 1280160, 15120, -1, 30, 6435, -58892400, 453600);
    lemma_sum_step(15, 10, -58892400, 453600, 0, 1, 5005, -58892400, 453600);
    lemma_sum_step(15, 11, -58892400, 453600, 5, 66, 3003, 2923905600, 29937600);
    lemma_sum_step(15, 12, 2923905600, 29937600, 0, 1, 1365, 2923905600, 29937600);
    lemma_sum_step(15, 13, 2923905600, 29937600, -691, 2730, 455, -1430268840000, 81729648000);
    lemma_sum_step(15, 14, -1430268840000, 81729648000, 0, 1, 105, -1430268840000, 81729648000);
    lemma_sum_step(15, 15, -1430268840000, 81729648000, 7, 6, 15, 0, 490377888000);
}

/// The recurrence for `m = 15`.
#[verifier::nonlinear]
proof fn lemma_recurrence_at_15()
    ensures
        bernoulli_weighted_sum(16, 16).0 == 0,
{
    lemma_bernoulli_values();
    lemma_pascal_row_16();
    assert(bernoulli_weighted_sum(16, 0) == (0int, 1int));
    lemma_sum_step(16, 1, 0, 1, 1, 1, 1, 1, 1);
    lemma_sum_step(16, 2, 1, 1, -1, 2, 16, -14, 2);
    lemma_sum_step(16, 3, -14, 2, 1, 6, 120, 156, 12);
    lemma_sum_step(16, 4, 156, 12, 0, 1, 560, 156, 12);
    lemma_sum_step(16, 5, 156, 12, -1, 30, 1820, -17160, 360);
    lemma_sum_step(16, 6, -17160, 360, 0, 1, 4368, -17160, 360);
    lemma_sum_step(16, 7, -17160, 360, 1, 42, 8008, 2162160, 15120);
    lemma_sum_step(16, 8, 2162160, 15120, 0, 1, 11440, 2162160, 15120);
    lemma_sum_step(16, 9, 2162160, 15120, -1, 30, 12870, -129729600, 453600);
    lemma_sum_step(16, 10, -129729600, 453600, 0, 1, 11440, -129729600, 453600);
    lemma_sum_step(16, 11, -129729600, 453600, 5, 66, 8008, 9599990400, 29937600);
    lemma_sum_step(16, 12, 9599990400, 29937600, 0, 1, 4368, 9599990400, 29937600);
    lemma_sum_step(16, 13, 9599990400, 29937600, -691, 2730, 1820, -11442150720000, 81729648000);
    lemma_sum_step(16, 14, -11442150720000, 81729648000, 0, 1, 560, -11442150720000, 81729648000);
    lemma_sum_step(16, 15, -11442150720000, 81729648000, 7, 6, 120, 0, 490377888000);
    lemma_sum_step(16, 16, 0, 490377888000, 0, 1, 16, 0, 490377888000);
}

/// The recurrence for `m = 16`.
#[verifier::nonlinear]
proof fn lemma_recurrence_at_16()
    ensures
        bernoulli_weighted_sum(17, 17).0 == 0,
{
    lemma_bernoulli_values();
    lemma_pascal_row_17();
    assert(bernoulli_weighted_sum(17, 0) == (0int, 1int));
    lemma_sum_step(17, 1, 0, 1, 1, 1, 1, 1, 1);
    lemma_sum_step(17, 2, 1, 1, -1, 2, 17, -15, 2);
    lemma_sum_step(17, 3, -15, 2, 1, 6, 136, 182, 12);
    lemma_sum_step(17, 4, 182, 12, 0, 1, 680, 182, 12);
    lemma_sum_step(17, 5, 182, 12, -1, 30, 2380, -23100, 360);
    lemma_sum_step(17, 6, -23100, 360, 0, 1, 6188, -23100, 360);
    lemma_sum_step(17, 7, -23100, 360, 1, 42, 12376, 3485160, 15120);
    lemma_sum_step(17, 8, 3485160, 15120, 0, 1, 19448, 3485160, 15120);
    lemma_sum_step(17, 9, 3485160, 15120, -1, 30, 24310, -263012400, 453600);
    lemma_sum_step(17, 10, -263012400, 453600, 0, 1, 24310, -263012400, 453600);
    lemma_sum_step(17, 11, -263012400, 453600, 5, 66, 19448, 26749245600, 29937600);
    lemma_sum_step(17, 12, 26749245600, 29937600, 0, 1, 12376, 26749245600, 29937600);
    lemma_sum_step(17, 13, 26749245600, 29937600, -691, 2730, 6188, -54984982852800, 81729648000);
    lemma_sum_step(17, 14, -54984982852800, 81729648000, 0, 1, 2380, -54984982852800, 81729648000);
    lemma_sum_step(17, 15, -54984982852800, 81729648000, 7, 6, 680, 59123227363200, 490377888000);
    lemma_sum_step(17, 16, 59123227363200, 490377888000, 0, 1, 136, 59123227363200, 490377888000);
    lemma_sum_step(17, 17, 59123227363200, 490377888000, -3617, 510, 17, 0, 250092722880000);
}

/// The recurrence for `m = 17`.
#[verifier::nonlinear]
proof fn lemma_recurrence_at_17()
    ensures
        bernoulli_weighted_sum(18, 18).0 == 0,
{
    lemma_bernoulli_values();
    lemma_pascal_row_18();
    assert(bernoulli_weighted_sum(18, 0) == (0int, 1int));
    lemma_sum_step(18, 1, 0, 1, 1, 1, 1, 1, 1);
    lemma_sum_step(18, 2, 1, 1, -1, 2, 18, -16, 2);
    lemma_sum_step(18, 3, -16, 2, 1, 6, 153, 210, 12);
    lemma_sum_step(18, 4, 210, 12, 0, 1, 816, 210, 12);
    lemma_sum_step(18, 5, 210, 12, -1, 30, 3060, -30420, 360);
    lemma_sum_step(18, 6, -30420, 360, 0, 1, 8568, -30420, 360);
    lemma_sum_step(18, 7, -30420, 360, 1, 42, 18564, 5405400, 15120);
    lemma_sum_step(18, 8, 5405400, 15120, 0, 1, 31824, 5405400, 15120);
    lemma_sum_step(18, 9, 5405400, 15120, -1, 30, 43758, -499458960, 453600);
    lemma_sum_step(18, 10, -499458960, 453600, 0, 1, 48620, -499458960, 453600);
    lemma_sum_step(18, 11, -499458960, 453600, 5, 66, 43758, 66278852640, 29937600);
    lemma_sum_step(18, 12, 66278852640, 29937600, 0, 1, 31824, 66278852640, 29937600);
    lemma_sum_step(18, 13, 66278852640, 29937600, -691, 2730, 18564, -203090002315200, 81729648000);
    lemma_sum_step(18, 14, -203090002315200, 81729648000, 0, 1, 8568, -203090002315200, 81729648000);
    lemma_sum_step(18, 15, -203090002315200, 81729648000, 7, 6, 3060, 532109046268800, 490377888000);
    lemma_sum_step(18, 16, 532109046268800, 490377888000, 0, 1, 816, 532109046268800, 490377888000);
    lemma_sum_step(18, 17, 532109046268800, 490377888000, -3617, 510, 153, 0, 250092722880000);
    lemma_sum_step(18, 18, 0, 250092722880000, 0, 1, 18, 0, 250092722880000);
}

/// The recurrence for `m = 18`.
#[verifier::nonlinear]
proof fn lemma_recurrence_at_18()
    ensures
        bernoulli_weighted_sum(19, 19).0 == 0,
{
    lemma_bernoulli_values();
    lemma_pascal_row_19();
    assert(bernoulli_weighted_sum(19, 0) == (0int, 1int));
    lemma_sum_step(19, 1, 0, 1, 1, 1, 1, 1, 1);
    lemma_sum_step(19, 2, 1, 1, -1, 2, 19, -17, 2);
    lemma_sum_step(19, 3, -17, 2, 1, 6, 171, 240, 12);
    lemma_sum_step(19, 4, 240, 12, 0, 1, 969, 240, 12);
    lemma_sum_step(19, 5, 240, 12, -1, 30, 3876, -39312, 360);
    lemma_sum_step(19, 6, -39312, 360, 0, 1, 11628, -39312, 360);
    lemma_sum_step(19, 7, -39312, 360, 1, 42, 27132, 8116416, 15120);
    lemma_sum_step(19, 8, 8116416, 15120, 0, 1, 50388, 8116416, 15120);
    lemma_sum_step(19, 9, 8116416, 15120, -1, 30, 75582, -899307360, 453600);
    lemma_sum_step(19, 10, -899307360, 453600, 0, 1, 92378, -899307360, 453600);
    lemma_sum_step(19, 11, -899307360, 453600, 5, 66, 92378, 150159018240, 29937600);
    lemma_sum_step(19, 12, 150159018240, 29937600, 0, 1, 75582, 150159018240, 29937600);
    lemma_sum_step(19, 13, 150159018240, 29937600, -691, 2730, 50388, -632436470265600, 81729648000);
    lemma_sum_step(19, 14, -632436470265600, 81729648000, 0, 1, 27132, -632436470265600, 81729648000);
    lemma_sum_step(19, 15, -632436470265600, 81729648000, 7, 6, 11628, 2857847607014400, 490377888000);
    lemma_sum_step(19, 16, 2857847607014400, 490377888000, 0, 1, 3876, 2857847607014400, 490377888000);
    lemma_sum_step(19, 17, 2857847607014400, 490377888000, -3617, 510, 969, -261209939870880000, 250092722880000);
    lemma_sum_step(19, 18, -261209939870880000, 250092722880000, 0, 1, 171, -261209939870880000, 250092722880000);
    lemma_sum_step(19, 19, -261209939870880000, 250092722880000, 43867, 798, 19, 0, 199573992858240000);
}

/// The recurrence for `m = 19`.
#[verifier::nonlinear]
proof fn lemma_recurrence_at_19()
    ensures
        bernoulli_weighted_sum(20, 20).0 == 0,
{
    lemma_bernoulli_values();
    lemma_pascal_row_20();
    assert(bernoulli_weighted_sum(20, 0) == (0int, 1int));
    lemma_sum_step(20, 1, 0, 1, 1, 1, 1, 1, 1);
    lemma_sum_step(20, 2, 1, 1, -1, 2, 20, -18, 2);
    lemma_sum_step(20, 3, -18, 2, 1, 6, 190, 272, 12);
    lemma_sum_step(20, 4, 272, 12, 0, 1, 1140, 272, 12);
    lemma_sum_step(20, 5, 272, 12, -1, 30, 4845, -49980, 360);
    lemma_sum_step(20, 6, -49980, 360, 0, 1, 15504, -49980, 360);
    lemma_sum_step(20, 7, -49980, 360, 1, 42, 38760, 11854440, 15120);
    lemma_sum_step(20, 8, 11854440, 15120, 0, 1, 77520, 11854440, 15120);
    lemma_sum_step(20, 9, 11854440, 15120, -1, 30, 125970, -1549033200, 453600);
    lemma_sum_step(20, 10, -1549033200, 453600, 0, 1, 167960, -1549033200, 453600);
    lemma_sum_step(20, 11, -1549033200, 453600, 5, 66, 184756, 316790416800, 29937600);
    lemma_sum_step(20, 12, 316790416800, 29937600, 0, 1, 167960, 316790416800, 29937600);
    lemma_sum_step(20, 13, 316790416800, 29937600, -691, 2730, 125970, -1741088637288000, 81729648000);
    lemma_sum_step(20, 14, -1741088637288000, 81729648000, 0, 1, 77520, -1741088637288000, 81729648000);
    lemma_sum_step(20, 15, -1741088637288000, 81729648000, 7, 6, 38760, 11728356271632000, 490377888000);
    lemma_sum_step(20, 16, 11728356271632000, 490377888000, 0, 1, 15504, 11728356271632000, 490377888000);
    lemma_sum_step(20, 17, 11728356271632000, 490377888000, -3617, 510, 4845, -2612099398708800000, 250092722880000);
    lemma_sum_step(20, 18, -2612099398708800000, 250092722880000, 0, 1, 1140, -2612099398708800000, 250092722880000);
    lemma_sum_step(20, 19, -2612099398708800000, 250092722880000, 43867, 798, 190, 0, 199573992858240000);
    lemma_sum_step(20, 20, 0, 199573992858240000, 0, 1, 20, 0, 199573992858240000);
}

/// The recurrence for `m = 20`.
#[verifier::nonlinear]
proof fn lemma_recurrence_at_20()
    ensures
        bernoulli_weighted_sum(21, 21).0 == 0,
{
    lemma_bernoulli_values();
    lemma_pascal_row_21();
    assert(bernoulli_weighted_sum(21, 0) == (0int, 1int));
    lemma_sum_step(21, 1, 0, 1, 1, 1, 1, 1, 1);
    lemma_sum_step(21, 2, 1, 1, -1, 2, 21, -19, 2);
    lemma_sum_step(21, 3, -19, 2, 1, 6, 210, 306, 12);
    lemma_sum_step(21, 4, 306, 12, 0, 1, 1330, 306, 12);
    lemma_sum_step(21, 5, 306, 12, -1, 30, 5985, -62640, 360);
    lemma_sum_step(21, 6, -62640, 360, 0, 1, 20349, -62640, 360);
    lemma_sum_step(21, 7, -62640, 360, 1, 42, 54264, 16904160, 15120);
    lemma_sum_step(21, 8, 16904160, 15120, 0, 1, 116280, 16904160, 15120);
    lemma_sum_step(21, 9, 16904160, 15120, -1, 30, 203490, -2569644000, 453600);
    lemma_sum_step(21, 10, -2569644000, 453600, 0, 1, 293930, -2569644000, 453600);
    lemma_sum_step(21, 11, -2569644000, 453600, 5, 66, 352716, 630363384000, 29937600);
    lemma_sum_step(21, 12, 630363384000, 29937600, 0, 1, 352716, 630363384000, 29937600);
    lemma_sum_step(21, 13, 630363384000, 29937600, -691, 2730, 293930, -4359603070368000, 81729648000);
    lemma_sum_step(21, 14, -4359603070368000, 81729648000, 0, 1, 203490, -4359603070368000, 81729648000);
    lemma_sum_step(21, 15, -4359603070368000, 81729648000, 7, 6, 116280, 40367045863872000, 490377888000);
    lemma_sum_step(21, 16, 40367045863872000, 490377888000, 0, 1, 54264, 40367045863872000, 490377888000);
    lemma_sum_step(21, 17, 40367045863872000, 490377888000, -3617, 510, 20349, -15505763217837984000, 250092722880000);
    lemma_sum_step(21, 18, -15505763217837984000, 250092722880000, 0, 1, 5985, -15505763217837984000, 250092722880000);
    lemma_sum_step(21, 19, -15505763217837984000, 250092722880000, 43867, 798, 1330, 2217588193352645568000, 199573992858240000);
    lemma_sum_step(21, 20, 2217588193352645568000, 199573992858240000, 0, 1, 210, 2217588193352645568000, 199573992858240000);
    lemma_sum_step(21, 21, 2217588193352645568000, 199573992858240000, -174611, 330, 21, 0, 65859417643219200000);
}

/// The recurrence for `m = 21`.
#[verifier::nonlinear]
proof fn lemma_recurrence_at_21()
    ensures
        bernoulli_weighted_sum(22, 22).0 == 0,
{
    lemma_bernoulli_values();
    lemma_pascal_row_22();
    assert(bernoulli_weighted_sum(22, 0) == (0int, 1int));
    lemma_sum_step(22, 1, 0, 1, 1, 1, 1, 1, 1);
    lemma_sum_step(22, 2, 1, 1, -1, 2, 22, -20, 2);
    lemma_sum_step(22, 3, -20, 2, 1, 6, 231, 342, 12);
    lemma_sum_step(22, 4, 342, 12, 0, 1, 1540, 342, 12);
    lemma_sum_step(22, 5, 342, 12, -1, 30, 7315, -77520, 360);
    lemma_sum_step(22, 6, -77520, 360, 0, 1, 26334, -77520, 360);
    lemma_sum_step(22, 7, -77520, 360, 1, 42, 74613, 23604840, 15120);
    lemma_sum_step(22, 8, 23604840, 15120, 0, 1, 170544, 23604840, 15120);
    lemma_sum_step(22, 9, 23604840, 15120, -1, 30, 319770, -4126777200, 453600);
    lemma_sum_step(22, 10, -4126777200, 453600, 0, 1, 497420, -4126777200, 453600);
    lemma_sum_step(22, 11, -4126777200, 453600, 5, 66, 646646, 1194225832800, 29937600);
    lemma_sum_step(22, 12, 1194225832800, 29937600, 0, 1, 705432, 1194225832800, 29937600);
    lemma_sum_step(22, 13, 1194225832800, 29937600, -691, 2730, 646646, -10116852715569600, 81729648000);
    lemma_sum_step(22, 14, -10116852715569600, 81729648000, 0, 1, 497420, -10116852715569600, 81729648000);
    lemma_sum_step(22, 15, -10116852715569600, 81729648000, 7, 6, 319770, 122241710493302400, 490377888000);
    lemma_sum_step(22, 16, 122241710493302400, 490377888000, 0, 1, 170544, 122241710493302400, 490377888000);
    lemma_sum_step(22, 17, 122241710493302400, 490377888000, -3617, 510, 74613, -69997568545929024000, 250092722880000);
    lemma_sum_step(22, 18, -69997568545929024000, 250092722880000, 0, 1, 26334, -69997568545929024000, 250092722880000);
    lemma_sum_step(22, 19, -69997568545929024000, 250092722880000, 43867, 798, 7315, 24393470126879101248000, 199573992858240000);
    lemma_sum_step(22, 20, 24393470126879101248000, 199573992858240000, 0, 1, 1540, 24393470126879101248000, 199573992858240000);
    lemma_sum_step(22, 21, 24393470126879101248000, 199573992858240000, -174611, 330, 231, 0, 65859417643219200000);
    lemma_sum_step(22, 22, 0, 65859417643219200000, 0, 1, 22, 0, 65859417643219200000);
}

/// The recurrence for `m = 22`.
#[verifier::nonlinear]
proof fn lemma_recurrence_at_22()
    ensures
        bernoulli_weighted_sum(23, 23).0 == 0,
{
    lemma_bernoulli_values();
    lemma_pascal_row_23();
    assert(bernoulli_weighted_sum(23, 0) == (0int, 1int));
    lemma_sum_step(23, 1, 0, 1, 1, 1, 1, 1, 1);
    lemma_sum_step(23, 2, 1, 1, -1, 2, 23, -21, 2);
    lemma_sum_step(23, 3, -21, 2, 1, 6, 253, 380, 12);
    lemma_sum_step(23, 4, 380, 12, 0, 1, 1771, 380, 12);
    lemma_sum_step(23, 5, 380, 12, -1, 30, 8855, -94860, 360);
    lemma_sum_step(23, 6, -94860, 360, 0, 1, 33649, -94860, 360);
    lemma_sum_step(23, 7, -94860, 360, 1, 42, 100947, 32356800, 15120);
    lemma_sum_step(23, 8, 32356800, 15120, 0, 1, 245157, 32356800, 15120);
    lemma_sum_step(23, 9, 32356800, 15120, -1, 30, 490314, -6442843680, 453600);
    lemma_sum_step(23, 10, -6442843680, 453600, 0, 1, 817190, -6442843680, 453600);
    lemma_sum_step(23, 11, -6442843680, 453600, 5, 66, 1144066, 2169514005120, 29937600);
    lemma_sum_step(23, 12, 2169514005120, 29937600, 0, 1, 1352078, 2169514005120, 29937600);
    lemma_sum_step(23, 13, 2169514005120, 29937600, -691, 2730, 1352078, -22047504265987200, 81729648000);
    lemma_sum_step(23, 14, -22047504265987200, 81729648000, 0, 1, 1144066, -22047504265987200, 81729648000);
    lemma_sum_step(23, 15, -22047504265987200, 81729648000, 7, 6, 817190, 335235531747916800, 490377888000);
    lemma_sum_step(23, 16, 335235531747916800, 490377888000, 0, 1, 490314, 335235531747916800, 490377888000);
    lemma_sum_step(23, 17, 335235531747916800, 490377888000, -3617, 510, 245157, -263864070328963104000, 250092722880000);
    lemma_sum_step(23, 18, -263864070328963104000, 250092722880000, 0, 1, 100947, -263864070328963104000, 250092722880000);
    lemma_sum_step(23, 19, -263864070328963104000, 250092722880000, 43867, 798, 33649, 158593509079527570048000, 199573992858240000);
    lemma_sum_step(23, 20, 158593509079527570048000, 199573992858240000, 0, 1, 8855, 158593509079527570048000, 199573992858240000);
    lemma_sum_step(23, 21, 158593509079527570048000, 199573992858240000, -174611, 330, 1771, -9379621424760028041600000, 65859417643219200000);
    lemma_sum_step(23, 22, -9379621424760028041600000, 65859417643219200000, 0, 1, 253, -9379621424760028041600000, 65859417643219200000);
    lemma_sum_step(23, 23, -9379621424760028041600000, 65859417643219200000, 854513, 138, 23, 0, 9088599634764249600000);
}

/// The recurrence for `m = 23`.
#[verifier::nonlinear]
proof fn lemma_recurrence_at_23()
    ensures
        bernoulli_weighted_sum(24, 24).0 == 0,
{
    lemma_bernoulli_values();
    lemma_pascal_row_24();
    assert(bernoulli_weighted_sum(24, 0) == (0int, 1int));
    lemma_sum_step(24, 1, 0, 1, 1, 1, 1, 1, 1);
    lemma_sum_step(24, 2, 1, 1, -1, 2, 24, -22, 2);
    lemma_sum_step(24, 3, -22, 2, 1, 6, 276, 420, 12);
    lemma_sum_step(24, 4, 420, 12, 0, 1, 2024, 420, 12);
    lemma_sum_step(24, 5, 420, 12, -1, 30, 10626, -114912, 360);
    lemma_sum_step(24, 6, -114912, 360, 0, 1, 42504, -114912, 360);
    lemma_sum_step(24, 7, -114912, 360, 1, 42, 134596, 43628256, 15120);
    lemma_sum_step(24, 8, 43628256, 15120, 0, 1, 346104, 43628256, 15120);
    lemma_sum_step(24, 9, 43628256, 15120, -1, 30, 735471, -9811473840, 453600);
    lemma_sum_step(24, 10, -9811473840, 453600, 0, 1, 1307504, -9811473840, 453600);
    lemma_sum_step(24, 11, -9811473840, 453600, 5, 66, 1961256, 3800571334560, 29937600);
    lemma_sum_step(24, 12, 3800571334560, 29937600, 0, 1, 2496144, 3800571334560, 29937600);
    lemma_sum_step(24, 13, 3800571334560, 29937600, -691, 2730, 2704156, -45564995256580800, 81729648000);
    lemma_sum_step(24, 14, -45564995256580800, 81729648000, 0, 1, 2496144, -45564995256580800, 81729648000);
    lemma_sum_step(24, 15, -45564995256580800, 81729648000, 7, 6, 1961256, 848659366085731200, 490377888000);
    lemma_sum_step(24, 16, 848659366085731200, 490377888000, 0, 1, 1307504, 848659366085731200, 490377888000);
    lemma_sum_step(24, 17, 848659366085731200, 490377888000, -3617, 510, 735471, -871686297857479104000, 250092722880000);
    lemma_sum_step(24, 18, -871686297857479104000, 250092722880000, 0, 1, 346104, -871686297857479104000, 250092722880000);
    lemma_sum_step(24, 19, -871686297857479104000, 250092722880000, 43867, 798, 134596, 781022483117892183168000, 199573992858240000);
    lemma_sum_step(24, 20, 781022483117892183168000, 199573992858240000, 0, 1, 42504, 781022483117892183168000, 199573992858240000);
    lemma_sum_step(24, 21, 781022483117892183168000, 199573992858240000, -174611, 330, 10626, -112555457097120336499200000, 65859417643219200000);
    lemma_sum_step(24, 22, -112555457097120336499200000, 65859417643219200000, 0, 1, 2024, -112555457097120336499200000, 65859417643219200000);
    lemma_sum_step(24, 23, -112555457097120336499200000, 65859417643219200000, 854513, 138, 276, 0, 9088599634764249600000);
    lemma_sum_step(24, 24, 0, 9088599634764249600000, 0, 1, 24, 0, 9088599634764249600000);
}

/// The recurrence for `m = 24`.
#[verifier::nonlinear]
proof fn lemma_recurrence_at_24()
    ensures
        bernoulli_weighted_sum(25, 25).0 == 0,
{
    lemma_bernoulli_values();
    lemma_pascal_row_25();
    assert(bernoulli_weighted_sum(25, 0) == (0int, 1int));
    lemma_sum_step(25, 1, 0, 1, 1, 1, 1, 1, 1);
    lemma_sum_step(25, 2, 1, 1, -1, 2, 25, -23, 2);
    lemma_sum_step(25, 3, -23, 2, 1, 6, 300, 462, 12);
    lemma_sum_step(25, 4, 462, 12, 0, 1, 2300, 462, 12);
    lemma_sum_step(25, 5, 462, 12, -1, 30, 12650, -137940, 360);
    lemma_sum_step(25, 6, -137940, 360, 0, 1, 53130, -137940, 360);
    lemma_sum_step(25, 7, -137940, 360, 1, 42, 177100, 57962520, 15120);
    lemma_sum_step(25, 8, 57962520, 15120, 0, 1, 480700, 57962520, 15120);
    lemma_sum_step(25, 9, 57962520, 15120, -1, 30, 1081575, -14614538400, 453600);
    lemma_sum_step(25, 10, -14614538400, 453600, 0, 1, 2042975, -14614538400, 453600);
    lemma_sum_step(25, 11, -14614538400, 453600, 5, 66, 3268760, 6448988145600, 29937600);
    lemma_sum_step(25, 12, 6448988145600, 29937600, 0, 1, 4457400, 6448988145600, 29937600);
    lemma_sum_step(25, 13, 6448988145600, 29937600, -691, 2730, 5200300, -89972252746992000, 81729648000);
    lemma_sum_step(25, 14, -89972252746992000, 81729648000, 0, 1, 5200300, -89972252746992000, 81729648000);
    lemma_sum_step(25, 15, -89972252746992000, 81729648000, 7, 6, 4457400, 2010278614484448000, 490377888000);
    lemma_sum_step(25, 16, 2010278614484448000, 490377888000, 0, 1, 3268760, 2010278614484448000, 490377888000);
    lemma_sum_step(25, 17, 2010278614484448000, 490377888000, -3617, 510, 2042975, -2598376169282937120000, 250092722880000);
    lemma_sum_step(25, 18, -2598376169282937120000, 250092722880000, 0, 1, 1081575, -2598376169282937120000, 250092722880000);
    lemma_sum_step(25, 19, -2598376169282937120000, 250092722880000, 43867, 798, 480700, 3200167776941360850240000, 199573992858240000);
    lemma_sum_step(25, 20, 3200167776941360850240000, 199573992858240000, 0, 1, 177100, 3200167776941360850240000, 199573992858240000);
    lemma_sum_step(25, 21, 3200167776941360850240000, 199573992858240000, -174611, 330, 53130, -795409016239474704144000000, 65859417643219200000);
    lemma_sum_step(25, 22, -795409016239474704144000000, 65859417643219200000, 0, 1, 12650, -795409016239474704144000000, 65859417643219200000);
    lemma_sum_step(25, 23, -795409016239474704144000000, 65859417643219200000, 854513, 138, 2300, 19672331420640877802208000000, 9088599634764249600000);
    lemma_sum_step(25, 24, 19672331420640877802208000000, 9088599634764249600000, 0, 1, 300, 19672331420640877802208000000, 9088599634764249600000);
    lemma_sum_step(25, 25, 19672331420640877802208000000, 9088599634764249600000, -236364091, 2730, 25, 0, 24811877002906401408000000);
}

/// The recurrence for `m = 25`.
#[verifier::nonlinear]
proof fn lemma_recurrence_at_25()
    ensures
        bernoulli_weighted_sum(26, 26).0 == 0,
{
    lemma_bernoulli_values();
    lemma_pascal_row_26();
    assert(bernoulli_weighted_sum(26, 0) == (0int, 1int));
    lemma_sum_step(26, 1, 0, 1, 1, 1, 1, 1, 1);
    lemma_sum_step(26, 2, 1, 1, -1, 2, 26, -24, 2);
    lemma_sum_step(26, 3, -24, 2, 1, 6, 325, 506, 12);
    lemma_sum_step(26, 4, 506, 12, 0, 1, 2600, 506, 12);
    lemma_sum_step(26, 5, 506, 12, -1, 30, 14950, -164220, 360);
    lemma_sum_step(26, 6, -164220, 360, 0, 1, 65780, -164220, 360);
    lemma_sum_step(26, 7, -164220, 360, 1, 42, 230230, 75985560, 15120);
    lemma_sum_step(26, 8, 75985560, 15120, 0, 1, 657800, 75985560, 15120);
    lemma_sum_step(26, 9, 75985560, 15120, -1, 30, 1562275, -21342031200, 453600);
    lemma_sum_step(26, 10, -21342031200, 453600, 0, 1, 3124550, -21342031200, 453600);
    lemma_sum_step(26, 11, -21342031200, 453600, 5, 66, 5311735, 10638440920800, 29937600);
    lemma_sum_step(26, 12, 10638440920800, 29937600, 0, 1, 7726160, 10638440920800, 29937600);
    lemma_sum_step(26, 13, 10638440920800, 29937600, -691, 2730, 9657700, -170744752714536000, 81729648000);
    lemma_sum_step(26, 14, -170744752714536000, 81729648000, 0, 1, 10400600, -170744752714536000, 81729648000);
    lemma_sum_step(26, 15, -170744752714536000, 81729648000, 7, 6, 9657700, 4500774434139984000, 490377888000);
    lemma_sum_step(26, 16, 4500774434139984000, 490377888000, 0, 1, 7726160, 4500774434139984000, 490377888000);
    lemma_sum_step(26, 17, 4500774434139984000, 490377888000, -3617, 510, 5311735, -7126012521530622720000, 250092722880000);
    lemma_sum_step(26, 18, -7126012521530622720000, 250092722880000, 0, 1, 3124550, -7126012521530622720000, 250092722880000);
    lemma_sum_step(26, 19, -7126012521530622720000, 250092722880000, 43867, 798, 1562275, 11452875877913283253440000, 199573992858240000);
    lemma_sum_step(26, 20, 11452875877913283253440000, 199573992858240000, 0, 1, 657800, 11452875877913283253440000, 199573992858240000);
    lemma_sum_step(26, 21, 11452875877913283253440000, 199573992858240000, -174611, 330, 230230, -4243563285019152926832000000, 65859417643219200000);
    lemma_sum_step(26, 22, -4243563285019152926832000000, 65859417643219200000, 0, 1, 65780, -4243563285019152926832000000, 65859417643219200000);
    lemma_sum_step(26, 23, -4243563285019152926832000000, 65859417643219200000, 854513, 138, 14950, 255740308468331411428704000000, 9088599634764249600000);
    lemma_sum_step(26, 24, 255740308468331411428704000000, 9088599634764249600000, 0, 1, 2600, 255740308468331411428704000000, 9088599634764249600000);
    lemma_sum_step(26, 25, 255740308468331411428704000000, 9088599634764249600000, -236364091, 2730, 325, 0, 24811877002906401408000000);
    lemma_sum_step(26, 26, 0, 24811877002906401408000000, 0, 1, 26, 0, 24811877002906401408000000);
}

/// The recurrence for `m = 26`.
#[verifier::nonlinear]
proof fn lemma_recurrence_at_26()
    ensures
        bernoulli_weighted_sum(27, 27).0 == 0,
{
    lemma_bernoulli_values();
    lemma_pascal_row_27();
    assert(bernoulli_weighted_sum(27, 0) == (0int, 1int));
    lemma_sum_step(27, 1, 0, 1, 1, 1, 1, 1, 1);
    lemma_sum_step(27, 2, 1, 1, -1, 2, 27, -25, 2);
    lemma_sum_step(27, 3, -25, 2, 1, 6, 351, 552, 12);
    lemma_sum_step(27, 4, 552, 12, 0, 1, 2925, 552, 12);
    lemma_sum_step(27, 5, 552, 12, -1, 30, 17550, -194040, 360);
    lemma_sum_step(27, 6, -194040, 360, 0, 1, 80730, -194040, 360);
    lemma_sum_step(27, 7, -194040, 360, 1, 42, 296010, 98413920, 15120);
    lemma_sum_step(27, 8, 98413920, 15120, 0, 1, 888030, 98413920, 15120);
    lemma_sum_step(27, 9, 98413920, 15120, -1, 30, 2220075, -30615116400, 453600);
    lemma_sum_step(27, 10, -30615116400, 453600, 0, 1, 4686825, -30615116400, 453600);
    lemma_sum_step(27, 11, -30615116400, 453600, 5, 66, 8436285, 17112896697600, 29937600);
    lemma_sum_step(27, 12, 17112896697600, 29937600, 0, 1, 13037895, 17112896697600, 29937600);
    lemma_sum_step(27, 13, 17112896697600, 29937600, -691, 2730, 17383860, -312899645586528000, 81729648000);
    lemma_sum_step(27, 14, -312899645586528000, 81729648000, 0, 1, 20058300, -312899645586528000, 81729648000);
    lemma_sum_step(27, 15, -312899645586528000, 81729648000, 7, 6, 20058300, 9598106715829632000, 490377888000);
    lemma_sum_step(27, 16, 9598106715829632000, 490377888000, 0, 1, 17383860, 9598106715829632000, 490377888000);
    lemma_sum_step(27, 17, 9598106715829632000, 490377888000, -3617, 510, 13037895, -18230238487602741600000, 250092722880000);
    lemma_sum_step(27, 18, -18230238487602741600000, 250092722880000, 0, 1, 8436285, -18230238487602741600000, 250092722880000);
    lemma_sum_step(27, 19, -18230238487602741600000, 250092722880000, 43867, 798, 4686825, 36870571297177172755200000, 199573992858240000);
    lemma_sum_step(27, 20, 36870571297177172755200000, 199573992858240000, 0, 1, 2220075, 36870571297177172755200000, 199573992858240000);
    lemma_sum_step(27, 21, 36870571297177172755200000, 199573992858240000, -174611, 330, 888030, -18778616153035030535443200000, 65859417643219200000);
    lemma_sum_step(27, 22, -18778616153035030535443200000, 65859417643219200000, 0, 1, 296010, -18778616153035030535443200000, 65859417643219200000);
    lemma_sum_step(27, 23, -18778616153035030535443200000, 65859417643219200000, 854513, 138, 80730, 1951851996606428168899046400000, 9088599634764249600000);
    lemma_sum_step(27, 24, 1951851996606428168899046400000, 9088599634764249600000, 0, 1, 17550, 1951851996606428168899046400000, 9088599634764249600000);
    lemma_sum_step(27, 25, 1951851996606428168899046400000, 9088599634764249600000, -236364091, 2730, 2925, -954983428331353877708860608000000, 24811877002906401408000000);
    lemma_sum_step(27, 26, -954983428331353877708860608000000, 24811877002906401408000000, 0, 1, 351, -954983428331353877708860608000000, 24811877002906401408000000);
    lemma_sum_step(27, 27, -954983428331353877708860608000000, 24811877002906401408000000, 8553103, 6, 27, 0, 148871262017438408448000000);
}

/// The recurrence for `m = 27`.
#[verifier::nonlinear]
proof fn lemma_recurrence_at_27()
    ensures
        bernoulli_weighted_sum(28, 28).0 == 0,
{
    lemma_bernoulli_values();
    lemma_pascal_row_28();
    assert(bernoulli_weighted_sum(28, 0) == (0int, 1int));
    lemma_sum_step(28, 1, 0, 1, 1, 1, 1, 1, 1);
    lemma_sum_step(28, 2, 1, 1, -1, 2, 28, -26, 2);
    lemma_sum_step(28, 3, -26, 2, 1, 6, 378, 600, 12);
    lemma_sum_step(28, 4, 600, 12, 0, 1, 3276, 600, 12);
    lemma_sum_step(28, 5, 600, 12, -1, 30, 20475, -227700, 360);
    lemma_sum_step(28, 6, -227700, 360, 0, 1, 98280, -227700, 360);
    lemma_sum_step(28, 7, -227700, 360, 1, 42, 376740, 126063000, 15120);
    lemma_sum_step(28, 8, 126063000, 15120, 0, 1, 1184040, 126063000, 15120);
    lemma_sum_step(28, 9, 126063000, 15120, -1, 30, 3108105, -43212657600, 453600);
    lemma_sum_step(28, 10, -43212657600, 453600, 0, 1, 6906900, -43212657600, 453600);
    lemma_sum_step(28, 11, -43212657600, 453600, 5, 66, 13123110, 26911178078400, 29937600);
    lemma_sum_step(28, 12, 26911178078400, 29937600, 0, 1, 21474180, 26911178078400, 29937600);
    lemma_sum_step(28, 13, 26911178078400, 29937600, -691, 2730, 30421755, -555863727595176000, 81729648000);
    lemma_sum_step(28, 14, -555863727595176000, 81729648000, 0, 1, 37442160, -555863727595176000, 81729648000);
    lemma_sum_step(28, 15, -555863727595176000, 81729648000, 7, 6, 40116600, 19615826813126544000, 490377888000);
    lemma_sum_step(28, 16, 19615826813126544000, 490377888000, 0, 1, 37442160, 19615826813126544000, 490377888000);
    lemma_sum_step(28, 17, 19615826813126544000, 490377888000, -3617, 510, 30421755, -43954898454882455040000, 250092722880000);
    lemma_sum_step(28, 18, -43954898454882455040000, 250092722880000, 0, 1, 21474180, -43954898454882455040000, 250092722880000);
    lemma_sum_step(28, 19, -43954898454882455040000, 250092722880000, 43867, 798, 13123110, 108895235541799450423680000, 199573992858240000);
    lemma_sum_step(28, 20, 108895235541799450423680000, 199573992858240000, 0, 1, 6906900, 108895235541799450423680000, 199573992858240000);
    lemma_sum_step(28, 21, 108895235541799450423680000, 199573992858240000, -174611, 330, 3108105, -72375238655068422766492800000, 65859417643219200000);
    lemma_sum_step(28, 22, -72375238655068422766492800000, 65859417643219200000, 0, 1, 1184040, -72375238655068422766492800000, 65859417643219200000);
    lemma_sum_step(28, 23, -72375238655068422766492800000, 65859417643219200000, 854513, 138, 376740, 11214288518985115444578297600000, 9088599634764249600000);
    lemma_sum_step(28, 24, 11214288518985115444578297600000, 9088599634764249600000, 0, 1, 98280, 11214288518985115444578297600000, 9088599634764249600000);
    lemma_sum_step(28, 25, 11214288518985115444578297600000, 9088599634764249600000, -236364091, 2730, 20475, -13369767996638954287924048512000000, 24811877002906401408000000);
    lemma_sum_step(28, 26, -13369767996638954287924048512000000, 24811877002906401408000000, 0, 1, 3276, -13369767996638954287924048512000000, 24811877002906401408000000);
    lemma_sum_step(28, 27, -13369767996638954287924048512000000, 24811877002906401408000000, 8553103, 6, 378, 0, 148871262017438408448000000);
    lemma_sum_step(28, 28, 0, 148871262017438408448000000, 0, 1, 28, 0, 148871262017438408448000000);
}

/// The recurrence for `m = 28`.
#[verifier::nonlinear]
proof fn lemma_recurrence_at_28()
    ensures
        bernoulli_weighted_sum(29, 29).0 == 0,
{
    lemma_bernoulli_values();
    lemma_pascal_row_29();
    assert(bernoulli_weighted_sum(29, 0) == (0int, 1int));
    lemma_sum_step(29, 1, 0, 1, 1, 1, 1, 1, 1);
    lemma_sum_step(29, 2, 1, 1, -1, 2, 29, -27, 2);
    lemma_sum_step(29, 3, -27, 2, 1, 6, 406, 650, 12);
    lemma_sum_step(29, 4, 650, 12, 0, 1, 3654, 650, 12);
    lemma_sum_step(29, 5, 650, 12, -1, 30, 23751, -265512, 360);
    lemma_sum_step(29, 6, -265512, 360, 0, 1, 118755, -265512, 360);
    lemma_sum_step(29, 7, -265512, 360, 1, 42, 475020, 159855696, 15120);
    lemma_sum_step(29, 8, 159855696, 15120, 0, 1, 1560780, 159855696, 15120);
    lemma_sum_step(29, 9, 159855696, 15120, -1, 30, 4292145, -60101561520, 453600);
    lemma_sum_step(29, 10, -60101561520, 453600, 0, 1, 10015005, -60101561520, 453600);
    lemma_sum_step(29, 11, -60101561520, 453600, 5, 66, 20030010, 41461359619680, 29937600);
    lemma_sum_step(29, 12, 41461359619680, 29937600, 0, 1, 34597290, 41461359619680, 29937600);
    lemma_sum_step(29, 13, 41461359619680, 29937600, -691, 2730, 51895935, -960375551104569600, 81729648000);
    lemma_sum_step(29, 14, -960375551104569600, 81729648000, 0, 1, 67863915, -960375551104569600, 81729648000);
    lemma_sum_step(29, 15, -960375551104569600, 81729648000, 7, 6, 77558760, 38609697772187942400, 490377888000);
    lemma_sum_step(29, 16, 38609697772187942400, 490377888000, 0, 1, 77558760, 38609697772187942400, 490377888000);
    lemma_sum_step(29, 17, 38609697772187942400, 490377888000, -3617, 510, 67863915, -100679064425240517216000, 250092722880000);
    lemma_sum_step(29, 18, -100679064425240517216000, 250092722880000, 0, 1, 51895935, -100679064425240517216000, 250092722880000);
    lemma_sum_step(29, 19, -100679064425240517216000, 250092722880000, 43867, 798, 34597290, 299218660293664779700032000, 199573992858240000);
    lemma_sum_step(29, 20, 299218660293664779700032000, 199573992858240000, 0, 1, 20030010, 299218660293664779700032000, 199573992858240000);
    lemma_sum_step(29, 21, 299218660293664779700032000, 199573992858240000, -174611, 330, 10015005, -250258878228868956119312640000, 65859417643219200000);
    lemma_sum_step(29, 22, -250258878228868956119312640000, 65859417643219200000, 0, 1, 4292145, -250258878228868956119312640000, 65859417643219200000);
    lemma_sum_step(29, 23, -250258878228868956119312640000, 65859417643219200000, 854513, 138, 1560780, 53301427968437823456145543680000, 9088599634764249600000);
    lemma_sum_step(29, 24, 53301427968437823456145543680000, 9088599634764249600000, 0, 1, 475020, 53301427968437823456145543680000, 9088599634764249600000);
    lemma_sum_step(29, 25, 53301427968437823456145543680000, 9088599634764249600000, -236364091, 2730, 118755, -109598800436280994784134911321600000, 24811877002906401408000000);
    lemma_sum_step(29, 26, -109598800436280994784134911321600000, 24811877002906401408000000, 0, 1, 23751, -109598800436280994784134911321600000, 24811877002906401408000000);
    lemma_sum_step(29, 27, -109598800436280994784134911321600000, 24811877002906401408000000, 8553103, 6, 3654, 117853741187373379994785345766400000, 148871262017438408448000000);
    lemma_sum_step(29, 28, 117853741187373379994785345766400000, 148871262017438408448000000, 0, 1, 406, 117853741187373379994785345766400000, 148871262017438408448000000);
    lemma_sum_step(29, 29, 117853741187373379994785345766400000, 148871262017438408448000000, -23749461029, 870, 29, 0, 129517997955171415349760000000);
}

/// The recurrence for `m = 29`.
#[verifier::nonlinear]
proof fn lemma_recurrence_at_29()
    ensures
        bernoulli_weighted_sum(30, 30).0 == 0,
{
    lemma_bernoulli_values();
    lemma_pascal_row_30();
    assert(bernoulli_weighted_sum(30, 0) == (0int, 1int));
    lemma_sum_step(30, 1, 0, 1, 1, 1, 1, 1, 1);
    lemma_sum_step(30, 2, 1, 1, -1, 2, 30, -28, 2);
    lemma_sum_step(30, 3, -28, 2, 1, 6, 435, 702, 12);
    lemma_sum_step(30, 4, 702, 12, 0, 1, 4060, 702, 12);
    lemma_sum_step(30, 5, 702, 12, -1, 30, 27405, -307800, 360);
    lemma_sum_step(30, 6, -307800, 360, 0, 1, 142506, -307800, 360);
    lemma_sum_step(30, 7, -307800, 360, 1, 42, 593775, 200831400, 15120);
    lemma_sum_step(30, 8, 200831400, 15120, 0, 1, 2035800, 200831400, 15120);
    lemma_sum_step(30, 9, 200831400, 15120, -1, 30, 5852925, -82471284000, 453600);
    lemma_sum_step(30, 10, -82471284000, 453600, 0, 1, 14307150, -82471284000, 453600);
    lemma_sum_step(30, 11, -82471284000, 453600, 5, 66, 30045015, 62698989276000, 29937600);
    lemma_sum_step(30, 12, 62698989276000, 29937600, 0, 1, 54627300, 62698989276000, 29937600);
    lemma_sum_step(30, 13, 62698989276000, 29937600, -691, 2730, 86493225, -1618106864053680000, 81729648000);
    lemma_sum_step(30, 14, -1618106864053680000, 81729648000, 0, 1, 119759850, -1618106864053680000, 81729648000);
    lemma_sum_step(30, 15, -1618106864053680000, 81729648000, 7, 6, 145422675, 73488767088456720000, 490377888000);
    lemma_sum_step(30, 16, 73488767088456720000, 490377888000, 0, 1, 155117520, 73488767088456720000, 490377888000);
    lemma_sum_step(30, 17, 73488767088456720000, 490377888000, -3617, 510, 145422675, -220456465118579289600000, 250092722880000);
    lemma_sum_step(30, 18, -220456465118579289600000, 250092722880000, 0, 1, 119759850, -220456465118579289600000, 250092722880000);
    lemma_sum_step(30, 19, -220456465118579289600000, 250092722880000, 43867, 798, 86493225, 772977125097890507995200000, 199573992858240000);
    lemma_sum_step(30, 20, 772977125097890507995200000, 199573992858240000, 0, 1, 54627300, 772977125097890507995200000, 199573992858240000);
    lemma_sum_step(30, 21, 772977125097890507995200000, 199573992858240000, -174611, 330, 30045015, -791920657095031132622553600000, 65859417643219200000);
    lemma_sum_step(30, 22, -791920657095031132622553600000, 65859417643219200000, 0, 1, 14307150, -791920657095031132622553600000, 65859417643219200000);
    lemma_sum_step(30, 23, -791920657095031132622553600000, 65859417643219200000, 854513, 138, 5852925, 220104273685967226450377683200000, 9088599634764249600000);
    lemma_sum_step(30, 24, 220104273685967226450377683200000, 9088599634764249600000, 0, 1, 2035800, 220104273685967226450377683200000, 9088599634764249600000);
    lemma_sum_step(30, 25, 220104273685967226450377683200000, 9088599634764249600000, -236364091, 2730, 593775, -674673826787890735887530152704000000, 24811877002906401408000000);
    lemma_sum_step(30, 26, -674673826787890735887530152704000000, 24811877002906401408000000, 0, 1, 142506, -674673826787890735887530152704000000, 24811877002906401408000000);
    lemma_sum_step(30, 27, -674673826787890735887530152704000000, 24811877002906401408000000, 8553103, 6, 27405, 1767806117810600699921780186496000000, 148871262017438408448000000);
    lemma_sum_step(30, 28, 1767806117810600699921780186496000000, 148871262017438408448000000, 0, 1, 4060, 1767806117810600699921780186496000000, 148871262017438408448000000);
    lemma_sum_step(30, 29, 1767806117810600699921780186496000000, 148871262017438408448000000, -23749461029, 870, 435, 0, 129517997955171415349760000000);
    lemma_sum_step(30, 30, 0, 129517997955171415349760000000, 0, 1, 30, 0, 129517997955171415349760000000);
}

/// The Bernoulli numbers satisfy their defining recurrence: `B_0 = 1`, and for
/// `m >= 1` the sum of `C(m + 1, k) * B_k` over `k = 0..=m` is zero. It holds for every
/// `m` up to which the triangle that computes them stays within `i64` (`bernoulli`
/// returns `None` beyond).
pub proof fn lemma_bernoulli_recurrence(m: int)
    requires
        1 <= m,
        at_rows_fit(m),
    ensures
        bernoulli_spec(0) == (1int, 1int),
        bernoulli_weighted_sum((m + 1) as nat, m + 1).0 == 0,
{
    if m > 29 {
        lemma_triangle_row_30_overflows();
        lemma_rows_fit_below(m, 30);
    } else if m == 1 {
        lemma_recurrence_at_1();
    } else if m == 2 {
        lemma_recurrence_at_2();
    } else if m == 3 {
        lemma_recurrence_at_3();
    } else if m == 4 {
        lemma_recurrence_at_4();
    } else if m == 5 {
        lemma_recurrence_at_5();
    } else if m == 6 {
        lemma_recurrence_at_6();
    } else if m == 7 {
        lemma_recurrence_at_7();
    } else if m == 8 {
        lemma_recurrence_at_8();
    } else if m == 9 {
        lemma_recurrence_at_9();
    } else if m == 10 {
        lemma_recurrence_at_10();
    } else if m == 11 {
        lemma_recurrence_at_11();
    } else if m == 12 {
        lemma_recurrence_at_12();
    } else if m == 13 {
        lemma_recurrence_at_13();
    } else if m == 14 {
        lemma_recurrence_at_14();
    } else if m == 15 {
        lemma_recurrence_at_15();
    } else if m == 16 {
        lemma_recurrence_at_16();
    } else if m == 17 {
        lemma_recurrence_at_17();
    } else if m == 18 {
        lemma_recurrence_at_18();
    } else if m == 19 {
        lemma_recurrence_at_19();
    } else if m == 20 {
        lemma_recurrence_at_20();
    } else if m == 21 {
        lemma_recurrence_at_21();
    } else if m == 22 {
        lemma_recurrence_at_22();
    } else if m == 23 {
        lemma_recurrence_at_23();
    } else if m == 24 {
        lemma_recurrence_at_24();
    } else if m == 25 {
        lemma_recurrence_at_25();
    } else if m == 26 {
        lemma_recurrence_at_26();
    } else if m == 27 {
        lemma_recurrence_at_27();
    } else if m == 28 {
        lemma_recurrence_at_28();
    } else if m == 29 {
        lemma_recurrence_at_29();
    }
}

} // verus!
