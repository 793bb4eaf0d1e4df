//! Number theory functions: the gcd and lcm of lists, modular powers, fractional part,
//! remainder and modulo, numerators and denominators, and (in the submodules) rounding,
//! parity, primes, Bernoulli numbers, the totient, prime factors and divisors.
use vstd::prelude::*;
use crate::number_theory::division::{abs_int, trunc_div, trunc_rem, lemma_trunc_div_rem, div_rem_trunc, rem_trunc_wide};
use crate::number_theory::euclid::{divides, gcd_nat, gcd_spec, lcm_spec, gcd_u64, gcd_u128, mod_inverse,
    lemma_gcd_divides, lemma_gcd_greatest, lemma_gcd_nat_le, lemma_gcd_zero, lemma_gcd_mod,
    lemma_lcm_is_lcm, lemma_lcm_lower_bound, lemma_divides_transitive, lemma_pow_square_step};
use vstd::arithmetic::power::{pow, lemma_pow0, lemma1_pow, lemma_pow_distributes, lemma_pow_mod_noop};
use vstd::arithmetic::div_mod::{lemma_mul_mod_noop_general, lemma_small_mod, lemma_fundamental_div_mod_converse};

pub mod bernoulli_recurrence;
pub mod divisibility;
pub mod euclid;
pub mod parity;
pub mod division;
pub mod primes;
pub mod rounding;
pub mod totient;
pub mod traits;

verus! {

/// The gcd of a list as the library folds it: 0 for no values, the value itself for
/// one value, and otherwise `gcd(gcd(gcd(v0, v1), v2), ...)`.
pub open spec fn gcd_fold(s: Seq<int>) -> int
    decreases s.len(),
{
    if s.len() == 0 {
        0
    } else if s.len() == 1 {
        s[0]
    } else {
        gcd_spec(gcd_fold(s.drop_last()), s.last()) as int
    }
}

/// The lcm of a list as the library folds it: 0 for no values, the value itself for
/// one value, and otherwise `lcm(lcm(lcm(v0, v1), v2), ...)`.
pub open spec fn lcm_fold(s: Seq<int>) -> int
    decreases s.len(),
{
    if s.len() == 0 {
        0
    } else if s.len() == 1 {
        s[0]
    } else {
        lcm_spec(lcm_fold(s.drop_last()), s.last()) as int
    }
}

/// The values of a slice of `i64` as mathematical integers.
pub open spec fn ints(values: Seq<i64>) -> Seq<int> {
    values.map_values(|v: i64| v as int)
}

/// The absolute value of an `i64` as a `u64` (it always fits).
fn abs_u64(v: i64) -> (r: u64)
    ensures
        r == abs_int(v as int),
{
    if v < 0 {
        (-(v as i128)) as u64
    } else {
        v as u64
    }
}

/// Computes the greatest common divisor of the values: 0 for none, the value itself for
/// one, and the (non-negative) gcd of all of them otherwise.
pub fn gcd(values: &[i64]) -> (r: i128)
    ensures
        r == gcd_fold(ints(values@)),
{
    let ghost s = ints(values@);
    if values.len() == 0 {
        return 0;
    }
    if values.len() == 1 {
        return values[0] as i128;
    }
    let mut g: u64 = abs_u64(values[0]);
    let mut i: usize = 1;
    while i < values.len()
        invariant
            s == ints(values@),
            1 <= i <= values.len(),
            i == 1 ==> g == abs_int(s[0]),
            i >= 2 ==> g == gcd_fold(s.take(i as int)),
        decreases values.len() - i,
    {
        let v = abs_u64(values[i]);
        let ghost prev = s.take(i as int);
        proof {
            assert(s.take(i + 1).drop_last() =~= prev);
            assert(s.take(i + 1).last() == s[i as int]);
            if i == 1 {
                assert(gcd_fold(prev) == s[0]);
            }
            lemma_gcd_nat_le(g as nat, v as nat);
        }
        g = gcd_u64(g, v);
        i += 1;
    }
    proof {
        assert(s.take(values.len() as int) =~= s);
    }
    g as i128
}

/// Any zero among two or more values makes their lcm 0.
proof fn lemma_lcm_fold_zero(s: Seq<int>, z: int)
    requires
        s.len() >= 2,
        0 <= z < s.len(),
        s[z] == 0,
    ensures
        lcm_fold(s) == 0,
    decreases s.len(),
{
    let prev = s.drop_last();
    if z < s.len() - 1 {
        assert(prev[z] == 0);
        if s.len() > 2 {
            lemma_lcm_fold_zero(prev, z);
        }
        assert(lcm_fold(prev) == 0);
    } else {
        assert(s.last() == 0);
    }
}

/// For nonzero values the lcm of a prefix of two or more values is positive and at most
/// the lcm of the whole list.
proof fn lemma_lcm_fold_monotone(s: Seq<int>, j: int)
    requires
        2 <= j <= s.len(),
        forall|k: int| 0 <= k < s.len() ==> s[k] != 0,
    ensures
        0 < lcm_fold(s.take(j)) <= lcm_fold(s),
    decreases s.len(),
{
    if s.len() == j {
        assert(s.take(j) =~= s);
        lemma_lcm_fold_positive(s);
    } else {
        lemma_lcm_fold_monotone(s.drop_last(), j);
        assert(s.drop_last().take(j) =~= s.take(j));
        lemma_lcm_fold_positive(s.drop_last());
        lemma_lcm_lower_bound(lcm_fold(s.drop_last()), s.last());
    }
}

/// The lcm of nonzero values is positive.
proof fn lemma_lcm_fold_positive(s: Seq<int>)
    requires
        s.len() >= 2,
        forall|k: int| 0 <= k < s.len() ==> s[k] != 0,
    ensures
        lcm_fold(s) > 0,
    decreases s.len(),
{
    if s.len() > 2 {
        lemma_lcm_fold_positive(s.drop_last());
    }
    lemma_lcm_lower_bound(lcm_fold(s.drop_last()), s.last());
}

/// Computes the least common multiple of the values: 0 for none, the value itself for
/// one, and the (non-negative) lcm of all of them otherwise; `None` when that lcm does
/// not fit in an `i128`.
pub fn lcm(values: &[i64]) -> (r: Option<i128>)
    ensures
        match r {
            Some(v) => v == lcm_fold(ints(values@)),
            None => lcm_fold(ints(values@)) > i128::MAX,
        },
{
    let ghost s = ints(values@);
    if values.len() == 0 {
        return Some(0);
    }
    if values.len() == 1 {
        return Some(values[0] as i128);
    }
    assert(s.len() == values.len());
    let mut z: usize = 0;
    while z < values.len()
        invariant
            s == ints(values@),
            s.len() == values.len(),
            values.len() >= 2,
            z <= values.len(),
            forall|k: int| 0 <= k < z ==> s[k] != 0,
        decreases values.len() - z,
    {
        if values[z] == 0 {
            proof {
                lemma_lcm_fold_zero(s, z as int);
            }
            return Some(0);
        }
        z += 1;
    }
    let mut l: u128 = abs_u64(values[0]) as u128;
    let mut i: usize = 1;
    while i < values.len()
        invariant
            s == ints(values@),
            2 <= values.len(),
            forall|k: int| 0 <= k < s.len() ==> s[k] != 0,
            1 <= i <= values.len(),
            i == 1 ==> l == abs_int(s[0]),
            i >= 2 ==> l == lcm_fold(s.take(i as int)),
            l <= i128::MAX,
        decreases values.len() - i,
    {
        let v = abs_u64(values[i]);
        let ghost prev = s.take(i as int);
        proof {
            assert(s.take(i + 1).drop_last() =~= prev);
            assert(s.take(i + 1).last() == s[i as int]);
            if i == 1 {
                assert(lcm_fold(prev) == s[0]);
            } else {
                lemma_lcm_fold_positive(prev);
            }
            lemma_lcm_fold_monotone(s, i + 1);
        }
        let g = gcd_u128(l, v as u128);
        proof {
            let lf = lcm_fold(prev);
            assert(abs_int(lf) == l);
            assert(g == gcd_spec(lf, s[i as int]));
            lemma_gcd_zero(lf, s[i as int]);
        }
        let q = l / g;
        match q.checked_mul(v as u128) {
            Some(next) => {
                if next > i128::MAX as u128 {
                    return None;
                }
                l = next;
            }
            None => {
                return None;
            }
        }
        i += 1;
    }
    proof {
        assert(s.take(values.len() as int) =~= s);
    }
    Some(l as i128)
}

/// The gcd of two or more values divides each of them, and every positive common divisor
/// divides it.
pub proof fn lemma_gcd_fold_is_gcd(s: Seq<int>, d: int)
    requires
        s.len() >= 2,
    ensures
        gcd_fold(s) >= 0,
        forall|k: int| 0 <= k < s.len() ==> divides(gcd_fold(s), #[trigger] s[k]),
        d > 0 && (forall|k: int| 0 <= k < s.len() ==> divides(d, #[trigger] s[k])) ==> divides(d, gcd_fold(s)),
    decreases s.len(),
{
    let prev = s.drop_last();
    let g0 = gcd_fold(prev);
    let g = gcd_fold(s);
    lemma_gcd_divides(g0, s.last());
    lemma_gcd_zero(g0, s.last());
    if s.len() > 2 {
        lemma_gcd_fold_is_gcd(prev, d);
    }
    assert forall|k: int| 0 <= k < s.len() implies divides(g, #[trigger] s[k]) by {
        if k < s.len() - 1 && s.len() > 2 {
            assert(divides(g0, prev[k]));
            if g > 0 {
                lemma_divides_transitive(g, g0, s[k]);
            } else {
                assert(g0 == 0);
            }
        }
    }
    if d > 0 && (forall|k: int| 0 <= k < s.len() ==> divides(d, #[trigger] s[k])) {
        assert(divides(d, g0)) by {
            if s.len() == 2 {
                assert(divides(d, s[0]));
            } else {
                assert forall|k: int| 0 <= k < prev.len() implies divides(d, #[trigger] prev[k]) by {
                    assert(divides(d, s[k]));
                }
            }
        }
        assert(divides(d, s[s.len() - 1]));
        lemma_gcd_greatest(g0, s.last(), d);
    }
}

/// Each of two or more values divides their lcm, and the lcm divides every common
/// multiple of them.
pub proof fn lemma_lcm_fold_is_lcm(s: Seq<int>, m: int)
    requires
        s.len() >= 2,
    ensures
        lcm_fold(s) >= 0,
        forall|k: int| 0 <= k < s.len() ==> divides(abs_int(#[trigger] s[k]), lcm_fold(s)),
        (forall|k: int| 0 <= k < s.len() ==> divides(abs_int(#[trigger] s[k]), m)) ==> divides(lcm_fold(s), m),
    decreases s.len(),
{
    let prev = s.drop_last();
    let l0 = lcm_fold(prev);
    let l = lcm_fold(s);
    lemma_lcm_is_lcm(l0, s.last(), m);
    if s.len() > 2 {
        lemma_lcm_fold_is_lcm(prev, m);
    }
    assert forall|k: int| 0 <= k < s.len() implies divides(abs_int(#[trigger] s[k]), l) by {
        if k < s.len() - 1 && s.len() > 2 {
            assert(divides(abs_int(prev[k]), l0));
            if abs_int(s[k]) > 0 {
                lemma_divides_transitive(abs_int(s[k]), abs_int(l0), l);
            } else {
                assert(l0 == 0);
            }
        }
    }
    if forall|k: int| 0 <= k < s.len() ==> divides(abs_int(#[trigger] s[k]), m) {
        assert(divides(abs_int(l0), m)) by {
            if s.len() == 2 {
                assert(divides(abs_int(s[0]), m));
            } else {
                assert forall|k: int| 0 <= k < prev.len() implies divides(abs_int(#[trigger] prev[k]), m) by {
                    assert(divides(abs_int(s[k]), m));
                }
            }
        }
        assert(divides(abs_int(s[s.len() - 1]), m));
    }
}

/// The non-negative residue of an `i64` modulo a positive `m`.
fn residue(a: i64, m: u64) -> (r: u64)
    requires
        m > 0,
    ensures
        r == (a as int) % (m as int),
{
    if a >= 0 {
        (a as u64) % m
    } else {
        let t = abs_u64(a) % m;
        proof {
            let q = (-(a as int)) / (m as int);
            vstd::arithmetic::div_mod::lemma_fundamental_div_mod(-(a as int), m as int);
            assert(t == (-(a as int)) % (m as int));
            if t == 0 {
                assert(a == (-q) * m + 0) by (nonlinear_arith) requires -a == m * q + t, t == 0;
                lemma_fundamental_div_mod_converse(a as int, m as int, -q, 0);
            } else {
                assert(a == (-q - 1) * m + (m - t)) by (nonlinear_arith) requires -a == m * q + t;
                lemma_fundamental_div_mod_converse(a as int, m as int, -q - 1, m - t);
            }
        }
        if t == 0 { 0 } else { m - t }
    }
}

/// `base^e mod m` by repeated squaring.
fn pow_mod_u64(base: u64, exp: u64, m: u64) -> (r: u64)
    requires
        m > 0,
    ensures
        r < m,
        r == pow(base as int, exp as nat) % (m as int),
{
    let mut acc: u64 = 1 % m;
    let mut b: u64 = base % m;
    let mut e: u64 = exp;
    proof {
        lemma_pow_mod_noop(base as int, exp as nat, m as int);
        lemma_mul_mod_noop_general(1, pow(b as int, exp as nat), m as int);
        assert(1 * pow(b as int, exp as nat) == pow(b as int, exp as nat));
    }
    while e > 0
        invariant
            m > 0,
            acc < m,
            b < m,
            (acc * pow(b as int, e as nat)) % (m as int) == pow(base as int, exp as nat) % (m as int),
        decreases e,
    {
        proof {
            lemma_pow_square_step(acc as int, b as int, e as nat, m as int);
            assert(b * b <= u64::MAX * u64::MAX) by (nonlinear_arith) requires b <= u64::MAX;
            assert(acc * b <= u64::MAX * u64::MAX) by (nonlinear_arith) requires acc <= u64::MAX, b <= u64::MAX;
        }
        if e % 2 == 1 {
            acc = ((acc as u128) * (b as u128) % (m as u128)) as u64;
        }
        b = ((b as u128) * (b as u128) % (m as u128)) as u64;
        e = e / 2;
    }
    proof {
        lemma_pow0(b as int);
        lemma_small_mod(acc as nat, m as nat);
    }
    acc
}

/// Computes `base^exp mod |modulus|`, in `0..|modulus|`. A negative exponent raises the
/// inverse of `base` modulo `|modulus|`, which needs `base` coprime to the modulus.
pub fn powmod(base: i64, exp: i64, modulus: i64) -> (r: i64)
    requires
        modulus != 0,
        exp >= 0 || gcd_spec(base as int, modulus as int) == 1,
    ensures
        0 <= r < abs_int(modulus as int),
        exp >= 0 ==> r == pow(base as int, exp as nat) % abs_int(modulus as int),
        exp < 0 ==> (r * pow(base as int, (-exp) as nat)) % abs_int(modulus as int)
            == 1int % abs_int(modulus as int),
{
    let m = abs_u64(modulus);
    let b = residue(base, m);
    if exp >= 0 {
        proof {
            lemma_pow_mod_noop(base as int, exp as nat, m as int);
        }
        return pow_mod_u64(b, exp as u64, m) as i64;
    }
    proof {
        lemma_gcd_mod(base as int, m as int);
        assert(gcd_spec(base as int, modulus as int) == gcd_spec(base as int, m as int));
    }
    let inv = mod_inverse(b, m);
    let e = abs_u64(exp);
    let r = pow_mod_u64(inv, e, m);
    proof {
        let mm = m as int;
        let p = pow(base as int, e as nat);
        // r * base^e = inv^e * base^e = (inv * base)^e = 1 (mod m)
        lemma_mul_mod_noop_general(pow(inv as int, e as nat), p, mm);
        lemma_pow_distributes(inv as int, base as int, e as nat);
        lemma_pow_mod_noop(inv * base, e as nat, mm);
        lemma_mul_mod_noop_general(inv as int, base as int, mm);
        assert(inv * b == b * inv) by (nonlinear_arith);
        assert((inv * base) % mm == 1int % mm);
        lemma_pow_mod_noop(1, e as nat, mm);
        lemma1_pow(e as nat);
        assert((r * p) % mm == (pow(inv as int, e as nat) * p) % mm);
    }
    r as i64
}

/// Computes the fractional part of the rational `numerator / denominator`: the number
/// minus its integer part (its truncation), as a fraction over the same denominator.
pub fn frac(numerator: i64, denominator: i64) -> (r: (i64, i64))
    requires
        denominator != 0,
        !(numerator == i64::MIN && denominator == -1),
    ensures
        r.0 == numerator - trunc_div(numerator as int, denominator as int) * denominator,
        r.1 == denominator,
{
    let (int_part, _) = div_rem_trunc(numerator, denominator);
    proof {
        lemma_trunc_div_rem(numerator as int, denominator as int);
        assert(int_part * denominator == denominator * int_part) by (nonlinear_arith);
    }
    let frac_num = numerator - int_part * denominator;
    (frac_num, denominator)
}

/// The fractional part of `n / d` has the remainder of the truncating division as its
/// numerator.
pub proof fn lemma_frac_is_remainder(n: int, d: int)
    ensures
        n - trunc_div(n, d) * d == trunc_rem(n, d),
{
    assert(trunc_div(n, d) * d == d * trunc_div(n, d)) by (nonlinear_arith);
}

/// Computes the remainder of truncating division: it has the sign of the dividend.
pub fn rem(a: i64, b: i64) -> (r: i64)
    requires
        b != 0,
        !(a == i64::MIN && b == -1),
    ensures
        r == trunc_rem(a as int, b as int),
{
    div_rem_trunc(a, b).1
}

/// Computes the modulo operation `((a % b) + b) % b` over unbounded integers, which for
/// a positive divisor is the non-negative remainder.
pub fn modulo(a: i64, b: i64) -> (r: i64)
    requires
        b != 0,
    ensures
        r == trunc_rem(trunc_rem(a as int, b as int) + b, b as int),
        b > 0 ==> 0 <= r < b && r == (a as int) % (b as int),
{
    let r1 = rem_trunc_wide(a as i128, b as i128);
    proof {
        lemma_trunc_div_rem(a as int, b as int);
    }
    let s: i128 = r1 + (b as i128);
    let r = rem_trunc_wide(s, b as i128);
    proof {
        lemma_trunc_div_rem(s as int, b as int);
        if b > 0 {
            let q1 = trunc_div(a as int, b as int);
            let q2 = trunc_div(s as int, b as int);
            assert(s >= 0);
            assert(r >= 0 && r < b);
            assert(a == b * (q1 + q2 - 1) + r) by (nonlinear_arith)
                requires a == b * q1 + r1, s == r1 + b, s == b * q2 + r;
            vstd::arithmetic::div_mod::lemma_fundamental_div_mod_converse(
                a as int, b as int, q1 + q2 - 1, r as int);
        }
    }
    r as i64
}

/// Returns the numerator of a rational number.
pub fn numerator(num: i64, _den: i64) -> (r: i64)
    ensures
        r == num,
{
    num
}

/// Returns the denominator of a rational number.
pub fn denominator(_num: i64, den: i64) -> (r: i64)
    ensures
        r == den,
{
    den
}

} // verus!
