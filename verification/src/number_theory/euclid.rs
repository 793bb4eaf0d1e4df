//! Greatest common divisors and least common multiples: their definitions by Euclid's
//! algorithm, Bezout's identity, and the facts that make them the greatest common divisor
//! and the least common multiple.
use vstd::prelude::*;
use crate::number_theory::divisibility::{lemma_multiple_mod, lemma_mod_zero};
use crate::number_theory::division::abs_int;
use vstd::arithmetic::power::{pow, lemma_pow_multiplies, lemma_pow_adds, lemma_pow1, lemma_square_is_pow2, lemma_pow_mod_noop};
use vstd::arithmetic::div_mod::{lemma_sub_mod_noop, lemma_mul_mod_noop_general};

verus! {

/// `d` divides `n`: only 0 is a multiple of 0, and for `d != 0` the remainder is 0.
pub open spec fn divides(d: int, n: int) -> bool {
    if d == 0 {
        n == 0
    } else {
        n % d == 0
    }
}

/// The greatest common divisor of two natural numbers, by Euclid's algorithm.
pub open spec fn gcd_nat(a: nat, b: nat) -> nat
    decreases b,
{
    if b == 0 {
        a
    } else {
        gcd_nat(b, a % b)
    }
}

/// The greatest common divisor of two integers (of their absolute values); it is 0 only
/// for `gcd(0, 0)`.
pub open spec fn gcd_spec(a: int, b: int) -> nat {
    gcd_nat(abs_int(a) as nat, abs_int(b) as nat)
}

/// The least common multiple of two integers: 0 when either is 0, else
/// `|a| / gcd(a, b) * |b|`.
pub open spec fn lcm_spec(a: int, b: int) -> nat {
    if a == 0 || b == 0 {
        0
    } else {
        (abs_int(a) / (gcd_spec(a, b) as int) * abs_int(b)) as nat
    }
}

/// A multiple of a positive `d` is divisible by it.
pub proof fn lemma_divides_intro(d: int, n: int, k: int)
    requires
        d > 0,
        n == d * k,
    ensures
        divides(d, n),
{
    lemma_multiple_mod(d, k);
}

/// A number divisible by a positive `d` is `d` times its quotient.
pub proof fn lemma_divides_elim(d: int, n: int)
    requires
        d > 0,
        divides(d, n),
    ensures
        n == d * (n / d),
{
    lemma_mod_zero(n, d);
}

/// Divisibility by a positive number is closed under integer combinations.
pub proof fn lemma_divides_combination(d: int, a: int, b: int, x: int, y: int)
    requires
        d > 0,
        divides(d, a),
        divides(d, b),
    ensures
        divides(d, a * x + b * y),
{
    lemma_divides_elim(d, a);
    lemma_divides_elim(d, b);
    let ka = a / d;
    let kb = b / d;
    assert(a * x + b * y == d * (ka * x + kb * y)) by (nonlinear_arith)
        requires a == d * ka, b == d * kb;
    lemma_divides_intro(d, a * x + b * y, ka * x + kb * y);
}

/// Divisibility by positive numbers is transitive.
pub proof fn lemma_divides_transitive(a: int, b: int, c: int)
    requires
        a > 0,
        b >= 0,
        divides(a, b),
        divides(b, c),
    ensures
        divides(a, c),
{
    if b == 0 {
        assert(c == 0);
        lemma_divides_intro(a, 0, 0);
    } else {
        lemma_divides_elim(a, b);
        lemma_divides_elim(b, c);
        let k1 = b / a;
        let k2 = c / b;
        assert(c == a * (k1 * k2)) by (nonlinear_arith) requires b == a * k1, c == b * k2;
        lemma_divides_intro(a, c, k1 * k2);
    }
}

/// Two natural numbers that divide each other are equal.
pub proof fn lemma_divides_antisymmetric(a: int, b: int)
    requires
        a >= 0,
        b >= 0,
        divides(a, b),
        divides(b, a),
    ensures
        a == b,
{
    if a > 0 && b > 0 {
        lemma_divides_elim(a, b);
        lemma_divides_elim(b, a);
        let k1 = b / a;
        let k2 = a / b;
        assert(a == b) by (nonlinear_arith)
            requires b == a * k1, a == b * k2, a > 0, b > 0;
    }
}

/// The divisors of `n` are the divisors of `|n|`.
proof fn lemma_divides_abs(d: int, n: int)
    requires
        d > 0,
    ensures
        divides(d, n) == divides(d, abs_int(n)),
{
    if divides(d, n) {
        lemma_divides_elim(d, n);
        let k = n / d;
        assert(abs_int(n) == d * abs_int(k)) by (nonlinear_arith)
            requires n == d * k, d > 0;
        lemma_divides_intro(d, abs_int(n), abs_int(k));
    }
    if divides(d, abs_int(n)) {
        lemma_divides_elim(d, abs_int(n));
        let k = abs_int(n) / d;
        assert(n == d * (if n >= 0 { k } else { -k })) by (nonlinear_arith)
            requires abs_int(n) == d * k, d > 0, abs_int(n) == (if n >= 0 { n } else { -n });
        lemma_divides_intro(d, n, if n >= 0 { k } else { -k });
    }
}

/// The gcd of natural numbers divides both of them.
proof fn lemma_gcd_nat_divides(a: nat, b: nat)
    ensures
        divides(gcd_nat(a, b) as int, a as int),
        divides(gcd_nat(a, b) as int, b as int),
    decreases b,
{
    if b == 0 {
        if a > 0 {
            lemma_divides_intro(a as int, a as int, 1);
            lemma_divides_intro(a as int, 0, 0);
        }
    } else {
        let r = a % b;
        lemma_gcd_nat_divides(b, r);
        let g = gcd_nat(b, r) as int;
        assert(g > 0);
        vstd::arithmetic::div_mod::lemma_fundamental_div_mod(a as int, b as int);
        let q = (a / b) as int;
        assert(a == b * q + r * 1);
        lemma_divides_combination(g, b as int, r as int, q, 1);
    }
}

/// Bezout's identity: the gcd of natural numbers is an integer combination of them.
proof fn lemma_bezout_nat(a: nat, b: nat) -> (xy: (int, int))
    ensures
        gcd_nat(a, b) == a * xy.0 + b * xy.1,
    decreases b,
{
    if b == 0 {
        (1, 0)
    } else {
        let r = a % b;
        let (x1, y1) = lemma_bezout_nat(b, r);
        vstd::arithmetic::div_mod::lemma_fundamental_div_mod(a as int, b as int);
        let q = (a / b) as int;
        assert(gcd_nat(a, b) == a * y1 + b * (x1 - q * y1)) by (nonlinear_arith)
            requires gcd_nat(a, b) == b * x1 + r * y1, a == b * q + r;
        (y1, x1 - q * y1)
    }
}

/// The gcd divides both numbers.
pub proof fn lemma_gcd_divides(a: int, b: int)
    ensures
        divides(gcd_spec(a, b) as int, a),
        divides(gcd_spec(a, b) as int, b),
{
    lemma_gcd_nat_divides(abs_int(a) as nat, abs_int(b) as nat);
    let g = gcd_spec(a, b) as int;
    if g > 0 {
        lemma_divides_abs(g, a);
        lemma_divides_abs(g, b);
    }
}

/// Every positive common divisor of `a` and `b` divides their gcd.
pub proof fn lemma_gcd_greatest(a: int, b: int, d: int)
    requires
        d > 0,
        divides(d, a),
        divides(d, b),
    ensures
        divides(d, gcd_spec(a, b) as int),
{
    lemma_divides_abs(d, a);
    lemma_divides_abs(d, b);
    let (x, y) = lemma_bezout_nat(abs_int(a) as nat, abs_int(b) as nat);
    lemma_divides_combination(d, abs_int(a), abs_int(b), x, y);
}

/// The gcd is 0 only for two zeros.
pub proof fn lemma_gcd_zero(a: int, b: int)
    ensures
        (gcd_spec(a, b) == 0) == (a == 0 && b == 0),
{
    lemma_gcd_divides(a, b);
}

/// `gcd(a, b) == gcd(b, a)`.
pub proof fn lemma_gcd_commutative(a: int, b: int)
    ensures
        gcd_spec(a, b) == gcd_spec(b, a),
{
    let g1 = gcd_spec(a, b) as int;
    let g2 = gcd_spec(b, a) as int;
    lemma_gcd_divides(a, b);
    lemma_gcd_divides(b, a);
    lemma_gcd_zero(a, b);
    lemma_gcd_zero(b, a);
    if g1 > 0 && g2 > 0 {
        lemma_gcd_greatest(b, a, g1);
        lemma_gcd_greatest(a, b, g2);
        lemma_divides_antisymmetric(g1, g2);
    }
}

/// Bezout's identity for integers: `gcd(a, b) = a * x + b * y` for some `x` and `y`.
pub proof fn lemma_bezout(a: int, b: int) -> (xy: (int, int))
    ensures
        gcd_spec(a, b) == a * xy.0 + b * xy.1,
{
    let (x, y) = lemma_bezout_nat(abs_int(a) as nat, abs_int(b) as nat);
    let sx = if a >= 0 { x } else { -x };
    let sy = if b >= 0 { y } else { -y };
    assert(abs_int(a) * x == a * sx) by (nonlinear_arith)
        requires sx == (if a >= 0 { x } else { -x }), abs_int(a) == (if a >= 0 { a } else { -a });
    assert(abs_int(b) * y == b * sy) by (nonlinear_arith)
        requires sy == (if b >= 0 { y } else { -y }), abs_int(b) == (if b >= 0 { b } else { -b });
    (sx, sy)
}

/// Both numbers divide their lcm, and the lcm divides every common multiple.
pub proof fn lemma_lcm_is_lcm(a: int, b: int, m: int)
    ensures
        divides(abs_int(a), lcm_spec(a, b) as int),
        divides(abs_int(b), lcm_spec(a, b) as int),
        divides(abs_int(a), m) && divides(abs_int(b), m) ==> divides(lcm_spec(a, b) as int, m),
{
    let l = lcm_spec(a, b) as int;
    if a == 0 || b == 0 {
        if a != 0 {
            lemma_divides_intro(abs_int(a), 0, 0);
        }
        if b != 0 {
            lemma_divides_intro(abs_int(b), 0, 0);
        }
    } else {
        let aa = abs_int(a);
        let bb = abs_int(b);
        let g = gcd_spec(a, b) as int;
        lemma_gcd_divides(a, b);
        lemma_gcd_zero(a, b);
        lemma_divides_abs(g, a);
        lemma_divides_abs(g, b);
        lemma_divides_elim(g, aa);
        lemma_divides_elim(g, bb);
        let a1 = aa / g;
        let b1 = bb / g;
        assert(l == a1 * bb);
        assert(l == aa * b1) by (nonlinear_arith) requires l == a1 * bb, aa == g * a1, bb == g * b1;
        assert(a1 > 0 && b1 > 0) by (nonlinear_arith) requires aa == g * a1, bb == g * b1, aa > 0, bb > 0, g > 0;
        assert(l > 0) by (nonlinear_arith) requires l == a1 * bb, a1 > 0, bb > 0;
        lemma_divides_intro(aa, l, b1);
        assert(l == bb * a1) by (nonlinear_arith) requires l == a1 * bb;
        lemma_divides_intro(bb, l, a1);
        if divides(aa, m) && divides(bb, m) {
            lemma_divides_elim(aa, m);
            lemma_divides_elim(bb, m);
            let s = m / aa;
            let t = m / bb;
            let (x, y) = lemma_bezout_nat(aa as nat, bb as nat);
            assert(g == aa * x + bb * y);
            let k = t * x + s * y;
            assert(m * g == m * aa * x + m * bb * y) by (nonlinear_arith)
                requires g == aa * x + bb * y;
            assert(m * aa * x == aa * bb * (t * x)) by (nonlinear_arith) requires m == bb * t;
            assert(m * bb * y == aa * bb * (s * y)) by (nonlinear_arith) requires m == aa * s;
            assert(g * l == aa * bb) by (nonlinear_arith) requires aa == g * a1, l == a1 * bb;
            assert(m * g == g * (l * k)) by (nonlinear_arith)
                requires m * g == aa * bb * (t * x) + aa * bb * (s * y), g * l == aa * bb,
                    k == t * x + s * y;
            assert(m == l * k) by (nonlinear_arith) requires m * g == g * (l * k), g > 0;
            lemma_divides_intro(l, m, k);
        }
    }
}

/// For nonzero numbers the lcm is at least the absolute value of each.
pub proof fn lemma_lcm_lower_bound(a: int, b: int)
    requires
        a != 0,
        b != 0,
    ensures
        lcm_spec(a, b) >= abs_int(a),
        lcm_spec(a, b) >= abs_int(b),
        lcm_spec(a, b) > 0,
{
    lemma_lcm_is_lcm(a, b, 0);
    let l = lcm_spec(a, b) as int;
    let aa = abs_int(a);
    let bb = abs_int(b);
    let g = gcd_spec(a, b) as int;
    lemma_gcd_divides(a, b);
    lemma_gcd_zero(a, b);
    lemma_divides_abs(g, a);
    lemma_divides_elim(g, aa);
    let a1 = aa / g;
    assert(a1 > 0) by (nonlinear_arith) requires aa == g * a1, aa > 0, g > 0;
    assert(l > 0) by (nonlinear_arith) requires l == a1 * bb, a1 > 0, bb > 0;
    lemma_divides_elim(aa, l);
    lemma_divides_elim(bb, l);
    let ka = l / aa;
    let kb = l / bb;
    assert(l >= aa && l >= bb) by (nonlinear_arith)
        requires l == aa * ka, l == bb * kb, l > 0, aa > 0, bb > 0;
}


/// The gcd of two natural numbers is at most the larger of them.
pub proof fn lemma_gcd_nat_le(a: nat, b: nat)
    ensures
        gcd_nat(a, b) <= if a >= b { a } else { b },
{
    lemma_gcd_nat_divides(a, b);
    let g = gcd_nat(a, b) as int;
    if a > 0 && g > 0 {
        crate::number_theory::divisibility::lemma_divisor_le(a as int, g);
    } else if b > 0 && g > 0 {
        crate::number_theory::divisibility::lemma_divisor_le(b as int, g);
    } else if a == 0 && b > 0 {
        assert(gcd_nat(a, b) == gcd_nat(b, 0));
    }
}

/// Euclid's algorithm on machine integers.
pub fn gcd_u64(a: u64, b: u64) -> (r: u64)
    ensures
        r == gcd_nat(a as nat, b as nat),
{
    let mut x = a;
    let mut y = b;
    while y != 0
        invariant
            gcd_nat(x as nat, y as nat) == gcd_nat(a as nat, b as nat),
        decreases y,
    {
        let t = x % y;
        x = y;
        y = t;
    }
    x
}

/// Euclid's algorithm on 128-bit machine integers.
pub fn gcd_u128(a: u128, b: u128) -> (r: u128)
    ensures
        r == gcd_nat(a as nat, b as nat),
{
    let mut x = a;
    let mut y = b;
    while y != 0
        invariant
            gcd_nat(x as nat, y as nat) == gcd_nat(a as nat, b as nat),
        decreases y,
    {
        let t = x % y;
        x = y;
        y = t;
    }
    x
}

/// Numbers congruent modulo `m` have the same gcd with `m`.
pub proof fn lemma_gcd_mod(a: int, m: int)
    requires
        m > 0,
    ensures
        gcd_spec(a % m, m) == gcd_spec(a, m),
{
    let r = a % m;
    vstd::arithmetic::div_mod::lemma_fundamental_div_mod(a, m);
    let q = a / m;
    let g1 = gcd_spec(r, m) as int;
    let g2 = gcd_spec(a, m) as int;
    lemma_gcd_divides(r, m);
    lemma_gcd_divides(a, m);
    lemma_gcd_zero(r, m);
    lemma_gcd_zero(a, m);
    assert(r == a * 1 + m * (-q)) by (nonlinear_arith) requires a == m * q + r;
    lemma_divides_combination(g2, a, m, 1, -q);
    lemma_gcd_greatest(r, m, g2);
    assert(a == r * 1 + m * q) by (nonlinear_arith) requires a == m * q + r;
    lemma_divides_combination(g1, r, m, 1, q);
    lemma_gcd_greatest(a, m, g1);
    lemma_divides_antisymmetric(g1, g2);
}

/// The inverse of `a` modulo `m`, for `a` coprime to `m`: the `r < m` with
/// `a * r = 1 (mod m)`, by the extended Euclidean algorithm with coefficients kept
/// modulo `m`.
pub fn mod_inverse(a: u64, m: u64) -> (r: u64)
    requires
        m > 0,
        a < m,
        gcd_nat(a as nat, m as nat) == 1,
    ensures
        r < m,
        (a * r) % (m as int) == 1int % (m as int),
{
    let mut r0: u64 = m;
    let mut r1: u64 = a;
    let mut s0: u64 = 0;
    let mut s1: u64 = 1 % m;
    proof {
        lemma_gcd_commutative(a as int, m as int);
        vstd::arithmetic::div_mod::lemma_small_mod(a as nat, m as nat);
        vstd::arithmetic::div_mod::lemma_mod_self_0(m as int);
        vstd::arithmetic::div_mod::lemma_mul_mod_noop_general(a as int, 1, m as int);
        vstd::arithmetic::div_mod::lemma_small_mod(0, m as nat);
    }
    while r1 != 0
        invariant
            m > 0,
            a < m,
            r0 <= m,
            r1 <= m,
            s0 < m,
            s1 < m,
            gcd_nat(r0 as nat, r1 as nat) == 1,
            (r0 as int) % (m as int) == (a * s0) % (m as int),
            (r1 as int) % (m as int) == (a * s1) % (m as int),
        decreases r1,
    {
        let q = r0 / r1;
        let r2 = r0 % r1;
        assert(q * s1 <= m * m) by (nonlinear_arith) requires q <= m, s1 < m;
        assert(m * m <= u64::MAX * u64::MAX) by (nonlinear_arith) requires m <= u64::MAX;
        let qs = ((q as u128) * (s1 as u128) % (m as u128)) as u64;
        let s2 = ((s0 as u128 + m as u128 - qs as u128) % (m as u128)) as u64;
        proof {
            vstd::arithmetic::div_mod::lemma_fundamental_div_mod(r0 as int, r1 as int);
            assert(r2 == r0 - r1 * q);
            lemma_step_congruence(a as int, m as int, r0 as int, r1 as int, s0 as int, s1 as int,
                q as int, qs as int, s2 as int);
        }
        r0 = r1;
        r1 = r2;
        s0 = s1;
        s1 = s2;
    }
    proof {
        assert(gcd_nat(r0 as nat, 0) == r0);
    }
    s0
}

/// One step of the extended Euclidean algorithm modulo `m` keeps `r = a * s (mod m)`.
proof fn lemma_step_congruence(a: int, m: int, r0: int, r1: int, s0: int, s1: int, q: int, qs: int, s2: int)
    requires
        m > 0,
        0 <= s0 < m,
        0 <= s1 < m,
        q >= 0,
        r0 % m == (a * s0) % m,
        r1 % m == (a * s1) % m,
        qs == (q * s1) % m,
        s2 == (s0 + m - qs) % m,
    ensures
        (r0 - r1 * q) % m == (a * s2) % m,
        0 <= s2 < m,
{
    // (r0 - r1 q) = a s0 - a s1 q (mod m)
    lemma_sub_mod_noop(r0, r1 * q, m);
    lemma_mul_mod_noop_general(r1, q, m);
    lemma_mul_mod_noop_general(a * s1, q, m);
    lemma_sub_mod_noop(a * s0, a * s1 * q, m);
    assert((r0 - r1 * q) % m == (a * s0 - a * s1 * q) % m);
    // s2 = s0 - q s1 (mod m)
    vstd::arithmetic::div_mod::lemma_fundamental_div_mod(q * s1, m);
    assert(s0 + m - qs == (s0 - q * s1) + m * (1 + (q * s1) / m)) by (nonlinear_arith)
        requires q * s1 == m * ((q * s1) / m) + qs;
    vstd::arithmetic::div_mod::lemma_mod_multiples_vanish(1 + (q * s1) / m, s0 - q * s1, m);
    assert(s2 == (s0 - q * s1) % m);
    lemma_mul_mod_noop_general(a, s0 - q * s1, m);
    assert(a * (s0 - q * s1) == a * s0 - a * s1 * q) by (nonlinear_arith);
}

/// `(a % m) % m`-free form of the exponentiation invariant: multiplying in `b` for an odd
/// exponent and squaring `b` keep `acc * b^e` unchanged modulo `m`.
pub proof fn lemma_pow_square_step(acc: int, b: int, e: nat, m: int)
    requires
        m > 0,
    ensures
        e % 2 == 1 ==> ((acc * b) % m * pow((b * b) % m, e / 2)) % m
            == (acc * pow(b, e)) % m,
        e % 2 == 0 ==> (acc * pow((b * b) % m, e / 2)) % m
            == (acc * pow(b, e)) % m,
{
    let h = e / 2;
    lemma_square_is_pow2(b);
    lemma_pow_multiplies(b, 2, h);
    assert(pow(b * b, h) == pow(b, 2 * h));
    lemma_pow_mod_noop(b * b, h, m);
    if e % 2 == 1 {
        lemma_pow_adds(b, 2 * h, 1);
        lemma_pow1(b);
        assert(pow(b, e) == pow(b, 2 * h) * b);
        lemma_mul_mod_noop_general(acc * b, pow((b * b) % m, h), m);
        lemma_mul_mod_noop_general(acc * b, pow(b * b, h), m);
        assert(acc * b * pow(b, 2 * h) == acc * (pow(b, 2 * h) * b)) by (nonlinear_arith);
    } else {
        assert(e == 2 * h);
        lemma_mul_mod_noop_general(acc, pow((b * b) % m, h), m);
        lemma_mul_mod_noop_general(acc, pow(b * b, h), m);
    }
}

/// `gcd(a, b) * lcm(a, b) = |a * b|`.
pub proof fn lemma_gcd_times_lcm(a: int, b: int)
    ensures
        gcd_spec(a, b) * lcm_spec(a, b) == abs_int(a * b),
{
    if a == 0 || b == 0 {
        assert(a * b == 0) by (nonlinear_arith) requires a == 0 || b == 0;
    } else {
        let aa = abs_int(a);
        let bb = abs_int(b);
        let g = gcd_spec(a, b) as int;
        lemma_gcd_divides(a, b);
        lemma_gcd_zero(a, b);
        lemma_divides_abs(g, a);
        lemma_divides_elim(g, aa);
        let a1 = aa / g;
        assert(g * (a1 * bb) == aa * bb) by (nonlinear_arith) requires aa == g * a1;
        assert(abs_int(a * b) == aa * bb) by (nonlinear_arith)
            requires aa == abs_int(a), bb == abs_int(b);
    }
}

} // verus!
