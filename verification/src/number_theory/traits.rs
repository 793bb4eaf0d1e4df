//! Divisors, gcd and lcm as methods on integers, and the prime factorisation that the
//! divisors come from.
use vstd::prelude::*;
use vstd::arithmetic::power::{pow, lemma_pow_adds, lemma_pow1, lemma_pow_positive};
use crate::number_theory::divisibility::{spec_prime, lemma_multiple_mod, lemma_mod_zero, lemma_divides_trans, lemma_even_not_prime,
    lemma_euclid};
use crate::number_theory::division::abs_int;
use crate::number_theory::euclid::{gcd_spec, lcm_spec, gcd_u64, gcd_u128, lemma_gcd_zero, lemma_gcd_divides,
    lemma_gcd_nat_le, lemma_lcm_lower_bound};
use crate::number_theory::totient::{prime_divisors, prime_divisors_upto, trial_state, no_prime_factor_below,
    keeps_prime_factors_from, lemma_trial_divisor_prime, lemma_trial_divide, lemma_trial_skip, lemma_trial_start,
    lemma_trial_end, lemma_prime_divisors_tail, lemma_two_prime, lemma_prime_divides_prime_power};

verus! {

/// Computes all positive divisors of a number.
pub trait Divisors {
    /// Returns the positive divisors of the number in increasing order (none for 0).
    fn divisors(&self) -> Vec<u64>;
}

/// Computes the greatest common divisor with another number.
pub trait Gcd<T> {
    /// The (non-negative) greatest common divisor of `self` and `other`.
    fn gcd(&self, other: &T) -> u64;
}

/// Computes the least common multiple with another number.
pub trait Lcm<T> {
    /// The (non-negative) least common multiple of `self` and `other`; 0 if either is 0.
    fn lcm(&self, other: &T) -> u128;
}

/// The positive divisors of `n` up to `k`, in increasing order.
pub open spec fn divisors_upto(n: int, k: int) -> Seq<int>
    decreases k,
{
    if k < 1 {
        Seq::empty()
    } else if n % k == 0 {
        divisors_upto(n, k - 1).push(k)
    } else {
        divisors_upto(n, k - 1)
    }
}

/// The positive divisors of `|n|` in increasing order; none for 0.
pub open spec fn divisors_spec(n: int) -> Seq<int> {
    if n == 0 {
        Seq::empty()
    } else {
        divisors_upto(abs_int(n), abs_int(n))
    }
}

/// The absolute value of an `i64` as a `u64`.
fn magnitude(v: i64) -> (r: u64)
    ensures
        r == abs_int(v as int),
{
    if v < 0 {
        (-(v as i128)) as u64
    } else {
        v as u64
    }
}

/// The divisors of `n` in `1..=k` from those in `1..=j` (`j <= k`) and the range between.
proof fn lemma_divisors_upto_split(n: int, j: int, k: int)
    requires
        0 <= j <= k,
    ensures
        divisors_upto(n, k).len() >= divisors_upto(n, j).len(),
        divisors_upto(n, k).take(divisors_upto(n, j).len() as int) == divisors_upto(n, j),
        forall|t: int| divisors_upto(n, j).len() <= t < divisors_upto(n, k).len()
            ==> #[trigger] divisors_upto(n, k)[t] > j,
    decreases k - j,
{
    if j < k {
        lemma_divisors_upto_split(n, j, k - 1);
        let a = divisors_upto(n, j);
        let b = divisors_upto(n, k - 1);
        let c = divisors_upto(n, k);
        if n % k == 0 {
            assert(c.take(a.len() as int) =~= b.take(a.len() as int));
        }
    } else {
        assert(divisors_upto(n, k).take(divisors_upto(n, j).len() as int) =~= divisors_upto(n, j));
    }
}

/// The divisors up to `k` are divisors of `n`, between 1 and `k`, increasing.
proof fn lemma_divisors_upto_props(n: int, k: int)
    ensures
        forall|t: int| 0 <= t < divisors_upto(n, k).len() ==> 1 <= #[trigger] divisors_upto(n, k)[t] <= k
            && n % divisors_upto(n, k)[t] == 0,
        forall|s: int, t: int| 0 <= s < t < divisors_upto(n, k).len() ==> divisors_upto(n, k)[s] < divisors_upto(n, k)[t],
        forall|d: int| 1 <= d <= k && n % d == 0 ==> divisors_upto(n, k).contains(d),
    decreases k,
{
    if k >= 1 {
        lemma_divisors_upto_props(n, k - 1);
        let prev = divisors_upto(n, k - 1);
        let cur = divisors_upto(n, k);
        assert forall|t: int| 0 <= t < cur.len() implies 1 <= #[trigger] cur[t] <= k && n % cur[t] == 0 by {
            if t < prev.len() {
                assert(cur[t] == prev[t]);
            }
        }
        assert forall|s: int, t: int| 0 <= s < t < cur.len() implies cur[s] < cur[t] by {
            if t < prev.len() {
                assert(cur[s] == prev[s] && cur[t] == prev[t]);
            } else {
                assert(cur[s] == prev[s]);
            }
        }
        assert forall|d: int| 1 <= d <= k && n % d == 0 implies cur.contains(d) by {
            if d < k {
                assert(prev.contains(d));
                let t = choose|t: int| 0 <= t < prev.len() && prev[t] == d;
                assert(cur[t] == d);
            } else {
                assert(cur[cur.len() - 1] == d);
            }
        }
    }
}

/// The divisors of a positive `n` by trial division: the small ones up to the square
/// root in increasing order, then their cofactors in increasing order.
fn divisors_of(n: u64) -> (r: Vec<u64>)
    requires
        1 <= n <= 0x8000_0000_0000_0000,
    ensures
        r@.map_values(|d: u64| d as int) == divisors_upto(n as int, n as int),
{
    let ghost nn = n as int;
    let mut small: Vec<u64> = Vec::new();
    let mut i: u64 = 1;
    // small divisors i with i * i <= n
    while i <= n / i
        invariant
            nn == n,
            1 <= n <= 0x8000_0000_0000_0000,
            1 <= i <= 3_037_000_500,
            (i - 1) * (i - 1) <= n,
            small@.map_values(|d: u64| d as int) == divisors_upto(nn, i - 1),
        decreases n + 1 - i,
    {
        let ghost before = small@;
        assert(i * i <= n) by (nonlinear_arith) requires i <= n / i, i >= 1;
        if n % i == 0 {
            small.push(i);
            proof {
                assert(small@.map_values(|d: u64| d as int) =~= before.map_values(|d: u64| d as int).push(i as int));
            }
        }
        proof {
            assert(i <= 3_037_000_499) by (nonlinear_arith)
                requires i * i <= n, n <= 0x8000_0000_0000_0000, i >= 1;
            assert(i <= n) by (nonlinear_arith) requires i * i <= n, i >= 1;
        }
        i += 1;
    }
    // now (i - 1)^2 <= n < i^2: the small divisors are those up to s = i - 1
    proof {
        if i == 1 {
            assert(n / 1 == n);
        }
    }
    let s = i - 1;
    proof {
        assert(n < i * i) by (nonlinear_arith) requires i > n / i, i >= 1;
        assert(s * s <= n);
    }
    let ghost sm = divisors_upto(nn, s as int);
    proof {
        lemma_divisors_upto_props(nn, s as int);
    }
    let mut result: Vec<u64> = Vec::new();
    let mut k: usize = 0;
    while k < small.len()
        invariant
            small@.map_values(|d: u64| d as int) == sm,
            k <= small.len(),
            forall|t: int| 0 <= t < sm.len() ==> 1 <= #[trigger] sm[t] <= s,
            s <= 3_037_000_500,
            result@.map_values(|d: u64| d as int) == sm.take(k as int),
        decreases small.len() - k,
    {
        let ghost before = result@;
        proof {
            assert(sm[k as int] == small@[k as int] as int);
        }
        result.push(small[k]);
        proof {
            assert(result@.map_values(|d: u64| d as int) =~= before.map_values(|d: u64| d as int).push(sm[k as int]));
            assert(sm.take(k + 1) =~= sm.take(k as int).push(sm[k as int]));
        }
        k += 1;
    }
    proof {
        assert(sm.take(small.len() as int) =~= sm);
    }
    // the large divisors n / d for the small divisors d, from the largest d down
    let mut t: usize = small.len();
    while t > 0
        invariant
            nn == n,
            1 <= n <= 0x8000_0000_0000_0000,
            s * s <= n < (s + 1) * (s + 1),
            s >= 1,
            small@.map_values(|d: u64| d as int) == sm,
            sm == divisors_upto(nn, s as int),
            t <= small.len(),
            result@.map_values(|d: u64| d as int) == divisors_upto(nn, cofactor_bound(nn, s as int, sm, t as int)),
        decreases t,
    {
        let d = small[t - 1];
        let ghost before = result@;
        proof {
            lemma_divisors_upto_props(nn, s as int);
            assert(sm[t - 1] == d as int);
            lemma_cofactor_step(nn, s as int, t as int);
        }
        let q = n / d;
        if q != d {
            result.push(q);
            proof {
                assert(result@.map_values(|v: u64| v as int) =~= before.map_values(|v: u64| v as int).push(q as int));
            }
        }
        t -= 1;
    }
    proof {
        lemma_cofactor_end(nn, s as int);
    }
    result
}

/// Where the divisor list stands after the cofactors of the small divisors from index
/// `t` on: up to `n / sm[t]`, or up to the square root `s` before any.
pub open spec fn cofactor_bound(n: int, s: int, sm: Seq<int>, t: int) -> int {
    if t >= sm.len() {
        s
    } else {
        n / sm[t]
    }
}

/// One cofactor step: after the cofactors of the small divisors from index `t` on, the
/// cofactor of `sm[t - 1]` is the next divisor (unless it equals `sm[t - 1]` itself).
proof fn lemma_cofactor_step(n: int, s: int, t: int)
    requires
        n >= 1,
        s >= 1,
        s * s <= n < (s + 1) * (s + 1),
        1 <= t <= divisors_upto(n, s).len(),
    ensures
        ({
            let sm = divisors_upto(n, s);
            let d = sm[t - 1];
            let q = n / d;
            &&& n % d == 0
            &&& 1 <= d <= s
            &&& q >= d
            &&& q <= n
            &&& (q == d ==> divisors_upto(n, cofactor_bound(n, s, sm, t - 1)) == divisors_upto(n, cofactor_bound(n, s, sm, t)))
            &&& (q != d ==> divisors_upto(n, cofactor_bound(n, s, sm, t - 1)) == divisors_upto(n, cofactor_bound(n, s, sm, t)).push(q))
        }),
{
    let sm = divisors_upto(n, s);
    lemma_divisors_upto_props(n, s);
    let d = sm[t - 1];
    lemma_mod_zero(n, d);
    let q = n / d;
    assert(q >= d && q <= n) by (nonlinear_arith) requires n == d * q, d <= s, s * s <= n, d >= 1;
    assert(n == q * d) by (nonlinear_arith) requires n == d * q;
    lemma_multiple_mod(q, d);
    let lo = cofactor_bound(n, s, sm, t);
    if t < sm.len() {
        let d2 = sm[t];
        assert(d < d2);
        lemma_mod_zero(n, d2);
        let q2 = n / d2;
        assert(lo == q2);
        assert(q2 < q) by (nonlinear_arith) requires n == d * q, n == d2 * q2, d < d2, d >= 1, q >= 1, n >= 1;
        assert(q2 >= s) by (nonlinear_arith) requires n == d2 * q2, d2 <= s, s * s <= n, d2 >= 1;
    } else {
        assert(lo == s);
        assert(s <= q) by (nonlinear_arith) requires n == d * q, d <= s, s * s <= n, d >= 1;
    }
    assert(lo <= q);
    assert(lo >= d);
    assert forall|x: int| lo < x < q implies #[trigger] (n % x) != 0 by {
        if n % x == 0 {
            lemma_mod_zero(n, x);
            let y = n / x;
            assert(y > d) by (nonlinear_arith) requires n == x * y, n == d * q, x < q, x > 0, d > 0;
            assert(y <= s) by (nonlinear_arith)
                requires n == x * y, x > s, n < (s + 1) * (s + 1), x > 0, s >= 1;
            assert(n == y * x) by (nonlinear_arith) requires n == x * y;
            lemma_multiple_mod(y, x);
            assert(sm.contains(y));
            let ty = choose|ty: int| 0 <= ty < sm.len() && sm[ty] == y;
            if ty <= t - 1 {
                if ty < t - 1 {
                    assert(sm[ty] < sm[t - 1]);
                }
            }
            assert(ty >= t);
            assert(t < sm.len());
            let d2 = sm[t];
            if ty > t {
                assert(sm[t] < sm[ty]);
            }
            lemma_mod_zero(n, d2);
            let q2 = n / d2;
            assert(q2 >= 1) by (nonlinear_arith) requires n == d2 * q2, n >= 1, d2 >= 1;
            assert(y >= 1) by (nonlinear_arith) requires n == x * y, n >= 1, x >= 1;
            assert(y < d2) by (nonlinear_arith)
                requires n == x * y, n == d2 * q2, x > q2, q2 >= 1, y >= 1;
        }
    }
    if q == d {
        assert(lo == d);
    } else {
        lemma_divisors_upto_skip(n, lo, q - 1);
    }
}

/// Without divisors in `(j, k]`, the divisors up to `k` are those up to `j`.
proof fn lemma_divisors_upto_skip(n: int, j: int, k: int)
    requires
        j <= k,
        forall|x: int| j < x <= k ==> #[trigger] (n % x) != 0,
    ensures
        divisors_upto(n, k) == divisors_upto(n, j),
    decreases k - j,
{
    if j < k {
        lemma_divisors_upto_skip(n, j, k - 1);
        assert(n % k != 0);
    }
}

/// After all the cofactors the list holds every divisor up to `n`.
proof fn lemma_cofactor_end(n: int, s: int)
    requires
        n >= 1,
        s >= 1,
        s * s <= n < (s + 1) * (s + 1),
    ensures
        divisors_upto(n, cofactor_bound(n, s, divisors_upto(n, s), 0)) == divisors_upto(n, n),
{
    let sm = divisors_upto(n, s);
    lemma_divisors_upto_props(n, s);
    assert(sm.contains(1)) by {
        assert(n % 1 == 0);
    }
    let t = choose|t: int| 0 <= t < sm.len() && sm[t] == 1;
    if t > 0 {
        assert(sm[0] < sm[t]);
        assert(sm[0] >= 1);
    }
    assert(sm[0] == 1);
    assert(cofactor_bound(n, s, sm, 0) == n);
}

/// The divisors of a nonzero `n` are increasing, each divides `|n|`, and every positive
/// divisor of `|n|` is among them.
pub proof fn lemma_divisors_are_the_divisors(n: int)
    requires
        n != 0,
    ensures
        forall|t: int| 0 <= t < divisors_spec(n).len() ==> 1 <= #[trigger] divisors_spec(n)[t] <= abs_int(n)
            && abs_int(n) % divisors_spec(n)[t] == 0,
        forall|s: int, t: int| 0 <= s < t < divisors_spec(n).len() ==> divisors_spec(n)[s] < divisors_spec(n)[t],
        forall|d: int| 1 <= d <= abs_int(n) && abs_int(n) % d == 0 ==> divisors_spec(n).contains(d),
{
    lemma_divisors_upto_props(abs_int(n), abs_int(n));
}

impl Divisors for i64 {
    /// The positive divisors of `|self|` in increasing order; none for 0.
    fn divisors(&self) -> (r: Vec<u64>)
        ensures
            r@.map_values(|d: u64| d as int) == divisors_spec(*self as int),
    {
        if *self == 0 {
            let v: Vec<u64> = Vec::new();
            proof {
                assert(v@.map_values(|d: u64| d as int) =~= Seq::<int>::empty());
            }
            return v;
        }
        let n = magnitude(*self);
        divisors_of(n)
    }
}

impl Gcd<i64> for i64 {
    /// The greatest common divisor of `|self|` and `|other|`.
    fn gcd(&self, other: &i64) -> (r: u64)
        ensures
            r == gcd_spec(*self as int, *other as int),
    {
        gcd_u64(magnitude(*self), magnitude(*other))
    }
}

impl Lcm<i64> for i64 {
    /// The least common multiple of `self` and `other`; 0 if either is 0.
    fn lcm(&self, other: &i64) -> (r: u128)
        ensures
            r == lcm_spec(*self as int, *other as int),
    {
        if *self == 0 || *other == 0 {
            return 0;
        }
        let a = magnitude(*self);
        let b = magnitude(*other);
        let g = gcd_u64(a, b);
        proof {
            lemma_gcd_zero(*self as int, *other as int);
            assert((a / g) * b <= a * b) by (nonlinear_arith) requires g >= 1, a >= 0, b >= 0;
            assert(a * b <= u64::MAX * u64::MAX) by (nonlinear_arith) requires a <= u64::MAX, b <= u64::MAX;
        }
        ((a / g) as u128) * (b as u128)
    }
}

/// A prime factor with its exponent.
#[derive(Debug, Clone, Copy, PartialEq, Eq, Structural)]
pub struct PrimeFactor {
    /// The prime.
    pub prime: u64,
    /// How many times it divides the number.
    pub exponent: u32,
}

/// The product of the prime powers of a factorisation.
pub open spec fn factor_product(fs: Seq<PrimeFactor>) -> int
    decreases fs.len(),
{
    if fs.len() == 0 {
        1
    } else {
        factor_product(fs.drop_last()) * pow(fs.last().prime as int, fs.last().exponent as nat)
    }
}

/// The primes of a factorisation.
pub open spec fn factor_primes(fs: Seq<PrimeFactor>) -> Seq<int> {
    fs.map_values(|f: PrimeFactor| f.prime as int)
}

/// Divides every factor `d` out of `rest`, counting them.
fn divide_out_counting(orig: u64, rest: u64, d: u64) -> (r: (u64, u32))
    requires
        orig >= 1,
        d >= 2,
        spec_prime(d as int),
        rest >= 1,
        rest % d == 0,
        (orig as int) % (rest as int) == 0,
        no_prime_factor_below(rest as int, d as int),
        keeps_prime_factors_from(orig as int, rest as int, d + 1),
    ensures
        trial_state(orig as int, r.0 as int, d + 1),
        r.0 <= rest,
        r.1 >= 1,
        rest == r.0 * pow(d as int, r.1 as nat),
{
    let mut n = rest;
    let mut e: u32 = 0;
    proof {
        vstd::arithmetic::power::lemma_pow0(d as int);
    }
    while n % d == 0
        invariant
            orig >= 1,
            d >= 2,
            spec_prime(d as int),
            n >= 1,
            n <= rest,
            e <= 64,
            (e == 0) == (n == rest),
            rest == n * pow(d as int, e as nat),
            (orig as int) % (n as int) == 0,
            no_prime_factor_below(n as int, d as int),
            keeps_prime_factors_from(orig as int, n as int, d + 1),
        decreases n,
    {
        proof {
            lemma_trial_divide(orig as int, n as int, d as int);
            lemma_mod_zero(n as int, d as int);
            lemma_pow_adds(d as int, e as nat, 1);
            lemma_pow1(d as int);
            assert(rest == (n / d) * pow(d as int, (e + 1) as nat)) by (nonlinear_arith)
                requires rest == n * pow(d as int, e as nat), n == d * (n / d),
                    pow(d as int, (e + 1) as nat) == pow(d as int, e as nat) * d;
            lemma_pow_positive(d as int, e as nat);
            lemma_two_pow_bound(d as int, e as nat, rest as int, n as int);
        }
        n = n / d;
        e = e + 1;
    }
    proof {
        assert forall|p: int| spec_prime(p) && p < d + 1 implies #[trigger] ((n as int) % p) != 0 by {
            if p == d {
            }
        }
    }
    (n, e)
}

/// With `rest = n * d^e`, `d >= 2` and `n` divisible by `d`, `e` stays below 64.
proof fn lemma_two_pow_bound(d: int, e: nat, rest: int, n: int)
    requires
        d >= 2,
        n >= 2,
        rest == n * pow(d, e),
        rest <= u64::MAX,
    ensures
        e < 64,
{
    if e >= 64 {
        vstd::arithmetic::power::lemma_pow_increases(d as nat, 64, e);
        vstd::arithmetic::power2::lemma2_to64();
        vstd::arithmetic::power2::lemma_pow2(64);
        lemma_pow_ge_base(d, 64);
        lemma_pow_positive(d, e);
        assert(rest >= 2 * pow(d, e)) by (nonlinear_arith) requires rest == n * pow(d, e), n >= 2, pow(d, e) > 0;
    }
}

/// `d^e >= 2^e` for `d >= 2`.
proof fn lemma_pow_ge_base(d: int, e: nat)
    requires
        d >= 2,
    ensures
        pow(d, e) >= pow(2, e),
    decreases e,
{
    vstd::arithmetic::power::lemma_pow0(d);
    vstd::arithmetic::power::lemma_pow0(2);
    if e > 0 {
        lemma_pow_ge_base(d, (e - 1) as nat);
        lemma_pow_adds(d, (e - 1) as nat, 1);
        lemma_pow_adds(2, (e - 1) as nat, 1);
        lemma_pow1(d);
        lemma_pow1(2);
        lemma_pow_positive(2, (e - 1) as nat);
        assert(pow(d, (e - 1) as nat) * d >= pow(2, (e - 1) as nat) * 2) by (nonlinear_arith)
            requires pow(d, (e - 1) as nat) >= pow(2, (e - 1) as nat), d >= 2, pow(2, (e - 1) as nat) > 0;
    }
}

/// A prime divides no product of powers of smaller primes.
proof fn lemma_prime_not_dividing_factors(q: int, fs: Seq<PrimeFactor>)
    requires
        spec_prime(q),
        forall|j: int| #![trigger fs[j]] 0 <= j < fs.len() ==> spec_prime(fs[j].prime as int) && fs[j].prime < q,
    ensures
        factor_product(fs) >= 1,
        factor_product(fs) % q != 0,
    decreases fs.len(),
{
    if fs.len() == 0 {
        vstd::arithmetic::div_mod::lemma_small_mod(1, q as nat);
    } else {
        let prev = fs.drop_last();
        let f = fs.last();
        assert(spec_prime(fs[fs.len() - 1].prime as int));
        assert forall|j: int| #![trigger prev[j]] 0 <= j < prev.len() implies spec_prime(prev[j].prime as int)
            && prev[j].prime < q by {
            assert(prev[j] == fs[j]);
        }
        lemma_prime_not_dividing_factors(q, prev);
        let pw = pow(f.prime as int, f.exponent as nat);
        lemma_pow_positive(f.prime as int, f.exponent as nat);
        let fp = factor_product(prev);
        assert(fp * pw >= 1) by (nonlinear_arith) requires fp >= 1, pw >= 1;
        if (fp * pw) % q == 0 {
            lemma_euclid(q, fp, pw);
            if pw % q == 0 {
                lemma_prime_divides_prime_power(f.prime as int, f.exponent as nat, q);
            }
        }
    }
}

/// Recording `p^e` with `n = fb * r * p^e`, where `p` divides neither `fb` nor `r`, makes
/// `e` the exponent of `p` in `n`.
proof fn lemma_exact_power(n: int, fb: int, r: int, p: int, e: nat)
    requires
        spec_prime(p),
        fb >= 1,
        r >= 1,
        fb % p != 0,
        r % p != 0,
        n == (fb * r) * pow(p, e),
    ensures
        n % pow(p, e) == 0,
        (n / pow(p, e)) % p != 0,
{
    let pw = pow(p, e);
    lemma_pow_positive(p, e);
    assert(n == pw * (fb * r)) by (nonlinear_arith) requires n == (fb * r) * pw;
    lemma_multiple_mod(pw, fb * r);
    vstd::arithmetic::div_mod::lemma_div_multiples_vanish(fb * r, pw);
    assert(fb * r >= 1) by (nonlinear_arith) requires fb >= 1, r >= 1;
    if ((fb * r) % p) == 0 {
        lemma_euclid(p, fb, r);
    }
}

/// `e` is the exponent of the prime `p` in `n`: `p^e` divides `n` and `p` does not divide
/// `n / p^e`.
pub open spec fn exact_power(n: int, p: int, e: nat) -> bool {
    n % pow(p, e) == 0 && (n / pow(p, e)) % p != 0
}

/// Computes the prime factorisation of `n`: its distinct primes in increasing order,
/// each with its exponent; none for `n <= 1`.
pub fn prime_factorization(n: u64) -> (r: Vec<PrimeFactor>)
    ensures
        n <= 1 ==> r@.len() == 0,
        n >= 2 ==> factor_primes(r@) == prime_divisors(n as int),
        forall|j: int| #![trigger r@[j]] 0 <= j < r@.len() ==> r@[j].exponent >= 1
            && exact_power(n as int, r@[j].prime as int, r@[j].exponent as nat),
        n >= 1 ==> factor_product(r@) == n,
{
    let mut factors: Vec<PrimeFactor> = Vec::new();
    if n <= 1 {
        return factors;
    }
    let ghost o = n as int;
    let mut rest = n;
    proof {
        lemma_trial_start(o);
        lemma_two_prime();
        reveal_with_fuel(prime_divisors_upto, 3);
    }
    if rest % 2 == 0 {
        let (r2, e) = divide_out_counting(n, rest, 2);
        rest = r2;
        factors.push(PrimeFactor { prime: 2, exponent: e });
        proof {
            assert(factors@.drop_last() =~= Seq::<PrimeFactor>::empty());
            assert(factors@.last() == PrimeFactor { prime: 2, exponent: e });
            assert(factor_product(factors@.drop_last()) == 1);
            assert(factor_product(factors@) == 1 * pow(2, e as nat));
            assert(factor_product(factors@) * rest == n) by (nonlinear_arith)
                requires factor_product(factors@) == pow(2, e as nat), n == rest * pow(2, e as nat);
            assert(factor_primes(factors@) =~= seq![2int]);
            lemma_exact_power(n as int, 1, rest as int, 2, e as nat);
        }
    } else {
        proof {
            lemma_trial_skip(o, rest as int, 2);
            assert(factor_primes(factors@) =~= Seq::<int>::empty());
        }
    }
    assert(factor_primes(factors@) == prime_divisors_upto(o, 2));
    let mut i: u64 = 3;
    while i <= rest / i
        invariant
            o == n,
            n >= 2,
            3 <= i <= 4_294_967_297,
            i <= n + 1,
            i % 2 == 1,
            rest <= n,
            trial_state(o, rest as int, i as int),
            factor_primes(factors@) == prime_divisors_upto(o, i - 1),
            forall|j: int| #![trigger factors@[j]] 0 <= j < factors@.len() ==> factors@[j].exponent >= 1
                && exact_power(n as int, factors@[j].prime as int, factors@[j].exponent as nat)
                && spec_prime(factors@[j].prime as int) && factors@[j].prime < i,
            factor_product(factors@) * rest == n,
        decreases n + 2 - i,
    {
        assert(i * i <= rest) by (nonlinear_arith) requires i <= rest / i, i >= 1;
        let ghost before = factors@;
        if rest % i == 0 {
            proof {
                lemma_trial_divisor_prime(rest as int, i as int);
                lemma_divides_trans(o, rest as int, i as int);
            }
            let ghost old_rest = rest;
            let (r2, e) = divide_out_counting(n, rest, i);
            rest = r2;
            proof {
                lemma_prime_not_dividing_factors(i as int, before);
                assert((r2 as int) % (i as int) != 0) by {
                    assert(trial_state(o, r2 as int, i + 1));
                }
                assert(n == (factor_product(before) * r2) * pow(i as int, e as nat)) by (nonlinear_arith)
                    requires factor_product(before) * old_rest == n, old_rest == r2 * pow(i as int, e as nat);
                lemma_exact_power(n as int, factor_product(before), r2 as int, i as int, e as nat);
            }
            factors.push(PrimeFactor { prime: i, exponent: e });
            proof {
                assert(factors@.drop_last() =~= before);
                assert(factor_primes(factors@) =~= factor_primes(before).push(i as int));
                assert(factor_product(factors@) == factor_product(before) * pow(i as int, e as nat));
                assert(factor_product(factors@) * rest == n) by (nonlinear_arith)
                    requires factor_product(factors@) == factor_product(before) * pow(i as int, e as nat),
                        old_rest == rest * pow(i as int, e as nat), factor_product(before) * old_rest == n;
            }
        } else {
            proof {
                lemma_trial_skip(o, rest as int, i as int);
            }
        }
        assert(factor_primes(factors@) == prime_divisors_upto(o, i as int));
        proof {
            lemma_even_not_prime(i + 1);
            assert(trial_state(o, rest as int, i + 2)) by {
                assert forall|p: int| spec_prime(p) && p < i + 2 implies #[trigger] ((rest as int) % p) != 0 by {
                    if p == i + 1 {
                        lemma_even_not_prime(p);
                    }
                }
            }
            assert(i <= 4_294_967_295) by (nonlinear_arith) requires i * i <= n, n <= u64::MAX, i >= 1;
            assert(i + 2 <= n + 1) by (nonlinear_arith) requires i * i <= n, i >= 3;
            assert(prime_divisors_upto(o, i + 1) == prime_divisors_upto(o, i as int));
        }
        i = i + 2;
    }
    proof {
        assert(rest < i * i) by (nonlinear_arith) requires i > rest / i, i >= 1;
        lemma_prime_divisors_tail(o, rest as int, i as int, o);
        lemma_trial_end(o, rest as int, i as int, i as int);
    }
    if rest > 1 {
        let ghost before = factors@;
        proof {
            assert forall|j: int| #![trigger before[j]] 0 <= j < before.len() implies spec_prime(before[j].prime as int)
                && before[j].prime < rest by {
                assert(before[j] == factors@[j]);
            }
            lemma_prime_not_dividing_factors(rest as int, before);
            lemma_pow1(rest as int);
            vstd::arithmetic::div_mod::lemma_small_mod(1, rest as nat);
            lemma_exact_power(n as int, factor_product(before), 1, rest as int, 1);
        }
        factors.push(PrimeFactor { prime: rest, exponent: 1 });
        proof {
            assert(factors@.drop_last() =~= before);
            assert(factor_primes(factors@) =~= factor_primes(before).push(rest as int));
            lemma_pow1(rest as int);
        }
    }
    factors
}

} // verus!
