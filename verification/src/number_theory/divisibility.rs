//! Divisibility and primality of integers: the facts that the number theory functions
//! are proved from.
use vstd::prelude::*;
use vstd::arithmetic::div_mod::{lemma_fundamental_div_mod, lemma_mod_multiples_basic};

verus! {

/// `n` is prime: at least 2 and without a divisor strictly between 1 and itself.
pub open spec fn spec_prime(n: int) -> bool {
    n >= 2 && forall|d: int| 2 <= d < n ==> #[trigger] (n % d) != 0
}

/// An even number above 2 is not prime.
pub proof fn lemma_even_not_prime(q: int)
    requires
        q > 2,
        q % 2 == 0,
    ensures
        !spec_prime(q),
{
}

/// A multiple of `d` leaves no remainder.
pub proof fn lemma_multiple_mod(d: int, k: int)
    requires
        d > 0,
    ensures
        (d * k) % d == 0,
        (k * d) % d == 0,
{
    lemma_mod_multiples_basic(k, d);
    assert(d * k == k * d) by (nonlinear_arith);
}

/// A number without remainder is its quotient times the divisor.
pub proof fn lemma_mod_zero(n: int, d: int)
    requires
        d > 0,
        n % d == 0,
    ensures
        n == d * (n / d),
{
    lemma_fundamental_div_mod(n, d);
}

/// Divisibility is transitive.
pub proof fn lemma_divides_trans(n: int, d: int, e: int)
    requires
        d > 0,
        e > 0,
        n % d == 0,
        d % e == 0,
    ensures
        n % e == 0,
{
    lemma_mod_zero(n, d);
    lemma_mod_zero(d, e);
    let a = n / d;
    let b = d / e;
    assert(n == e * (b * a)) by (nonlinear_arith)
        requires n == d * a, d == e * b;
    lemma_multiple_mod(e, b * a);
}

/// A divisor of a positive number is at most that number.
pub proof fn lemma_divisor_le(n: int, d: int)
    requires
        n > 0,
        d > 0,
        n % d == 0,
    ensures
        d <= n,
{
    lemma_mod_zero(n, d);
    let k = n / d;
    assert(d <= n) by (nonlinear_arith)
        requires n == d * k, n > 0, d > 0;
}

/// A number at least 2 that is not prime has a divisor `d >= 2` with `d * d <= n`.
pub proof fn lemma_composite_small_divisor(n: int) -> (d: int)
    requires
        n >= 2,
        !spec_prime(n),
    ensures
        2 <= d,
        d * d <= n,
        n % d == 0,
{
    let d0 = choose|d: int| 2 <= d < n && #[trigger] (n % d) == 0;
    lemma_mod_zero(n, d0);
    let e = n / d0;
    if d0 * d0 <= n {
        d0
    } else {
        assert(2 <= e && e * e <= n && e < d0) by (nonlinear_arith)
            requires n == d0 * e, d0 * d0 > n, 2 <= d0 < n;
        assert(n == e * d0) by (nonlinear_arith) requires n == d0 * e;
        lemma_multiple_mod(e, d0);
        e
    }
}

/// Every number at least 2 has a prime factor, which for a number that is not prime is
/// at most its square root.
pub proof fn lemma_prime_factor(n: int) -> (p: int)
    requires
        n >= 2,
    ensures
        spec_prime(p),
        n % p == 0,
        2 <= p <= n,
        !spec_prime(n) ==> p * p <= n,
    decreases n,
{
    if spec_prime(n) {
        assert(n % n == 0) by {
            lemma_multiple_mod(n, 1);
        }
        n
    } else {
        let d = lemma_composite_small_divisor(n);
        assert(d < n) by (nonlinear_arith) requires d * d <= n, d >= 2;
        let p = lemma_prime_factor(d);
        lemma_divides_trans(n, d, p);
        assert(p * p <= n) by (nonlinear_arith) requires p <= d, d * d <= n, p >= 2;
        p
    }
}

/// For a prime `p` and `0 < a < p`: if `p` divides `a * b` then it divides `b`.
proof fn lemma_euclid_reduced(p: int, a: int, b: int)
    requires
        spec_prime(p),
        0 < a < p,
        b >= 0,
        (a * b) % p == 0,
    ensures
        b % p == 0,
    decreases a,
{
    if a == 1 {
        assert(a * b == b);
    } else {
        let q = p / a;
        let r = p % a;
        lemma_fundamental_div_mod(p, a);
        assert(r != 0) by {
            assert(p % a != 0);
        }
        assert(0 < r < a);
        lemma_mod_zero(a * b, p);
        let t = (a * b) / p;
        assert(r * b == p * (b - q * t)) by (nonlinear_arith)
            requires p == a * q + r, a * b == p * t;
        assert(r * b >= 0) by (nonlinear_arith) requires r > 0, b >= 0;
        lemma_multiple_mod(p, b - q * t);
        lemma_euclid_reduced(p, r, b);
    }
}

/// Euclid's lemma: a prime that divides a product divides one of its factors.
pub proof fn lemma_euclid(p: int, a: int, b: int)
    requires
        spec_prime(p),
        a >= 0,
        b >= 0,
        (a * b) % p == 0,
    ensures
        a % p == 0 || b % p == 0,
{
    if a % p != 0 {
        let r = a % p;
        let q = a / p;
        lemma_fundamental_div_mod(a, p);
        assert(a * b == p * (q * b) + r * b) by (nonlinear_arith) requires a == p * q + r;
        assert((r * b) % p == 0) by {
            lemma_mod_zero(a * b, p);
            let t = (a * b) / p;
            assert(r * b == p * (t - q * b)) by (nonlinear_arith)
                requires a * b == p * (q * b) + r * b, a * b == p * t;
            lemma_multiple_mod(p, t - q * b);
        }
        lemma_euclid_reduced(p, r, b);
    }
}

} // verus!
