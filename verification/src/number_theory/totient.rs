//! Euler's totient function, and the distinct prime factors that it is computed from.
use vstd::prelude::*;
use crate::number_theory::divisibility::{spec_prime, lemma_divides_trans, lemma_mod_zero, lemma_multiple_mod,
    lemma_euclid, lemma_prime_factor, lemma_divisor_le, lemma_even_not_prime};
use crate::number_theory::division::abs_int;
use crate::number_theory::euclid::{gcd_spec, lemma_gcd_divides, lemma_gcd_greatest, lemma_gcd_zero};

verus! {

/// The product formula `r * (1 - 1/p)` applied, in increasing order, for each prime
/// `p <= k` that divides `n`, starting from `r = n`.
pub open spec fn totient_upto(n: int, k: int) -> int
    decreases k,
{
    if k < 2 {
        n
    } else {
        let r = totient_upto(n, k - 1);
        if spec_prime(k) && n % k == 0 {
            r - r / k
        } else {
            r
        }
    }
}

/// Euler's totient by the product formula `phi(n) = |n| * prod (1 - 1/p)` over the
/// distinct primes `p` dividing `n`; `phi(0) = 0`.
pub open spec fn totient_spec(n: int) -> int {
    if n == 0 {
        0
    } else {
        totient_upto(abs_int(n), abs_int(n))
    }
}

/// The distinct primes `p <= k` that divide `n`, in increasing order.
pub open spec fn prime_divisors_upto(n: int, k: int) -> Seq<int>
    decreases k,
{
    if k < 2 {
        Seq::empty()
    } else if spec_prime(k) && n % k == 0 {
        prime_divisors_upto(n, k - 1).push(k)
    } else {
        prime_divisors_upto(n, k - 1)
    }
}

/// The distinct prime factors of a positive `n`, in increasing order.
pub open spec fn prime_divisors(n: int) -> Seq<int> {
    prime_divisors_upto(n, n)
}

/// No prime below `i` divides `rest`.
pub open spec fn no_prime_factor_below(rest: int, i: int) -> bool {
    forall|p: int| spec_prime(p) && p < i ==> #[trigger] (rest % p) != 0
}

/// Every prime at least `i` that divides `orig` divides `rest`.
pub open spec fn keeps_prime_factors_from(orig: int, rest: int, i: int) -> bool {
    forall|p: int| spec_prime(p) && p >= i && #[trigger] (orig % p) == 0 ==> rest % p == 0
}

/// The state of trial division of `orig` below `i`: `rest` is what is left of `orig`
/// after dividing out its prime factors below `i`.
pub open spec fn trial_state(orig: int, rest: int, i: int) -> bool {
    &&& rest >= 1
    &&& orig % rest == 0
    &&& no_prime_factor_below(rest, i)
    &&& keeps_prime_factors_from(orig, rest, i)
}

/// A trial divisor that divides what is left is prime.
pub(crate) proof fn lemma_trial_divisor_prime(rest: int, i: int)
    requires
        rest >= 1,
        i >= 2,
        rest % i == 0,
        no_prime_factor_below(rest, i),
    ensures
        spec_prime(i),
{
    if !spec_prime(i) {
        let p = lemma_prime_factor(i);
        lemma_divides_trans(rest, i, p);
        assert(p < i);
    }
}

/// Dividing a prime trial divisor out of `rest` keeps the trial state for the primes
/// other than `i`.
pub(crate) proof fn lemma_trial_divide(orig: int, rest: int, i: int)
    requires
        orig >= 1,
        rest >= 1,
        orig % rest == 0,
        spec_prime(i),
        rest % i == 0,
        no_prime_factor_below(rest, i),
        keeps_prime_factors_from(orig, rest, i + 1),
    ensures
        rest / i >= 1,
        rest / i < rest,
        orig % (rest / i) == 0,
        no_prime_factor_below(rest / i, i),
        keeps_prime_factors_from(orig, rest / i, i + 1),
{
    let q = rest / i;
    lemma_mod_zero(rest, i);
    assert(q >= 1 && q < rest) by (nonlinear_arith) requires rest == i * q, rest >= 1, i >= 2;
    assert(rest == q * i) by (nonlinear_arith) requires rest == i * q;
    lemma_multiple_mod(q, i);
    lemma_divides_trans(orig, rest, q);
    assert forall|p: int| spec_prime(p) && p < i implies #[trigger] (q % p) != 0 by {
        if q % p == 0 {
            lemma_divides_trans(rest, q, p);
        }
    }
    assert forall|p: int| spec_prime(p) && p >= i + 1 && #[trigger] (orig % p) == 0 implies q % p == 0 by {
        assert(rest % p == 0);
        assert((i * q) % p == 0);
        lemma_euclid(p, i, q);
        if i % p == 0 {
            lemma_divisor_le(i, p);
        }
    }
}

/// When the trial divisor exceeds the square root of what is left, what is left is 1 or
/// a prime, and it is the only prime factor of `orig` from `i` on.
pub(crate) proof fn lemma_trial_end(orig: int, rest: int, i: int, k: int)
    requires
        orig >= 1,
        i >= 2,
        trial_state(orig, rest, i),
        rest < i * i,
        k >= i,
    ensures
        rest > 1 ==> spec_prime(rest) && rest >= i && rest <= orig,
        (spec_prime(k) && orig % k == 0) == (rest > 1 && k == rest),
{
    lemma_divisor_le(orig, rest);
    if rest > 1 {
        let p = lemma_prime_factor(rest);
        if !spec_prime(rest) {
            assert(p < i) by (nonlinear_arith) requires p * p <= rest, rest < i * i, p >= 2, i >= 2;
            assert(rest % p == 0);
        }
        assert(rest % rest == 0) by {
            lemma_multiple_mod(rest, 1);
        }
        assert(rest >= i);
    }
    if spec_prime(k) && orig % k == 0 {
        assert(rest % k == 0);
        lemma_divisor_le(rest, k);
        if rest > 1 && k != rest {
            assert(rest % k != 0);
        }
    }
    if rest > 1 && k == rest {
        lemma_divides_trans(orig, rest, k);
    }
}

/// Past the trial divisors the product formula only changes at the prime left over.
proof fn lemma_totient_tail(orig: int, rest: int, i: int, k: int)
    requires
        orig >= 1,
        i >= 2,
        trial_state(orig, rest, i),
        rest < i * i,
        k >= i - 1,
    ensures
        totient_upto(orig, k) == if rest > 1 && rest <= k {
            totient_upto(orig, i - 1) - totient_upto(orig, i - 1) / rest
        } else {
            totient_upto(orig, i - 1)
        },
    decreases k,
{
    if k >= i {
        lemma_totient_tail(orig, rest, i, k - 1);
        lemma_trial_end(orig, rest, i, k);
    } else {
        lemma_trial_end(orig, rest, i, i);
    }
}

/// Past the trial divisors the prime factors only grow by the prime left over.
pub(crate) proof fn lemma_prime_divisors_tail(orig: int, rest: int, i: int, k: int)
    requires
        orig >= 1,
        i >= 2,
        trial_state(orig, rest, i),
        rest < i * i,
        k >= i - 1,
    ensures
        prime_divisors_upto(orig, k) == if rest > 1 && rest <= k {
            prime_divisors_upto(orig, i - 1).push(rest)
        } else {
            prime_divisors_upto(orig, i - 1)
        },
    decreases k,
{
    if k >= i {
        lemma_prime_divisors_tail(orig, rest, i, k - 1);
        lemma_trial_end(orig, rest, i, k);
    } else {
        lemma_trial_end(orig, rest, i, i);
    }
}

/// Removes every factor `d` from `rest`.
fn divide_out(orig: u64, rest: u64, d: u64) -> (r: u64)
    requires
        orig >= 1,
        d >= 2,
        spec_prime(d as int),
        rest >= 1,
        (orig as int) % (rest as int) == 0,
        no_prime_factor_below(rest as int, d as int),
        keeps_prime_factors_from(orig as int, rest as int, d + 1),
    ensures
        trial_state(orig as int, r as int, d + 1),
        r <= rest,
{
    let mut n = rest;
    while n % d == 0
        invariant
            orig >= 1,
            d >= 2,
            spec_prime(d as int),
            n >= 1,
            n <= rest,
            (orig as int) % (n as int) == 0,
            no_prime_factor_below(n as int, d as int),
            keeps_prime_factors_from(orig as int, n as int, d + 1),
        decreases n,
    {
        proof {
            lemma_trial_divide(orig as int, n as int, d as int);
        }
        n = n / d;
    }
    proof {
        assert forall|p: int| spec_prime(p) && p < d + 1 implies #[trigger] ((n as int) % p) != 0 by {
            if p < d {
            } else {
                assert(p == d);
            }
        }
    }
    n
}

/// `2` is prime.
pub(crate) proof fn lemma_two_prime()
    ensures
        spec_prime(2),
{
}

/// The trial state before any division, for the primes from 2 on.
pub(crate) proof fn lemma_trial_start(orig: int)
    requires
        orig >= 1,
    ensures
        trial_state(orig, orig, 2),
{
    lemma_multiple_mod(orig, 1);
}

/// A trial divisor that does not divide what is left is no prime factor of `orig`.
pub(crate) proof fn lemma_trial_skip(orig: int, rest: int, i: int)
    requires
        orig >= 1,
        i >= 2,
        trial_state(orig, rest, i),
        rest % i != 0,
    ensures
        trial_state(orig, rest, i + 1),
        !(spec_prime(i) && orig % i == 0),
{
}

/// Computes Euler's totient function: the number of integers in `1..=|n|` coprime to
/// `n`, by the product formula over the distinct prime factors of `n`; `phi(0) = 0` and
/// `phi(-n) = phi(n)`.
pub fn totient(n: i64) -> (r: u64)
    ensures
        r == totient_spec(n as int),
{
    if n == 0 {
        return 0;
    }
    if n == 1 || n == -1 {
        proof {
            assert(totient_upto(1, 1) == 1);
        }
        return 1;
    }
    let mag: u64 = if n < 0 { (-(n as i128)) as u64 } else { n as u64 };
    let ghost o = mag as int;
    let mut n_abs = mag;
    let mut result = mag;
    proof {
        lemma_trial_start(o);
        lemma_two_prime();
        reveal_with_fuel(totient_upto, 2);
    }
    if n_abs % 2 == 0 {
        n_abs = divide_out(mag, n_abs, 2);
        result = result - result / 2;
    } else {
        proof {
            lemma_trial_skip(o, n_abs as int, 2);
        }
    }
    assert(result == totient_upto(o, 2));
    let mut i: u64 = 3;
    while i <= mag / i
        invariant
            o == mag,
            2 <= mag <= 0x8000_0000_0000_0000,
            3 <= i <= 3_037_000_501,
            i <= mag + 1,
            i % 2 == 1,
            n_abs <= mag,
            trial_state(o, n_abs as int, i as int),
            result == totient_upto(o, i - 1),
            result <= mag,
        decreases mag + 2 - i,
    {
        assert(i * i <= mag) by (nonlinear_arith) requires i <= mag / i, i >= 1;
        if n_abs % i == 0 {
            proof {
                lemma_trial_divisor_prime(n_abs as int, i as int);
                lemma_divides_trans(o, n_abs as int, i as int);
            }
            n_abs = divide_out(mag, n_abs, i);
            result = result - result / i;
        } else {
            proof {
                lemma_trial_skip(o, n_abs as int, i as int);
            }
        }
        assert(result == totient_upto(o, i as int));
        proof {
            assert(totient_upto(o, i + 1) == totient_upto(o, i as int)) by {
                lemma_even_not_prime(i + 1);
            }
            lemma_even_not_prime(i + 1);
            assert(trial_state(o, n_abs as int, i + 2)) by {
                assert forall|p: int| spec_prime(p) && p < i + 2 implies #[trigger] ((n_abs as int) % p) != 0 by {
                    if p == i + 1 {
                        lemma_even_not_prime(p);
                    }
                }
            }
            assert(i <= 3_037_000_499) by (nonlinear_arith)
                requires i * i <= mag, mag <= 0x8000_0000_0000_0000, i >= 1;
            assert(i + 2 <= mag + 1) by (nonlinear_arith) requires i * i <= mag, i >= 3;
        }
        i = i + 2;
    }
    proof {
        assert(mag < i * i) by (nonlinear_arith) requires i > mag / i, i >= 1;
        lemma_totient_tail(o, n_abs as int, i as int, o);
        lemma_trial_end(o, n_abs as int, i as int, i as int);
    }
    if n_abs > 1 {
        result = result - result / n_abs;
    }
    result
}

/// Returns the distinct prime factors of `n` in increasing order, or `None` for `n = 0`.
pub fn prime_factors(n: u64) -> (r: Option<Vec<u64>>)
    ensures
        n == 0 <==> r is None,
        r matches Some(v) ==> v@.map_values(|p: u64| p as int) == prime_divisors(n as int),
{
    if n == 0 {
        return None;
    }
    let mut factors: Vec<u64> = Vec::new();
    if n == 1 {
        proof {
            assert(factors@.map_values(|p: u64| p as int) =~= prime_divisors(1));
        }
        return Some(factors);
    }
    let ghost o = n as int;
    let mut rest = n;
    proof {
        lemma_trial_start(o);
        lemma_two_prime();
        reveal_with_fuel(prime_divisors_upto, 3);
    }
    if rest % 2 == 0 {
        rest = divide_out(n, rest, 2);
        factors.push(2);
    } else {
        proof {
            lemma_trial_skip(o, rest as int, 2);
        }
    }
    assert(factors@.map_values(|p: u64| p as int) =~= prime_divisors_upto(o, 2));
    let mut i: u64 = 3;
    while i <= rest / i
        invariant
            o == n,
            n >= 2,
            3 <= i <= 4_294_967_297,
            i <= n + 1,
            i % 2 == 1,
            rest <= n,
            trial_state(o, rest as int, i as int),
            factors@.map_values(|p: u64| p as int) == prime_divisors_upto(o, i - 1),
        decreases n + 2 - i,
    {
        assert(i * i <= rest) by (nonlinear_arith) requires i <= rest / i, i >= 1;
        let ghost before = factors@;
        if rest % i == 0 {
            proof {
                lemma_trial_divisor_prime(rest as int, i as int);
                lemma_divides_trans(o, rest as int, i as int);
            }
            rest = divide_out(n, rest, i);
            factors.push(i);
            proof {
                assert(factors@.map_values(|p: u64| p as int)
                    =~= before.map_values(|p: u64| p as int).push(i as int));
            }
        } else {
            proof {
                lemma_trial_skip(o, rest as int, i as int);
            }
        }
        assert(factors@.map_values(|p: u64| p as int) == prime_divisors_upto(o, i as int));
        proof {
            lemma_even_not_prime(i + 1);
            assert(trial_state(o, rest as int, i + 2)) by {
                assert forall|p: int| spec_prime(p) && p < i + 2 implies #[trigger] ((rest as int) % p) != 0 by {
                    if p == i + 1 {
                        lemma_even_not_prime(p);
                    }
                }
            }
            assert(i <= 4_294_967_295) by (nonlinear_arith) requires i * i <= n, n <= u64::MAX, i >= 1;
            assert(i + 2 <= n + 1) by (nonlinear_arith) requires i * i <= n, i >= 3;
            assert(prime_divisors_upto(o, i + 1) == prime_divisors_upto(o, i as int));
        }
        i = i + 2;
    }
    proof {
        assert(rest < i * i) by (nonlinear_arith) requires i > rest / i, i >= 1;
        lemma_prime_divisors_tail(o, rest as int, i as int, o);
        lemma_trial_end(o, rest as int, i as int, i as int);
    }
    if rest > 1 {
        let ghost before = factors@;
        factors.push(rest);
        proof {
            assert(factors@.map_values(|p: u64| p as int)
                =~= before.map_values(|p: u64| p as int).push(rest as int));
        }
    }
    Some(factors)
}

/// The product formula applied along a list of primes: starting from `n`, each prime `p`
/// turns `r` into `r - r / p`.
pub open spec fn totient_by_list(n: int, ps: Seq<int>) -> int
    decreases ps.len(),
{
    if ps.len() == 0 {
        n
    } else {
        let r = totient_by_list(n, ps.drop_last());
        r - r / ps.last()
    }
}

/// The product of a list of numbers.
pub open spec fn product(ps: Seq<int>) -> int
    decreases ps.len(),
{
    if ps.len() == 0 {
        1
    } else {
        product(ps.drop_last()) * ps.last()
    }
}

/// The product of the numbers one less than those of a list.
pub open spec fn product_minus_one(ps: Seq<int>) -> int
    decreases ps.len(),
{
    if ps.len() == 0 {
        1
    } else {
        product_minus_one(ps.drop_last()) * (ps.last() - 1)
    }
}

/// The formula over the primes up to `k` is the formula along the list of those primes.
proof fn lemma_totient_upto_by_list(n: int, k: int)
    ensures
        totient_upto(n, k) == totient_by_list(n, prime_divisors_upto(n, k)),
    decreases k,
{
    if k >= 2 {
        lemma_totient_upto_by_list(n, k - 1);
        if spec_prime(k) && n % k == 0 {
            assert(prime_divisors_upto(n, k).drop_last() =~= prime_divisors_upto(n, k - 1));
        }
    }
}

/// The prime divisors up to `k` are primes dividing `n`, at most `k`, in increasing order.
proof fn lemma_prime_divisors_upto_props(n: int, k: int)
    ensures
        forall|j: int| 0 <= j < prime_divisors_upto(n, k).len() ==> spec_prime(#[trigger] prime_divisors_upto(n, k)[j])
            && n % prime_divisors_upto(n, k)[j] == 0 && prime_divisors_upto(n, k)[j] <= k,
        forall|i: int, j: int| 0 <= i < j < prime_divisors_upto(n, k).len()
            ==> prime_divisors_upto(n, k)[i] < prime_divisors_upto(n, k)[j],
    decreases k,
{
    if k >= 2 {
        lemma_prime_divisors_upto_props(n, k - 1);
        let prev = prime_divisors_upto(n, k - 1);
        let cur = prime_divisors_upto(n, k);
        assert forall|j: int| 0 <= j < cur.len() implies spec_prime(#[trigger] cur[j]) && n % cur[j] == 0
            && cur[j] <= k by {
            if j < prev.len() {
                assert(cur[j] == prev[j]);
            }
        }
        assert forall|i: int, j: int| 0 <= i < j < cur.len() implies cur[i] < cur[j] by {
            if j < prev.len() {
                assert(cur[i] == prev[i] && cur[j] == prev[j]);
            } else {
                assert(cur[i] == prev[i]);
                assert(prev[i] <= k - 1);
            }
        }
    }
}

/// A prime larger than every prime of a list does not divide their product.
proof fn lemma_prime_not_dividing_product(p: int, ps: Seq<int>)
    requires
        spec_prime(p),
        forall|j: int| 0 <= j < ps.len() ==> spec_prime(#[trigger] ps[j]) && ps[j] < p,
    ensures
        product(ps) >= 1,
        product(ps) % p != 0,
    decreases ps.len(),
{
    if ps.len() == 0 {
        vstd::arithmetic::div_mod::lemma_small_mod(1, p as nat);
    } else {
        let prev = ps.drop_last();
        let q = ps.last();
        assert(spec_prime(ps[ps.len() - 1]));
        lemma_prime_not_dividing_product(p, prev);
        assert(product(ps) >= 1) by (nonlinear_arith) requires product(ps) == product(prev) * q, product(prev) >= 1, q >= 2;
        if product(ps) % p == 0 {
            lemma_euclid(p, product(prev), q);
            if q % p == 0 {
                lemma_divisor_le(q, p);
                assert(q % p != 0);
            }
        }
    }
}

/// Along the list of prime factors the formula stays exact: after the first `j` primes
/// it equals `n / (p_1...p_j) * (p_1 - 1)...(p_j - 1)`, and `r * (p - 1) / p` is the
/// same step as `r - r / p`.
proof fn lemma_totient_list_step(n: int, ps: Seq<int>, j: int)
    requires
        n >= 1,
        0 <= j < ps.len(),
        forall|i: int| 0 <= i < ps.len() ==> spec_prime(#[trigger] ps[i]) && n % ps[i] == 0,
        forall|a: int, b: int| 0 <= a < b < ps.len() ==> ps[a] < ps[b],
        product(ps.take(j)) >= 1,
        n % product(ps.take(j)) == 0,
        totient_by_list(n, ps.take(j)) == (n / product(ps.take(j))) * product_minus_one(ps.take(j)),
    ensures
        product(ps.take(j + 1)) >= 1,
        n % product(ps.take(j + 1)) == 0,
        totient_by_list(n, ps.take(j + 1)) == (n / product(ps.take(j + 1))) * product_minus_one(ps.take(j + 1)),
        totient_by_list(n, ps.take(j)) * (ps[j] - 1) / ps[j]
            == totient_by_list(n, ps.take(j)) - totient_by_list(n, ps.take(j)) / ps[j],
{
    let pre = ps.take(j);
    let nxt = ps.take(j + 1);
    let p = ps[j];
    assert(nxt.drop_last() =~= pre);
    assert(nxt.last() == p);
    assert(spec_prime(p));
    let pr = product(pre);
    let qm = product_minus_one(pre);
    let r = totient_by_list(n, pre);
    assert forall|i: int| 0 <= i < pre.len() implies spec_prime(#[trigger] pre[i]) && pre[i] < p by {
        assert(pre[i] == ps[i]);
        assert(spec_prime(ps[i]));
    }
    lemma_prime_not_dividing_product(p, pre);
    lemma_mod_zero(n, pr);
    let m = n / pr;
    assert(m >= 1) by (nonlinear_arith) requires n == pr * m, n >= 1, pr >= 1;
    assert(n % p == 0);
    assert((pr * m) % p == 0);
    lemma_euclid(p, pr, m);
    lemma_mod_zero(m, p);
    let m1 = m / p;
    assert(qm >= 1) by {
        lemma_product_minus_one_positive(pre);
    }
    // r = p * m1 * qm
    assert(r == p * (m1 * qm)) by (nonlinear_arith) requires r == m * qm, m == p * m1;
    vstd::arithmetic::div_mod::lemma_div_multiples_vanish(m1 * qm, p);
    assert(r / p == m1 * qm);
    assert(r * (p - 1) == p * (m1 * qm * (p - 1))) by (nonlinear_arith) requires r == p * (m1 * qm);
    vstd::arithmetic::div_mod::lemma_div_multiples_vanish(m1 * qm * (p - 1), p);
    assert(r * (p - 1) / p == m1 * qm * (p - 1));
    assert(r - r / p == m1 * qm * (p - 1)) by (nonlinear_arith) requires r == p * (m1 * qm), r / p == m1 * qm;
    // the product grows by p
    assert(product(nxt) == pr * p);
    assert(product_minus_one(nxt) == qm * (p - 1));
    assert(pr * p >= 1) by (nonlinear_arith) requires pr >= 1, p >= 2;
    assert(n == (pr * p) * m1) by (nonlinear_arith) requires n == pr * m, m == p * m1;
    lemma_multiple_mod(pr * p, m1);
    vstd::arithmetic::div_mod::lemma_div_multiples_vanish(m1, pr * p);
    assert(n / (pr * p) == m1) by (nonlinear_arith) requires n == (pr * p) * m1, (m1 * (pr * p)) / (pr * p) == m1;
    assert(totient_by_list(n, nxt) == r - r / p);
    assert(m1 * (qm * (p - 1)) == m1 * qm * (p - 1)) by (nonlinear_arith);
}

/// The product of `p - 1` over primes is positive.
proof fn lemma_product_minus_one_positive(ps: Seq<int>)
    requires
        forall|j: int| 0 <= j < ps.len() ==> spec_prime(#[trigger] ps[j]),
    ensures
        product_minus_one(ps) >= 1,
    decreases ps.len(),
{
    if ps.len() > 0 {
        let prev = ps.drop_last();
        assert forall|j: int| 0 <= j < prev.len() implies spec_prime(#[trigger] prev[j]) by {
            assert(spec_prime(ps[j]));
        }
        lemma_product_minus_one_positive(prev);
        assert(spec_prime(ps[ps.len() - 1]));
        assert(product_minus_one(ps) >= 1) by (nonlinear_arith)
            requires product_minus_one(ps) == product_minus_one(prev) * (ps.last() - 1), product_minus_one(prev) >= 1,
                ps.last() >= 2;
    }
}

/// Computes Euler's totient from the prime factorisation: `n * prod (p - 1) / p` over
/// the distinct prime factors `p` of `n`. Returns `None` exactly when `n` is zero, and
/// otherwise the value that `totient` computes.
pub fn totient_from_factors(n: i64) -> (r: Option<u64>)
    ensures
        n == 0 <==> r is None,
        n != 0 ==> (r matches Some(v) && v == totient_spec(n as int)),
{
    if n == 0 {
        return None;
    }
    if n == 1 {
        proof {
            assert(totient_upto(1, 1) == 1);
        }
        return Some(1);
    }
    let n_abs: u64 = if n < 0 { (-(n as i128)) as u64 } else { n as u64 };
    let ghost o = n_abs as int;
    let factors = match prime_factors(n_abs) {
        Some(f) => f,
        None => {
            return None;
        },
    };
    let ghost ps = factors@.map_values(|p: u64| p as int);
    proof {
        lemma_prime_divisors_upto_props(o, o);
        lemma_totient_upto_by_list(o, o);
        assert(ps.take(0) =~= Seq::<int>::empty());
    }
    let mut result: u64 = n_abs;
    let mut j: usize = 0;
    while j < factors.len()
        invariant
            o == n_abs,
            o >= 1,
            ps == factors@.map_values(|p: u64| p as int),
            ps == prime_divisors(o),
            forall|i: int| 0 <= i < ps.len() ==> spec_prime(#[trigger] ps[i]) && o % ps[i] == 0,
            forall|a: int, b: int| 0 <= a < b < ps.len() ==> ps[a] < ps[b],
            j <= factors.len(),
            product(ps.take(j as int)) >= 1,
            o % product(ps.take(j as int)) == 0,
            totient_by_list(o, ps.take(j as int)) == (o / product(ps.take(j as int))) * product_minus_one(ps.take(j as int)),
            result == totient_by_list(o, ps.take(j as int)),
            result <= o,
        decreases factors.len() - j,
    {
        let p = factors[j];
        proof {
            assert(ps[j as int] == p as int);
            assert(spec_prime(ps[j as int]));
            lemma_totient_list_step(o, ps, j as int);
            assert(ps.take(j + 1).drop_last() =~= ps.take(j as int));
            assert(result * (p - 1) <= u64::MAX * u64::MAX) by (nonlinear_arith)
                requires result <= u64::MAX, p - 1 <= u64::MAX, p >= 1;
        }
        let t: u128 = (result as u128) * ((p - 1) as u128);
        result = (t / (p as u128)) as u64;
        j += 1;
    }
    proof {
        assert(ps.take(factors.len() as int) =~= ps);
    }
    Some(result)
}

/// Below a prime `p`, no prime divides it, so the formula leaves `p` unchanged.
proof fn lemma_totient_upto_below_prime(p: int, k: int)
    requires
        spec_prime(p),
        k < p,
    ensures
        totient_upto(p, k) == p,
    decreases k,
{
    if k >= 2 {
        lemma_totient_upto_below_prime(p, k - 1);
    }
}

/// `phi(p) = p - 1` for a prime `p`.
pub proof fn lemma_totient_of_prime(p: int)
    requires
        spec_prime(p),
    ensures
        totient_spec(p) == p - 1,
{
    lemma_totient_upto_below_prime(p, p - 1);
    lemma_multiple_mod(p, 1);
    vstd::arithmetic::div_mod::lemma_div_multiples_vanish(1, p);
}

/// `phi(-n) = phi(n)`.
pub proof fn lemma_totient_negation(n: int)
    ensures
        totient_spec(-n) == totient_spec(n),
{
}

/// A prime that divides a power of a prime `p` is `p`.
pub(crate) proof fn lemma_prime_divides_prime_power(p: int, k: nat, q: int)
    requires
        spec_prime(p),
        spec_prime(q),
        vstd::arithmetic::power::pow(p, k) % q == 0,
    ensures
        q == p,
    decreases k,
{
    vstd::arithmetic::power::lemma_pow0(p);
    if k == 0 {
        vstd::arithmetic::div_mod::lemma_small_mod(1, q as nat);
    } else {
        let rest = vstd::arithmetic::power::pow(p, (k - 1) as nat);
        vstd::arithmetic::power::lemma_pow_positive(p, (k - 1) as nat);
        assert(vstd::arithmetic::power::pow(p, k) == p * rest) by {
            reveal(vstd::arithmetic::power::pow);
        }
        lemma_euclid(q, p, rest);
        if p % q == 0 {
            lemma_divisor_le(p, q);
            if q < p {
                assert(p % q != 0);
            }
        } else {
            lemma_prime_divides_prime_power(p, (k - 1) as nat, q);
        }
    }
}

/// For a number whose only prime factor is `p`, the formula changes it once, at `p`.
proof fn lemma_totient_upto_single_prime(n: int, p: int, m: int)
    requires
        spec_prime(p),
        n % p == 0,
        forall|q: int| spec_prime(q) && #[trigger] (n % q) == 0 ==> q == p,
    ensures
        totient_upto(n, m) == if m >= p { n - n / p } else { n },
    decreases m,
{
    if m >= 2 {
        lemma_totient_upto_single_prime(n, p, m - 1);
    }
}

/// `phi(p^k) = p^k - p^(k - 1)` for a prime `p` and `k >= 1`.
pub proof fn lemma_totient_of_prime_power(p: int, k: nat)
    requires
        spec_prime(p),
        k >= 1,
    ensures
        totient_spec(vstd::arithmetic::power::pow(p, k))
            == vstd::arithmetic::power::pow(p, k) - vstd::arithmetic::power::pow(p, (k - 1) as nat),
{
    let n = vstd::arithmetic::power::pow(p, k);
    let rest = vstd::arithmetic::power::pow(p, (k - 1) as nat);
    vstd::arithmetic::power::lemma_pow_positive(p, (k - 1) as nat);
    assert(n == p * rest) by {
        reveal(vstd::arithmetic::power::pow);
    }
    lemma_multiple_mod(p, rest);
    vstd::arithmetic::div_mod::lemma_div_multiples_vanish(rest, p);
    assert forall|q: int| spec_prime(q) && #[trigger] (n % q) == 0 implies q == p by {
        lemma_prime_divides_prime_power(p, k, q);
    }
    assert(n >= p) by (nonlinear_arith) requires n == p * rest, rest >= 1, p >= 2;
    lemma_totient_upto_single_prime(n, p, n);
}

/// The product of the distinct primes `p <= k` that divide `n`.
pub open spec fn radical_upto(n: int, k: int) -> int
    decreases k,
{
    if k < 2 {
        1
    } else {
        radical_upto(n, k - 1) * if spec_prime(k) && n % k == 0 { k } else { 1 }
    }
}

/// The product of `p - 1` over the distinct primes `p <= k` that divide `n`.
pub open spec fn phi_factor_upto(n: int, k: int) -> int
    decreases k,
{
    if k < 2 {
        1
    } else {
        phi_factor_upto(n, k - 1) * if spec_prime(k) && n % k == 0 { k - 1 } else { 1 }
    }
}

/// A prime `p` divides no product of primes below it.
proof fn lemma_radical_below_prime(n: int, p: int, k: int)
    requires
        spec_prime(p),
        k < p,
    ensures
        radical_upto(n, k) >= 1,
        radical_upto(n, k) % p != 0,
        phi_factor_upto(n, k) >= 1,
    decreases k,
{
    if k < 2 {
        vstd::arithmetic::div_mod::lemma_small_mod(1, p as nat);
    } else {
        lemma_radical_below_prime(n, p, k - 1);
        let r = radical_upto(n, k - 1);
        if spec_prime(k) && n % k == 0 {
            assert(radical_upto(n, k) == r * k);
            assert(r * k >= 1) by (nonlinear_arith) requires r >= 1, k >= 2;
            assert(phi_factor_upto(n, k) >= 1) by (nonlinear_arith)
                requires phi_factor_upto(n, k) == phi_factor_upto(n, k - 1) * (k - 1), phi_factor_upto(n, k - 1) >= 1, k >= 2;
            if (r * k) % p == 0 {
                lemma_euclid(p, r, k);
                if k % p == 0 {
                    lemma_divisor_le(k, p);
                }
            }
        } else {
            assert(radical_upto(n, k) == r * 1);
        }
    }
}

/// The formula up to `k` is `n / rad * phi`, with `rad` the product of the primes up to
/// `k` dividing `n` (which divides `n`) and `phi` the product of those primes less one.
proof fn lemma_totient_upto_closed(n: int, k: int)
    requires
        n >= 1,
    ensures
        radical_upto(n, k) >= 1,
        phi_factor_upto(n, k) >= 1,
        n % radical_upto(n, k) == 0,
        totient_upto(n, k) == (n / radical_upto(n, k)) * phi_factor_upto(n, k),
    decreases k,
{
    if k < 2 {
        lemma_multiple_mod(1, n);
        assert(n / 1 == n);
    } else {
        lemma_totient_upto_closed(n, k - 1);
        let r = radical_upto(n, k - 1);
        let q = phi_factor_upto(n, k - 1);
        let t = totient_upto(n, k - 1);
        if spec_prime(k) && n % k == 0 {
            lemma_radical_below_prime(n, k, k - 1);
            lemma_mod_zero(n, r);
            let m = n / r;
            assert(m >= 1) by (nonlinear_arith) requires n == r * m, n >= 1, r >= 1;
            assert((r * m) % k == 0);
            lemma_euclid(k, r, m);
            lemma_mod_zero(m, k);
            let m1 = m / k;
            assert(t == k * (m1 * q)) by (nonlinear_arith) requires t == m * q, m == k * m1;
            vstd::arithmetic::div_mod::lemma_div_multiples_vanish(m1 * q, k);
            assert(t - t / k == m1 * (q * (k - 1))) by (nonlinear_arith)
                requires t == k * (m1 * q), t / k == m1 * q;
            assert(n == (r * k) * m1) by (nonlinear_arith) requires n == r * m, m == k * m1;
            assert(r * k >= 1) by (nonlinear_arith) requires r >= 1, k >= 2;
            lemma_multiple_mod(r * k, m1);
            vstd::arithmetic::div_mod::lemma_div_multiples_vanish(m1, r * k);
            assert(q * (k - 1) >= 1) by (nonlinear_arith) requires q >= 1, k >= 2;
        } else {
            assert(radical_upto(n, k) == r * 1);
            assert(phi_factor_upto(n, k) == q * 1);
        }
    }
}

/// Past `n`, no prime divides `n`: the products stay as they are at `n`.
proof fn lemma_radical_stable(n: int, k: int)
    requires
        n >= 1,
        k >= n,
    ensures
        radical_upto(n, k) == radical_upto(n, n),
        phi_factor_upto(n, k) == phi_factor_upto(n, n),
    decreases k,
{
    if k > n {
        lemma_radical_stable(n, k - 1);
        if n % k == 0 {
            lemma_divisor_le(n, k);
        }
        assert(radical_upto(n, k) == radical_upto(n, k - 1) * 1);
        assert(phi_factor_upto(n, k) == phi_factor_upto(n, k - 1) * 1);
    }
}

/// For coprime `a` and `b` the primes dividing `a * b` are those of `a` and those of
/// `b`, so the products split.
proof fn lemma_radical_coprime(a: int, b: int, k: int)
    requires
        a >= 1,
        b >= 1,
        crate::number_theory::euclid::gcd_spec(a, b) == 1,
    ensures
        radical_upto(a * b, k) == radical_upto(a, k) * radical_upto(b, k),
        phi_factor_upto(a * b, k) == phi_factor_upto(a, k) * phi_factor_upto(b, k),
    decreases k,
{
    if k >= 2 {
        lemma_radical_coprime(a, b, k - 1);
        let ra = radical_upto(a, k - 1);
        let rb = radical_upto(b, k - 1);
        let qa = phi_factor_upto(a, k - 1);
        let qb = phi_factor_upto(b, k - 1);
        if spec_prime(k) {
            let da = a % k == 0;
            let db = b % k == 0;
            assert(a * b >= 1) by (nonlinear_arith) requires a >= 1, b >= 1;
            if (a * b) % k == 0 {
                lemma_euclid(k, a, b);
            }
            if da {
                lemma_mod_zero(a, k);
                assert(a * b == k * ((a / k) * b)) by (nonlinear_arith) requires a == k * (a / k);
                lemma_multiple_mod(k, (a / k) * b);
            }
            if db {
                lemma_mod_zero(b, k);
                assert(a * b == k * (a * (b / k))) by (nonlinear_arith) requires b == k * (b / k);
                lemma_multiple_mod(k, a * (b / k));
            }
            if da && db {
                crate::number_theory::euclid::lemma_gcd_greatest(a, b, k);
                crate::number_theory::divisibility::lemma_divisor_le(1, k);
            }
            let fa: int = if da { k } else { 1 };
            let fb: int = if db { k } else { 1 };
            let ga: int = if da { k - 1 } else { 1 };
            let gb: int = if db { k - 1 } else { 1 };
            let fab: int = if (a * b) % k == 0 { k } else { 1 };
            let gab: int = if (a * b) % k == 0 { k - 1 } else { 1 };
            assert(fab == fa * fb);
            assert(gab == ga * gb);
            assert((ra * rb) * fab == (ra * fa) * (rb * fb)) by (nonlinear_arith) requires fab == fa * fb;
            assert((qa * qb) * gab == (qa * ga) * (qb * gb)) by (nonlinear_arith) requires gab == ga * gb;
        } else {
            assert((ra * rb) * 1 == (ra * 1) * (rb * 1));
            assert((qa * qb) * 1 == (qa * 1) * (qb * 1));
        }
    }
}

/// Euler's totient is multiplicative: `phi(a * b) = phi(a) * phi(b)` for coprime `a` and
/// `b`.
pub proof fn lemma_totient_multiplicative(a: int, b: int)
    requires
        crate::number_theory::euclid::gcd_spec(a, b) == 1,
    ensures
        totient_spec(a * b) == totient_spec(a) * totient_spec(b),
{
    if a == 0 || b == 0 {
        assert(a * b == 0) by (nonlinear_arith) requires a == 0 || b == 0;
    } else {
        let aa = abs_int(a);
        let bb = abs_int(b);
        assert(abs_int(a * b) == aa * bb) by (nonlinear_arith) requires aa == abs_int(a), bb == abs_int(b);
        assert(aa * bb >= aa && aa * bb >= bb) by (nonlinear_arith) requires aa >= 1, bb >= 1;
        assert(crate::number_theory::euclid::gcd_spec(aa, bb) == crate::number_theory::euclid::gcd_spec(a, b));
        let n = aa * bb;
        lemma_totient_upto_closed(n, n);
        lemma_totient_upto_closed(aa, aa);
        lemma_totient_upto_closed(bb, bb);
        lemma_radical_coprime(aa, bb, n);
        lemma_radical_stable(aa, n);
        lemma_radical_stable(bb, n);
        let ra = radical_upto(aa, aa);
        let rb = radical_upto(bb, bb);
        let qa = phi_factor_upto(aa, aa);
        let qb = phi_factor_upto(bb, bb);
        lemma_mod_zero(aa, ra);
        lemma_mod_zero(bb, rb);
        let x = aa / ra;
        let y = bb / rb;
        assert(n == (ra * rb) * (x * y)) by (nonlinear_arith) requires aa == ra * x, bb == rb * y, n == aa * bb;
        assert(ra * rb >= 1) by (nonlinear_arith) requires ra >= 1, rb >= 1;
        vstd::arithmetic::div_mod::lemma_div_multiples_vanish(x * y, ra * rb);
        assert(totient_spec(a * b) == (x * y) * (qa * qb));
        assert((x * y) * (qa * qb) == (x * qa) * (y * qb)) by (nonlinear_arith);
    }
}

/// No number of `ps` divides `j`.
pub open spec fn free_of(j: int, ps: Seq<int>) -> bool {
    forall|i: int| 0 <= i < ps.len() ==> #[trigger] (j % ps[i]) != 0
}

/// How many of `1..=m` no number of `ps` divides.
pub open spec fn count_free(m: int, ps: Seq<int>) -> nat
    decreases m,
{
    if m <= 0 {
        0
    } else {
        count_free(m - 1, ps) + (if free_of(m, ps) { 1nat } else { 0nat })
    }
}

/// How many of `1..=k` are coprime to `n`.
pub open spec fn coprime_count(n: int, k: int) -> nat
    decreases k,
{
    if k <= 0 {
        0
    } else {
        coprime_count(n, k - 1) + (if gcd_spec(k, n) == 1 { 1nat } else { 0nat })
    }
}

/// Stepping from `m - 1` to `m` adds one to `m / q` exactly when `q` divides `m`.
proof fn lemma_floor_div_step(m: int, q: int)
    requires
        m >= 1,
        q >= 1,
    ensures
        m % q == 0 ==> m / q == (m - 1) / q + 1,
        m % q != 0 ==> m / q == (m - 1) / q,
{
    let t = (m - 1) / q;
    let r = (m - 1) % q;
    vstd::arithmetic::div_mod::lemma_fundamental_div_mod(m - 1, q);
    assert(0 <= r < q);
    if r + 1 == q {
        assert(m == q * (t + 1)) by (nonlinear_arith) requires m - 1 == q * t + r, r + 1 == q;
        vstd::arithmetic::div_mod::lemma_fundamental_div_mod_converse(m, q, t + 1, 0);
    } else {
        assert(m == q * t + (r + 1));
        vstd::arithmetic::div_mod::lemma_fundamental_div_mod_converse(m, q, t, r + 1);
    }
}

/// For a prime `q` that no prime of `pre` equals, `q * t` is free of `pre` exactly when
/// `t` is.
proof fn lemma_free_of_multiple(t: int, q: int, pre: Seq<int>)
    requires
        t >= 1,
        spec_prime(q),
        forall|i: int| 0 <= i < pre.len() ==> spec_prime(#[trigger] pre[i]) && pre[i] != q,
    ensures
        free_of(q * t, pre) == free_of(t, pre),
{
    assert forall|i: int| 0 <= i < pre.len() implies ((q * t) % pre[i] == 0) == (t % pre[i] == 0) by {
        let p = pre[i];
        assert(spec_prime(p) && p != q);
        if t % p == 0 {
            lemma_mod_zero(t, p);
            assert(q * t == p * (q * (t / p))) by (nonlinear_arith) requires t == p * (t / p);
            lemma_multiple_mod(p, q * (t / p));
        }
        if (q * t) % p == 0 {
            assert(q * t >= 0) by (nonlinear_arith) requires q >= 2, t >= 1;
            lemma_euclid(p, q, t);
            if q % p == 0 {
                // p divides the prime q, so p == q
                assert(!(2 <= p < q));
                lemma_divisor_le(q, p);
            }
        }
    }
}

/// Counting past one more prime `q`: the numbers of `1..=m` free of `pre` are those
/// free of `pre` and `q`, and the multiples `q * t` with `t <= m / q` free of `pre`.
proof fn lemma_count_free_split(m: int, pre: Seq<int>, q: int)
    requires
        m >= 0,
        spec_prime(q),
        forall|i: int| 0 <= i < pre.len() ==> spec_prime(#[trigger] pre[i]) && pre[i] != q,
    ensures
        count_free(m, pre.push(q)) + count_free(m / q, pre) == count_free(m, pre),
    decreases m,
{
    let ps = pre.push(q);
    if m == 0 {
        assert(0int / q == 0);
    } else {
        lemma_count_free_split(m - 1, pre, q);
        lemma_floor_div_step(m, q);
        assert(free_of(m, ps) == (free_of(m, pre) && m % q != 0)) by {
            assert(ps[pre.len() as int] == q);
            assert forall|i: int| 0 <= i < pre.len() implies ps[i] == pre[i] by {}
            if free_of(m, pre) && m % q != 0 {
                assert forall|i: int| 0 <= i < ps.len() implies #[trigger] (m % ps[i]) != 0 by {
                    if i < pre.len() {
                        assert(ps[i] == pre[i]);
                    }
                }
            }
            if free_of(m, ps) {
                assert forall|i: int| 0 <= i < pre.len() implies #[trigger] (m % pre[i]) != 0 by {
                    assert(ps[i] == pre[i]);
                }
            }
        }
        if m % q == 0 {
            let t = m / q;
            lemma_mod_zero(m, q);
            assert(t >= 1) by (nonlinear_arith) requires m == q * t, m >= 1, q >= 2;
            lemma_free_of_multiple(t, q, pre);
            assert(count_free(t, pre) == count_free(t - 1, pre) + (if free_of(t, pre) { 1nat } else { 0nat }));
        }
    }
}

/// Counting the numbers of `1..=m` that no prime of `ps` divides, where the product of
/// the (distinct) primes divides `m`: there are `m / prod p * prod (p - 1)` of them.
proof fn lemma_count_free_product(m: int, ps: Seq<int>)
    requires
        m >= 0,
        forall|i: int| 0 <= i < ps.len() ==> spec_prime(#[trigger] ps[i]),
        forall|a: int, b: int| 0 <= a < b < ps.len() ==> ps[a] < ps[b],
        product(ps) >= 1,
        m % product(ps) == 0,
    ensures
        count_free(m, ps) * product(ps) == m * product_minus_one(ps),
    decreases ps.len(),
{
    if ps.len() == 0 {
        assert forall|j: int| #[trigger] free_of(j, ps) by {}
        lemma_count_free_all(m, ps);
    } else {
        let pre = ps.drop_last();
        let q = ps.last();
        assert(spec_prime(ps[ps.len() - 1]));
        assert forall|i: int| 0 <= i < pre.len() implies spec_prime(#[trigger] pre[i]) && pre[i] != q by {
            assert(pre[i] == ps[i]);
            assert(spec_prime(ps[i]));
            assert(ps[i] < ps[ps.len() - 1]);
        }
        assert forall|a: int, b: int| 0 <= a < b < pre.len() implies pre[a] < pre[b] by {
            assert(pre[a] == ps[a] && pre[b] == ps[b]);
        }
        assert(pre.push(q) =~= ps);
        let pp = product(pre);
        assert(product(ps) == pp * q);
        assert(pp >= 1) by {
            lemma_product_positive(pre);
        }
        lemma_mod_zero(m, pp * q);
        let s = m / (pp * q);
        assert(m == pp * (q * s)) by (nonlinear_arith) requires m == (pp * q) * s;
        assert(m == q * (pp * s)) by (nonlinear_arith) requires m == (pp * q) * s;
        lemma_multiple_mod(pp, q * s);
        vstd::arithmetic::div_mod::lemma_div_multiples_vanish(pp * s, q);
        let mq = m / q;
        assert(mq == pp * s);
        assert(mq >= 0) by (nonlinear_arith) requires mq == pp * s, pp >= 1, m == q * (pp * s), m >= 0, q >= 2;
        lemma_multiple_mod(pp, s);
        lemma_count_free_product(m, pre);
        lemma_count_free_product(mq, pre);
        lemma_count_free_split(m, pre, q);
        let c = count_free(m, ps) as int;
        let c1 = count_free(m, pre) as int;
        let c2 = count_free(mq, pre) as int;
        let qm = product_minus_one(pre);
        assert(product_minus_one(ps) == qm * (q - 1));
        assert(c * (pp * q) == m * (qm * (q - 1))) by (nonlinear_arith)
            requires c + c2 == c1, c1 * pp == m * qm, c2 * pp == mq * qm, m == q * mq;
    }
}

/// The product of a list of primes is positive.
proof fn lemma_product_positive(ps: Seq<int>)
    requires
        forall|i: int| 0 <= i < ps.len() ==> spec_prime(#[trigger] ps[i]),
    ensures
        product(ps) >= 1,
    decreases ps.len(),
{
    if ps.len() > 0 {
        let pre = ps.drop_last();
        assert forall|i: int| 0 <= i < pre.len() implies spec_prime(#[trigger] pre[i]) by {
            assert(pre[i] == ps[i]);
        }
        lemma_product_positive(pre);
        assert(spec_prime(ps[ps.len() - 1]));
        assert(product(ps) >= 1) by (nonlinear_arith)
            requires product(ps) == product(pre) * ps.last(), product(pre) >= 1, ps.last() >= 2;
    }
}

/// With no prime to avoid, every number of `1..=m` counts.
proof fn lemma_count_free_all(m: int, ps: Seq<int>)
    requires
        m >= 0,
        ps.len() == 0,
    ensures
        count_free(m, ps) == m,
    decreases m,
{
    if m > 0 {
        lemma_count_free_all(m - 1, ps);
        assert(free_of(m, ps));
    }
}

/// Along the whole list of prime factors the formula is `n / prod p * prod (p - 1)`.
proof fn lemma_totient_by_list_closed(n: int, ps: Seq<int>, j: int)
    requires
        n >= 1,
        0 <= j <= ps.len(),
        forall|i: int| 0 <= i < ps.len() ==> spec_prime(#[trigger] ps[i]) && n % ps[i] == 0,
        forall|a: int, b: int| 0 <= a < b < ps.len() ==> ps[a] < ps[b],
    ensures
        product(ps.take(j)) >= 1,
        n % product(ps.take(j)) == 0,
        totient_by_list(n, ps.take(j)) == (n / product(ps.take(j))) * product_minus_one(ps.take(j)),
    decreases j,
{
    if j == 0 {
        assert(ps.take(0) =~= Seq::<int>::empty());
        vstd::arithmetic::div_mod::lemma_small_mod(0, 1);
        assert(n % 1 == 0);
        assert(n / 1 == n);
    } else {
        lemma_totient_by_list_closed(n, ps, j - 1);
        lemma_totient_list_step(n, ps, j - 1);
    }
}

/// A prime at most `k` that divides `n` is among the prime divisors up to `k`.
proof fn lemma_prime_divisors_upto_complete(n: int, k: int, q: int)
    requires
        spec_prime(q),
        n % q == 0,
        q <= k,
    ensures
        prime_divisors_upto(n, k).contains(q),
    decreases k,
{
    if k >= 2 {
        if k == q {
            assert(prime_divisors_upto(n, k).last() == q);
        } else {
            lemma_prime_divisors_upto_complete(n, k - 1, q);
            let prev = prime_divisors_upto(n, k - 1);
            let j = choose|j: int| 0 <= j < prev.len() && prev[j] == q;
            if spec_prime(k) && n % k == 0 {
                assert(prime_divisors_upto(n, k)[j] == q);
            }
        }
    }
}

/// A number `k >= 1` is coprime to `n >= 1` exactly when no prime divisor of `n` divides it.
proof fn lemma_coprime_iff_free(n: int, k: int)
    requires
        n >= 1,
        k >= 1,
    ensures
        (gcd_spec(k, n) == 1) == free_of(k, prime_divisors(n)),
{
    let ps = prime_divisors(n);
    lemma_prime_divisors_upto_props(n, n);
    lemma_gcd_divides(k, n);
    lemma_gcd_zero(k, n);
    let g = gcd_spec(k, n) as int;
    if g == 1 {
        assert forall|i: int| 0 <= i < ps.len() implies #[trigger] (k % ps[i]) != 0 by {
            let p = ps[i];
            assert(spec_prime(p) && n % p == 0);
            if k % p == 0 {
                lemma_gcd_greatest(k, n, p);
                lemma_divisor_le(1, p);
            }
        }
    } else {
        assert(g >= 2);
        let q = lemma_prime_factor(g);
        assert(k % g == 0 && n % g == 0);
        lemma_divides_trans(k, g, q);
        lemma_divides_trans(n, g, q);
        lemma_divisor_le(n, q);
        lemma_prime_divisors_upto_complete(n, n, q);
        let i = choose|i: int| 0 <= i < ps.len() && ps[i] == q;
        assert(k % ps[i] == 0);
    }
}

/// Counting coprimes is counting the numbers free of the prime divisors.
proof fn lemma_coprime_count_free(n: int, k: int)
    requires
        n >= 1,
    ensures
        coprime_count(n, k) == count_free(k, prime_divisors(n)),
    decreases k,
{
    if k > 0 {
        lemma_coprime_count_free(n, k - 1);
        lemma_coprime_iff_free(n, k);
    }
}

/// Euler's totient counts the numbers of `1..=|n|` that are coprime to `n`.
pub proof fn lemma_totient_counts_coprimes(n: int)
    ensures
        totient_spec(n) == coprime_count(n, abs_int(n)),
{
    if n != 0 {
        let m = abs_int(n);
        let ps = prime_divisors(m);
        lemma_coprime_count_on_abs(n, m);
        lemma_coprime_count_free(m, m);
        lemma_prime_divisors_upto_props(m, m);
        lemma_totient_upto_by_list(m, m);
        lemma_totient_by_list_closed(m, ps, ps.len() as int);
        assert(ps.take(ps.len() as int) =~= ps);
        let pr = product(ps);
        lemma_count_free_product(m, ps);
        lemma_mod_zero(m, pr);
        let c = count_free(m, ps) as int;
        let qm = product_minus_one(ps);
        assert(c == (m / pr) * qm) by (nonlinear_arith)
            requires c * pr == m * qm, m == pr * (m / pr), pr >= 1;
    }
}

/// Coprimality to `n` is coprimality to `|n|`.
proof fn lemma_coprime_count_on_abs(n: int, k: int)
    ensures
        coprime_count(n, k) == coprime_count(abs_int(n), k),
    decreases k,
{
    if k > 0 {
        lemma_coprime_count_on_abs(n, k - 1);
        assert(gcd_spec(k, n) == gcd_spec(k, abs_int(n)));
    }
}

} // verus!
