//! Prime number operations: primality, the next and previous primes, the nth prime,
//! counting primes, and listing the primes up to a bound.
use vstd::prelude::*;
use std::collections::HashMap;
use crate::number_theory::euclid::{gcd_nat, gcd_spec, lemma_gcd_zero, lemma_gcd_divides};
use crate::number_theory::divisibility::{spec_prime, lemma_divides_trans, lemma_composite_small_divisor, lemma_multiple_mod, lemma_prime_factor, lemma_euclid, lemma_mod_zero, lemma_even_not_prime};
use crate::number_theory::division::{abs_int, trunc_div, trunc_rem, lemma_trunc_div_rem, rem_trunc_wide};

verus! {

/// Trial division of `n` (not divisible by 2 or 3) by the numbers `6k - 1` and `6k + 1`
/// below `i` rules out every divisor below `i`.
proof fn lemma_wheel_step(n: int, i: int)
    requires
        n >= 2,
        i >= 5,
        i % 6 == 5,
        n % 2 != 0,
        n % 3 != 0,
        forall|d: int| 2 <= d < i ==> #[trigger] (n % d) != 0,
        n % i != 0,
        n % (i + 2) != 0,
    ensures
        forall|d: int| 2 <= d < i + 6 ==> #[trigger] (n % d) != 0,
{
    assert forall|d: int| 2 <= d < i + 6 implies #[trigger] (n % d) != 0 by {
        if d >= i && d != i && d != i + 2 {
            if n % d == 0 {
                if d == i + 4 {
                    assert(d % 3 == 0);
                    lemma_divides_trans(n, d, 3);
                } else {
                    assert(d % 2 == 0);
                    lemma_divides_trans(n, d, 2);
                }
            }
        }
    }
}

/// No divisor in `[2, i)` with `i * i > n` makes `n` prime.
proof fn lemma_no_small_divisor_prime(n: int, i: int)
    requires
        n >= 2,
        i * i > n,
        i >= 2,
        forall|d: int| 2 <= d < i ==> #[trigger] (n % d) != 0,
    ensures
        spec_prime(n),
{
    if !spec_prime(n) {
        let d = lemma_composite_small_divisor(n);
        assert(d < i) by (nonlinear_arith) requires d * d <= n, i * i > n, d >= 2, i >= 2;
        assert(n % d != 0);
    }
}

/// Optimized primality test: trial division by 2, 3 and the numbers `6k - 1`, `6k + 1`
/// up to the square root.
pub fn is_prime_small(n: i64) -> (r: bool)
    ensures
        r == spec_prime(n as int),
{
    if n < 2 {
        return false;
    }
    if n <= 3 {
        proof {
            if n == 3 {
                assert(3int % 2 != 0);
            }
        }
        return true;
    }
    if n % 2 == 0 || n % 3 == 0 {
        return false;
    }
    let mut i: i64 = 5;
    proof {
        assert forall|d: int| 2 <= d < 5 implies #[trigger] ((n as int) % d) != 0 by {
            if d == 4 && (n as int) % 4 == 0 {
                lemma_divides_trans(n as int, 4, 2);
            }
        }
    }
    while i <= n / i
        invariant
            n >= 4,
            5 <= i,
            i % 6 == 5,
            (i - 6) * (i - 6) <= n,
            n % 2 != 0,
            n % 3 != 0,
            forall|d: int| 2 <= d < i ==> #[trigger] ((n as int) % d) != 0,
        decreases n - (i - 6) * (i - 6),
    {
        assert(i * i <= n && i + 2 < n && i + 6 <= i64::MAX) by (nonlinear_arith)
            requires i <= n / i, n <= i64::MAX, i >= 5, n >= 4;
        if n % i == 0 || n % (i + 2) == 0 {
            return false;
        }
        proof {
            lemma_wheel_step(n as int, i as int);
            assert((i + 6 - 6) * (i + 6 - 6) > (i - 6) * (i - 6)) by (nonlinear_arith) requires i >= 5;
        }
        i += 6;
    }
    proof {
        assert(i * i > n) by (nonlinear_arith) requires i > n / i, i >= 5, n >= 4;
    }
    proof {
        lemma_no_small_divisor_prime(n as int, i as int);
    }
    true
}

/// Checks whether a number is prime.
pub fn is_prime(n: i64) -> (r: bool)
    ensures
        r == spec_prime(n as int),
{
    if n < 2 {
        return false;
    }
    is_prime_small(n)
}


/// Finds the smallest prime greater than or equal to `n` (2 for `n <= 2`); `None` when
/// there is no prime between `n` and `i64::MAX`.
pub fn next_prime(n: i64) -> (r: Option<i64>)
    ensures
        match r {
            Some(p) => spec_prime(p as int) && p >= n
                && forall|q: int| n <= q < p ==> !#[trigger] spec_prime(q),
            None => forall|q: int| n <= q <= i64::MAX ==> !#[trigger] spec_prime(q),
        },
{
    if n <= 2 {
        return Some(2);
    }
    let mut candidate = n;
    // Ensure we start from an odd number
    if candidate % 2 == 0 {
        candidate += 1;
    }
    loop
        invariant
            n >= 3,
            n <= candidate <= i64::MAX,
            candidate % 2 == 1,
            forall|q: int| n <= q < candidate ==> !#[trigger] spec_prime(q),
        decreases i64::MAX - candidate,
    {
        if is_prime(candidate) {
            return Some(candidate);
        }
        if candidate > i64::MAX - 2 {
            proof {
                assert forall|q: int| n <= q <= i64::MAX implies !#[trigger] spec_prime(q) by {
                    if q > candidate {
                        lemma_even_not_prime(q);
                    }
                }
            }
            return None;
        }
        proof {
            assert forall|q: int| n <= q < candidate + 2 implies !#[trigger] spec_prime(q) by {
                if q == candidate + 1 {
                    lemma_even_not_prime(q);
                }
            }
        }
        candidate += 2;
    }
}

/// Finds the largest prime less than or equal to `n`; 2 for `n <= 2`.
pub fn prev_prime(n: i64) -> (r: i64)
    ensures
        n <= 2 ==> r == 2,
        n > 2 ==> spec_prime(r as int) && r <= n
            && forall|q: int| r < q <= n ==> !#[trigger] spec_prime(q),
{
    if n <= 2 {
        return 2;
    }
    let mut candidate = n;
    // Ensure we start from an odd number
    if candidate % 2 == 0 {
        candidate -= 1;
        proof {
            lemma_even_not_prime(n as int);
        }
    } else if is_prime(candidate) {
        return candidate;
    } else {
        candidate -= 2;
        proof {
            assert(!spec_prime(n - 1)) by {
                lemma_even_not_prime(n - 1);
            }
        }
    }
    loop
        invariant
            n > 2,
            candidate <= n,
            candidate >= 1,
            candidate % 2 == 1,
            forall|q: int| candidate < q <= n ==> !#[trigger] spec_prime(q),
        decreases candidate,
    {
        if candidate <= 2 {
            proof {
                assert(2int % 2 == 0);
                assert forall|q: int| 2 < q <= n implies !#[trigger] spec_prime(q) by {
                    assert(q > candidate);
                }
            }
            return 2;
        }
        if is_prime(candidate) {
            return candidate;
        }
        proof {
            assert forall|q: int| candidate - 2 < q <= n implies !#[trigger] spec_prime(q) by {
                if q == candidate - 1 {
                    lemma_even_not_prime(q);
                }
            }
        }
        candidate -= 2;
    }
}

/// The primes up to `n`, in increasing order.
pub open spec fn primes_upto(n: int) -> Seq<int>
    decreases n,
{
    if n < 2 {
        Seq::empty()
    } else if spec_prime(n) {
        primes_upto(n - 1).push(n)
    } else {
        primes_upto(n - 1)
    }
}

/// The number of primes up to `n`.
pub open spec fn prime_pi(n: int) -> nat {
    primes_upto(n).len()
}

/// `k` has no divisor `d` with `2 <= d < c` and `d * d <= k`.
pub open spec fn sieve_pred(k: int, c: int) -> bool {
    k >= 2 && forall|d: int| 2 <= d < c && d * d <= k ==> #[trigger] (k % d) != 0
}

/// The sieve of Eratosthenes: entry `k` tells whether `k` is prime, for `k <= limit`.
fn sieve(limit: usize) -> (v: Vec<bool>)
    requires
        limit <= usize::MAX / 2,
    ensures
        v@.len() == limit + 1,
        forall|k: int| 0 <= k <= limit ==> #[trigger] v@[k] == spec_prime(k),
{
    let mut sieve = vec![true; limit + 1];
    sieve.set(0, false);
    if limit >= 1 {
        sieve.set(1, false);
    }
    proof {
        assert forall|k: int| 0 <= k <= limit implies #[trigger] sieve@[k] == sieve_pred(k, 2) by {
            if k >= 2 {
                assert(cloned(true, sieve@[k]));
            }
        }
    }
    let mut i: usize = 2;
    while i <= limit / i
        invariant
            limit <= usize::MAX / 2,
            2 <= i <= limit + 2,
            sieve@.len() == limit + 1,
            forall|k: int| 0 <= k <= limit ==> #[trigger] sieve@[k] == sieve_pred(k, i as int),
        decreases limit + 2 - i,
    {
        assert(i * i <= limit && i <= limit) by (nonlinear_arith) requires i <= limit / i, i >= 2;
        if sieve[i] {
            let mut j = i * i;
            proof {
                lemma_multiple_mod(i as int, i as int);
            }
            while j <= limit
                invariant
                    limit <= usize::MAX / 2,
                    2 <= i <= limit,
                    i * i <= limit,
                    i * i <= j,
                    j % i == 0,
                    sieve@.len() == limit + 1,
                    forall|k: int| 0 <= k <= limit ==> #[trigger] sieve@[k]
                        == (sieve_pred(k, i as int) && !(k % (i as int) == 0 && i * i <= k < j)),
                decreases limit + i - j,
            {
                let ghost old_s = sieve@;
                sieve.set(j, false);
                proof {
                    assert((j + i) % (i as int) == 0) by {
                        vstd::arithmetic::div_mod::lemma_mod_add_multiples_vanish(j as int, i as int);
                    }
                    assert forall|k: int| j < k < j + i implies #[trigger] (k % (i as int)) != 0 by {
                        lemma_between_multiples(j as int, k, i as int);
                    }
                }
                j += i;
            }
            proof {
                assert forall|k: int| 0 <= k <= limit implies #[trigger] sieve@[k] == sieve_pred(k, i + 1) by {
                    if sieve_pred(k, i as int) && k % (i as int) != 0 {
                        assert forall|d: int| 2 <= d < i + 1 && d * d <= k implies #[trigger] (k % d) != 0 by {
                            if d < i {
                                assert(sieve_pred(k, i as int));
                            }
                        }
                    }
                }
            }
        } else {
            proof {
                assert(!sieve_pred(i as int, i as int));
                let d0 = choose|d: int| 2 <= d < i && d * d <= i && #[trigger] ((i as int) % d) == 0;
                assert forall|k: int| 0 <= k <= limit implies #[trigger] sieve@[k] == sieve_pred(k, i + 1) by {
                    if sieve_pred(k, i as int) && k % (i as int) == 0 && i * i <= k {
                        lemma_divides_trans(k, i as int, d0);
                        assert(d0 * d0 <= k) by (nonlinear_arith) requires d0 * d0 <= i, i * i <= k, i >= 2;
                        assert(false);
                    }
                }
            }
        }
        i += 1;
    }
    proof {
        assert(i * i > limit) by (nonlinear_arith) requires i > limit / i, i >= 2;
        assert forall|k: int| 0 <= k <= limit implies #[trigger] sieve@[k] == spec_prime(k) by {
            if spec_prime(k) {
                assert forall|d: int| 2 <= d < i && d * d <= k implies #[trigger] (k % d) != 0 by {
                    assert(d < k) by (nonlinear_arith) requires d * d <= k, d >= 2;
                }
            } else if k >= 2 {
                let d = lemma_composite_small_divisor(k);
                assert(d < i) by (nonlinear_arith) requires d * d <= k, k <= limit, i * i > limit, d >= 2, i >= 2;
            }
        }
    }
    sieve
}

/// No multiple of `i` lies strictly between two consecutive ones.
proof fn lemma_between_multiples(j: int, k: int, i: int)
    requires
        i > 0,
        j % i == 0,
        j < k < j + i,
    ensures
        k % i != 0,
{
    vstd::arithmetic::div_mod::lemma_fundamental_div_mod(j, i);
    vstd::arithmetic::div_mod::lemma_fundamental_div_mod(k, i);
    let qj = j / i;
    let qk = k / i;
    if k % i == 0 {
        assert(false) by (nonlinear_arith)
            requires j == i * qj, k == i * qk, j < k < j + i, i > 0;
    }
}

proof fn lemma_primes_upto_bounds(n: int)
    ensures
        forall|k: int| 0 <= k < primes_upto(n).len() ==> spec_prime(#[trigger] primes_upto(n)[k])
            && primes_upto(n)[k] <= n && prime_pi(primes_upto(n)[k]) == k + 1,
    decreases n,
{
    if n >= 2 {
        lemma_primes_upto_bounds(n - 1);
        let prev = primes_upto(n - 1);
        let cur = primes_upto(n);
        assert forall|k: int| 0 <= k < cur.len() implies spec_prime(#[trigger] cur[k])
            && cur[k] <= n && prime_pi(cur[k]) == k + 1 by {
            if k < prev.len() {
                assert(cur[k] == prev[k]);
            } else {
                assert(cur[k] == n);
            }
        }
    }
}

/// The primes up to `limit`, in increasing order.
fn primes_to(limit: usize) -> (r: Vec<i64>)
    requires
        limit <= i64::MAX,
        limit <= usize::MAX / 2,
    ensures
        r@.map_values(|x: i64| x as int) == primes_upto(limit as int),
{
    let sieve = sieve(limit);
    let mut primes: Vec<i64> = Vec::new();
    let mut k: usize = 0;
    proof {
        assert(primes@.map_values(|x: i64| x as int) =~= primes_upto(-1));
    }
    while k <= limit
        invariant
            limit <= i64::MAX,
            limit <= usize::MAX / 2,
            k <= limit + 1,
            sieve@.len() == limit + 1,
            forall|j: int| 0 <= j <= limit ==> #[trigger] sieve@[j] == spec_prime(j),
            primes@.map_values(|x: i64| x as int) == primes_upto(k - 1),
        decreases limit + 1 - k,
    {
        let ghost before = primes@;
        if sieve[k] {
            primes.push(k as i64);
            proof {
                assert(primes@.map_values(|x: i64| x as int) =~= before.map_values(|x: i64| x as int).push(k as int));
            }
        }
        k += 1;
    }
    primes
}

/// Returns all prime numbers up to and including `n`, in increasing order, found with
/// the sieve of Eratosthenes.
pub fn primes_up_to(n: i64) -> (r: Vec<i64>)
    ensures
        n < 2 ==> r@.len() == 0,
        n >= 2 ==> r@.map_values(|x: i64| x as int) == primes_upto(n as int),
{
    if n < 2 {
        return Vec::new();
    }
    if (n as u64) <= ((usize::MAX / 2) as u64) {
        primes_to(n as usize)
    } else {
        primes_by_trial(n)
    }
}

/// Returns the nth prime number (1-indexed); `None` when fewer than `n` primes lie
/// below `i64::MAX`.
pub fn nth_prime(n: u64) -> (r: Option<i64>)
    requires
        n > 0,
    ensures
        match r {
            Some(p) => spec_prime(p as int) && prime_pi(p as int) == n,
            None => prime_pi(i64::MAX as int) < n,
        },
{
    let mut count: u64 = 0;
    let mut candidate: i64 = 1;
    loop
        invariant
            n > 0,
            1 <= candidate <= i64::MAX,
            count == prime_pi(candidate as int),
            count < n,
        decreases i64::MAX - candidate,
    {
        if candidate == i64::MAX {
            return None;
        }
        candidate += 1;
        if is_prime(candidate) {
            count += 1;
            if count == n {
                return Some(candidate);
            }
        }
    }
}


/// The entries of `ps` (read as integers) are primes in increasing order.
pub open spec fn increasing_primes(ps: Seq<int>) -> bool {
    &&& forall|j: int| 0 <= j < ps.len() ==> spec_prime(#[trigger] ps[j])
    &&& forall|i: int, j: int| 0 <= i < j < ps.len() ==> ps[i] < ps[j]
}

/// `k` is divisible by none of the first `a` entries of `ps`.
pub open spec fn coprime_to_first(k: int, a: int, ps: Seq<int>) -> bool {
    forall|j: int| 0 <= j < a ==> #[trigger] (k % ps[j]) != 0
}

/// Legendre's phi function: how many of `1..=x` are divisible by none of the first `a`
/// primes of `ps`.
pub open spec fn phi_spec(x: int, a: int, ps: Seq<int>) -> int
    decreases x,
{
    if x <= 0 {
        0
    } else {
        phi_spec(x - 1, a, ps) + if coprime_to_first(x, a, ps) { 1int } else { 0int }
    }
}

/// `(x + 1) / p` exceeds `x / p` by one exactly when `p` divides `x + 1`.
proof fn lemma_div_step(x: int, p: int)
    requires
        x >= 0,
        p > 0,
    ensures
        ((x + 1) % p == 0) ==> (x + 1) / p == x / p + 1,
        ((x + 1) % p != 0) ==> (x + 1) / p == x / p,
{
    vstd::arithmetic::div_mod::lemma_fundamental_div_mod(x, p);
    vstd::arithmetic::div_mod::lemma_fundamental_div_mod(x + 1, p);
    let q = x / p;
    let r = x % p;
    if r + 1 == p {
        assert(x + 1 == (q + 1) * p + 0) by (nonlinear_arith) requires x == p * q + r, r + 1 == p;
        vstd::arithmetic::div_mod::lemma_fundamental_div_mod_converse(x + 1, p, q + 1, 0);
    } else {
        assert(x + 1 == q * p + (r + 1)) by (nonlinear_arith) requires x == p * q + r;
        vstd::arithmetic::div_mod::lemma_fundamental_div_mod_converse(x + 1, p, q, r + 1);
    }
}

/// A multiple `p * m` of the `a`-th prime is coprime to the earlier primes exactly when
/// `m` is.
proof fn lemma_coprime_multiple(m: int, a: int, ps: Seq<int>)
    requires
        increasing_primes(ps),
        1 <= a <= ps.len(),
        m >= 0,
    ensures
        coprime_to_first(ps[a - 1] * m, a - 1, ps) == coprime_to_first(m, a - 1, ps),
{
    let p = ps[a - 1];
    assert(spec_prime(p));
    if coprime_to_first(m, a - 1, ps) {
        assert forall|j: int| 0 <= j < a - 1 implies #[trigger] ((p * m) % ps[j]) != 0 by {
            let q = ps[j];
            assert(spec_prime(q));
            assert(q < p);
            if (p * m) % q == 0 {
                lemma_euclid(q, p, m);
                assert(p % q != 0);
                assert(m % q != 0);
            }
        }
    } else {
        let j = choose|j: int| 0 <= j < a - 1 && #[trigger] (m % ps[j]) == 0;
        assert(spec_prime(ps[j]));
        lemma_mod_zero(m, ps[j]);
        let t = m / ps[j];
        assert(p * m == ps[j] * (p * t)) by (nonlinear_arith) requires m == ps[j] * t;
        lemma_multiple_mod(ps[j], p * t);
        assert(((p * m) % ps[j]) == 0);
    }
}

/// Legendre's recurrence: `phi(x, a - 1) = phi(x, a) + phi(x / p_a, a - 1)`.
proof fn lemma_phi_recurrence(x: int, a: int, ps: Seq<int>)
    requires
        increasing_primes(ps),
        1 <= a <= ps.len(),
        x >= 0,
    ensures
        phi_spec(x, a - 1, ps) == phi_spec(x, a, ps) + phi_spec(x / ps[a - 1], a - 1, ps),
    decreases x,
{
    let p = ps[a - 1];
    assert(spec_prime(p));
    if x == 0 {
        assert(0int / p == 0);
    } else {
        lemma_phi_recurrence(x - 1, a, ps);
        lemma_div_step(x - 1, p);
        let m = x / p;
        if x % p == 0 {
            lemma_mod_zero(x, p);
            lemma_coprime_multiple(m, a, ps);
            assert(m >= 1) by (nonlinear_arith) requires x == p * m, x >= 1, p >= 2;
            assert(phi_spec(m, a - 1, ps) == phi_spec(m - 1, a - 1, ps) + if coprime_to_first(m, a - 1, ps) { 1int } else { 0int });
            assert(!coprime_to_first(x, a, ps));
        } else {
            assert(coprime_to_first(x, a, ps) == coprime_to_first(x, a - 1, ps));
        }
    }
}

/// With 2 as the first prime, `phi(x, 1)` counts the odd numbers up to `x`.
proof fn lemma_phi_one(x: int, ps: Seq<int>)
    requires
        ps.len() >= 1,
        ps[0] == 2,
        x >= 0,
    ensures
        phi_spec(x, 1, ps) == x / 2 + x % 2,
    decreases x,
{
    if x > 0 {
        lemma_phi_one(x - 1, ps);
        assert(coprime_to_first(x, 1, ps) == (x % 2 != 0));
    }
}

/// The key of `(x, a)` in the cache of `legendre_phi`: `x` in the high 64 bits, `a` in
/// the low ones.
pub open spec fn phi_key(x: int, a: int) -> int {
    x * 0x1_0000_0000_0000_0000 + a
}

/// Every entry of the cache holds phi of the pair that its key encodes.
pub open spec fn phi_cache_ok(m: Map<u128, i64>, ps: Seq<int>) -> bool {
    forall|k: u128| #[trigger] m.contains_key(k)
        ==> m[k] == phi_spec(k as int / 0x1_0000_0000_0000_0000, k as int % 0x1_0000_0000_0000_0000, ps)
}

/// The key of a pair in range decodes back to the pair.
proof fn lemma_phi_key_decode(x: int, a: int)
    requires
        0 <= x <= i64::MAX,
        0 <= a < 0x1_0000_0000_0000_0000,
    ensures
        0 <= phi_key(x, a) <= u128::MAX,
        phi_key(x, a) / 0x1_0000_0000_0000_0000 == x,
        phi_key(x, a) % 0x1_0000_0000_0000_0000 == a,
{
    assert(0 <= phi_key(x, a) <= u128::MAX) by (nonlinear_arith)
        requires 0 <= x <= i64::MAX, 0 <= a < 0x1_0000_0000_0000_0000;
    vstd::arithmetic::div_mod::lemma_fundamental_div_mod_converse(phi_key(x, a), 0x1_0000_0000_0000_0000, x, a);
}

/// `phi` is at most `x`.
proof fn lemma_phi_bounds(x: int, a: int, ps: Seq<int>)
    requires
        x >= 0,
    ensures
        0 <= phi_spec(x, a, ps) <= x,
    decreases x,
{
    if x > 0 {
        lemma_phi_bounds(x - 1, a, ps);
    }
}

/// Legendre's phi function: the number of integers in `1..=x` divisible by none of the
/// first `a` primes of `primes`, with a cache of the values already computed.
fn legendre_phi(x: i64, a: usize, primes: &[i64], cache: &mut HashMap<u128, i64>) -> (r: i64)
    requires
        0 <= x,
        1 <= a <= primes@.len() < usize::MAX,
        primes@[0] == 2,
        increasing_primes(primes@.map_values(|p: i64| p as int)),
        phi_cache_ok(old(cache)@, primes@.map_values(|p: i64| p as int)),
    ensures
        r == phi_spec(x as int, a as int, primes@.map_values(|p: i64| p as int)),
        phi_cache_ok(final(cache)@, primes@.map_values(|p: i64| p as int)),
        forall|k: u128| #[trigger] old(cache)@.contains_key(k) ==> final(cache)@.contains_key(k)
            && final(cache)@[k] == old(cache)@[k],
    decreases a,
{
    broadcast use vstd::std_specs::hash::group_hash_axioms;
    let ghost start = cache@;

    let ghost ps = primes@.map_values(|p: i64| p as int);
    if a == 1 {
        proof {
            lemma_phi_one(x as int, ps);
        }
        return x / 2 + x % 2;
    }
    proof {
        lemma_phi_key_decode(x as int, a as int);
    }
    let key: u128 = (x as u128) * 0x1_0000_0000_0000_0000u128 + (a as u128);
    assert(key == phi_key(x as int, a as int));
    if let Some(result) = cache.get(&key) {
        return *result;
    }
    // phi(x, a) = phi(x, 1) - sum over 2 <= i <= a of phi(x / p_i, i - 1)
    let mut result: i64 = x / 2 + x % 2;
    proof {
        lemma_phi_one(x as int, ps);
    }
    let mut i: usize = 2;
    while i <= a && primes[i - 1] <= x
        invariant
            0 <= x,
            2 <= i <= a + 1,
            1 <= a <= primes@.len() < usize::MAX,
            primes@[0] == 2,
            ps == primes@.map_values(|p: i64| p as int),
            increasing_primes(ps),
            phi_cache_ok(cache@, ps),
            result == phi_spec(x as int, i - 1, ps),
            !start.contains_key(key),
            forall|k: u128| #[trigger] start.contains_key(k) ==> cache@.contains_key(k) && cache@[k] == start[k],
        decreases a + 1 - i,
    {
        let p = primes[i - 1];
        proof {
            assert(ps[i - 1] == p as int);
            assert(spec_prime(ps[i - 1]));
        }
        let sub = legendre_phi(x / p, i - 1, primes, cache);
        proof {
            lemma_phi_recurrence(x as int, i as int, ps);
            lemma_phi_bounds(x as int, i as int, ps);
            lemma_phi_bounds(x as int, i - 1, ps);
        }
        result = result - sub;
        i += 1;
    }
    proof {
        if i <= a {
            assert(ps[i - 1] == primes@[i - 1] as int);
            lemma_phi_small_x(x as int, i - 1, a as int, ps);
        }
    }
    cache.insert(key, result);
    result
}

/// Once the primes exceed `x`, more of them change nothing: `phi(x, a) = phi(x, j)` when
/// the `(j + 1)`-th prime is above `x`.
proof fn lemma_phi_small_x(x: int, j: int, a: int, ps: Seq<int>)
    requires
        increasing_primes(ps),
        0 <= x < ps[j],
        1 <= j <= a <= ps.len(),
    ensures
        phi_spec(x, a, ps) == phi_spec(x, j, ps),
    decreases a - j,
{
    if a > j {
        lemma_phi_small_x(x, j, a - 1, ps);
        lemma_phi_recurrence(x, a, ps);
        assert(spec_prime(ps[a - 1]));
        if a - 1 > j {
            assert(ps[j] < ps[a - 1]);
        }
        vstd::arithmetic::div_mod::lemma_basic_div(x, ps[a - 1]);
        assert(phi_spec(0, a - 1, ps) == 0);
    }
}



/// `prime_pi` never decreases.
pub proof fn lemma_prime_pi_monotone(a: int, b: int)
    requires
        a <= b,
    ensures
        prime_pi(a) <= prime_pi(b),
    decreases b - a,
{
    if a < b {
        lemma_prime_pi_monotone(a, b - 1);
    }
}

/// `prime_pi` is at most its argument.
proof fn lemma_prime_pi_le(n: int)
    ensures
        n >= 0 ==> prime_pi(n) <= n,
    decreases n,
{
    if n >= 2 {
        lemma_prime_pi_le(n - 1);
    }
}

/// The entries of `primes_upto(n)` are primes in increasing order, and a prime `p <= n`
/// stands at index `prime_pi(p) - 1`.
proof fn lemma_primes_upto_props(n: int)
    ensures
        increasing_primes(primes_upto(n)),
        forall|p: int| spec_prime(p) && p <= n ==> 1 <= #[trigger] prime_pi(p) <= prime_pi(n)
            && primes_upto(n)[prime_pi(p) - 1] == p,
        forall|k: int| 0 <= k < primes_upto(n).len() ==> #[trigger] primes_upto(n)[k] <= n
            && prime_pi(primes_upto(n)[k]) == k + 1,
{
    let ps = primes_upto(n);
    lemma_primes_upto_bounds(n);
    assert forall|i: int, j: int| 0 <= i < j < ps.len() implies ps[i] < ps[j] by {
        if ps[i] >= ps[j] {
            lemma_prime_pi_monotone(ps[j], ps[i]);
        }
    }
    assert forall|p: int| spec_prime(p) && p <= n implies 1 <= #[trigger] prime_pi(p) <= prime_pi(n)
        && ps[prime_pi(p) - 1] == p by {
        lemma_prime_pi_monotone(p, n);
        let c = prime_pi(p);
        assert(c == prime_pi(p - 1) + 1);
        let q = ps[c - 1];
        assert(prime_pi(q) == c);
        if q < p {
            lemma_prime_pi_monotone(q, p - 1);
        } else if q > p {
            assert(prime_pi(q) == prime_pi(q - 1) + 1);
            lemma_prime_pi_monotone(p, q - 1);
        }
    }
}

/// With `ps` the primes up to `s` and `x < (s + 1)^2`, a number in `1..=x` is divisible
/// by none of them exactly when it is 1 or a prime above `s`.
proof fn lemma_coprime_to_small_primes(k: int, s: int, x: int)
    requires
        s >= 2,
        1 <= k <= x,
        x < (s + 1) * (s + 1),
    ensures
        coprime_to_first(k, prime_pi(s) as int, primes_upto(s)) == (k == 1 || (spec_prime(k) && k > s)),
{
    let ps = primes_upto(s);
    let a = prime_pi(s) as int;
    lemma_primes_upto_props(s);
    if k == 1 {
        assert forall|j: int| 0 <= j < a implies #[trigger] (k % ps[j]) != 0 by {
            assert(spec_prime(ps[j]));
            vstd::arithmetic::div_mod::lemma_small_mod(1, ps[j] as nat);
        }
    } else if spec_prime(k) && k > s {
        assert forall|j: int| 0 <= j < a implies #[trigger] (k % ps[j]) != 0 by {
            assert(spec_prime(ps[j]));
            assert(ps[j] <= s);
        }
    } else if spec_prime(k) {
        let j = prime_pi(k) - 1;
        assert(ps[j] == k);
        lemma_multiple_mod(k, 1);
        assert((k % ps[j]) == 0);
    } else {
        let p = lemma_prime_factor(k);
        assert(p <= s) by (nonlinear_arith)
            requires p * p <= k, k <= x, x < (s + 1) * (s + 1), p >= 2, s >= 2;
        let j = prime_pi(p) - 1;
        assert(ps[j] == p);
        assert((k % ps[j]) == 0);
    }
}

/// phi over the primes up to `s`, for `y <= x`: 1 (for the number 1) plus the primes in
/// `(s, y]`.
proof fn lemma_phi_partial(y: int, s: int, x: int)
    requires
        s >= 2,
        0 <= y <= x,
        x < (s + 1) * (s + 1),
    ensures
        phi_spec(y, prime_pi(s) as int, primes_upto(s))
            == (if y >= 1 { 1int } else { 0int }) + prime_pi(y) - prime_pi(if y <= s { y } else { s }),
    decreases y,
{
    if y >= 1 {
        lemma_phi_partial(y - 1, s, x);
        lemma_coprime_to_small_primes(y, s, x);
    }
}

/// Legendre's formula: with `a` the number of primes up to `s = isqrt(x)`,
/// `pi(x) = phi(x, a) + a - 1`.
pub proof fn lemma_legendre(x: int, s: int)
    requires
        s >= 2,
        s * s <= x < (s + 1) * (s + 1),
    ensures
        phi_spec(x, prime_pi(s) as int, primes_upto(s)) + prime_pi(s) - 1 == prime_pi(x),
{
    assert(s <= x) by (nonlinear_arith) requires s * s <= x, s >= 2;
    lemma_phi_partial(x, s, x);
}

/// The integer square root: the `r` with `r * r <= x < (r + 1) * (r + 1)`.
pub fn isqrt(x: i64) -> (r: i64)
    requires
        x >= 0,
    ensures
        r >= 0,
        r * r <= x < (r + 1) * (r + 1),
{
    let mut lo: u64 = 0;
    let mut hi: u64 = 3_037_000_500;
    assert(hi * hi > i64::MAX);
    while hi - lo > 1
        invariant
            x >= 0,
            lo < hi <= 3_037_000_500,
            lo * lo <= x,
            x < hi * hi,
        decreases hi - lo,
    {
        let mid = lo + (hi - lo) / 2;
        assert(mid * mid <= 3_037_000_500 * 3_037_000_500) by (nonlinear_arith)
            requires mid <= 3_037_000_500;
        if mid * mid <= x as u64 {
            lo = mid;
        } else {
            hi = mid;
        }
    }
    assert(lo <= 3_037_000_499);
    lo as i64
}

/// The number of primes up to `x <= 104729` (the 10000th prime), by binary search in
/// the table of the primes up to 104729.
fn count_primes_binary(x: i64) -> (r: i64)
    requires
        0 <= x <= 104_729,
    ensures
        r == prime_pi(x as int),
{
    let table = primes_to(104_729);
    let ghost ps = primes_upto(104_729);
    proof {
        lemma_primes_upto_props(104_729);
        assert forall|k: int| 0 <= k < table@.len() implies table@[k] as int == #[trigger] ps[k] by {
            assert(table@.map_values(|v: i64| v as int)[k] == ps[k]);
        }
    }
    let mut lo: usize = 0;
    let mut hi: usize = table.len();
    while lo < hi
        invariant
            0 <= x <= 104_729,
            table@.len() == ps.len(),
            ps == primes_upto(104_729),
            increasing_primes(ps),
            forall|k: int| 0 <= k < table@.len() ==> table@[k] as int == #[trigger] ps[k],
            lo <= hi <= table@.len(),
            forall|k: int| 0 <= k < lo ==> #[trigger] ps[k] <= x,
            forall|k: int| hi <= k < ps.len() ==> #[trigger] ps[k] > x,
        decreases hi - lo,
    {
        let mid = lo + (hi - lo) / 2;
        if table[mid] <= x {
            assert(ps[mid as int] <= x);
            lo = mid + 1;
        } else {
            hi = mid;
        }
    }
    proof {
        let c = lo as int;
        lemma_primes_upto_props(104_729);
        lemma_prime_pi_le(104_729);
        if c >= 1 {
            assert(ps[c - 1] <= x);
            assert(prime_pi(ps[c - 1]) == c);
            lemma_prime_pi_monotone(ps[c - 1], x as int);
        }
        if c < ps.len() {
            assert(spec_prime(ps[c]));
            assert(prime_pi(ps[c]) == c + 1);
            assert(prime_pi(ps[c]) == prime_pi(ps[c] - 1) + 1);
            lemma_prime_pi_monotone(x as int, ps[c] - 1);
        } else {
            lemma_prime_pi_monotone(x as int, 104_729);
            assert(prime_pi(104_729) == ps.len());
        }
    }
    lo as i64
}

/// The primes up to `limit`, by testing each number in turn: for bounds too large for a
/// sieve in memory.
fn primes_by_trial(limit: i64) -> (r: Vec<i64>)
    ensures
        r@.map_values(|x: i64| x as int) == primes_upto(limit as int),
{
    let mut primes: Vec<i64> = Vec::new();
    if limit < 2 {
        proof {
            assert(primes@.map_values(|x: i64| x as int) =~= primes_upto(limit as int));
        }
        return primes;
    }
    let mut k: i64 = 1;
    proof {
        assert(primes@.map_values(|x: i64| x as int) =~= primes_upto(1));
    }
    while k < limit
        invariant
            1 <= k <= limit,
            primes@.map_values(|x: i64| x as int) == primes_upto(k as int),
        decreases limit - k,
    {
        let ghost before = primes@;
        k += 1;
        if is_prime(k) {
            primes.push(k);
            proof {
                assert(primes@.map_values(|x: i64| x as int) =~= before.map_values(|x: i64| x as int).push(k as int));
            }
        }
    }
    primes
}

/// The prime count of `n` is the length of the list of the primes up to `n`.
pub proof fn lemma_prime_count_is_list_length(n: int)
    ensures
        prime_pi(n) == primes_upto(n).len(),
{
}

/// Returns the number of primes less than or equal to `x` (the prime-counting function
/// pi(x)).
pub fn prime_count(x: i64) -> (r: i64)
    ensures
        r == prime_pi(x as int),
{
    if x < 2 {
        return 0;
    }
    if x <= 104_729 {
        return count_primes_binary(x);
    }
    let s = isqrt(x);
    assert(s >= 2) by (nonlinear_arith) requires x < (s + 1) * (s + 1), x > 104_729, s >= 0;
    assert(s <= 3_037_000_499) by (nonlinear_arith) requires s * s <= x, x <= i64::MAX, s >= 0;
    let primes = if s as u64 <= (usize::MAX / 2) as u64 {
        primes_to(s as usize)
    } else {
        primes_by_trial(s)
    };
    let ghost ps = primes_upto(s as int);
    proof {
        lemma_primes_upto_props(s as int);
        lemma_prime_pi_le(s as int);
        assert(primes@.len() == ps.len());
        reveal_with_fuel(primes_upto, 3);
        assert(prime_pi(2) == 1);
        lemma_prime_pi_monotone(2, s as int);
        assert(primes@[0] as int == primes@.map_values(|v: i64| v as int)[0]);
        assert(ps[0] == 2);
        lemma_legendre(x as int, s as int);
        lemma_prime_pi_le(x as int);
        lemma_phi_bounds(x as int, ps.len() as int, ps);
    }
    let a = primes.len();
    let mut cache: HashMap<u128, i64> = HashMap::new();
    let phi = legendre_phi(x, a, primes.as_slice(), &mut cache);
    phi + (a as i64 - 1)
}

/// A rational number `num / den` reduced by the gcd of its parts.
pub open spec fn reduce(num: int, den: int) -> (int, int) {
    let g = gcd_spec(num, den) as int;
    (num / g, den / g)
}

/// The Akiyama-Tanigawa step `a[k-1] = k * (a[k-1] - a[k])` on fractions, reduced.
pub open spec fn at_entry(x: (int, int), y: (int, int), k: int) -> (int, int) {
    reduce(k * (x.0 * y.1 - y.0 * x.1), x.1 * y.1)
}

/// One step of a row of the Akiyama-Tanigawa triangle.
pub open spec fn at_step(a: Seq<(int, int)>, k: int) -> Seq<(int, int)> {
    a.update(k - 1, at_entry(a[k - 1], a[k], k))
}

/// The steps `k, k - 1, ..., 1` of a row.
pub open spec fn at_row(a: Seq<(int, int)>, k: int) -> Seq<(int, int)>
    decreases k,
{
    if k <= 0 {
        a
    } else {
        at_row(at_step(a, k), k - 1)
    }
}

/// The Akiyama-Tanigawa triangle after row `m`: for each row `m`, `a[m] = 1 / (m + 1)`
/// and then `a[j - 1] = j * (a[j - 1] - a[j])` for `j` from `m` down to 1; `a[0]` is then
/// the Bernoulli number `B_m` (with `B_1 = +1/2`).
pub open spec fn at_rows(m: int) -> Seq<(int, int)>
    decreases m,
{
    if m <= 0 {
        seq![(1int, 1int)]
    } else {
        at_row(at_rows(m - 1).push((1int, m + 1)), m)
    }
}

/// `v` fits in an `i64`.
pub open spec fn fits_i64(v: int) -> bool {
    i64::MIN <= v <= i64::MAX
}

/// Every intermediate value of the step at `k` fits in an `i64`.
pub open spec fn at_step_fits(a: Seq<(int, int)>, k: int) -> bool {
    let x = a[k - 1];
    let y = a[k];
    let diff = x.0 * y.1 - y.0 * x.1;
    &&& fits_i64(x.0 * y.1)
    &&& fits_i64(y.0 * x.1)
    &&& fits_i64(diff)
    &&& fits_i64(x.1 * y.1)
    &&& fits_i64(k * diff)
    &&& k * diff != i64::MIN
}

/// Every step of the row from `k` down fits in an `i64`.
pub open spec fn at_row_fits(a: Seq<(int, int)>, k: int) -> bool
    decreases k,
{
    k <= 0 || (at_step_fits(a, k) && at_row_fits(at_step(a, k), k - 1))
}

/// Every step of the rows up to `m` fits in an `i64`.
pub open spec fn at_rows_fit(m: int) -> bool
    decreases m,
{
    m <= 0 || (at_rows_fit(m - 1) && fits_i64(m + 1) && at_row_fits(at_rows(m - 1).push((1int, m + 1)), m))
}

/// The Bernoulli number `B_n` as a reduced fraction, with `B_1 = -1/2`.
pub open spec fn bernoulli_spec(n: int) -> (int, int) {
    if n == 0 {
        (1, 1)
    } else if n == 1 {
        (-1, 2)
    } else if n % 2 == 1 {
        (0, 1)
    } else {
        at_rows(n)[0]
    }
}

/// Euclid's recursion `gcd(a, b) = gcd(b, a % b)` with the truncating remainder, down to
/// `gcd(a, 0) = a`. On non-negative arguments it is the greatest common divisor; on
/// others its sign follows the last non-zero remainder.
pub open spec fn gcd_trunc(a: int, b: int) -> int
    decreases abs_int(b),
{
    if b == 0 {
        a
    } else {
        proof {
            lemma_trunc_div_rem(a, b);
        }
        gcd_trunc(b, trunc_rem(a, b))
    }
}

/// On non-negative arguments the truncating recursion is the greatest common divisor.
pub proof fn lemma_gcd_trunc_nonneg(a: int, b: int)
    requires
        a >= 0,
        b >= 0,
    ensures
        gcd_trunc(a, b) == gcd_nat(a as nat, b as nat),
    decreases b,
{
    if b > 0 {
        lemma_trunc_div_rem(a, b);
        let q = trunc_div(a, b);
        let r = trunc_rem(a, b);
        assert(q >= 0);
        assert(0 <= r < b);
        vstd::arithmetic::div_mod::lemma_fundamental_div_mod_converse(a, b, q, r);
        lemma_gcd_trunc_nonneg(b, r);
    }
}

/// Euclid's recursion on two `i64`, as `if b == 0 { a } else { gcd_int(b, a % b) }`
/// computes it, with each remainder taken over unbounded integers.
pub fn gcd_int(a: i64, b: i64) -> (r: i64)
    ensures
        r == gcd_trunc(a as int, b as int),
    decreases abs_int(b as int),
{
    if b == 0 {
        a
    } else {
        let m = rem_trunc_wide(a as i128, b as i128);
        proof {
            lemma_trunc_div_rem(a as int, b as int);
        }
        gcd_int(b, m as i64)
    }
}

/// The entries of the triangle have positive denominators.
pub open spec fn dens_positive(a: Seq<(int, int)>) -> bool {
    forall|j: int| 0 <= j < a.len() ==> #[trigger] a[j].1 > 0
}

/// The machine pairs of a triangle row as pairs of integers.
pub open spec fn pairs(v: Seq<(i64, i64)>) -> Seq<(int, int)> {
    v.map_values(|p: (i64, i64)| (p.0 as int, p.1 as int))
}

/// Exact division of `num` by a positive divisor of it.
fn div_exact(num: i64, g: i64) -> (r: i64)
    requires
        g > 0,
        (num as int) % (g as int) == 0,
    ensures
        r == (num as int) / (g as int),
{
    if num < 0 {
        let mag: u64 = (-(num as i128)) as u64;
        let q: u64 = mag / (g as u64);
        proof {
            lemma_mod_zero(num as int, g as int);
            let k = (num as int) / (g as int);
            assert(mag == g * (-k)) by (nonlinear_arith) requires num == g * k, mag == -num;
            vstd::arithmetic::div_mod::lemma_div_multiples_vanish(-k, g as int);
            assert(q == -k);
            assert(q <= 0x8000_0000_0000_0000);
        }
        (-(q as i128)) as i64
    } else {
        num / g
    }
}

/// One step of a row of the triangle on machine integers: `None` when a value overflows.
fn at_step_exec(a: &mut Vec<(i64, i64)>, k: usize) -> (ok: bool)
    requires
        1 <= k < old(a)@.len(),
        k <= i64::MAX,
        dens_positive(pairs(old(a)@)),
    ensures
        ok == at_step_fits(pairs(old(a)@), k as int),
        ok ==> pairs(final(a)@) == at_step(pairs(old(a)@), k as int),
        ok ==> dens_positive(pairs(final(a)@)),
        !ok ==> final(a)@ == old(a)@,
        final(a)@.len() == old(a)@.len(),
{
    let ghost sa = pairs(a@);
    let (num1, den1) = a[k - 1];
    let (num2, den2) = a[k];
    proof {
        assert(sa[k - 1] == (num1 as int, den1 as int));
        assert(sa[k as int] == (num2 as int, den2 as int));
        assert(den1 > 0 && den2 > 0);
    }
    let p1 = match num1.checked_mul(den2) {
        Some(v) => v,
        None => return false,
    };
    let p2 = match num2.checked_mul(den1) {
        Some(v) => v,
        None => return false,
    };
    let diff_num = match p1.checked_sub(p2) {
        Some(v) => v,
        None => return false,
    };
    let diff_den = match den1.checked_mul(den2) {
        Some(v) => v,
        None => return false,
    };
    let k_val = k as i64;
    let new_num = match k_val.checked_mul(diff_num) {
        Some(v) => v,
        None => return false,
    };
    if new_num == i64::MIN {
        return false;
    }
    let new_den = diff_den;
    proof {
        assert(new_den > 0) by (nonlinear_arith) requires new_den == den1 * den2, den1 > 0, den2 > 0;
    }
    let abs_num = if new_num < 0 { -new_num } else { new_num };
    let g = gcd_int(abs_num, new_den);
    proof {
        lemma_gcd_trunc_nonneg(abs_num as int, new_den as int);
        assert(g == gcd_spec(new_num as int, new_den as int));
        lemma_gcd_zero(new_num as int, new_den as int);
        lemma_gcd_divides(new_num as int, new_den as int);
        crate::number_theory::divisibility::lemma_divisor_le(new_den as int, g as int);
    }
    let rn = div_exact(new_num, g);
    let rd = new_den / g;
    proof {
        lemma_mod_zero(new_den as int, g as int);
        assert(rd > 0) by (nonlinear_arith) requires new_den == g * rd, new_den > 0, g > 0;
    }
    a.set(k - 1, (rn, rd));
    proof {
        assert(pairs(a@) =~= at_step(sa, k as int));
        assert forall|j: int| 0 <= j < pairs(a@).len() implies #[trigger] pairs(a@)[j].1 > 0 by {
            if j != k - 1 {
                assert(pairs(a@)[j] == sa[j]);
            }
        }
    }
    true
}

/// Computes the Bernoulli number `B_n` as a reduced fraction `(numerator, denominator)`
/// (with `B_1 = -1/2`), by the Akiyama-Tanigawa algorithm on exact fractions. `None`
/// when a value of the computation does not fit in an `i64`.
pub fn bernoulli(n: u64) -> (r: Option<(i64, i64)>)
    ensures
        n < 2 || n % 2 == 1 ==> (r matches Some(v) && (v.0 as int, v.1 as int) == bernoulli_spec(n as int)),
        n >= 2 && n % 2 == 0 ==> match r {
            Some(v) => at_rows_fit(n as int) && (v.0 as int, v.1 as int) == bernoulli_spec(n as int),
            None => !at_rows_fit(n as int),
        },
{
    if n == 1 {
        return Some((-1, 2));
    }
    if n == 0 {
        return Some((1, 1));
    }
    if n % 2 == 1 && n > 1 {
        return Some((0, 1));
    }
    let mut a: Vec<(i64, i64)> = Vec::new();
    a.push((1, 1));
    proof {
        assert(pairs(a@) =~= at_rows(0));
    }
    let mut m: u64 = 1;
    while m <= n
        invariant
            2 <= n,
            n % 2 == 0,
            1 <= m <= n + 1,
            a@.len() == m,
            pairs(a@) == at_rows(m - 1),
            at_rows_fit(m - 1),
            dens_positive(pairs(a@)),
        decreases n + 1 - m,
    {
        let ghost start = at_rows(m - 1).push((1int, m + 1));
        let ghost before = a@;
        if m >= i64::MAX as u64 {
            // the denominator m + 1 does not fit
            proof {
                lemma_rows_fit_stop(n as int, m as int);
            }
            return None;
        }
        a.push((1, (m + 1) as i64));
        proof {
            assert(pairs(a@) =~= pairs(before).push((1int, m + 1)));
            assert forall|j: int| 0 <= j < pairs(a@).len() implies #[trigger] pairs(a@)[j].1 > 0 by {
                if j < before.len() {
                    assert(pairs(a@)[j] == pairs(before)[j]);
                }
            }
        }
        let mut k: usize = a.len() - 1;
        while k >= 1
            invariant
                2 <= n,
                n % 2 == 0,
                1 <= m <= n,
                m < i64::MAX,
                start == at_rows(m - 1).push((1int, m + 1)),
                k <= m,
                a@.len() == m + 1,
                at_rows_fit(m - 1),
                at_row(pairs(a@), k as int) == at_row(start, m as int),
                at_row_fits(start, m as int) == at_row_fits(pairs(a@), k as int),
                dens_positive(pairs(a@)),
            decreases k,
        {
            let ghost cur = pairs(a@);
            let ok = at_step_exec(&mut a, k);
            if !ok {
                proof {
                    assert(!at_row_fits(cur, k as int));
                    lemma_rows_fit_stop(n as int, m as int);
                }
                return None;
            }
            k -= 1;
        }
        proof {
            assert(at_row(pairs(a@), 0) == pairs(a@));
            assert(at_rows(m as int) == at_row(start, m as int));
        }
        m += 1;
    }
    let res = a[0];
    proof {
        assert(pairs(a@)[0] == (res.0 as int, res.1 as int));
    }
    Some(res)
}

/// A row that overflows makes every later computation overflow.
proof fn lemma_rows_fit_stop(n: int, m: int)
    requires
        1 <= m <= n,
        !(fits_i64(m + 1) && at_row_fits(at_rows(m - 1).push((1int, m + 1)), m)),
    ensures
        !at_rows_fit(n),
    decreases n - m,
{
    if n > m {
        lemma_rows_fit_stop(n - 1, m);
    }
}

/// Reducing a fraction with a positive denominator keeps its value and leaves its parts
/// coprime, with a positive denominator.
pub proof fn lemma_reduce_lowest_terms(num: int, den: int)
    requires
        den > 0,
    ensures
        reduce(num, den).1 > 0,
        gcd_spec(reduce(num, den).0, reduce(num, den).1) == 1,
        reduce(num, den).0 * den == num * reduce(num, den).1,
{
    let g = gcd_spec(num, den) as int;
    lemma_gcd_zero(num, den);
    lemma_gcd_divides(num, den);
    crate::number_theory::euclid::lemma_divides_elim(g, num);
    crate::number_theory::euclid::lemma_divides_elim(g, den);
    let a = num / g;
    let b = den / g;
    assert(b > 0) by (nonlinear_arith) requires den == g * b, den > 0, g > 0;
    let (x, y) = crate::number_theory::euclid::lemma_bezout(num, den);
    assert(a * x + b * y == 1) by (nonlinear_arith)
        requires g == num * x + den * y, num == g * a, den == g * b, g > 0;
    let h = gcd_spec(a, b) as int;
    lemma_gcd_divides(a, b);
    lemma_gcd_zero(a, b);
    crate::number_theory::euclid::lemma_divides_combination(h, a, b, x, y);
    crate::number_theory::divisibility::lemma_divisor_le(1, h);
    assert(a * den == num * b) by (nonlinear_arith) requires num == g * a, den == g * b;
}

/// One step keeps the denominators positive and leaves a fraction in lowest terms at
/// `k - 1`.
proof fn lemma_at_step_props(a: Seq<(int, int)>, k: int)
    requires
        1 <= k < a.len(),
        dens_positive(a),
    ensures
        at_step(a, k).len() == a.len(),
        dens_positive(at_step(a, k)),
        gcd_spec(at_step(a, k)[k - 1].0, at_step(a, k)[k - 1].1) == 1,
{
    let x = a[k - 1];
    let y = a[k];
    assert(x.1 * y.1 > 0) by (nonlinear_arith) requires x.1 > 0, y.1 > 0;
    lemma_reduce_lowest_terms(k * (x.0 * y.1 - y.0 * x.1), x.1 * y.1);
    let b = at_step(a, k);
    assert forall|j: int| 0 <= j < b.len() implies #[trigger] b[j].1 > 0 by {
        if j != k - 1 {
            assert(b[j] == a[j]);
        }
    }
}

/// A row keeps the denominators positive and leaves `a[0]` in lowest terms.
proof fn lemma_at_row_props(a: Seq<(int, int)>, k: int)
    requires
        1 <= k < a.len(),
        dens_positive(a),
    ensures
        at_row(a, k).len() == a.len(),
        dens_positive(at_row(a, k)),
        gcd_spec(at_row(a, k)[0].0, at_row(a, k)[0].1) == 1,
    decreases k,
{
    lemma_at_step_props(a, k);
    if k > 1 {
        lemma_at_row_props(at_step(a, k), k - 1);
    } else {
        assert(at_row(at_step(a, k), 0) == at_step(a, k));
    }
}

/// The rows of the triangle keep positive denominators, have `m + 1` entries, and leave
/// `a[0]` in lowest terms after the first.
proof fn lemma_at_rows_props(m: int)
    requires
        m >= 0,
    ensures
        at_rows(m).len() == m + 1,
        dens_positive(at_rows(m)),
        m >= 1 ==> gcd_spec(at_rows(m)[0].0, at_rows(m)[0].1) == 1,
    decreases m,
{
    if m >= 1 {
        lemma_at_rows_props(m - 1);
        let start = at_rows(m - 1).push((1int, m + 1));
        assert forall|j: int| 0 <= j < start.len() implies #[trigger] start[j].1 > 0 by {
            if j < m {
                assert(start[j] == at_rows(m - 1)[j]);
            }
        }
        lemma_at_row_props(start, m);
    }
}

/// The Bernoulli numbers come as fractions in lowest terms with a positive denominator.
pub proof fn lemma_bernoulli_lowest_terms(n: int)
    requires
        n >= 0,
    ensures
        bernoulli_spec(n).1 > 0,
        gcd_spec(bernoulli_spec(n).0, bernoulli_spec(n).1) == 1,
{
    reveal_with_fuel(gcd_nat, 3);
    if n >= 2 && n % 2 == 0 {
        lemma_at_rows_props(n);
    }
}

} // verus!
