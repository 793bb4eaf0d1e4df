use qalculate::number_theory::primes::gcd_int;
use qalculate::number_theory::primes::{
    bernoulli, is_prime, next_prime, nth_prime, prev_prime, prime_count, primes_up_to, isqrt,
};

#[test]
fn primes_test_is_prime() {
    assert!(is_prime(2));
    assert!(is_prime(3));
    assert!(is_prime(17));
    assert!(is_prime(7919)); // 1000th prime
    assert!(!is_prime(1));
    assert!(!is_prime(4));
    assert!(!is_prime(100));
}

#[test]
fn lib_rs_backup_test_is_prime() {
    assert!(is_prime(17));
    assert!(!is_prime(18));
}

#[test]
fn test_next_prime() {
    assert_eq!(next_prime(10), Some(11));
    assert_eq!(next_prime(11), Some(11));
    assert_eq!(next_prime(14), Some(17));
    assert_eq!(next_prime(0), Some(2));
}

#[test]
fn test_prev_prime() {
    assert_eq!(prev_prime(10), 7);
    assert_eq!(prev_prime(7), 7);
    assert_eq!(prev_prime(2), 2);
}

#[test]
fn test_nth_prime() {
    assert_eq!(nth_prime(1), Some(2));
    assert_eq!(nth_prime(2), Some(3));
    assert_eq!(nth_prime(3), Some(5));
    assert_eq!(nth_prime(5), Some(11));
    assert_eq!(nth_prime(10), Some(29));
}

#[test]
fn test_prime_count() {
    assert_eq!(prime_count(0), 0);
    assert_eq!(prime_count(1), 0);
    assert_eq!(prime_count(2), 1);
    assert_eq!(prime_count(10), 4);
    assert_eq!(prime_count(100), 25);
}

#[test]
fn test_primes_up_to() {
    let primes = primes_up_to(20);
    assert_eq!(primes, vec![2, 3, 5, 7, 11, 13, 17, 19]);

    let primes_empty = primes_up_to(1);
    assert!(primes_empty.is_empty());
}

#[test]
fn test_bernoulli() {
    assert_eq!(bernoulli(0), Some((1, 1)));
    assert_eq!(bernoulli(1), Some((-1, 2)));
    assert_eq!(bernoulli(2), Some((1, 6)));
    assert_eq!(bernoulli(3), Some((0, 1)));
    assert_eq!(bernoulli(4), Some((-1, 30)));
}

#[test]
fn prime_count_with_legendre_formula() {
    assert_eq!(prime_count(104_729), 10_000);
    assert_eq!(prime_count(104_730), 10_000);
    assert_eq!(prime_count(200_000), 17_984);
    assert_eq!(prime_count(1_000_000), 78_498);
    assert_eq!(prime_count(1_000_000_000), 50_847_534);
    assert_eq!(prime_count(-5), 0);
}

#[test]
fn prime_count_agrees_with_primes_up_to() {
    for n in [2i64, 30, 97, 1000, 5000] {
        assert_eq!(prime_count(n) as usize, primes_up_to(n).len());
    }
}

#[test]
fn nth_prime_inverts_prime_count() {
    let p = nth_prime(1000).unwrap();
    assert_eq!(p, 7919);
    assert_eq!(prime_count(p), 1000);
    assert_eq!(prime_count(p - 1), 999);
}

#[test]
fn next_and_prev_prime_edges() {
    assert_eq!(next_prime(-100), Some(2));
    assert_eq!(next_prime(i64::MAX), None);
    assert_eq!(next_prime(7908), Some(7919));
    assert_eq!(prev_prime(-3), 2);
    assert_eq!(prev_prime(7918), 7907);
}

#[test]
fn primes_up_to_limit() {
    assert_eq!(primes_up_to(2), vec![2]);
    let big = primes_up_to(10_000_019);
    assert_eq!(big.len(), 664_580);
    assert_eq!(big[big.len() - 1], 10_000_019);
}

#[test]
fn bernoulli_larger_values() {
    assert_eq!(bernoulli(6), Some((1, 42)));
    assert_eq!(bernoulli(12), Some((-691, 2730)));
    assert_eq!(bernoulli(28), Some((-23749461029, 870)));
    assert_eq!(bernoulli(29), Some((0, 1)));
    // the exact fractions no longer fit in 64 bits
    assert_eq!(bernoulli(30), None);
}

#[test]
fn isqrt_values() {
    assert_eq!(isqrt(0), 0);
    assert_eq!(isqrt(15), 3);
    assert_eq!(isqrt(16), 4);
    assert_eq!(isqrt(i64::MAX), 3_037_000_499);
}

#[test]
fn gcd_int_follows_truncating_remainders() {
    assert_eq!(gcd_int(12, 18), 6);
    assert_eq!(gcd_int(-12, 18), 6);
    assert_eq!(gcd_int(12, -18), -6);
    assert_eq!(gcd_int(7, 0), 7);
    assert_eq!(gcd_int(-1, i64::MIN), -1);
}
