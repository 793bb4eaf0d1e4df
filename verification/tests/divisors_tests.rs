use qalculate::number_theory::parity::{is_even, is_odd};
use qalculate::number_theory::rounding::{abs_integer, signum_integer};
use qalculate::number_theory::totient::{prime_factors, totient, totient_from_factors};
use qalculate::number_theory::traits::{prime_factorization, Divisors, Gcd, Lcm};
use qalculate::number_theory::{gcd, lcm, powmod};

#[test]
fn test_gcd() {
    assert_eq!(gcd(&[48, 18]), 6);
    assert_eq!(gcd(&[17, 23]), 1);
    assert_eq!(gcd(&[0, 5]), 5);
    assert_eq!(gcd(&[48, 18, 30]), 6);
}

#[test]
fn test_lcm() {
    assert_eq!(lcm(&[21, 6]), Some(42));
    assert_eq!(lcm(&[5, 7]), Some(35));
    assert_eq!(lcm(&[4, 6, 8]), Some(24));
}

#[test]
fn test_basic_gcd() {
    assert_eq!(gcd(&[48, 18]), 6);
}

#[test]
fn test_basic_lcm() {
    assert_eq!(lcm(&[21, 6]), Some(42));
}

#[test]
fn gcd_and_lcm_edge_cases() {
    assert_eq!(gcd(&[]), 0);
    assert_eq!(gcd(&[-12]), -12);
    assert_eq!(gcd(&[-12, 18]), 6);
    assert_eq!(gcd(&[0, 0]), 0);
    assert_eq!(gcd(&[i64::MIN, 0]), 9_223_372_036_854_775_808);
    assert_eq!(lcm(&[]), Some(0));
    assert_eq!(lcm(&[-7]), Some(-7));
    assert_eq!(lcm(&[-4, 6]), Some(12));
    assert_eq!(lcm(&[3, 0, 5]), Some(0));
    assert_eq!(lcm(&[i64::MAX, i64::MAX - 1, i64::MAX - 2]), None);
}

#[test]
fn test_powmod() {
    assert_eq!(powmod(4, 13, 497), 445);
    assert_eq!(powmod(2, 10, 1000), 24);
}

#[test]
fn powmod_edge_cases() {
    assert_eq!(powmod(3, -1, 7), 5);
    assert_eq!(powmod(3, -2, 7), 4);
    assert_eq!(powmod(-2, 3, 5), 2);
    assert_eq!(powmod(5, 0, 1), 0);
    assert_eq!(powmod(5, 3, -7), 6);
    assert_eq!(powmod(i64::MAX, i64::MAX, i64::MIN), i64::MAX);
}

#[test]
fn test_is_even() {
    assert!(is_even(0i64));
    assert!(is_even(2i64));
    assert!(is_even(-4i64));
    assert!(is_even(100i64));
    assert!(!is_even(1i64));
    assert!(!is_even(-1i64));
    assert!(!is_even(99i64));
}

#[test]
fn test_is_odd() {
    assert!(is_odd(1i64));
    assert!(is_odd(-1i64));
    assert!(is_odd(99i64));
    assert!(!is_odd(0i64));
    assert!(!is_odd(2i64));
    assert!(!is_odd(-4i64));
}

#[test]
fn test_parity_with_integer() {
    let n: i64 = 42;
    assert!(is_even(n));
    assert!(!is_odd(n));
}

#[test]
fn abs_and_signum_of_integers() {
    assert_eq!(abs_integer(-42), 42);
    assert_eq!(abs_integer(i64::MIN), 9_223_372_036_854_775_808);
    assert_eq!(signum_integer(-9), -1);
    assert_eq!(signum_integer(0), 0);
    assert_eq!(signum_integer(9), 1);
}

#[test]
fn totient_test_totient() {
    assert_eq!(totient(1), 1);
    assert_eq!(totient(2), 1);
    assert_eq!(totient(3), 2);
    assert_eq!(totient(5), 4);
    assert_eq!(totient(7), 6);
    assert_eq!(totient(11), 10);
    assert_eq!(totient(4), 2);
    assert_eq!(totient(8), 4);
    assert_eq!(totient(9), 6);
    assert_eq!(totient(27), 18);
    assert_eq!(totient(10), 4);
    assert_eq!(totient(14), 6);
    assert_eq!(totient(15), 8);
    assert_eq!(totient(30), 8);
}

#[test]
fn lib_rs_backup_test_totient() {
    assert_eq!(totient(10), 4);
    assert_eq!(totient(7), 6);
}

#[test]
fn test_totient_negative() {
    assert_eq!(totient(-7), 6);
    assert_eq!(totient(-10), 4);
}

#[test]
fn totient_edge_cases() {
    assert_eq!(totient(0), 0);
    assert_eq!(totient(-1), 1);
    assert_eq!(totient(9973), 9972);
    assert_eq!(totient(2 * 9973), 9972);
    assert_eq!(totient(i64::MIN), 4_611_686_018_427_387_904);
}

#[test]
fn totient_from_factors_agrees() {
    for n in [-30i64, -1, 1, 2, 12, 30, 97, 360, 9973, 1_000_000] {
        assert_eq!(totient_from_factors(n), Some(totient(n)));
    }
    assert_eq!(totient_from_factors(0), None);
}

#[test]
fn test_prime_factors() {
    assert_eq!(prime_factors(1), Some(vec![]));
    assert_eq!(prime_factors(2), Some(vec![2]));
    assert_eq!(prime_factors(12), Some(vec![2, 3]));
    assert_eq!(prime_factors(30), Some(vec![2, 3, 5]));
    assert_eq!(prime_factors(0), None);
}

#[test]
fn prime_factors_of_large_numbers() {
    assert_eq!(prime_factors(u64::MAX), Some(vec![3, 5, 17, 257, 641, 65537, 6700417]));
    assert_eq!(prime_factors(1 << 63), Some(vec![2]));
}

#[test]
fn test_divisors() {
    assert_eq!(1i64.divisors(), vec![1]);
    assert_eq!(12i64.divisors(), vec![1, 2, 3, 4, 6, 12]);
    assert_eq!(28i64.divisors(), vec![1, 2, 4, 7, 14, 28]);
    assert_eq!(36i64.divisors(), vec![1, 2, 3, 4, 6, 9, 12, 18, 36]);
}

#[test]
fn divisors_edge_cases() {
    assert_eq!(0i64.divisors(), Vec::<u64>::new());
    assert_eq!((-12i64).divisors(), vec![1, 2, 3, 4, 6, 12]);
    assert_eq!(97i64.divisors(), vec![1, 97]);
}

#[test]
fn test_gcd_trait() {
    assert_eq!(48i64.gcd(&18), 6);
    assert_eq!(17i64.gcd(&23), 1);
    assert_eq!(0i64.gcd(&5), 5);
}

#[test]
fn test_lcm_trait() {
    assert_eq!(21i64.lcm(&6), 42);
    assert_eq!(5i64.lcm(&7), 35);
}

#[test]
fn gcd_lcm_trait_edges() {
    assert_eq!((-8i64).gcd(&-12), 4);
    assert_eq!(0i64.lcm(&7), 0);
    assert_eq!(i64::MIN.lcm(&i64::MAX), 85_070_591_730_234_615_856_620_279_821_087_277_056);
}

fn check_factors(n: u64, expected: &[(u64, u32)]) {
    let factors = prime_factorization(n);
    assert_eq!(factors.len(), expected.len());
    for (i, (prime, exp)) in expected.iter().enumerate() {
        assert_eq!(factors[i].prime, *prime);
        assert_eq!(factors[i].exponent, *exp);
    }
}

#[test]
fn test_prime_factorization() {
    check_factors(12, &[(2, 2), (3, 1)]);
    check_factors(28, &[(2, 2), (7, 1)]);
    check_factors(360, &[(2, 3), (3, 2), (5, 1)]);
    check_factors(9973, &[(9973, 1)]); // prime
}

#[test]
fn prime_factorization_edges() {
    check_factors(0, &[]);
    check_factors(1, &[]);
    check_factors(1 << 63, &[(2, 63)]);
}
