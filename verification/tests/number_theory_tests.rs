use qalculate::number_theory::rounding::{abs, ceil, floor, round, signum, trunc, RoundingMode};
use qalculate::number_theory::{denominator, frac, modulo, numerator, rem};

#[test]
fn test_frac() {
    assert_eq!(frac(7, 4), (3, 4));
    assert_eq!(frac(-7, 4), (-3, 4));
    assert_eq!(frac(8, 4), (0, 4));
}

#[test]
fn test_rem() {
    assert_eq!(rem(7, 3), 1);
    assert_eq!(rem(-7, 3), -1);
    assert_eq!(rem(7, -3), 1);
}

#[test]
fn test_modulo() {
    assert_eq!(modulo(7, 3), 1);
    assert_eq!(modulo(-7, 3), 2);
    assert_eq!(modulo(7, 5), 2);
}

#[test]
fn test_numerator_denominator() {
    assert_eq!(numerator(7, 3), 7);
    assert_eq!(denominator(7, 3), 3);
    assert_eq!(numerator(-7, 3), -7);
    assert_eq!(denominator(-7, 3), 3);
}

#[test]
fn test_rounding() {
    assert_eq!(round(7, 3, RoundingMode::HalfToEven), 2);
    assert_eq!(round(5, 2, RoundingMode::HalfToEven), 2);
}

#[test]
fn test_abs() {
    assert_eq!(abs(7, 3), (7, 3));
    assert_eq!(abs(-7, 3), (7, 3));
    assert_eq!(abs(7, -3), (7, 3));
}

#[test]
fn test_ceil() {
    assert_eq!(ceil(7, 3), 3);
    assert_eq!(ceil(-7, 3), -2);
    assert_eq!(ceil(6, 3), 2);
    assert_eq!(ceil(-6, 3), -2);
    assert_eq!(ceil(1, 2), 1);
    assert_eq!(ceil(-1, 2), 0);
}

#[test]
fn test_floor() {
    assert_eq!(floor(7, 3), 2);
    assert_eq!(floor(-7, 3), -3);
    assert_eq!(floor(6, 3), 2);
    assert_eq!(floor(-6, 3), -2);
    assert_eq!(floor(1, 2), 0);
    assert_eq!(floor(-1, 2), -1);
}

#[test]
fn test_trunc() {
    assert_eq!(trunc(7, 3), 2);
    assert_eq!(trunc(-7, 3), -2);
    assert_eq!(trunc(6, 3), 2);
    assert_eq!(trunc(1, 2), 0);
    assert_eq!(trunc(-1, 2), 0);
}

#[test]
fn test_round_half_to_even() {
    assert_eq!(round(7, 3, RoundingMode::HalfToEven), 2);
    assert_eq!(round(8, 3, RoundingMode::HalfToEven), 3);
    assert_eq!(round(5, 2, RoundingMode::HalfToEven), 2);
    assert_eq!(round(7, 2, RoundingMode::HalfToEven), 4);
    assert_eq!(round(9, 2, RoundingMode::HalfToEven), 4);
    assert_eq!(round(11, 2, RoundingMode::HalfToEven), 6);
}

#[test]
fn test_round_half_away_from_zero() {
    assert_eq!(round(7, 3, RoundingMode::HalfAwayFromZero), 2);
    assert_eq!(round(8, 3, RoundingMode::HalfAwayFromZero), 3);
    assert_eq!(round(5, 2, RoundingMode::HalfAwayFromZero), 3);
    assert_eq!(round(-5, 2, RoundingMode::HalfAwayFromZero), -3);
}

#[test]
fn test_signum() {
    assert_eq!(signum(-5), -1);
    assert_eq!(signum(0), 0);
    assert_eq!(signum(5), 1);
}

#[test]
fn modulo_with_wide_divisors() {
    assert_eq!(modulo(-1, i64::MAX), i64::MAX - 1);
    assert_eq!(modulo(i64::MIN, i64::MAX), i64::MAX - 1);
    assert_eq!(modulo(i64::MIN, -1), 0);
    assert_eq!(modulo(5, i64::MIN), i64::MIN + 5);
    assert_eq!(modulo(-5, -3), -2);
}
