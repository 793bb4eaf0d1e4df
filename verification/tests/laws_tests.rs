use qalculate::meval::shunting_yard::to_rpn;
use qalculate::meval::tokenizer::{tokenize, Operation, ParseError, Token};
use qalculate::number_theory::primes::bernoulli;
use qalculate::number_theory::rounding::{ceil, floor, round, trunc, RoundingMode};
use qalculate::number_theory::totient::totient;
use qalculate::number_theory::traits::{Gcd, Lcm};
use qalculate::number_theory::{frac, gcd, lcm, rem};

#[test]
fn totient_is_multiplicative_on_coprime_numbers() {
    assert_eq!(totient(15), totient(3) * totient(5));
    assert_eq!(totient(4 * 9), totient(4) * totient(9));
    assert_eq!(totient(8 * 27 * 25), totient(8) * totient(27) * totient(25));
    // not for numbers with a common factor
    assert_ne!(totient(4), totient(2) * totient(2));
}

#[test]
fn totient_of_prime_powers() {
    assert_eq!(totient(2i64.pow(10)), 2u64.pow(10) - 2u64.pow(9));
    assert_eq!(totient(3i64.pow(5)), 3u64.pow(5) - 3u64.pow(4));
    assert_eq!(totient(9973), 9972);
}

#[test]
fn gcd_times_lcm_is_the_product() {
    for (a, b) in [(12i64, 18i64), (-4, 6), (7, 13), (0, 5), (i64::MAX, 2)] {
        assert_eq!(a.gcd(&b) as u128 * a.lcm(&b), (a as i128 * b as i128).unsigned_abs());
    }
}

#[test]
fn gcd_and_lcm_of_lists_divide_and_are_divided() {
    let values = [84i64, -126, 210];
    let g = gcd(&values);
    let l = lcm(&values).unwrap();
    assert_eq!(g, 42);
    assert_eq!(l, 1260);
    for v in values {
        assert_eq!(v as i128 % g, 0);
        assert_eq!(l % v.abs() as i128, 0);
    }
}

#[test]
fn rounding_lies_between_floor_and_ceiling() {
    let modes = [
        RoundingMode::HalfToEven,
        RoundingMode::HalfAwayFromZero,
        RoundingMode::HalfTowardZero,
        RoundingMode::HalfUp,
        RoundingMode::HalfDown,
        RoundingMode::Up,
        RoundingMode::Down,
        RoundingMode::TowardZero,
        RoundingMode::AwayFromZero,
    ];
    for (n, d) in [(7i64, 3i64), (-7, 3), (5, 2), (-5, 2), (6, 3), (7, -2)] {
        for mode in modes {
            let r = round(n, d, mode);
            assert!(floor(n, d) <= r && r <= ceil(n, d));
        }
        assert!(ceil(n, d) - floor(n, d) <= 1);
    }
}

#[test]
fn nearest_modes_are_within_one_half() {
    for (n, d) in [(7i64, 3i64), (-7, 3), (5, 2), (-5, 2), (11, 4), (-11, 4)] {
        for mode in [RoundingMode::HalfToEven, RoundingMode::HalfUp, RoundingMode::HalfDown] {
            let r = round(n, d, mode);
            assert!(2 * (n - r * d).abs() <= d.abs());
        }
    }
    // ties go to the even neighbour
    assert_eq!(round(5, 2, RoundingMode::HalfToEven), 2);
    assert_eq!(round(7, 2, RoundingMode::HalfToEven), 4);
    assert_eq!(round(-5, 2, RoundingMode::HalfToEven), -2);
}

#[test]
fn truncation_rounds_toward_zero() {
    assert_eq!(trunc(7, 2), floor(7, 2));
    assert_eq!(trunc(-7, 2), ceil(-7, 2));
}

#[test]
fn fractional_part_is_the_remainder() {
    for (n, d) in [(7i64, 4i64), (-7, 4), (7, -4), (8, 4)] {
        assert_eq!(frac(n, d).0, rem(n, d));
    }
}

#[test]
fn tokens_of_the_tokenizer_always_convert() {
    for s in ["1", "-(2+3)*4!", "max(1, 2, sin(x))^-2", "a % b - c / d"] {
        let tokens = tokenize(s).unwrap();
        assert!(to_rpn(&tokens).is_ok());
    }
}

#[test]
fn whitespace_after_an_expression_changes_nothing() {
    for s in ["1 + x", "sin(2) * 3!", "2 +", "(1", "1 $ 2", "max(1, 2"] {
        assert_eq!(tokenize(format!("{} \t\r\n", s).as_str()), tokenize(s));
    }
}

#[test]
fn whitespace_before_an_expression_moves_error_positions() {
    assert_eq!(tokenize("  \t1 + x"), tokenize("1 + x"));
    assert_eq!(tokenize("!3"), Err(ParseError::UnexpectedToken(0)));
    assert_eq!(tokenize("   !3"), Err(ParseError::UnexpectedToken(3)));
    assert_eq!(tokenize("  (1"), Err(ParseError::MissingRParen(1)));
    assert_eq!(tokenize(" 1 +"), Err(ParseError::MissingArgument));
}

#[test]
fn unexpected_tokens_are_reported_where_they_stand() {
    for s in ["1 $ 2", "1 2", "  )", "f(1,,2)", "(1, 2)"] {
        match tokenize(s) {
            Err(ParseError::UnexpectedToken(i)) => {
                assert!(i < s.len());
                assert!(!s.as_bytes()[i].is_ascii_whitespace());
            }
            other => panic!("{:?}", other),
        }
    }
}

#[test]
fn missing_parentheses_are_repaired_by_appending_them() {
    for s in ["(1", "max(1, (2", "((((x", "sin(cos(2)"] {
        match tokenize(s) {
            Err(ParseError::MissingRParen(k)) => {
                assert!(k >= 1);
                let closed = format!("{}{}", s, ")".repeat(k as usize));
                assert!(tokenize(closed.as_str()).is_ok());
            }
            other => panic!("{:?}", other),
        }
    }
}

#[test]
fn totient_counts_the_coprime_numbers() {
    for n in [1i64, 2, 9, 12, 30, 97, 360, -36, 1001] {
        let m = n.abs();
        let coprime = (1..=m).filter(|&k| gcd(&[k, n]) == 1).count() as u64;
        assert_eq!(totient(n), coprime);
    }
}

fn fraction_gcd(a: i128, b: i128) -> i128 {
    if b == 0 { a.abs() } else { fraction_gcd(b, a % b) }
}

#[test]
fn bernoulli_numbers_satisfy_their_recurrence() {
    // sum over k = 0..=m of C(m + 1, k) * B_k is zero for m >= 1
    assert_eq!(bernoulli(0), Some((1, 1)));
    for m in 1u64..=29 {
        let n = m + 1;
        let mut binom: i128 = 1;
        let (mut num, mut den): (i128, i128) = (0, 1);
        for k in 0..=m {
            let (bn, bd) = bernoulli(k).unwrap();
            num = num * bd as i128 + binom * bn as i128 * den;
            den *= bd as i128;
            let g = fraction_gcd(num, den);
            num /= g;
            den /= g;
            binom = binom * (n - k) as i128 / (k + 1) as i128;
        }
        assert_eq!(num, 0, "m = {}", m);
    }
    assert_eq!(bernoulli(30), None);
}

#[test]
fn tokens_start_an_operand_and_calls_are_uncounted() {
    for s in ["-sin(x) + 2", "(1)", "max(1, 2) * y", "+3!", "f(g(1), 2)"] {
        let ts = tokenize(s).unwrap();
        assert!(matches!(
            ts[0],
            Token::Number(_) | Token::Var(_) | Token::Func(_, _) | Token::LParen
                | Token::Unary(Operation::Plus) | Token::Unary(Operation::Minus)
        ));
        for t in &ts {
            if let Token::Func(_, n) = t {
                assert_eq!(*n, None);
            }
        }
    }
}

#[test]
fn postfix_output_rearranges_the_operations() {
    for s in ["1 + 2 * 3", "-(2 ^ 3)! / x", "max(1, -2, 3 % 4) - f(y)", "2 ^ 3 ^ 4 - 1"] {
        let ts = tokenize(s).unwrap();
        let out = to_rpn(&ts).unwrap();
        let ops = |v: &Vec<Token>| -> Vec<Token> {
            v.iter().filter(|t| matches!(t, Token::Unary(_) | Token::Binary(_))).cloned().collect()
        };
        let (a, b) = (ops(&ts), ops(&out));
        assert_eq!(a.len(), b.len());
        for t in &a {
            assert_eq!(a.iter().filter(|u| *u == t).count(), b.iter().filter(|u| *u == t).count());
        }
        for t in &out {
            assert!(!matches!(t, Token::LParen | Token::RParen | Token::Comma));
            if let Token::Func(_, n) = t {
                assert!(n.unwrap() >= 1);
            }
        }
    }
}
