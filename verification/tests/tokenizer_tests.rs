use qalculate::meval::{Error, FuncEvalError};
use qalculate::meval::shunting_yard::{to_rpn, RPNError};
use qalculate::meval::tokenizer::{parse_func, parse_ident, parse_number, tokenize, Operation, ParseError, Token};
use qalculate::meval::tokenizer::Operation::{Div, Fact, Minus, Plus, Pow, Rem, Times};
use qalculate::meval::tokenizer::Token::{Binary, Comma, Func, LParen, RParen, Unary, Var};

fn num(s: &str) -> Token {
    Token::Number(s.to_string())
}

#[test]
fn test_tokenize() {
    assert_eq!(tokenize("a"), Ok(vec![Var("a".into())]));

    assert_eq!(
        tokenize("2 +(3--2) "),
        Ok(vec![num("2"), Binary(Plus), LParen, num("3"), Binary(Minus), Unary(Minus), num("2"), RParen])
    );

    assert_eq!(
        tokenize("-2^ ab0 *12 - C_0"),
        Ok(vec![
            Unary(Minus),
            num("2"),
            Binary(Pow),
            Var("ab0".into()),
            Binary(Times),
            num("12"),
            Binary(Minus),
            Var("C_0".into()),
        ])
    );

    assert_eq!(
        tokenize("-sin(pi * 3)^ cos(2) / Func2(x, f(y), z) * _buildIN(y)"),
        Ok(vec![
            Unary(Minus),
            Func("sin".into(), None),
            Var("pi".into()),
            Binary(Times),
            num("3"),
            RParen,
            Binary(Pow),
            Func("cos".into(), None),
            num("2"),
            RParen,
            Binary(Div),
            Func("Func2".into(), None),
            Var("x".into()),
            Comma,
            Func("f".into(), None),
            Var("y".into()),
            RParen,
            Comma,
            Var("z".into()),
            RParen,
            Binary(Times),
            Func("_buildIN".into(), None),
            Var("y".into()),
            RParen,
        ])
    );

    assert_eq!(tokenize("2 % 3"), Ok(vec![num("2"), Binary(Rem), num("3")]));

    assert_eq!(
        tokenize("1 + 3! + 1"),
        Ok(vec![num("1"), Binary(Plus), num("3"), Unary(Fact), Binary(Plus), num("1")])
    );

    assert_eq!(tokenize("!3"), Err(ParseError::UnexpectedToken(0)));

    assert_eq!(tokenize("()"), Err(ParseError::UnexpectedToken(1)));

    assert_eq!(tokenize(""), Err(ParseError::MissingArgument));
    assert_eq!(tokenize("2)"), Err(ParseError::UnexpectedToken(1)));
    assert_eq!(tokenize("2^"), Err(ParseError::MissingArgument));
    assert_eq!(tokenize("(((2)"), Err(ParseError::MissingRParen(2)));
    assert_eq!(tokenize("f(2,)"), Err(ParseError::UnexpectedToken(4)));
    assert_eq!(tokenize("f(,2)"), Err(ParseError::UnexpectedToken(2)));
}

#[test]
fn test_numbers() {
    assert_eq!(parse_number(b"32143", 0), Some((num("32143"), 5)));
    assert_eq!(parse_number(b"2.", 0), Some((num("2."), 2)));
    assert_eq!(parse_number(b"32143.25", 0), Some((num("32143.25"), 8)));
    assert_eq!(parse_number(b"0.125e9", 0), Some((num("0.125e9"), 7)));
    assert_eq!(parse_number(b"20.5E-3", 0), Some((num("20.5E-3"), 7)));
    assert_eq!(parse_number(b"123423e+50", 0), Some((num("123423e+50"), 10)));
    assert_eq!(parse_number(b"", 0), None);
    assert_eq!(parse_number(b".2", 0), None);
    assert_eq!(parse_number(b"+", 0), None);
    assert_eq!(parse_number(b"e", 0), None);
    assert_eq!(parse_number(b"1E", 0), None);
    assert_eq!(parse_number(b"1e+", 0), None);
}

#[test]
fn test_ident() {
    assert_eq!(parse_ident(b"abc", 0), Some(("abc", 3)));
    assert_eq!(parse_ident(b"U0", 0), Some(("U0", 2)));
    assert_eq!(parse_ident(b"_034", 0), Some(("_034", 4)));
    assert_eq!(parse_ident(b"a_be45EA", 0), Some(("a_be45EA", 8)));
    assert_eq!(parse_ident(b"aAzZ_", 0), Some(("aAzZ_", 5)));
    assert_eq!(parse_ident(b"", 0), None);
    assert_eq!(parse_ident(b"0", 0), None);
}

#[test]
fn test_func() {
    assert_eq!(parse_func(b"abc(", 0), Some((Func("abc".into(), None), 4)));
    assert_eq!(parse_func(b"abc (", 0), Some((Func("abc".into(), None), 5)));
    assert_eq!(parse_func(b"u0(", 0), Some((Func("u0".into(), None), 3)));
    assert_eq!(parse_func(b"_034 (", 0), Some((Func("_034".into(), None), 6)));
    assert_eq!(parse_func(b"A_be45EA  (", 0), Some((Func("A_be45EA".into(), None), 11)));
    assert_eq!(parse_func(b"", 0), None);
    assert_eq!(parse_func(b"(", 0), None);
    assert_eq!(parse_func(b"0(", 0), None);
}

#[test]
fn test_to_rpn() {
    assert_eq!(to_rpn(&[num("1")]), Ok(vec![num("1")]));
    assert_eq!(
        to_rpn(&[num("1"), Binary(Operation::Plus), num("2")]),
        Ok(vec![num("1"), num("2"), Binary(Operation::Plus)])
    );
    assert_eq!(
        to_rpn(&[Unary(Operation::Minus), num("1"), Binary(Operation::Pow), num("2")]),
        Ok(vec![num("1"), num("2"), Binary(Operation::Pow), Unary(Operation::Minus)])
    );
    assert_eq!(
        to_rpn(&[num("1"), Unary(Operation::Fact), Binary(Operation::Pow), num("2")]),
        Ok(vec![num("1"), Unary(Operation::Fact), num("2"), Binary(Operation::Pow)])
    );
    assert_eq!(
        to_rpn(&[
            num("1"),
            Unary(Operation::Fact),
            Binary(Operation::Div),
            LParen,
            num("2"),
            Binary(Operation::Plus),
            num("3"),
            RParen,
            Unary(Operation::Fact)
        ]),
        Ok(vec![
            num("1"),
            Unary(Operation::Fact),
            num("2"),
            num("3"),
            Binary(Operation::Plus),
            Unary(Operation::Fact),
            Binary(Operation::Div)
        ])
    );
    assert_eq!(
        to_rpn(&[num("3"), Binary(Operation::Minus), num("1"), Binary(Operation::Times), num("2")]),
        Ok(vec![num("3"), num("1"), num("2"), Binary(Operation::Times), Binary(Operation::Minus)])
    );
    assert_eq!(
        to_rpn(&[LParen, num("3"), Binary(Operation::Minus), num("1"), RParen, Binary(Operation::Times), num("2")]),
        Ok(vec![num("3"), num("1"), Binary(Operation::Minus), num("2"), Binary(Operation::Times)])
    );
    assert_eq!(
        to_rpn(&[num("1"), Binary(Operation::Minus), Unary(Operation::Minus), Unary(Operation::Minus), num("2")]),
        Ok(vec![
            num("1"),
            num("2"),
            Unary(Operation::Minus),
            Unary(Operation::Minus),
            Binary(Operation::Minus)
        ])
    );
    assert_eq!(
        to_rpn(&[Var("x".into()), Binary(Operation::Plus), Var("y".into())]),
        Ok(vec![Var("x".into()), Var("y".into()), Binary(Operation::Plus)])
    );

    assert_eq!(
        to_rpn(&[
            Func("max".into(), None),
            Func("sin".into(), None),
            num("1"),
            RParen,
            Comma,
            Func("cos".into(), None),
            num("2"),
            RParen,
            RParen
        ]),
        Ok(vec![
            num("1"),
            Func("sin".into(), Some(1)),
            num("2"),
            Func("cos".into(), Some(1)),
            Func("max".into(), Some(2))
        ])
    );

    assert_eq!(to_rpn(&[Binary(Operation::Plus)]), Err(RPNError::NotEnoughOperands(0)));
    assert_eq!(
        to_rpn(&[Func("f".into(), None), Binary(Operation::Plus), RParen]),
        Err(RPNError::NotEnoughOperands(0))
    );
    assert_eq!(to_rpn(&[Var("x".into()), num("1")]), Err(RPNError::TooManyOperands));
    assert_eq!(to_rpn(&[LParen]), Err(RPNError::MismatchedLParen(0)));
    assert_eq!(to_rpn(&[RParen]), Err(RPNError::MismatchedRParen(0)));
    assert_eq!(to_rpn(&[Func("sin".into(), None)]), Err(RPNError::MismatchedLParen(0)));
    assert_eq!(to_rpn(&[Comma]), Err(RPNError::UnexpectedComma(0)));
    assert_eq!(to_rpn(&[Func("f".into(), None), Comma]), Err(RPNError::MismatchedLParen(0)));
    assert_eq!(
        to_rpn(&[Func("f".into(), None), LParen, Comma, RParen]),
        Err(RPNError::UnexpectedComma(2))
    );
}

#[test]
fn tokenize_then_to_rpn() {
    let tokens = tokenize("2 * (3 + 4)").unwrap();
    assert_eq!(
        to_rpn(&tokens),
        Ok(vec![num("2"), num("3"), num("4"), Binary(Plus), Binary(Times)])
    );
}

#[test]
fn to_rpn_needs_an_operand() {
    assert_eq!(to_rpn(&[]), Err(RPNError::NotEnoughOperands(0)));
    assert_eq!(to_rpn(&[LParen, RParen]), Err(RPNError::NotEnoughOperands(0)));
}

#[test]
fn comma_only_separates_function_arguments() {
    assert_eq!(tokenize("(1,2)"), Err(ParseError::UnexpectedToken(2)));
    assert_eq!(tokenize("max((1,2))"), Err(ParseError::UnexpectedToken(6)));
    assert_eq!(
        tokenize("max(1,(2))"),
        Ok(vec![Func("max".into(), None), num("1"), Comma, LParen, num("2"), RParen, RParen])
    );
    assert_eq!(tokenize("1,2"), Err(ParseError::UnexpectedToken(1)));
}

#[test]
fn evaluation_error_messages() {
    assert_eq!(Error::UnknownVariable("x".to_string()).message(), "Evaluation error: unknown variable `x`.");
    assert_eq!(
        Error::Function("max".to_string(), FuncEvalError::NumberArgs(2)).message(),
        "Evaluation error: function `max`: Expected 2 arguments"
    );
    assert_eq!(
        Error::Function("f".to_string(), FuncEvalError::UnknownFunction).message(),
        "Evaluation error: function `f`: Unknown function"
    );
    assert_eq!(FuncEvalError::TooFewArguments.message(), "Too few arguments");
    assert_eq!(FuncEvalError::TooManyArguments.message(), "Too many arguments");
    assert_eq!(
        Error::ParseError(ParseError::MissingRParen(2)).message(),
        "Parse error: Missing 2 right parentheses."
    );
    assert_eq!(
        Error::RPNError(RPNError::TooManyOperands).message(),
        "RPN error: Too many operands left at the end of expression."
    );
    assert_eq!(Error::EvalError("oops".to_string()).message(), "Eval error: oops");
}
