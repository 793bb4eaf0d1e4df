//! Implementation of the shunting-yard algorithm for converting an infix expression to an
//! expression in reverse Polish notation (RPN).
use vstd::prelude::*;
use crate::meval::tokenizer::{Operation, Token, TokenView, tokens_view, tokenize_spec, tokenize_from, next_token_spec, ws_end, after_operand_after, parens_after, in_func_call, lemma_ws_end, lemma_next_token_advances};

verus! {

/// Associativity of an operator.
#[derive(Debug, Clone, Copy, PartialEq, Eq, Structural)]
pub enum Associativity {
    Left,
    Right,
    NA,
}

/// An error produced by the shunting-yard algorithm.
#[derive(Debug, Clone, Copy, PartialEq, Eq, Structural)]
pub enum RPNError {
    /// An extra left parenthesis was found.
    MismatchedLParen(usize),
    /// An extra right parenthesis was found.
    MismatchedRParen(usize),
    /// Comma that is not separating function arguments.
    UnexpectedComma(usize),
    /// Too few operands for some operator.
    NotEnoughOperands(usize),
    /// Too many operands reported.
    TooManyOperands,
}

/// The short description of an RPN error.
/// The text of a shunting-yard error, as it is displayed.
pub open spec fn rpn_error_message(e: RPNError) -> Seq<char> {
    match e {
        RPNError::MismatchedLParen(i) => "Mismatched left parenthesis at token "@
            + crate::text::digits(i as nat, 10) + "."@,
        RPNError::MismatchedRParen(i) => "Mismatched right parenthesis at token "@
            + crate::text::digits(i as nat, 10) + "."@,
        RPNError::UnexpectedComma(i) => "Unexpected comma at token "@ + crate::text::digits(i as nat, 10),
        RPNError::NotEnoughOperands(i) => "Missing operands at token "@ + crate::text::digits(i as nat, 10),
        RPNError::TooManyOperands => "Too many operands left at the end of expression."@,
    }
}

pub open spec fn rpn_error_description(e: RPNError) -> Seq<char> {
    match e {
        RPNError::MismatchedLParen(_) => "mismatched left parenthesis"@,
        RPNError::MismatchedRParen(_) => "mismatched right parenthesis"@,
        RPNError::UnexpectedComma(_) => "unexpected comma"@,
        RPNError::NotEnoughOperands(_) => "missing operands"@,
        RPNError::TooManyOperands => "too many operands left at the end of expression"@,
    }
}

impl RPNError {
    /// A short description of the kind of error.
    pub fn description(&self) -> (r: &'static str)
        ensures
            r@ == rpn_error_description(*self),
    {
        match self {
            RPNError::MismatchedLParen(_) => "mismatched left parenthesis",
            RPNError::MismatchedRParen(_) => "mismatched right parenthesis",
            RPNError::UnexpectedComma(_) => "unexpected comma",
            RPNError::NotEnoughOperands(_) => "missing operands",
            RPNError::TooManyOperands => "too many operands left at the end of expression",
        }
    }

    /// The description of the error, as it is displayed.
    pub fn message(&self) -> (r: String)
        ensures
            r@ == rpn_error_message(*self),
    {
        let mut out = String::new();
        match self {
            RPNError::MismatchedLParen(i) => {
                out.append("Mismatched left parenthesis at token ");
                crate::text::push_chars(&mut out, crate::text::digits_of(*i as u64, 10).as_slice());
                out.append(".");
            },
            RPNError::MismatchedRParen(i) => {
                out.append("Mismatched right parenthesis at token ");
                crate::text::push_chars(&mut out, crate::text::digits_of(*i as u64, 10).as_slice());
                out.append(".");
            },
            RPNError::UnexpectedComma(i) => {
                out.append("Unexpected comma at token ");
                crate::text::push_chars(&mut out, crate::text::digits_of(*i as u64, 10).as_slice());
            },
            RPNError::NotEnoughOperands(i) => {
                out.append("Missing operands at token ");
                crate::text::push_chars(&mut out, crate::text::digits_of(*i as u64, 10).as_slice());
            },
            RPNError::TooManyOperands => {
                out.append("Too many operands left at the end of expression.");
            },
        }
        out
    }
}

/// Precedence and associativity of a token; `None` for an operation that cannot stand
/// in that place (a binary factorial, or a unary `*`, `/`, `%` or `^`).
pub open spec fn prec_assoc_spec(t: TokenView) -> Option<(u32, Associativity)> {
    match t {
        TokenView::Binary(op) => match op {
            Operation::Plus | Operation::Minus => Some((1u32, Associativity::Left)),
            Operation::Times | Operation::Div | Operation::Rem => Some((2u32, Associativity::Left)),
            Operation::Pow => Some((4u32, Associativity::Right)),
            Operation::Fact => None,
        },
        TokenView::Unary(op) => match op {
            Operation::Plus | Operation::Minus => Some((3u32, Associativity::NA)),
            Operation::Fact => Some((5u32, Associativity::NA)),
            _ => None,
        },
        _ => Some((0u32, Associativity::NA)),
    }
}

/// Returns the operator precedence and associativity for a given token.
pub fn prec_assoc(token: &Token) -> (r: (u32, Associativity))
    requires
        prec_assoc_spec(token@) is Some,
    ensures
        prec_assoc_spec(token@) == Some(r),
{
    match token {
        Token::Binary(op) => match op {
            Operation::Plus | Operation::Minus => (1, Associativity::Left),
            Operation::Times | Operation::Div | Operation::Rem => (2, Associativity::Left),
            _ => (4, Associativity::Right),
        },
        Token::Unary(op) => match op {
            Operation::Plus | Operation::Minus => (3, Associativity::NA),
            _ => (5, Associativity::NA),
        },
        _ => (0, Associativity::NA),
    }
}

/// An operator of precedence and associativity `pa2` on the stack goes to the output
/// before a binary operator of `pa1` is pushed.
pub open spec fn pops_before(pa1: (u32, Associativity), pa2: (u32, Associativity)) -> bool {
    (pa1.1 == Associativity::Left && pa1.0 <= pa2.0) || (pa1.1 == Associativity::Right && pa1.0 < pa2.0)
}

/// The operator stack, each entry with the index of its token in the input.
pub type StackView = Seq<(usize, TokenView)>;

/// Moves operators from the stack to the output while they bind at least as tightly as
/// a binary operator of `pa1`. `None` where a precedence is asked of an invalid token.
pub open spec fn pop_ops(out: Seq<TokenView>, stack: StackView, pa1: (u32, Associativity)) -> Option<(Seq<TokenView>, StackView)>
    decreases stack.len(),
{
    if stack.len() == 0 {
        Some((out, stack))
    } else {
        match prec_assoc_spec(stack.last().1) {
            None => None,
            Some(pa2) => if pops_before(pa1, pa2) {
                pop_ops(out.push(stack.last().1), stack.drop_last(), pa1)
            } else {
                Some((out, stack))
            },
        }
    }
}

/// A function token with one more argument; `None` where the count overflows.
pub open spec fn one_more_arg(name: Seq<char>, nargs: Option<usize>) -> Option<TokenView> {
    let n = match nargs { Some(k) => k as int, None => 0 } + 1;
    if n <= usize::MAX { Some(TokenView::Func(name, Some(n as usize))) } else { None }
}

/// A `)`: moves operators to the output up to the matching `(` or function call, which
/// it removes (a function call goes to the output with one more argument). The boolean
/// tells whether a match was found. `None` where an argument count overflows.
pub open spec fn close_paren(out: Seq<TokenView>, stack: StackView) -> Option<(bool, Seq<TokenView>, StackView)>
    decreases stack.len(),
{
    if stack.len() == 0 {
        Some((false, out, stack))
    } else {
        let t = stack.last().1;
        match t {
            TokenView::LParen => Some((true, out, stack.drop_last())),
            TokenView::Func(name, nargs) => match one_more_arg(name, nargs) {
                None => None,
                Some(f) => Some((true, out.push(f), stack.drop_last())),
            },
            _ => close_paren(out.push(t), stack.drop_last()),
        }
    }
}

/// A `,` at input position `index`: moves operators to the output up to the enclosing
/// function call, which gets one more argument.
pub open spec fn comma(out: Seq<TokenView>, stack: StackView, index: usize) -> Option<Result<(Seq<TokenView>, StackView), RPNError>>
    decreases stack.len(),
{
    if stack.len() == 0 {
        Some(Err(RPNError::UnexpectedComma(index)))
    } else {
        let (i, t) = stack.last();
        match t {
            TokenView::LParen => Some(Err(RPNError::UnexpectedComma(index))),
            TokenView::Func(name, nargs) => match one_more_arg(name, nargs) {
                None => None,
                Some(f) => Some(Ok((out, stack.drop_last().push((i, f))))),
            },
            _ => comma(out.push(t), stack.drop_last(), index),
        }
    }
}

/// One token of the infix input, at position `index`.
pub open spec fn shunt_step(t: TokenView, index: usize, out: Seq<TokenView>, stack: StackView) -> Option<Result<(Seq<TokenView>, StackView), RPNError>> {
    match t {
        TokenView::Number(_) | TokenView::Var(_) => Some(Ok((out.push(t), stack))),
        TokenView::Unary(_) | TokenView::LParen | TokenView::Func(_, _) => Some(Ok((out, stack.push((index, t))))),
        TokenView::Binary(_) => match prec_assoc_spec(t) {
            None => None,
            Some(pa1) => match pop_ops(out, stack, pa1) {
                None => None,
                Some((o, s)) => Some(Ok((o, s.push((index, t))))),
            },
        },
        TokenView::RParen => match close_paren(out, stack) {
            None => None,
            Some((found, o, s)) => if found { Some(Ok((o, s))) } else { Some(Err(RPNError::MismatchedRParen(index))) },
        },
        TokenView::Comma => comma(out, stack, index),
    }
}

/// The output and the stack after the tokens of `input` from position `i` on.
pub open spec fn shunt(input: Seq<TokenView>, i: int, out: Seq<TokenView>, stack: StackView) -> Option<Result<(Seq<TokenView>, StackView), RPNError>>
    decreases input.len() - i,
{
    if i < 0 || i >= input.len() {
        Some(Ok((out, stack)))
    } else {
        match shunt_step(input[i], i as usize, out, stack) {
            None => None,
            Some(Err(e)) => Some(Err(e)),
            Some(Ok((o, s))) => shunt(input, i + 1, o, s),
        }
    }
}

/// Moves what is left on the stack to the output; a `(` or function call left there
/// is an error.
pub open spec fn drain(out: Seq<TokenView>, stack: StackView) -> Option<Result<Seq<TokenView>, RPNError>>
    decreases stack.len(),
{
    if stack.len() == 0 {
        Some(Ok(out))
    } else {
        let (i, t) = stack.last();
        match t {
            TokenView::Unary(_) | TokenView::Binary(_) => drain(out.push(t), stack.drop_last()),
            TokenView::LParen | TokenView::Func(_, _) => Some(Err(RPNError::MismatchedLParen(i))),
            _ => None,
        }
    }
}

/// How a token of the output changes the number of operands on an evaluation stack.
pub open spec fn operand_delta(t: TokenView) -> Option<int> {
    match t {
        TokenView::Number(_) | TokenView::Var(_) => Some(1),
        TokenView::Unary(_) => Some(0),
        TokenView::Binary(_) => Some(-1),
        TokenView::Func(_, Some(n)) => Some(1 - n),
        _ => None,
    }
}

/// Checks the output from position `i` on, with `n` operands so far: there must be at
/// least one operand after each token, and exactly one at the end.
pub open spec fn verify_from(out: Seq<TokenView>, i: int, n: int) -> Option<Result<(), RPNError>>
    decreases out.len() - i,
{
    if i < 0 || i >= out.len() {
        if n > 1 {
            Some(Err(RPNError::TooManyOperands))
        } else if n < 1 {
            Some(Err(RPNError::NotEnoughOperands(out.len() as usize)))
        } else {
            Some(Ok(()))
        }
    } else {
        match operand_delta(out[i]) {
            None => None,
            Some(d) => if n + d <= 0 {
                Some(Err(RPNError::NotEnoughOperands(i as usize)))
            } else {
                verify_from(out, i + 1, n + d)
            },
        }
    }
}

/// The shunting-yard conversion of `input`; `None` where the algorithm cannot go on (an
/// invalid operation, or an argument count that overflows).
pub open spec fn to_rpn_spec(input: Seq<TokenView>) -> Option<Result<Seq<TokenView>, RPNError>> {
    match shunt(input, 0, Seq::empty(), Seq::empty()) {
        None => None,
        Some(Err(e)) => Some(Err(e)),
        Some(Ok((out, stack))) => match drain(out, stack) {
            None => None,
            Some(Err(e)) => Some(Err(e)),
            Some(Ok(o)) => match verify_from(o, 0, 0) {
                None => None,
                Some(Err(e)) => Some(Err(e)),
                Some(Ok(())) => Some(Ok(o)),
            },
        },
    }
}


/// The operator stack, each entry by its view.
pub open spec fn stack_view(s: Seq<(usize, Token)>) -> StackView {
    s.map_values(|e: (usize, Token)| (e.0, e.1@))
}

proof fn lemma_stack_push(s: Seq<(usize, Token)>, e: (usize, Token))
    ensures
        stack_view(s.push(e)) == stack_view(s).push((e.0, e.1@)),
{
    assert(stack_view(s.push(e)) =~= stack_view(s).push((e.0, e.1@)));
}

proof fn lemma_stack_pop(s: Seq<(usize, Token)>)
    requires
        s.len() > 0,
    ensures
        stack_view(s.drop_last()) == stack_view(s).drop_last(),
        stack_view(s).last() == (s.last().0, s.last().1@),
{
    assert(stack_view(s.drop_last()) =~= stack_view(s).drop_last());
}

proof fn lemma_tokens_push(s: Seq<Token>, t: Token)
    ensures
        tokens_view(s.push(t)) == tokens_view(s).push(t@),
{
    assert(tokens_view(s.push(t)) =~= tokens_view(s).push(t@));
}

/// A function token with one more argument.
fn with_one_more_arg(name: String, nargs: Option<usize>) -> (r: Token)
    requires
        one_more_arg(name@, nargs) is Some,
    ensures
        one_more_arg(name@, nargs) == Some(r@),
{
    let n = match nargs {
        Some(k) => k,
        None => 0,
    };
    Token::Func(name, Some(n + 1))
}

/// Converts a tokenized infix expression to reverse Polish notation.
///
/// Returns `Err` if the input expression is not well-formed; an expression without an
/// operand (no tokens at all, or only parentheses) is reported as `NotEnoughOperands`
/// at the end of the output. On success the output is a non-empty postfix expression.
/// The requirement excludes
/// the inputs on which the algorithm cannot go on: a binary factorial or a unary `*`,
/// `/`, `%` or `^` whose precedence it asks for, or an argument count that overflows.
pub fn to_rpn(input: &[Token]) -> (r: Result<Vec<Token>, RPNError>)
    requires
        to_rpn_spec(tokens_view(input@)) is Some,
    ensures
        match to_rpn_spec(tokens_view(input@)) {
            Some(Ok(ts)) => r matches Ok(v) && tokens_view(v@) == ts,
            Some(Err(e)) => r == Err::<Vec<Token>, RPNError>(e),
            None => false,
        },
        r matches Ok(v) ==> v@.len() > 0,
{
    let ghost tv = tokens_view(input@);
    let mut output: Vec<Token> = Vec::with_capacity(input.len());
    let mut stack: Vec<(usize, Token)> = Vec::with_capacity(input.len());
    let ghost start = shunt(tv, 0, Seq::empty(), Seq::empty());
    proof {
        assert(tokens_view(output@) =~= Seq::<TokenView>::empty());
        assert(stack_view(stack@) =~= Seq::<(usize, TokenView)>::empty());
    }

    let mut index: usize = 0;
    while index < input.len()
        invariant
            tv == tokens_view(input@),
            index <= input@.len(),
            start == shunt(tv, 0, Seq::empty(), Seq::empty()),
            start is Some,
            start == shunt(tv, index as int, tokens_view(output@), stack_view(stack@)),
        decreases input@.len() - index,
    {
        let token = input[index].copy();
        let ghost t = token@;
        let ghost out0 = tokens_view(output@);
        let ghost stack0 = stack_view(stack@);
        assert(tv[index as int] == t);
        assert(shunt(tv, index as int, out0, stack0) == match shunt_step(t, index, out0, stack0) {
            None => None,
            Some(Err(e)) => Some(Err(e)),
            Some(Ok((o, s))) => shunt(tv, index + 1, o, s),
        });
        match token {
            Token::Number(_) | Token::Var(_) => {
                proof { lemma_tokens_push(output@, token); }
                output.push(token);
            },
            Token::Unary(_) | Token::LParen | Token::Func(..) => {
                proof { lemma_stack_push(stack@, (index, token)); }
                stack.push((index, token));
            },
            Token::Binary(_) => {
                let pa1 = prec_assoc(&token);
                while stack.len() > 0
                    invariant
                        pop_ops(out0, stack0, pa1) == pop_ops(tokens_view(output@), stack_view(stack@), pa1),
                        pop_ops(out0, stack0, pa1) is Some,
                    ensures
                        pop_ops(out0, stack0, pa1) == Some((tokens_view(output@), stack_view(stack@))),
                    decreases stack@.len(),
                {
                    proof { lemma_stack_pop(stack@); }
                    let pa2 = prec_assoc(&stack[stack.len() - 1].1);
                    if (pa1.1 == Associativity::Left && pa1.0 <= pa2.0)
                        || (pa1.1 == Associativity::Right && pa1.0 < pa2.0) {
                        let ghost s1 = stack@;
                        let (_, top) = stack.pop().unwrap();
                        proof {
                            lemma_tokens_push(output@, top);
                            assert(s1.drop_last() == stack@);
                        }
                        output.push(top);
                    } else {
                        break;
                    }
                }
                proof { lemma_stack_push(stack@, (index, token)); }
                stack.push((index, token));
            },
            Token::RParen => {
                let mut found = false;
                loop
                    invariant_except_break
                        close_paren(out0, stack0) == close_paren(tokens_view(output@), stack_view(stack@)),
                        close_paren(out0, stack0) is Some,
                        !found,
                    ensures
                        close_paren(out0, stack0) == Some((found, tokens_view(output@), stack_view(stack@))),
                    decreases stack@.len(),
                {
                    if stack.len() == 0 {
                        break;
                    }
                    proof { lemma_stack_pop(stack@); }
                    let ghost s1 = stack@;
                    let (_, t) = stack.pop().unwrap();
                    proof { assert(s1.drop_last() == stack@); }
                    match t {
                        Token::LParen => {
                            found = true;
                            break;
                        },
                        Token::Func(name, nargs) => {
                            found = true;
                            let f = with_one_more_arg(name, nargs);
                            proof { lemma_tokens_push(output@, f); }
                            output.push(f);
                            break;
                        },
                        _ => {
                            proof { lemma_tokens_push(output@, t); }
                            output.push(t);
                        },
                    }
                }
                if !found {
                    return Err(RPNError::MismatchedRParen(index));
                }
            },
            Token::Comma => {
                let mut found = false;
                proof {
                    assert(start == match comma(out0, stack0, index) {
                        None => None,
                        Some(Err(e)) => Some(Err(e)),
                        Some(Ok((o, s))) => shunt(tv, index + 1, o, s),
                    });
                }
                loop
                    invariant_except_break
                        tv == tokens_view(input@),
                        start == shunt(tv, 0, Seq::empty(), Seq::empty()),
                        start == match comma(out0, stack0, index) {
                            None => None,
                            Some(Err(e)) => Some(Err(e)),
                            Some(Ok((o, s))) => shunt(tv, index + 1, o, s),
                        },
                        comma(out0, stack0, index) == comma(tokens_view(output@), stack_view(stack@), index),
                        comma(out0, stack0, index) is Some,
                        !found,
                    ensures
                        found ==> comma(out0, stack0, index) == Some(Ok::<(Seq<TokenView>, StackView), RPNError>((tokens_view(output@), stack_view(stack@)))),
                        !found ==> comma(out0, stack0, index) == Some(Err::<(Seq<TokenView>, StackView), RPNError>(RPNError::UnexpectedComma(index))),
                    decreases stack@.len(),
                {
                    if stack.len() == 0 {
                        break;
                    }
                    proof { lemma_stack_pop(stack@); }
                    let ghost s1 = stack@;
                    let (i, t) = stack.pop().unwrap();
                    proof { assert(s1.drop_last() == stack@); }
                    match t {
                        Token::LParen => {
                            return Err(RPNError::UnexpectedComma(index));
                        },
                        Token::Func(name, nargs) => {
                            found = true;
                            let f = with_one_more_arg(name, nargs);
                            proof { lemma_stack_push(stack@, (i, f)); }
                            stack.push((i, f));
                            break;
                        },
                        _ => {
                            proof { lemma_tokens_push(output@, t); }
                            output.push(t);
                        },
                    }
                }
                if !found {
                    return Err(RPNError::UnexpectedComma(index));
                }
            },
        }
        index += 1;
    }

    let ghost out1 = tokens_view(output@);
    let ghost stack1 = stack_view(stack@);
    assert(start == Some(Ok::<(Seq<TokenView>, StackView), RPNError>((out1, stack1))));
    while stack.len() > 0
        invariant
            tv == tokens_view(input@),
            start == shunt(tv, 0, Seq::empty(), Seq::empty()),
            start == Some(Ok::<(Seq<TokenView>, StackView), RPNError>((out1, stack1))),
            drain(out1, stack1) == drain(tokens_view(output@), stack_view(stack@)),
            drain(out1, stack1) is Some,
        decreases stack@.len(),
    {
        proof { lemma_stack_pop(stack@); }
        let ghost s1 = stack@;
        let (index, token) = stack.pop().unwrap();
        proof { assert(s1.drop_last() == stack@); }
        match token {
            Token::Unary(_) | Token::Binary(_) => {
                proof { lemma_tokens_push(output@, token); }
                output.push(token);
            },
            _ => {
                return Err(RPNError::MismatchedLParen(index));
            },
        }
    }

    // verify rpn
    let ghost out2 = tokens_view(output@);
    assert(drain(out1, stack1) == Some(Ok::<Seq<TokenView>, RPNError>(out2)));
    let mut n_operands: i128 = 0;
    let mut index: usize = 0;
    while index < output.len()
        invariant
            tv == tokens_view(input@),
            start == shunt(tv, 0, Seq::empty(), Seq::empty()),
            start == Some(Ok::<(Seq<TokenView>, StackView), RPNError>((out1, stack1))),
            drain(out1, stack1) == Some(Ok::<Seq<TokenView>, RPNError>(out2)),
            out2 == tokens_view(output@),
            index <= output@.len(),
            0 <= n_operands <= index,
            verify_from(out2, 0, 0) == verify_from(out2, index as int, n_operands as int),
            verify_from(out2, 0, 0) is Some,
        decreases output@.len() - index,
    {
        assert(out2[index as int] == output@[index as int]@);
        match &output[index] {
            Token::Var(_) | Token::Number(_) => {
                n_operands += 1;
            },
            Token::Unary(_) => {},
            Token::Binary(_) => {
                n_operands -= 1;
            },
            Token::Func(_, Some(n_args)) => {
                n_operands -= *n_args as i128 - 1;
            },
            _ => {},
        }
        if n_operands <= 0 {
            return Err(RPNError::NotEnoughOperands(index));
        }
        index += 1;
    }

    if n_operands > 1 {
        return Err(RPNError::TooManyOperands);
    }
    if n_operands < 1 {
        return Err(RPNError::NotEnoughOperands(output.len()));
    }
    proof {
        lemma_to_rpn_valid_postfix(tv);
    }
    Ok(output)
}


/// A number or a variable.
pub open spec fn is_operand(t: TokenView) -> bool {
    t is Number || t is Var
}

/// The numbers and variables of a token sequence, in order.
pub open spec fn operands(s: Seq<TokenView>) -> Seq<TokenView>
    decreases s.len(),
{
    if s.len() == 0 {
        Seq::empty()
    } else if is_operand(s.last()) {
        operands(s.drop_last()).push(s.last())
    } else {
        operands(s.drop_last())
    }
}

proof fn lemma_operands_push(s: Seq<TokenView>, t: TokenView)
    ensures
        operands(s.push(t)) == if is_operand(t) { operands(s).push(t) } else { operands(s) },
{
    assert(s.push(t).drop_last() =~= s);
}

/// A unary or binary operation.
pub open spec fn is_operator(t: TokenView) -> bool {
    t is Unary || t is Binary
}

/// The unary and binary operations of a token sequence, counted with repetition.
pub open spec fn operators(s: Seq<TokenView>) -> vstd::multiset::Multiset<TokenView>
    decreases s.len(),
{
    if s.len() == 0 {
        vstd::multiset::Multiset::empty()
    } else if is_operator(s.last()) {
        operators(s.drop_last()).insert(s.last())
    } else {
        operators(s.drop_last())
    }
}

/// The unary and binary operations on the operator stack, counted with repetition.
pub open spec fn stack_operators(stack: StackView) -> vstd::multiset::Multiset<TokenView>
    decreases stack.len(),
{
    if stack.len() == 0 {
        vstd::multiset::Multiset::empty()
    } else if is_operator(stack.last().1) {
        stack_operators(stack.drop_last()).insert(stack.last().1)
    } else {
        stack_operators(stack.drop_last())
    }
}

proof fn lemma_operators_push(s: Seq<TokenView>, t: TokenView)
    ensures
        operators(s.push(t)) == if is_operator(t) { operators(s).insert(t) } else { operators(s) },
{
    assert(s.push(t).drop_last() =~= s);
}

proof fn lemma_stack_operators_push(stack: StackView, e: (usize, TokenView))
    ensures
        stack_operators(stack.push(e)) == if is_operator(e.1) { stack_operators(stack).insert(e.1) } else {
            stack_operators(stack)
        },
{
    assert(stack.push(e).drop_last() =~= stack);
}

/// Moving the operation on top of the stack to the output keeps the operations of both
/// together.
proof fn lemma_move_operator(out: Seq<TokenView>, stack: StackView)
    requires
        stack.len() > 0,
        is_operator(stack.last().1),
    ensures
        operators(out.push(stack.last().1)).add(stack_operators(stack.drop_last()))
            == operators(out).add(stack_operators(stack)),
{
    lemma_operators_push(out, stack.last().1);
    assert(operators(out).insert(stack.last().1).add(stack_operators(stack.drop_last()))
        =~= operators(out).add(stack_operators(stack.drop_last()).insert(stack.last().1)));
}

/// A token as the tokenizer makes them: a binary operation is not a factorial, a unary
/// one is a sign or a factorial, and a function call has no argument count yet.
pub open spec fn well_kinded(t: TokenView) -> bool {
    match t {
        TokenView::Binary(op) => op != Operation::Fact,
        TokenView::Unary(op) => op == Operation::Plus || op == Operation::Minus || op == Operation::Fact,
        TokenView::Func(_, n) => n is None,
        _ => true,
    }
}

/// What the stack may hold; with `wk`, only operations with a precedence, and function
/// calls with at most `bound` arguments counted.
pub open spec fn entry_ok(t: TokenView, wk: bool, bound: int) -> bool {
    &&& !is_operand(t) && !(t is RParen) && !(t is Comma)
    &&& wk ==> prec_assoc_spec(t) is Some
    &&& wk ==> (t matches TokenView::Func(_, Some(k)) ==> k <= bound)
}

/// What the output holds: operands, operations, and function calls with a count of at
/// least one argument.
pub open spec fn out_ok(t: TokenView) -> bool {
    is_operand(t) || t is Unary || t is Binary || (t matches TokenView::Func(_, Some(k)) && k >= 1)
}

pub open spec fn stack_ok(stack: StackView, wk: bool, bound: int) -> bool {
    forall|j: int| 0 <= j < stack.len() ==> entry_ok(#[trigger] stack[j].1, wk, bound)
}

pub open spec fn output_ok(out: Seq<TokenView>) -> bool {
    forall|j: int| 0 <= j < out.len() ==> out_ok(#[trigger] out[j])
}

proof fn lemma_pop_ops(out: Seq<TokenView>, stack: StackView, pa1: (u32, Associativity), wk: bool, bound: int)
    requires
        pa1.0 >= 1,
        stack_ok(stack, wk, bound),
        output_ok(out),
    ensures
        wk ==> pop_ops(out, stack, pa1) is Some,
        pop_ops(out, stack, pa1) matches Some((o, s)) ==> stack_ok(s, wk, bound) && output_ok(o)
            && operands(o) == operands(out)
            && operators(o).add(stack_operators(s)) == operators(out).add(stack_operators(stack)),
    decreases stack.len(),
{
    if stack.len() > 0 {
        let t = stack.last().1;
        assert(entry_ok(stack[stack.len() - 1].1, wk, bound));
        if let Some(pa2) = prec_assoc_spec(t) {
            if pops_before(pa1, pa2) {
                lemma_operands_push(out, t);
                assert(stack_ok(stack.drop_last(), wk, bound));
                assert(t is Unary || t is Binary);
                lemma_output_push(out, t);
                lemma_move_operator(out, stack);
                lemma_pop_ops(out.push(t), stack.drop_last(), pa1, wk, bound);
            }
        }
    }
}

proof fn lemma_output_push(out: Seq<TokenView>, t: TokenView)
    requires
        output_ok(out),
        out_ok(t),
    ensures
        output_ok(out.push(t)),
{
    assert forall|j: int| 0 <= j < out.push(t).len() implies out_ok(#[trigger] out.push(t)[j]) by {
        if j < out.len() {
            assert(out.push(t)[j] == out[j]);
        }
    }
}

proof fn lemma_close_paren(out: Seq<TokenView>, stack: StackView, wk: bool, bound: int)
    requires
        stack_ok(stack, wk, bound),
        output_ok(out),
        wk ==> bound < usize::MAX,
    ensures
        wk ==> close_paren(out, stack) is Some,
        close_paren(out, stack) matches Some((f, o, s)) ==> stack_ok(s, wk, bound) && output_ok(o)
            && operands(o) == operands(out)
            && operators(o).add(stack_operators(s)) == operators(out).add(stack_operators(stack)),
    decreases stack.len(),
{
    if stack.len() > 0 {
        let t = stack.last().1;
        assert(entry_ok(stack[stack.len() - 1].1, wk, bound));
        assert(stack_ok(stack.drop_last(), wk, bound));
        match t {
            TokenView::LParen => {},
            TokenView::Func(name, nargs) => {
                if let Some(f) = one_more_arg(name, nargs) {
                    lemma_operands_push(out, f);
                    lemma_operators_push(out, f);
                    lemma_output_push(out, f);
                }
            },
            _ => {
                lemma_operands_push(out, t);
                lemma_output_push(out, t);
                lemma_move_operator(out, stack);
                lemma_close_paren(out.push(t), stack.drop_last(), wk, bound);
            },
        }
    }
}

proof fn lemma_comma(out: Seq<TokenView>, stack: StackView, index: usize, wk: bool, bound: int)
    requires
        bound >= 0,
        stack_ok(stack, wk, bound),
        output_ok(out),
        wk ==> bound < usize::MAX,
    ensures
        wk ==> comma(out, stack, index) is Some,
        comma(out, stack, index) matches Some(Ok((o, s))) ==> stack_ok(s, wk, bound + 1)
            && output_ok(o) && operands(o) == operands(out)
            && operators(o).add(stack_operators(s)) == operators(out).add(stack_operators(stack)),
    decreases stack.len(),
{
    if stack.len() > 0 {
        let (i, t) = stack.last();
        assert(entry_ok(stack[stack.len() - 1].1, wk, bound));
        assert(stack_ok(stack.drop_last(), wk, bound));
        match t {
            TokenView::LParen => {},
            TokenView::Func(name, nargs) => {
                if let Some(f) = one_more_arg(name, nargs) {
                    let s2 = stack.drop_last().push((i, f));
                    assert(entry_ok(f, wk, bound + 1));
                    lemma_stack_ok_weaken(stack.drop_last(), wk, bound, bound + 1);
                    lemma_stack_ok_push(stack.drop_last(), (i, f), wk, bound + 1);
                    lemma_stack_operators_push(stack.drop_last(), (i, f));
                }
            },
            _ => {
                lemma_operands_push(out, t);
                lemma_output_push(out, t);
                lemma_move_operator(out, stack);
                lemma_comma(out.push(t), stack.drop_last(), index, wk, bound);
            },
        }
    }
}

proof fn lemma_stack_ok_weaken(stack: StackView, wk: bool, b1: int, b2: int)
    requires
        stack_ok(stack, wk, b1),
        b1 <= b2,
    ensures
        stack_ok(stack, wk, b2),
{
    assert forall|j: int| 0 <= j < stack.len() implies entry_ok(#[trigger] stack[j].1, wk, b2) by {
        assert(entry_ok(stack[j].1, wk, b1));
    }
}

proof fn lemma_stack_ok_push(stack: StackView, e: (usize, TokenView), wk: bool, bound: int)
    requires
        stack_ok(stack, wk, bound),
        entry_ok(e.1, wk, bound),
    ensures
        stack_ok(stack.push(e), wk, bound),
{
    assert forall|j: int| 0 <= j < stack.push(e).len() implies entry_ok(#[trigger] stack.push(e)[j].1, wk, bound) by {
        if j < stack.len() {
            assert(stack.push(e)[j] == stack[j]);
        }
    }
}

proof fn lemma_shunt(input: Seq<TokenView>, i: int, out: Seq<TokenView>, stack: StackView, wk: bool)
    requires
        0 <= i <= input.len(),
        stack_ok(stack, wk, i),
        output_ok(out),
        operands(out) == operands(input.take(i)),
        operators(out).add(stack_operators(stack)) == operators(input.take(i)),
        wk ==> input.len() < usize::MAX,
        wk ==> forall|j: int| 0 <= j < input.len() ==> well_kinded(#[trigger] input[j]),
    ensures
        wk ==> shunt(input, i, out, stack) is Some,
        shunt(input, i, out, stack) matches Some(Ok((o, s))) ==> stack_ok(s, wk, input.len() as int)
            && output_ok(o) && operands(o) == operands(input)
            && operators(o).add(stack_operators(s)) == operators(input),
    decreases input.len() - i,
{
    if i >= input.len() {
        assert(input.take(i) =~= input);
    } else {
        let t = input[i];
        assert(input.take(i + 1) =~= input.take(i).push(t));
        lemma_operands_push(input.take(i), t);
        lemma_operators_push(input.take(i), t);
        lemma_stack_ok_weaken(stack, wk, i, i + 1);
        match t {
            TokenView::Number(_) | TokenView::Var(_) => {
                lemma_operands_push(out, t);
                lemma_operators_push(out, t);
                lemma_output_push(out, t);
                lemma_shunt(input, i + 1, out.push(t), stack, wk);
            },
            TokenView::Unary(_) | TokenView::LParen | TokenView::Func(_, _) => {
                lemma_stack_ok_push(stack, (i as usize, t), wk, i + 1);
                lemma_stack_operators_push(stack, (i as usize, t));
                assert(operators(out).add(stack_operators(stack.push((i as usize, t))))
                    =~= operators(input.take(i + 1)));
                lemma_shunt(input, i + 1, out, stack.push((i as usize, t)), wk);
            },
            TokenView::Binary(_) => {
                if let Some(pa1) = prec_assoc_spec(t) {
                    lemma_pop_ops(out, stack, pa1, wk, i + 1);
                    if let Some((o, s)) = pop_ops(out, stack, pa1) {
                        lemma_stack_ok_push(s, (i as usize, t), wk, i + 1);
                        lemma_stack_operators_push(s, (i as usize, t));
                        assert(operators(o).add(stack_operators(s.push((i as usize, t))))
                            =~= operators(input.take(i + 1)));
                        lemma_shunt(input, i + 1, o, s.push((i as usize, t)), wk);
                    }
                }
            },
            TokenView::RParen => {
                lemma_close_paren(out, stack, wk, i + 1);
                if let Some((found, o, s)) = close_paren(out, stack) {
                    if found {
                        lemma_shunt(input, i + 1, o, s, wk);
                    }
                }
            },
            TokenView::Comma => {
                lemma_comma(out, stack, i as usize, wk, i);
                if let Some(Ok((o, s))) = comma(out, stack, i as usize) {
                    lemma_shunt(input, i + 1, o, s, wk);
                }
            },
        }
    }
}

proof fn lemma_drain(out: Seq<TokenView>, stack: StackView, wk: bool, bound: int)
    requires
        stack_ok(stack, wk, bound),
        output_ok(out),
    ensures
        drain(out, stack) is Some,
        drain(out, stack) matches Some(Ok(o)) ==> output_ok(o) && operands(o) == operands(out)
            && operators(o) == operators(out).add(stack_operators(stack)),
    decreases stack.len(),
{
    if stack.len() == 0 {
        assert(operators(out).add(stack_operators(stack)) =~= operators(out));
    } else {
        let (i, t) = stack.last();
        assert(entry_ok(stack[stack.len() - 1].1, wk, bound));
        assert(stack_ok(stack.drop_last(), wk, bound));
        if t is Unary || t is Binary {
            lemma_operands_push(out, t);
            lemma_output_push(out, t);
            lemma_move_operator(out, stack);
            lemma_drain(out.push(t), stack.drop_last(), wk, bound);
        }
    }
}

proof fn lemma_verify_total(out: Seq<TokenView>, i: int, n: int)
    requires
        output_ok(out),
    ensures
        verify_from(out, i, n) is Some,
    decreases out.len() - i,
{
    if 0 <= i < out.len() {
        assert(out_ok(out[i]));
        lemma_verify_total(out, i + 1, n + operand_delta(out[i]).unwrap());
    }
}

/// Before the first token, nothing has been moved.
proof fn lemma_shunt_start(input: Seq<TokenView>)
    ensures
        operators(Seq::<TokenView>::empty()).add(stack_operators(Seq::<(usize, TokenView)>::empty()))
            == operators(input.take(0)),
{
    assert(input.take(0) =~= Seq::<TokenView>::empty());
    assert(operators(Seq::<TokenView>::empty()).add(stack_operators(Seq::<(usize, TokenView)>::empty()))
        =~= operators(input.take(0)));
}

/// The shunting-yard conversion always goes through on tokens as the tokenizer makes
/// them, fewer than `usize::MAX` of them.
pub proof fn lemma_to_rpn_total(input: Seq<TokenView>)
    requires
        input.len() < usize::MAX,
        forall|j: int| 0 <= j < input.len() ==> well_kinded(#[trigger] input[j]),
    ensures
        to_rpn_spec(input) is Some,
{
    assert(input.take(0) =~= Seq::<TokenView>::empty());
    lemma_shunt_start(input);
    lemma_shunt(input, 0, Seq::empty(), Seq::empty(), true);
    if let Some(Ok((o, s))) = shunt(input, 0, Seq::empty(), Seq::empty()) {
        lemma_drain(o, s, true, input.len() as int);
        if let Some(Ok(o2)) = drain(o, s) {
            lemma_verify_total(o2, 0, 0);
        }
    }
}

/// The output of a successful conversion holds only numbers, variables, operations and
/// function calls, each call with a count of at least one argument: no parenthesis and no
/// comma.
pub proof fn lemma_to_rpn_output_tokens(input: Seq<TokenView>)
    ensures
        to_rpn_spec(input) matches Some(Ok(out)) ==> forall|j: int| 0 <= j < out.len() ==> {
            let t = #[trigger] out[j];
            &&& !(t is LParen) && !(t is RParen) && !(t is Comma)
            &&& is_operand(t) || t is Unary || t is Binary || (t matches TokenView::Func(_, Some(k)) && k >= 1)
        },
{
    assert(input.take(0) =~= Seq::<TokenView>::empty());
    lemma_shunt_start(input);
    lemma_shunt(input, 0, Seq::empty(), Seq::empty(), false);
    if let Some(Ok((o, s))) = shunt(input, 0, Seq::empty(), Seq::empty()) {
        lemma_drain(o, s, false, input.len() as int);
        if let Some(Ok(o2)) = drain(o, s) {
            assert forall|j: int| 0 <= j < o2.len() implies out_ok(#[trigger] o2[j]) by {}
        }
    }
}

/// The operations of the output are those of the input, rearranged: the same unary and
/// binary operations, each as many times.
pub proof fn lemma_to_rpn_keeps_operators(input: Seq<TokenView>)
    ensures
        to_rpn_spec(input) matches Some(Ok(out)) ==> operators(out) == operators(input),
{
    assert(input.take(0) =~= Seq::<TokenView>::empty());
    lemma_shunt_start(input);
    lemma_shunt(input, 0, Seq::empty(), Seq::empty(), false);
    if let Some(Ok((o, s))) = shunt(input, 0, Seq::empty(), Seq::empty()) {
        lemma_drain(o, s, false, input.len() as int);
    }
}

/// The conversion keeps the numbers and variables of the expression, in their order.
pub proof fn lemma_to_rpn_keeps_operands(input: Seq<TokenView>)
    ensures
        to_rpn_spec(input) matches Some(Ok(out)) ==> operands(out) == operands(input),
{
    assert(input.take(0) =~= Seq::<TokenView>::empty());
    lemma_shunt_start(input);
    lemma_shunt(input, 0, Seq::empty(), Seq::empty(), false);
    if let Some(Ok((o, s))) = shunt(input, 0, Seq::empty(), Seq::empty()) {
        lemma_drain(o, s, false, input.len() as int);
    }
}

proof fn lemma_next_token_well_kinded(input: Seq<u8>, p: int, after_operand: bool, in_func: bool)
    ensures
        next_token_spec(input, p, after_operand, in_func) matches Some((t, np)) ==> well_kinded(t),
{
}

pub(crate) proof fn lemma_tokenize_from_well_kinded(input: Seq<u8>, pos: int, after_operand: bool, parens: Seq<bool>)
    ensures
        tokenize_from(input, pos, after_operand, parens) matches Ok(ts) ==>
            forall|j: int| 0 <= j < ts.len() ==> well_kinded(#[trigger] ts[j]),
    decreases input.len() - pos,
{
    let p = ws_end(input, pos);
    if 0 <= pos && p < input.len() {
        let f = in_func_call(parens);
        if let Some((t, np)) = next_token_spec(input, p, after_operand, f) {
            if !(t is RParen && parens.len() == 0) {
                lemma_ws_end(input, pos);
                lemma_next_token_advances(input, p, after_operand, f);
                lemma_next_token_well_kinded(input, p, after_operand, f);
                let a2 = after_operand_after(t, after_operand);
                let d2 = parens_after(t, parens);
                lemma_tokenize_from_well_kinded(input, np, a2, d2);
                if let Ok(rest) = tokenize_from(input, np, a2, d2) {
                    let ts = seq![t] + rest;
                    assert forall|j: int| 0 <= j < ts.len() implies well_kinded(#[trigger] ts[j]) by {
                        if j > 0 {
                            assert(ts[j] == rest[j - 1]);
                        }
                    }
                }
            }
        }
    }
}

/// Whatever the tokenizer accepts (of fewer than `usize::MAX` tokens), the shunting-yard
/// conversion takes without running into an invalid operation or an overflowing count.
pub proof fn lemma_tokenize_then_to_rpn_total(input: Seq<u8>)
    ensures
        tokenize_spec(input) matches Ok(ts) ==> (ts.len() < usize::MAX ==> to_rpn_spec(ts) is Some),
{
    lemma_tokenize_from_well_kinded(input, 0, false, Seq::empty());
    if let Ok(ts) = tokenize_spec(input) {
        if ts.len() < usize::MAX {
            lemma_to_rpn_total(ts);
        }
    }
}

/// The number of operands on an evaluation stack after the first `k` tokens.
pub open spec fn rpn_depth(out: Seq<TokenView>, k: int) -> int
    decreases k,
{
    if k <= 0 {
        0
    } else {
        rpn_depth(out, k - 1) + match operand_delta(out[k - 1]) { Some(d) => d, None => 0 }
    }
}

proof fn lemma_verify_depth(out: Seq<TokenView>, i: int)
    requires
        0 <= i <= out.len(),
        verify_from(out, i, rpn_depth(out, i)) matches Some(Ok(_)),
    ensures
        forall|k: int| i < k <= out.len() ==> #[trigger] rpn_depth(out, k) >= 1,
        rpn_depth(out, out.len() as int) == 1,
    decreases out.len() - i,
{
    if i < out.len() {
        lemma_verify_depth(out, i + 1);
    }
}

/// The output of a successful conversion is a non-empty, valid postfix expression:
/// evaluating it from the left always leaves at least one operand, and exactly one at the
/// end.
pub proof fn lemma_to_rpn_valid_postfix(input: Seq<TokenView>)
    ensures
        to_rpn_spec(input) matches Some(Ok(out)) ==> {
            &&& out.len() > 0
            &&& forall|k: int| 0 < k <= out.len() ==> #[trigger] rpn_depth(out, k) >= 1
            &&& rpn_depth(out, out.len() as int) == 1
        },
{
    match to_rpn_spec(input) {
        Some(Ok(out)) => {
            let (o, st) = shunt(input, 0, Seq::empty(), Seq::empty()).unwrap().unwrap();
            assert(drain(o, st) == Some(Ok::<Seq<TokenView>, RPNError>(out)));
            assert(verify_from(out, 0, 0) matches Some(Ok(_)));
            assert(rpn_depth(out, 0) == 0);
            lemma_verify_depth(out, 0);
        },
        _ => {},
    }
}

} // verus!
