//! Tokenizer that converts a mathematical expression in a string form into a series of
//! `Token`s. Only well-formed expressions are tokenized.
use vstd::prelude::*;
use vstd::utf8::{valid_utf8, decode_utf8, encode_utf8, is_ascii_chars};
use vstd::string::StringSliceAdditionalSpecFns;

verus! {

/// An error reported by the parser.
#[derive(Debug, Clone, Copy, PartialEq, Eq, Structural)]
pub enum ParseError {
    /// A token that is not allowed at the given location (contains the location of the
    /// offending character in the source string).
    UnexpectedToken(usize),
    /// Missing right parentheses at the end of the source string (contains the number of
    /// missing parens).
    MissingRParen(i32),
    /// Missing operator or function argument at the end of the expression.
    MissingArgument,
}

/// The short description of a parse error.
/// The text of a parse error, as it is displayed.
pub open spec fn parse_error_message(e: ParseError) -> Seq<char> {
    match e {
        ParseError::UnexpectedToken(i) => "Unexpected token at byte "@ + crate::text::digits(i as nat, 10) + "."@,
        ParseError::MissingRParen(i) => "Missing "@ + crate::text::decimal(i as int)
            + (if i == 1 { " right parenthesis."@ } else { " right parentheses."@ }),
        ParseError::MissingArgument => "Missing argument at the end of expression."@,
    }
}

pub open spec fn parse_error_description(e: ParseError) -> Seq<char> {
    match e {
        ParseError::UnexpectedToken(_) => "unexpected token"@,
        ParseError::MissingRParen(_) => "missing right parenthesis"@,
        ParseError::MissingArgument => "missing argument"@,
    }
}

impl ParseError {
    /// A short description of the kind of error.
    pub fn description(&self) -> (r: &'static str)
        ensures
            r@ == parse_error_description(*self),
    {
        match self {
            ParseError::UnexpectedToken(_) => "unexpected token",
            ParseError::MissingRParen(_) => "missing right parenthesis",
            ParseError::MissingArgument => "missing argument",
        }
    }

    /// The description of the error, as it is displayed.
    pub fn message(&self) -> (r: String)
        ensures
            r@ == parse_error_message(*self),
    {
        let mut out = String::new();
        match self {
            ParseError::UnexpectedToken(i) => {
                out.append("Unexpected token at byte ");
                crate::text::push_chars(&mut out, crate::text::digits_of(*i as u64, 10).as_slice());
                out.append(".");
            },
            ParseError::MissingRParen(i) => {
                out.append("Missing ");
                crate::text::push_chars(&mut out, crate::text::decimal_of(*i as i64).as_slice());
                if *i == 1 {
                    out.append(" right parenthesis.");
                } else {
                    out.append(" right parentheses.");
                }
            },
            ParseError::MissingArgument => {
                out.append("Missing argument at the end of expression.");
            },
        }
        out
    }
}

/// Mathematical operations.
#[derive(Debug, PartialEq, Eq, Clone, Copy, Structural)]
pub enum Operation {
    Plus,
    Minus,
    Times,
    Div,
    Rem,
    Pow,
    Fact,
}

/// ASCII codes of the bytes that the tokenizer tells apart.
pub const BYTE_0: u8 = 48;
pub const BYTE_9: u8 = 57;
pub const BYTE_LOWER_A: u8 = 97;
pub const BYTE_LOWER_Z: u8 = 122;
pub const BYTE_UPPER_A: u8 = 65;
pub const BYTE_UPPER_Z: u8 = 90;
pub const BYTE_UNDERSCORE: u8 = 95;
pub const BYTE_SPACE: u8 = 32;
pub const BYTE_TAB: u8 = 9;
pub const BYTE_LF: u8 = 10;
pub const BYTE_CR: u8 = 13;
pub const BYTE_DOT: u8 = 46;
pub const BYTE_LOWER_E: u8 = 101;
pub const BYTE_UPPER_E: u8 = 69;
pub const BYTE_PLUS: u8 = 43;
pub const BYTE_MINUS: u8 = 45;
pub const BYTE_STAR: u8 = 42;
pub const BYTE_SLASH: u8 = 47;
pub const BYTE_PERCENT: u8 = 37;
pub const BYTE_CARET: u8 = 94;
pub const BYTE_BANG: u8 = 33;
pub const BYTE_LPAREN: u8 = 40;
pub const BYTE_RPAREN: u8 = 41;
pub const BYTE_COMMA: u8 = 44;

/// Expression tokens.
#[derive(Debug, PartialEq, Clone)]
pub enum Token {
    /// Binary operation.
    Binary(Operation),
    /// Unary operation.
    Unary(Operation),
    /// Left parenthesis.
    LParen,
    /// Right parenthesis.
    RParen,
    /// Comma: function argument separator
    Comma,
    /// A number, as the literal text it was written with (digits, an optional
    /// fractional part and an optional exponent; every such text reads as an `f64`).
    Number(String),
    /// A variable.
    Var(String),
    /// A function with name and number of arguments.
    Func(String, Option<usize>),
}

/// What a token is, with its text as characters.
pub enum TokenView {
    Binary(Operation),
    Unary(Operation),
    LParen,
    RParen,
    Comma,
    Number(Seq<char>),
    Var(Seq<char>),
    Func(Seq<char>, Option<usize>),
}

impl View for Token {
    type V = TokenView;

    open spec fn view(&self) -> TokenView {
        match self {
            Token::Binary(op) => TokenView::Binary(*op),
            Token::Unary(op) => TokenView::Unary(*op),
            Token::LParen => TokenView::LParen,
            Token::RParen => TokenView::RParen,
            Token::Comma => TokenView::Comma,
            Token::Number(s) => TokenView::Number(s@),
            Token::Var(s) => TokenView::Var(s@),
            Token::Func(s, n) => TokenView::Func(s@, *n),
        }
    }
}

/// The tokens of a sequence, each by its view.
pub open spec fn tokens_view(ts: Seq<Token>) -> Seq<TokenView> {
    ts.map_values(|t: Token| t@)
}

impl Token {
    /// A copy of the token.
    pub fn copy(&self) -> (r: Token)
        ensures
            r@ == self@,
    {
        match self {
            Token::Binary(op) => Token::Binary(*op),
            Token::Unary(op) => Token::Unary(*op),
            Token::LParen => Token::LParen,
            Token::RParen => Token::RParen,
            Token::Comma => Token::Comma,
            Token::Number(s) => Token::Number(s.clone()),
            Token::Var(s) => Token::Var(s.clone()),
            Token::Func(s, n) => Token::Func(s.clone(), *n),
        }
    }
}

pub open spec fn spec_is_digit(c: u8) -> bool {
    BYTE_0 <= c <= BYTE_9
}

pub open spec fn spec_is_alpha(c: u8) -> bool {
    (BYTE_LOWER_A <= c <= BYTE_LOWER_Z) || (BYTE_UPPER_A <= c <= BYTE_UPPER_Z)
}

pub open spec fn spec_is_ident_start(c: u8) -> bool {
    spec_is_alpha(c) || c == BYTE_UNDERSCORE
}

pub open spec fn spec_is_ident_continue(c: u8) -> bool {
    spec_is_alpha(c) || spec_is_digit(c) || c == BYTE_UNDERSCORE
}

pub open spec fn spec_is_whitespace(c: u8) -> bool {
    c == BYTE_SPACE || c == BYTE_TAB || c == BYTE_LF || c == BYTE_CR
}

/// The first position at or after `i` that does not hold whitespace.
pub open spec fn ws_end(input: Seq<u8>, i: int) -> int
    decreases input.len() - i,
{
    if 0 <= i < input.len() && spec_is_whitespace(input[i]) {
        ws_end(input, i + 1)
    } else {
        i
    }
}

/// The first position at or after `i` that does not hold a digit.
pub open spec fn digits_end(input: Seq<u8>, i: int) -> int
    decreases input.len() - i,
{
    if 0 <= i < input.len() && spec_is_digit(input[i]) {
        digits_end(input, i + 1)
    } else {
        i
    }
}

/// The first position at or after `i` that cannot continue an identifier.
pub open spec fn ident_continue_end(input: Seq<u8>, i: int) -> int
    decreases input.len() - i,
{
    if 0 <= i < input.len() && spec_is_ident_continue(input[i]) {
        ident_continue_end(input, i + 1)
    } else {
        i
    }
}

/// The end of the identifier that starts at `i`, if one does.
pub open spec fn ident_end(input: Seq<u8>, i: int) -> Option<int> {
    if 0 <= i < input.len() && spec_is_ident_start(input[i]) {
        Some(ident_continue_end(input, i + 1))
    } else {
        None
    }
}

pub open spec fn spec_is_exp_mark(c: u8) -> bool {
    c == BYTE_LOWER_E || c == BYTE_UPPER_E
}

pub open spec fn spec_is_sign(c: u8) -> bool {
    c == BYTE_PLUS || c == BYTE_MINUS
}

/// The end of the number that starts at `i`, if one does: one or more digits, then
/// optionally a dot and zero or more digits, then optionally an exponent, made of `e` or
/// `E`, an optional sign and one or more digits. An exponent mark without digits after
/// it makes the whole number fail.
pub open spec fn number_end(input: Seq<u8>, i: int) -> Option<int> {
    if !(0 <= i < input.len() && spec_is_digit(input[i])) {
        None
    } else {
        let e1 = digits_end(input, i);
        let e2 = if e1 < input.len() && input[e1] == BYTE_DOT { digits_end(input, e1 + 1) } else { e1 };
        if e2 < input.len() && spec_is_exp_mark(input[e2]) {
            let e3 = if e2 + 1 < input.len() && spec_is_sign(input[e2 + 1]) { e2 + 2 } else { e2 + 1 };
            if e3 < input.len() && spec_is_digit(input[e3]) {
                Some(digits_end(input, e3))
            } else {
                None
            }
        } else {
            Some(e2)
        }
    }
}

/// A function call that starts at `i`: the end of its name and the position after the
/// `(` that follows it (whitespace may stand between them).
pub open spec fn func_end(input: Seq<u8>, i: int) -> Option<(int, int)> {
    match ident_end(input, i) {
        None => None,
        Some(e) => {
            let w = ws_end(input, e);
            if w < input.len() && input[w] == BYTE_LPAREN { Some((e, w + 1)) } else { None }
        },
    }
}

/// The token that starts at `p`, and the position after it. `after_operand` tells
/// whether an operand stands just before (then an operator, `)` or `,` is expected),
/// and `in_func` whether the innermost open parenthesis is that of a function call: a
/// comma separates function arguments, and is allowed only there.
pub open spec fn next_token_spec(input: Seq<u8>, p: int, after_operand: bool, in_func: bool) -> Option<(TokenView, int)> {
    if !(0 <= p < input.len()) {
        None
    } else if !after_operand {
        let c = input[p];
        match number_end(input, p) {
            Some(e) => Some((TokenView::Number(ascii_chars(input.subrange(p, e))), e)),
            None => match func_end(input, p) {
                Some((e, after)) => Some((TokenView::Func(ascii_chars(input.subrange(p, e)), None), after)),
                None => match ident_end(input, p) {
                    Some(e) => Some((TokenView::Var(ascii_chars(input.subrange(p, e))), e)),
                    None => if c == BYTE_PLUS {
                        Some((TokenView::Unary(Operation::Plus), p + 1))
                    } else if c == BYTE_MINUS {
                        Some((TokenView::Unary(Operation::Minus), p + 1))
                    } else if c == BYTE_LPAREN {
                        Some((TokenView::LParen, p + 1))
                    } else {
                        None
                    },
                },
            },
        }
    } else {
        let c = input[p];
        if c == BYTE_BANG {
            Some((TokenView::Unary(Operation::Fact), p + 1))
        } else if c == BYTE_PLUS {
            Some((TokenView::Binary(Operation::Plus), p + 1))
        } else if c == BYTE_MINUS {
            Some((TokenView::Binary(Operation::Minus), p + 1))
        } else if c == BYTE_STAR {
            Some((TokenView::Binary(Operation::Times), p + 1))
        } else if c == BYTE_SLASH {
            Some((TokenView::Binary(Operation::Div), p + 1))
        } else if c == BYTE_PERCENT {
            Some((TokenView::Binary(Operation::Rem), p + 1))
        } else if c == BYTE_CARET {
            Some((TokenView::Binary(Operation::Pow), p + 1))
        } else if c == BYTE_RPAREN {
            Some((TokenView::RParen, p + 1))
        } else if c == BYTE_COMMA && in_func {
            Some((TokenView::Comma, p + 1))
        } else {
            None
        }
    }
}

/// Whether an operand stands before the next token, after token `t`.
pub open spec fn after_operand_after(t: TokenView, after_operand: bool) -> bool {
    match t {
        TokenView::Number(_) | TokenView::Var(_) => true,
        TokenView::Binary(_) | TokenView::Comma => false,
        _ => after_operand,
    }
}

/// Whether the innermost of the open parentheses `parens` belongs to a function call
/// (each entry tells that of one open parenthesis, the innermost last).
pub open spec fn in_func_call(parens: Seq<bool>) -> bool {
    parens.len() > 0 && parens.last()
}

/// The open parentheses after token `t`: `(` opens a plain one, a function call opens
/// one of its own, `)` closes the innermost.
pub open spec fn parens_after(t: TokenView, parens: Seq<bool>) -> Seq<bool> {
    match t {
        TokenView::LParen => parens.push(false),
        TokenView::Func(_, _) => parens.push(true),
        TokenView::RParen => parens.drop_last(),
        _ => parens,
    }
}

pub proof fn lemma_ws_end(input: Seq<u8>, i: int)
    requires
        0 <= i <= input.len(),
    ensures
        i <= ws_end(input, i) <= input.len(),
        forall|k: int| i <= k < ws_end(input, i) ==> spec_is_whitespace(#[trigger] input[k]),
    decreases input.len() - i,
{
    if i < input.len() && spec_is_whitespace(input[i]) {
        lemma_ws_end(input, i + 1);
    }
}

pub proof fn lemma_digits_end(input: Seq<u8>, i: int)
    requires
        0 <= i <= input.len(),
    ensures
        i <= digits_end(input, i) <= input.len(),
        forall|k: int| i <= k < digits_end(input, i) ==> spec_is_digit(#[trigger] input[k]),
        digits_end(input, i) < input.len() ==> !spec_is_digit(input[digits_end(input, i)]),
    decreases input.len() - i,
{
    if i < input.len() && spec_is_digit(input[i]) {
        lemma_digits_end(input, i + 1);
    }
}

pub proof fn lemma_ident_continue_end(input: Seq<u8>, i: int)
    requires
        0 <= i <= input.len(),
    ensures
        i <= ident_continue_end(input, i) <= input.len(),
        forall|k: int| i <= k < ident_continue_end(input, i) ==> spec_is_ident_continue(#[trigger] input[k]),
        ident_continue_end(input, i) < input.len() ==> !spec_is_ident_continue(input[ident_continue_end(input, i)]),
    decreases input.len() - i,
{
    if i < input.len() && spec_is_ident_continue(input[i]) {
        lemma_ident_continue_end(input, i + 1);
    }
}

/// The ends that `number_end`, `ident_end` and `func_end` give lie past their start and
/// within the input.
pub proof fn lemma_ends_in_range(input: Seq<u8>, i: int)
    requires
        0 <= i < input.len(),
    ensures
        number_end(input, i) matches Some(e) ==> i < e <= input.len(),
        ident_end(input, i) matches Some(e) ==> i < e <= input.len(),
        func_end(input, i) matches Some((e, a)) ==> i < e < a <= input.len(),
{
    lemma_digits_end(input, i);
    let e1 = digits_end(input, i);
    if e1 < input.len() {
        lemma_digits_end(input, e1 + 1);
    }
    let e2 = if e1 < input.len() && input[e1] == BYTE_DOT { digits_end(input, e1 + 1) } else { e1 };
    if e2 + 2 <= input.len() {
        lemma_digits_end(input, e2 + 2);
    }
    if e2 + 1 <= input.len() {
        lemma_digits_end(input, e2 + 1);
    }
    lemma_ident_continue_end(input, i + 1);
    if let Some(e) = ident_end(input, i) {
        lemma_ws_end(input, e);
    }
}

/// The next token, when there is one, ends past `p` and within the input.
pub proof fn lemma_next_token_advances(input: Seq<u8>, p: int, after_operand: bool, in_func: bool)
    ensures
        next_token_spec(input, p, after_operand, in_func) matches Some((t, np)) ==> p < np <= input.len(),
{
    if 0 <= p < input.len() {
        lemma_ends_in_range(input, p);
    }
}

/// Tokenizes `input` from position `pos` on, in the given state: whether an operand
/// stands before, and the open parentheses (see `parens_after`).
pub open spec fn tokenize_from(input: Seq<u8>, pos: int, after_operand: bool, parens: Seq<bool>) -> Result<Seq<TokenView>, ParseError>
    decreases input.len() - pos,
{
    let p = ws_end(input, pos);
    if !(0 <= pos && p < input.len()) {
        if !after_operand {
            Err(ParseError::MissingArgument)
        } else if parens.len() > 0 {
            Err(ParseError::MissingRParen(parens.len() as i32))
        } else {
            Ok(Seq::empty())
        }
    } else {
        match next_token_spec(input, p, after_operand, in_func_call(parens)) {
            None => Err(ParseError::UnexpectedToken(p as usize)),
            Some((t, np)) => {
                if t is RParen && parens.len() == 0 {
                    Err(ParseError::UnexpectedToken(p as usize))
                } else {
                    proof {
                        lemma_ws_end(input, pos);
                        lemma_next_token_advances(input, p, after_operand, in_func_call(parens));
                    }
                    match tokenize_from(input, np, after_operand_after(t, after_operand), parens_after(t, parens)) {
                        Ok(ts) => Ok(seq![t] + ts),
                        Err(e) => Err(e),
                    }
                }
            },
        }
    }
}

/// The tokens of the UTF-8 bytes of an expression, or the error that the tokenizer reports.
pub open spec fn tokenize_spec(input: Seq<u8>) -> Result<Seq<TokenView>, ParseError> {
    tokenize_from(input, 0, false, Seq::empty())
}

/// The bytes as characters, one for one (for ASCII bytes this is their UTF-8 decoding).
pub open spec fn ascii_chars(bytes: Seq<u8>) -> Seq<char> {
    bytes.map_values(|b: u8| b as char)
}

/// Check if a byte is a digit (0-9)
pub fn is_digit(c: u8) -> (r: bool)
    ensures
        r == spec_is_digit(c),
{
    c >= BYTE_0 && c <= BYTE_9
}

/// Check if a byte is a letter (a-z, A-Z)
pub fn is_alpha(c: u8) -> (r: bool)
    ensures
        r == spec_is_alpha(c),
{
    (c >= BYTE_LOWER_A && c <= BYTE_LOWER_Z) || (c >= BYTE_UPPER_A && c <= BYTE_UPPER_Z)
}

/// Check if a byte can start an identifier (letter or underscore)
pub fn is_ident_start(c: u8) -> (r: bool)
    ensures
        r == spec_is_ident_start(c),
{
    is_alpha(c) || c == BYTE_UNDERSCORE
}

/// Check if a byte can continue an identifier (letter, digit, or underscore)
pub fn is_ident_continue(c: u8) -> (r: bool)
    ensures
        r == spec_is_ident_continue(c),
{
    is_alpha(c) || is_digit(c) || c == BYTE_UNDERSCORE
}

/// Check if a byte is whitespace
pub fn is_whitespace(c: u8) -> (r: bool)
    ensures
        r == spec_is_whitespace(c),
{
    c == BYTE_SPACE || c == BYTE_TAB || c == BYTE_LF || c == BYTE_CR
}

/// Skip whitespace starting at position i.
/// Returns the position after the whitespace.
pub fn skip_whitespace(input: &[u8], i: usize) -> (r: usize)
    requires
        i <= input@.len(),
    ensures
        r == ws_end(input@, i as int),
        i <= r <= input@.len(),
{
    let mut pos = i;
    while pos < input.len() && is_whitespace(input[pos])
        invariant
            i <= pos <= input@.len(),
            ws_end(input@, i as int) == ws_end(input@, pos as int),
        decreases input@.len() - pos,
    {
        pos += 1;
    }
    pos
}

/// Decodes UTF-8 bytes into a string slice (`std::str::from_utf8`), `None` where the
/// bytes are not valid UTF-8.
#[verifier::external_body]
fn str_from_utf8(v: &[u8]) -> (r: Option<&str>)
    ensures
        r is Some <==> valid_utf8(v@),
        r matches Some(s) ==> s@ == decode_utf8(v@),
{
    std::str::from_utf8(v).ok()
}

/// ASCII bytes are valid UTF-8 and decode one character per byte.
proof fn lemma_ascii_decode(bytes: Seq<u8>)
    requires
        forall|k: int| 0 <= k < bytes.len() ==> bytes[k] < 128,
    ensures
        valid_utf8(bytes),
        decode_utf8(bytes) == ascii_chars(bytes),
{
    let chars = ascii_chars(bytes);
    assert(is_ascii_chars(chars)) by {
        assert forall|k: int| 0 <= k < chars.len() implies '\0' <= #[trigger] chars[k] <= '\u{7f}' by {
            assert(chars[k] == bytes[k] as char);
        }
    }
    vstd::utf8::is_ascii_chars_encode_utf8(chars);
    assert forall|k: int| 0 <= k < chars.len() implies encode_utf8(chars)[k] == bytes[k] by {
        assert(chars[k] as u8 == encode_utf8(chars)[k]);
        assert(chars[k] == bytes[k] as char);
        let b = bytes[k];
        assert((b as char) as u8 == b);
    }
    assert(encode_utf8(chars) =~= bytes);
    vstd::utf8::encode_utf8_valid_utf8(chars);
    vstd::utf8::encode_utf8_decode_utf8(chars);
}

/// Parse an identifier starting at position i.
/// Returns the identifier and the position after it.
pub fn parse_ident(input: &[u8], i: usize) -> (r: Option<(&str, usize)>)
    ensures
        match ident_end(input@, i as int) {
            None => r is None,
            Some(e) => r matches Some((s, end)) && end == e
                && s@ == ascii_chars(input@.subrange(i as int, e)),
        },
{
    if i >= input.len() || !is_ident_start(input[i]) {
        return None;
    }
    let mut end = i + 1;
    while end < input.len() && is_ident_continue(input[end])
        invariant
            i < end <= input@.len(),
            ident_continue_end(input@, (i + 1) as int) == ident_continue_end(input@, end as int),
            forall|k: int| i <= k < end ==> #[trigger] spec_is_ident_continue(input@[k])
                || k == i,
            spec_is_ident_start(input@[i as int]),
        decreases input@.len() - end,
    {
        end += 1;
    }
    let bytes = &input[i..end];
    proof {
        assert forall|k: int| 0 <= k < bytes@.len() implies bytes@[k] < 128 by {
            assert(bytes@[k] == input@[i + k]);
            if k > 0 {
                assert(spec_is_ident_continue(input@[i + k]));
            }
        }
        lemma_ascii_decode(bytes@);
    }
    match str_from_utf8(bytes) {
        Some(s) => Some((s, end)),
        None => None,
    }
}


/// The first position at or after `i` that does not hold a digit.
fn scan_digits(input: &[u8], i: usize) -> (r: usize)
    requires
        i <= input@.len(),
    ensures
        r == digits_end(input@, i as int),
{
    proof {
        lemma_digits_end(input@, i as int);
    }
    let mut end = i;
    while end < input.len() && is_digit(input[end])
        invariant
            i <= end <= input@.len(),
            digits_end(input@, i as int) == digits_end(input@, end as int),
        decreases input@.len() - end,
    {
        end += 1;
    }
    end
}

/// A string holding the ASCII bytes `input[start..end]`, one character per byte.
fn ascii_string(input: &[u8], start: usize, end: usize) -> (r: String)
    requires
        start <= end <= input@.len(),
        forall|k: int| start <= k < end ==> #[trigger] input@[k] < 128,
    ensures
        r@ == ascii_chars(input@.subrange(start as int, end as int)),
{
    broadcast use vstd::string::group_string_axioms;

    let bytes = &input[start..end];
    proof {
        assert forall|k: int| 0 <= k < bytes@.len() implies bytes@[k] < 128 by {
            assert(bytes@[k] == input@[start + k]);
        }
        lemma_ascii_decode(bytes@);
    }
    match str_from_utf8(bytes) {
        Some(s) => s.to_string(),
        None => String::new(),
    }
}

/// Parse a number (integer or float) starting at position i.
/// Returns the number as a Token and the position after it.
pub fn parse_number(input: &[u8], i: usize) -> (r: Option<(Token, usize)>)
    ensures
        match number_end(input@, i as int) {
            None => r is None,
            Some(e) => r matches Some((t, end)) && end == e
                && t@ == TokenView::Number(ascii_chars(input@.subrange(i as int, e))),
        },
{
    if i >= input.len() || !is_digit(input[i]) {
        return None;
    }
    proof {
        lemma_ends_in_range(input@, i as int);
        lemma_digits_end(input@, i as int);
    }
    // Parse integer part
    let mut end = scan_digits(input, i);
    // Parse fractional part
    if end < input.len() && input[end] == BYTE_DOT {
        proof {
            lemma_digits_end(input@, end + 1);
        }
        end = scan_digits(input, end + 1);
    }
    let ghost e2 = end;
    // Parse exponent part
    if end < input.len() && (input[end] == BYTE_LOWER_E || input[end] == BYTE_UPPER_E) {
        end += 1;
        if end < input.len() && (input[end] == BYTE_PLUS || input[end] == BYTE_MINUS) {
            end += 1;
        }
        if end < input.len() && is_digit(input[end]) {
            proof {
                lemma_digits_end(input@, end as int);
            }
            end = scan_digits(input, end);
        } else {
            // Invalid exponent format
            return None;
        }
    }
    proof {
        let e1 = digits_end(input@, i as int);
        if e1 < input@.len() {
            lemma_digits_end(input@, e1 + 1);
        }
        assert forall|k: int| i <= k < end implies #[trigger] input@[k] < 128 by {
            if k < e1 {
            } else if k == e1 {
            } else if k < e2 {
            } else if k == e2 {
            } else if k == e2 + 1 {
            } else {
                let e3 = if e2 + 1 < input@.len() && spec_is_sign(input@[e2 + 1]) { e2 + 2 } else { e2 + 1 };
                lemma_digits_end(input@, e3);
            }
        }
    }
    let text = ascii_string(input, i, end);
    Some((Token::Number(text), end))
}

/// Parse a function call (identifier followed by '(') starting at position i.
/// Returns the function name and the position after the '('.
pub fn parse_func(input: &[u8], i: usize) -> (r: Option<(Token, usize)>)
    ensures
        match func_end(input@, i as int) {
            None => r is None,
            Some((e, a)) => r matches Some((t, after)) && after == a
                && t@ == TokenView::Func(ascii_chars(input@.subrange(i as int, e)), None),
        },
{
    broadcast use vstd::string::group_string_axioms;

    if let Some((name, end)) = parse_ident(input, i) {
        proof {
            lemma_ident_continue_end(input@, i + 1);
        }
        // Skip whitespace
        let end = skip_whitespace(input, end);
        // Check for '('
        if end < input.len() && input[end] == BYTE_LPAREN {
            return Some((Token::Func(name.to_string(), None), end + 1));
        }
    }
    None
}

/// The operator, `)` or `,` at `p`, where an operand stands before it.
fn parse_operator(input: &[u8], p: usize, in_func: bool) -> (r: Option<(Token, usize)>)
    requires
        p < input@.len(),
    ensures
        match next_token_spec(input@, p as int, true, in_func) {
            None => r is None,
            Some((t, np)) => r matches Some((tok, e)) && tok@ == t && e == np,
        },
{
    let c = input[p];
    if c == BYTE_BANG {
        Some((Token::Unary(Operation::Fact), p + 1))
    } else if c == BYTE_PLUS {
        Some((Token::Binary(Operation::Plus), p + 1))
    } else if c == BYTE_MINUS {
        Some((Token::Binary(Operation::Minus), p + 1))
    } else if c == BYTE_STAR {
        Some((Token::Binary(Operation::Times), p + 1))
    } else if c == BYTE_SLASH {
        Some((Token::Binary(Operation::Div), p + 1))
    } else if c == BYTE_PERCENT {
        Some((Token::Binary(Operation::Rem), p + 1))
    } else if c == BYTE_CARET {
        Some((Token::Binary(Operation::Pow), p + 1))
    } else if c == BYTE_RPAREN {
        Some((Token::RParen, p + 1))
    } else if c == BYTE_COMMA && in_func {
        Some((Token::Comma, p + 1))
    } else {
        None
    }
}

/// The number, function call, variable, unary sign or `(` at `p`, where an operand is
/// expected.
fn parse_operand(input: &[u8], p: usize) -> (r: Option<(Token, usize)>)
    requires
        p < input@.len(),
    ensures
        match next_token_spec(input@, p as int, false, false) {
            None => r is None,
            Some((t, np)) => r matches Some((tok, e)) && tok@ == t && e == np,
        },
{
    broadcast use vstd::string::group_string_axioms;

    if let Some((num, end)) = parse_number(input, p) {
        Some((num, end))
    } else if let Some((func, end)) = parse_func(input, p) {
        Some((func, end))
    } else if let Some((name, end)) = parse_ident(input, p) {
        Some((Token::Var(name.to_string()), end))
    } else if input[p] == BYTE_PLUS {
        Some((Token::Unary(Operation::Plus), p + 1))
    } else if input[p] == BYTE_MINUS {
        Some((Token::Unary(Operation::Minus), p + 1))
    } else if input[p] == BYTE_LPAREN {
        Some((Token::LParen, p + 1))
    } else {
        None
    }
}

/// What the tokenizer expects next.
#[derive(Debug, Clone, Copy, PartialEq, Eq, Structural)]
pub enum TokenizerState {
    /// Accept any token that is an expression from the left: var, num, (, negpos.
    LExpr,
    /// Accept any token that needs an expression on the left: fact, binop, ), comma.
    AfterRExpr,
}

/// What an open parenthesis belongs to.
#[derive(Debug, Clone, Copy, PartialEq, Eq, Structural)]
pub enum ParenState {
    Subexpr,
    Func,
}

/// The open parentheses on the tokenizer's stack, each as whether it belongs to a
/// function call.
pub open spec fn paren_kinds(stack: Seq<ParenState>) -> Seq<bool> {
    stack.map_values(|p: ParenState| p == ParenState::Func)
}

/// `prefix` followed by the tokens of `rest`, or the error of `rest`.
pub open spec fn prepend_tokens(prefix: Seq<TokenView>, rest: Result<Seq<TokenView>, ParseError>) -> Result<Seq<TokenView>, ParseError> {
    match rest {
        Ok(ts) => Ok(prefix + ts),
        Err(e) => Err(e),
    }
}

/// Tokenize a given mathematical expression.
///
/// Returns `Ok` only if the expression is well-formed, and `Err` otherwise. A comma
/// separates the arguments of a function call and is accepted only directly inside one.
pub fn tokenize(input: &str) -> (r: Result<Vec<Token>, ParseError>)
    ensures
        match tokenize_spec(input.spec_bytes()) {
            Ok(ts) => r matches Ok(v) && tokens_view(v@) == ts,
            Err(e) => r == Err::<Vec<Token>, ParseError>(e),
        },
{
    let mut state = TokenizerState::LExpr;
    let mut paren_stack: Vec<ParenState> = Vec::new();
    let mut res: Vec<Token> = Vec::new();

    let bytes_in = input.as_bytes();
    let ghost bytes = bytes_in@;
    let mut pos: usize = 0;
    proof {
        assert(paren_kinds(paren_stack@) =~= Seq::<bool>::empty());
        assert(prepend_tokens(tokens_view(res@), tokenize_spec(bytes)) == tokenize_spec(bytes)) by {
            assert(tokens_view(res@) =~= Seq::<TokenView>::empty());
            if let Ok(ts) = tokenize_spec(bytes) {
                assert(Seq::<TokenView>::empty() + ts =~= ts);
            }
        }
    }

    while pos < bytes_in.len()
        invariant
            bytes == bytes_in@,
            bytes == input.spec_bytes(),
            pos <= bytes.len(),
            tokenize_spec(bytes) == prepend_tokens(tokens_view(res@),
                tokenize_from(bytes, pos as int, state == TokenizerState::AfterRExpr, paren_kinds(paren_stack@))),
        ensures
            pos >= bytes_in@.len() || ws_end(bytes, pos as int) >= bytes_in@.len(),
            tokenize_spec(bytes) == prepend_tokens(tokens_view(res@),
                tokenize_from(bytes, pos as int, state == TokenizerState::AfterRExpr, paren_kinds(paren_stack@))),
        decreases bytes_in@.len() - pos,
    {
        let pos_after_ws = skip_whitespace(bytes_in, pos);

        // If we've reached the end of the input after skipping whitespace, we're done
        if pos_after_ws >= bytes_in.len() {
            break;
        }
        let ghost after = state == TokenizerState::AfterRExpr;
        let ghost parens = paren_kinds(paren_stack@);
        let in_func = paren_stack.len() > 0 && paren_stack[paren_stack.len() - 1] == ParenState::Func;
        let token_result = match state {
            TokenizerState::LExpr => parse_operand(bytes_in, pos_after_ws),
            TokenizerState::AfterRExpr => parse_operator(bytes_in, pos_after_ws, in_func),
        };
        proof {
            assert(in_func == in_func_call(parens));
            lemma_next_token_advances(bytes, pos_after_ws as int, after, in_func);
            assert(tokenize_from(bytes, pos as int, after, parens) == match next_token_spec(bytes, pos_after_ws as int, after, in_func) {
                None => Err(ParseError::UnexpectedToken(pos_after_ws)),
                Some((t, np)) => if t is RParen && parens.len() == 0 {
                    Err(ParseError::UnexpectedToken(pos_after_ws))
                } else {
                    prepend_tokens(seq![t], tokenize_from(bytes, np, after_operand_after(t, after), parens_after(t, parens)))
                },
            });
        }
        match token_result {
            Some((t, np)) => {
                let ghost tv = t@;
                match t {
                    Token::LParen => {
                        paren_stack.push(ParenState::Subexpr);
                        proof {
                            assert(paren_kinds(paren_stack@) =~= parens.push(false));
                        }
                    },
                    Token::Func(..) => {
                        paren_stack.push(ParenState::Func);
                        proof {
                            assert(paren_kinds(paren_stack@) =~= parens.push(true));
                        }
                    },
                    Token::RParen => {
                        if paren_stack.pop().is_none() {
                            return Err(ParseError::UnexpectedToken(pos_after_ws));
                        }
                        proof {
                            assert(paren_kinds(paren_stack@) =~= parens.drop_last());
                        }
                    },
                    Token::Var(_) | Token::Number(_) => {
                        state = TokenizerState::AfterRExpr;
                    },
                    Token::Binary(_) | Token::Comma => {
                        state = TokenizerState::LExpr;
                    },
                    // Unary tokens don't change the state
                    // because we still need to parse their operands
                    _ => {},
                }
                let ghost old_res = res@;
                res.push(t);
                pos = np;
                proof {
                    assert(tokens_view(res@) =~= tokens_view(old_res).push(tv));
                    assert(state == TokenizerState::AfterRExpr <==> after_operand_after(tv, after));
                    assert(paren_kinds(paren_stack@) == parens_after(tv, parens));
                    let rest = tokenize_from(bytes, pos as int, after_operand_after(tv, after), parens_after(tv, parens));
                    match rest {
                        Ok(ts) => {
                            assert(tokens_view(old_res) + (seq![tv] + ts) =~= tokens_view(old_res).push(tv) + ts);
                        },
                        Err(_) => {},
                    }
                }
            },
            None => {
                proof {
                    assert(next_token_spec(bytes, pos_after_ws as int, after, in_func) is None);
                    assert(tokenize_from(bytes, pos as int, after, parens) == Err::<Seq<TokenView>, ParseError>(ParseError::UnexpectedToken(pos_after_ws)));
                }
                return Err(ParseError::UnexpectedToken(pos_after_ws));
            },
        }
    }

    proof {
        if pos < bytes_in@.len() {
            lemma_ws_end(bytes, pos as int);
        }
        let after = state == TokenizerState::AfterRExpr;
        let parens = paren_kinds(paren_stack@);
        assert(tokenize_from(bytes, pos as int, after, parens) == if !after {
            Err(ParseError::MissingArgument)
        } else if parens.len() > 0 {
            Err(ParseError::MissingRParen(parens.len() as i32))
        } else {
            Ok(Seq::<TokenView>::empty())
        });
    }
    if state == TokenizerState::LExpr {
        Err(ParseError::MissingArgument)
    } else if !paren_stack.is_empty() {
        Err(ParseError::MissingRParen(paren_stack.len() as i32))
    } else {
        proof {
            assert(tokens_view(res@) + Seq::<TokenView>::empty() =~= tokens_view(res@));
        }
        Ok(res)
    }
}


/// A token after which the expression may end: an operand, `)` or a factorial.
pub open spec fn closes_operand(t: TokenView) -> bool {
    match t {
        TokenView::Number(_) | TokenView::Var(_) | TokenView::RParen => true,
        TokenView::Unary(op) => op == Operation::Fact,
        _ => false,
    }
}

/// Each `(` and each function call in `ts` is closed by a later `)`, and each `)` closes
/// one of them, given `depth` open ones before `ts`.
pub open spec fn balanced_from(ts: Seq<TokenView>, depth: int) -> bool
    decreases ts.len(),
{
    if ts.len() == 0 {
        depth == 0
    } else {
        let d = match ts[0] {
            TokenView::LParen | TokenView::Func(_, _) => depth + 1,
            TokenView::RParen => depth - 1,
            _ => depth,
        };
        d >= 0 && balanced_from(ts.drop_first(), d)
    }
}

/// Which tokens can stand where an operand is expected, and which after one.
pub(crate) proof fn lemma_next_token_kind(input: Seq<u8>, p: int, after_operand: bool, in_func: bool)
    ensures
        next_token_spec(input, p, after_operand, in_func) matches Some((t, np)) ==> {
            &&& after_operand ==> (t is Binary || t is RParen || t is Comma
                || t == TokenView::Unary(Operation::Fact))
            &&& !after_operand ==> (t is Number || t is Func || t is Var || t is LParen
                || t == TokenView::Unary(Operation::Plus) || t == TokenView::Unary(Operation::Minus))
        },
{
}

proof fn lemma_tokenize_from_well_formed(input: Seq<u8>, pos: int, after_operand: bool, parens: Seq<bool>)
    ensures
        tokenize_from(input, pos, after_operand, parens) matches Ok(ts) ==> {
            &&& balanced_from(ts, parens.len() as int)
            &&& ts.len() == 0 ==> after_operand
            &&& ts.len() > 0 ==> closes_operand(ts.last())
        },
    decreases input.len() - pos,
{
    let p = ws_end(input, pos);
    if 0 <= pos && p < input.len() {
        if let Some((t, np)) = next_token_spec(input, p, after_operand, in_func_call(parens)) {
            if !(t is RParen && parens.len() == 0) {
                lemma_ws_end(input, pos);
                lemma_next_token_advances(input, p, after_operand, in_func_call(parens));
                lemma_next_token_kind(input, p, after_operand, in_func_call(parens));
                let a2 = after_operand_after(t, after_operand);
                let d2 = parens_after(t, parens);
                lemma_tokenize_from_well_formed(input, np, a2, d2);
                if let Ok(rest) = tokenize_from(input, np, a2, d2) {
                    let ts = seq![t] + rest;
                    assert(ts[0] == t);
                    assert(ts.drop_first() =~= rest);
                    if rest.len() > 0 {
                        assert(ts.last() == rest.last());
                    }
                }
            }
        }
    }
}

/// What the tokenizer accepts is well formed: at least one token, the last one an
/// operand, `)` or a factorial, and the parentheses and function calls balanced.
pub proof fn lemma_tokenize_well_formed(input: Seq<u8>)
    ensures
        tokenize_spec(input) matches Ok(ts) ==> {
            &&& ts.len() > 0
            &&& closes_operand(ts.last())
            &&& balanced_from(ts, 0)
        },
{
    lemma_tokenize_from_well_formed(input, 0, false, Seq::empty());
}

} // verus!
