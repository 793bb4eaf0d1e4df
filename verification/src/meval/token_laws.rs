//! Laws of the tokenizer: what whitespace around an expression changes, where error
//! positions fall, and how a missing right parenthesis is repaired.
use vstd::prelude::*;
use crate::meval::tokenizer::{spec_is_digit, spec_is_ident_continue, spec_is_whitespace, spec_is_exp_mark, spec_is_sign,
    BYTE_DOT, BYTE_LPAREN, BYTE_RPAREN, digits_end, ident_continue_end, ws_end, number_end, ident_end, func_end,
    next_token_spec, tokenize_from, tokenize_spec, in_func_call, parens_after, after_operand_after, ParseError, TokenView,
    lemma_digits_end, lemma_ws_end, lemma_ends_in_range, lemma_next_token_advances, lemma_next_token_kind,
    lemma_tokenize_well_formed, Operation, prepend_tokens, BYTE_PLUS, BYTE_MINUS, BYTE_STAR, BYTE_SLASH, BYTE_PERCENT,
    BYTE_CARET, BYTE_BANG, spec_is_ident_start, ascii_chars};
use crate::meval::shunting_yard::{well_kinded, lemma_tokenize_from_well_kinded};

verus! {

/// Every byte of `w` is whitespace.
pub open spec fn all_whitespace(w: Seq<u8>) -> bool {
    forall|j: int| 0 <= j < w.len() ==> spec_is_whitespace(#[trigger] w[j])
}

/// `n` right parentheses.
pub open spec fn rparens(n: nat) -> Seq<u8> {
    Seq::new(n, |j: int| BYTE_RPAREN)
}

/// A text that, put after an expression, cannot continue its last number, name or
/// function call: it is empty, or it starts with a byte that no token goes on with and
/// is either all whitespace or does not start with whitespace.
pub open spec fn ends_tokens(u: Seq<u8>) -> bool {
    u.len() == 0 || {
        let c = u[0];
        &&& !spec_is_digit(c)
        &&& !spec_is_ident_continue(c)
        &&& c != BYTE_DOT
        &&& !spec_is_exp_mark(c)
        &&& !spec_is_sign(c)
        &&& c != BYTE_LPAREN
        &&& (all_whitespace(u) || !spec_is_whitespace(c))
    }
}

/// A text that, put after an expression, cannot continue its last name or function call,
/// nor the digits of its last number: like `ends_tokens`, but it may start with a sign.
pub open spec fn ends_names(u: Seq<u8>) -> bool {
    u.len() == 0 || {
        let c = u[0];
        &&& !spec_is_digit(c)
        &&& !spec_is_ident_continue(c)
        &&& c != BYTE_DOT
        &&& !spec_is_exp_mark(c)
        &&& c != BYTE_LPAREN
        &&& (all_whitespace(u) || !spec_is_whitespace(c))
    }
}

/// The position that `ws_end` reaches from the end of `s` in `s + u`.
pub open spec fn ws_stop(s: Seq<u8>, u: Seq<u8>) -> int {
    if u.len() > 0 && all_whitespace(u) { (s.len() + u.len()) as int } else { s.len() as int }
}

proof fn lemma_digits_end_ext(s: Seq<u8>, u: Seq<u8>, i: int)
    requires
        ends_names(u),
        0 <= i <= s.len(),
    ensures
        digits_end(s + u, i) == digits_end(s, i),
    decreases s.len() - i,
{
    let t = s + u;
    if i < s.len() {
        assert(t[i] == s[i]);
        lemma_digits_end_ext(s, u, i + 1);
    } else if u.len() > 0 {
        assert(t[i] == u[0]);
    }
}

proof fn lemma_ident_continue_end_ext(s: Seq<u8>, u: Seq<u8>, i: int)
    requires
        ends_names(u),
        0 <= i <= s.len(),
    ensures
        ident_continue_end(s + u, i) == ident_continue_end(s, i),
    decreases s.len() - i,
{
    let t = s + u;
    if i < s.len() {
        assert(t[i] == s[i]);
        lemma_ident_continue_end_ext(s, u, i + 1);
    } else if u.len() > 0 {
        assert(t[i] == u[0]);
    }
}

proof fn lemma_ws_end_all(t: Seq<u8>, j: int)
    requires
        0 <= j <= t.len(),
        forall|k: int| j <= k < t.len() ==> spec_is_whitespace(#[trigger] t[k]),
    ensures
        ws_end(t, j) == t.len(),
    decreases t.len() - j,
{
    if j < t.len() {
        lemma_ws_end_all(t, j + 1);
    }
}

proof fn lemma_ws_end_ext(s: Seq<u8>, u: Seq<u8>, i: int)
    requires
        ends_names(u),
        0 <= i <= s.len(),
    ensures
        ws_end(s, i) < s.len() ==> ws_end(s + u, i) == ws_end(s, i),
        ws_end(s, i) >= s.len() ==> ws_end(s + u, i) == ws_stop(s, u),
    decreases s.len() - i,
{
    let t = s + u;
    if i < s.len() {
        assert(t[i] == s[i]);
        lemma_ws_end_ext(s, u, i + 1);
    } else {
        if u.len() > 0 && all_whitespace(u) {
            assert forall|k: int| i <= k < t.len() implies spec_is_whitespace(#[trigger] t[k]) by {
                assert(t[k] == u[k - s.len()]);
            }
            lemma_ws_end_all(t, i);
        } else if u.len() > 0 {
            assert(t[i] == u[0]);
        }
    }
}

proof fn lemma_number_end_ext(s: Seq<u8>, u: Seq<u8>, i: int)
    requires
        ends_tokens(u),
        0 <= i < s.len(),
    ensures
        number_end(s + u, i) == number_end(s, i),
{
    let t = s + u;
    assert(t[i] == s[i]);
    if spec_is_digit(s[i]) {
        lemma_digits_end(s, i);
        lemma_digits_end_ext(s, u, i);
        let e1 = digits_end(s, i);
        if u.len() > 0 {
            assert(t[s.len() as int] == u[0]);
        }
        if e1 < s.len() {
            assert(t[e1] == s[e1]);
            lemma_digits_end(s, e1 + 1);
            lemma_digits_end_ext(s, u, e1 + 1);
        }
        let e2 = if e1 < s.len() && s[e1] == BYTE_DOT { digits_end(s, e1 + 1) } else { e1 };
        assert(e2 <= s.len());
        if e2 < s.len() {
            assert(t[e2] == s[e2]);
            if e2 + 1 < s.len() {
                assert(t[e2 + 1] == s[e2 + 1]);
            }
            let e3 = if e2 + 1 < s.len() && spec_is_sign(s[e2 + 1]) { e2 + 2 } else { e2 + 1 };
            assert(e3 <= s.len());
            if e3 < s.len() {
                assert(t[e3] == s[e3]);
                lemma_digits_end_ext(s, u, e3);
            }
        }
    }
}

/// A number that ends within `s` ends there in `s + u` too, whatever sign follows it.
proof fn lemma_number_end_ext_some(s: Seq<u8>, u: Seq<u8>, i: int)
    requires
        ends_names(u),
        0 <= i < s.len(),
        number_end(s, i) is Some,
    ensures
        number_end(s + u, i) == number_end(s, i),
{
    let t = s + u;
    assert(t[i] == s[i]);
    lemma_digits_end(s, i);
    lemma_digits_end_ext(s, u, i);
    let e1 = digits_end(s, i);
    if u.len() > 0 {
        assert(t[s.len() as int] == u[0]);
    }
    if e1 < s.len() {
        assert(t[e1] == s[e1]);
        lemma_digits_end(s, e1 + 1);
        lemma_digits_end_ext(s, u, e1 + 1);
    }
    let e2 = if e1 < s.len() && s[e1] == BYTE_DOT { digits_end(s, e1 + 1) } else { e1 };
    assert(e2 <= s.len());
    if e2 < s.len() {
        assert(t[e2] == s[e2]);
        if e2 + 1 < s.len() {
            assert(t[e2 + 1] == s[e2 + 1]);
        }
        let e3 = if e2 + 1 < s.len() && spec_is_sign(s[e2 + 1]) { e2 + 2 } else { e2 + 1 };
        if e3 < s.len() {
            assert(t[e3] == s[e3]);
            lemma_digits_end_ext(s, u, e3);
        }
    }
}

/// Within `s`, a token that `s` has there stays the same in `s + u`, whatever sign
/// follows.
proof fn lemma_next_token_ext_some(s: Seq<u8>, u: Seq<u8>, p: int, after_operand: bool, in_func: bool)
    requires
        ends_names(u),
        0 <= p < s.len(),
        next_token_spec(s, p, after_operand, in_func) is Some,
    ensures
        next_token_spec(s + u, p, after_operand, in_func) == next_token_spec(s, p, after_operand, in_func),
{
    let t = s + u;
    assert(t[p] == s[p]);
    if number_end(s, p) is Some {
        lemma_number_end_ext_some(s, u, p);
    }
    lemma_func_end_ext(s, u, p);
    lemma_ident_end_ext(s, u, p);
    lemma_ends_in_range(s, p);
    if let Some(e) = number_end(s, p) {
        assert(t.subrange(p, e) =~= s.subrange(p, e));
    }
    if let Some((e, a)) = func_end(s, p) {
        assert(t.subrange(p, e) =~= s.subrange(p, e));
    }
    if let Some(e) = ident_end(s, p) {
        assert(t.subrange(p, e) =~= s.subrange(p, e));
    }
}

proof fn lemma_ident_end_ext(s: Seq<u8>, u: Seq<u8>, i: int)
    requires
        ends_names(u),
        0 <= i < s.len(),
    ensures
        ident_end(s + u, i) == ident_end(s, i),
{
    assert((s + u)[i] == s[i]);
    lemma_ident_continue_end_ext(s, u, i + 1);
}

proof fn lemma_func_end_ext(s: Seq<u8>, u: Seq<u8>, i: int)
    requires
        ends_names(u),
        0 <= i < s.len(),
    ensures
        func_end(s + u, i) == func_end(s, i),
{
    let t = s + u;
    lemma_ident_end_ext(s, u, i);
    lemma_ends_in_range(s, i);
    if let Some(e) = ident_end(s, i) {
        lemma_ws_end(s, e);
        lemma_ws_end_ext(s, u, e);
        let w = ws_end(s, e);
        if w < s.len() {
            assert(t[w] == s[w]);
        } else if u.len() > 0 && all_whitespace(u) {
        } else if u.len() > 0 {
            assert(t[s.len() as int] == u[0]);
        }
    }
}

/// Within `s`, a text that ends the tokens changes no token of `s`.
proof fn lemma_next_token_ext(s: Seq<u8>, u: Seq<u8>, p: int, after_operand: bool, in_func: bool)
    requires
        ends_tokens(u),
        0 <= p < s.len(),
    ensures
        next_token_spec(s + u, p, after_operand, in_func) == next_token_spec(s, p, after_operand, in_func),
{
    let t = s + u;
    assert(t[p] == s[p]);
    lemma_number_end_ext(s, u, p);
    lemma_func_end_ext(s, u, p);
    lemma_ident_end_ext(s, u, p);
    lemma_ends_in_range(s, p);
    if let Some(e) = number_end(s, p) {
        assert(t.subrange(p, e) =~= s.subrange(p, e));
    }
    if let Some((e, a)) = func_end(s, p) {
        assert(t.subrange(p, e) =~= s.subrange(p, e));
    }
    if let Some(e) = ident_end(s, p) {
        assert(t.subrange(p, e) =~= s.subrange(p, e));
    }
}

/// Whitespace after the expression changes nothing from any position within it on.
proof fn lemma_tokenize_from_trailing(s: Seq<u8>, w: Seq<u8>, pos: int, after_operand: bool, parens: Seq<bool>)
    requires
        all_whitespace(w),
        0 <= pos <= s.len(),
    ensures
        tokenize_from(s + w, pos, after_operand, parens) == tokenize_from(s, pos, after_operand, parens),
    decreases s.len() - pos,
{
    let t = s + w;
    assert(ends_tokens(w)) by {
        if w.len() > 0 {
            assert(spec_is_whitespace(w[0]));
        }
    }
    lemma_ws_end(s, pos);
    lemma_ws_end_ext(s, w, pos);
    let p = ws_end(s, pos);
    if p < s.len() {
        let f = in_func_call(parens);
        lemma_next_token_ext(s, w, p, after_operand, f);
        lemma_next_token_advances(s, p, after_operand, f);
        if let Some((tk, np)) = next_token_spec(s, p, after_operand, f) {
            if !(tk is RParen && parens.len() == 0) {
                lemma_tokenize_from_trailing(s, w, np, after_operand_after(tk, after_operand), parens_after(tk, parens));
            }
        }
    }
}

/// Whitespace after an expression changes neither its tokens nor the error reported.
pub proof fn lemma_tokenize_trailing_whitespace(s: Seq<u8>, w: Seq<u8>)
    requires
        all_whitespace(w),
    ensures
        tokenize_spec(s + w) == tokenize_spec(s),
{
    lemma_tokenize_from_trailing(s, w, 0, false, Seq::empty());
}

/// Past the first position that `ws_end` reaches, the byte is not whitespace.
proof fn lemma_ws_end_stops(input: Seq<u8>, i: int)
    requires
        0 <= i <= input.len(),
    ensures
        ws_end(input, i) < input.len() ==> !spec_is_whitespace(input[ws_end(input, i)]),
    decreases input.len() - i,
{
    if i < input.len() && spec_is_whitespace(input[i]) {
        lemma_ws_end_stops(input, i + 1);
    }
}

proof fn lemma_tokenize_from_error_position(input: Seq<u8>, pos: int, after_operand: bool, parens: Seq<bool>)
    requires
        input.len() <= usize::MAX,
        0 <= pos <= input.len(),
    ensures
        tokenize_from(input, pos, after_operand, parens) matches Err(ParseError::UnexpectedToken(i)) ==>
            pos <= i < input.len() && !spec_is_whitespace(input[i as int]),
    decreases input.len() - pos,
{
    lemma_ws_end(input, pos);
    lemma_ws_end_stops(input, pos);
    let p = ws_end(input, pos);
    if p < input.len() {
        let f = in_func_call(parens);
        lemma_next_token_advances(input, p, after_operand, f);
        if let Some((tk, np)) = next_token_spec(input, p, after_operand, f) {
            if !(tk is RParen && parens.len() == 0) {
                lemma_tokenize_from_error_position(input, np, after_operand_after(tk, after_operand), parens_after(tk, parens));
            }
        }
    }
}

/// An unexpected token is reported at a position within the input that holds no
/// whitespace.
pub proof fn lemma_tokenize_error_position(input: Seq<u8>)
    requires
        input.len() <= usize::MAX,
    ensures
        tokenize_spec(input) matches Err(ParseError::UnexpectedToken(i)) ==>
            i < input.len() && !spec_is_whitespace(input[i as int]),
{
    lemma_tokenize_from_error_position(input, 0, false, Seq::empty());
}

/// After an operand, as many right parentheses as are open close them all.
proof fn lemma_tokenize_from_closing(t: Seq<u8>, j: int, parens: Seq<bool>)
    requires
        0 <= j,
        t.len() == j + parens.len(),
        forall|k: int| j <= k < t.len() ==> #[trigger] t[k] == BYTE_RPAREN,
    ensures
        tokenize_from(t, j, true, parens) is Ok,
    decreases parens.len(),
{
    if parens.len() > 0 {
        assert(t[j] == BYTE_RPAREN);
        assert(ws_end(t, j) == j);
        assert(next_token_spec(t, j, true, in_func_call(parens)) == Some((TokenView::RParen, j + 1)));
        lemma_tokenize_from_closing(t, j + 1, parens.drop_last());
    }
}

proof fn lemma_tokenize_from_missing_rparen(s: Seq<u8>, pos: int, after_operand: bool, parens: Seq<bool>)
    requires
        0 <= pos <= s.len(),
        parens.len() + (s.len() - pos) <= i32::MAX,
    ensures
        tokenize_from(s, pos, after_operand, parens) matches Err(ParseError::MissingRParen(k)) ==>
            k >= 1 && tokenize_from(s + rparens(k as nat), pos, after_operand, parens) is Ok,
    decreases s.len() - pos,
{
    lemma_ws_end(s, pos);
    let p = ws_end(s, pos);
    if let Err(ParseError::MissingRParen(k)) = tokenize_from(s, pos, after_operand, parens) {
        let u = rparens(k as nat);
        let t = s + u;
        if p < s.len() {
            let f = in_func_call(parens);
            lemma_next_token_advances(s, p, after_operand, f);
            let (tk, np) = next_token_spec(s, p, after_operand, f).unwrap();
            let a2 = after_operand_after(tk, after_operand);
            let ps2 = parens_after(tk, parens);
            lemma_tokenize_from_missing_rparen(s, np, a2, ps2);
            if k >= 1 {
                assert(u[0] == BYTE_RPAREN);
                assert(ends_tokens(u));
                lemma_ws_end_ext(s, u, pos);
                lemma_next_token_ext(s, u, p, after_operand, f);
            }
        } else {
            assert(after_operand && parens.len() > 0);
            assert(k == parens.len());
            assert(u[0] == BYTE_RPAREN);
            assert(ends_tokens(u));
            lemma_ws_end_ext(s, u, pos);
            assert(ws_end(t, pos) == s.len());
            lemma_tokenize_from_closing(t, s.len() as int, parens);
            assert(ws_end(t, s.len() as int) == s.len());
        }
    }
}

/// A missing right parenthesis is reported with the number `k >= 1` of parentheses left
/// open, and appending `k` right parentheses makes the input tokenize.
pub proof fn lemma_tokenize_missing_rparen(input: Seq<u8>)
    requires
        input.len() <= i32::MAX,
    ensures
        tokenize_spec(input) matches Err(ParseError::MissingRParen(k)) ==>
            k >= 1 && tokenize_spec(input + rparens(k as nat)) is Ok,
{
    lemma_tokenize_from_missing_rparen(input, 0, false, Seq::empty());
}

/// The result of tokenizing `s`, with the position of an unexpected token moved on by `k`.
pub open spec fn shift_error(r: Result<Seq<TokenView>, ParseError>, k: int) -> Result<Seq<TokenView>, ParseError> {
    match r {
        Err(ParseError::UnexpectedToken(i)) => Err(ParseError::UnexpectedToken((i + k) as usize)),
        _ => r,
    }
}

proof fn lemma_digits_end_shift(w: Seq<u8>, s: Seq<u8>, i: int)
    requires
        0 <= i <= s.len(),
    ensures
        digits_end(w + s, i + w.len()) == digits_end(s, i) + w.len(),
    decreases s.len() - i,
{
    if i < s.len() {
        assert((w + s)[i + w.len()] == s[i]);
        lemma_digits_end_shift(w, s, i + 1);
    }
}

proof fn lemma_ident_continue_end_shift(w: Seq<u8>, s: Seq<u8>, i: int)
    requires
        0 <= i <= s.len(),
    ensures
        ident_continue_end(w + s, i + w.len()) == ident_continue_end(s, i) + w.len(),
    decreases s.len() - i,
{
    if i < s.len() {
        assert((w + s)[i + w.len()] == s[i]);
        lemma_ident_continue_end_shift(w, s, i + 1);
    }
}

proof fn lemma_ws_end_shift(w: Seq<u8>, s: Seq<u8>, i: int)
    requires
        0 <= i <= s.len(),
    ensures
        ws_end(w + s, i + w.len()) == ws_end(s, i) + w.len(),
    decreases s.len() - i,
{
    if i < s.len() {
        assert((w + s)[i + w.len()] == s[i]);
        lemma_ws_end_shift(w, s, i + 1);
    }
}

proof fn lemma_next_token_shift(w: Seq<u8>, s: Seq<u8>, p: int, after_operand: bool, in_func: bool)
    requires
        0 <= p < s.len(),
    ensures
        next_token_spec(w + s, p + w.len(), after_operand, in_func) == match next_token_spec(s, p, after_operand, in_func) {
            Some((tk, np)) => Some((tk, np + w.len())),
            None => None,
        },
{
    let t = w + s;
    let k = w.len() as int;
    assert(t[p + k] == s[p]);
    lemma_ends_in_range(s, p);
    lemma_digits_end(s, p);
    lemma_digits_end_shift(w, s, p);
    let e1 = digits_end(s, p);
    if e1 < s.len() {
        assert(t[e1 + k] == s[e1]);
        lemma_digits_end(s, e1 + 1);
        lemma_digits_end_shift(w, s, e1 + 1);
    }
    let e2 = if e1 < s.len() && s[e1] == BYTE_DOT { digits_end(s, e1 + 1) } else { e1 };
    if e2 < s.len() {
        assert(t[e2 + k] == s[e2]);
        if e2 + 1 < s.len() {
            assert(t[e2 + 1 + k] == s[e2 + 1]);
        }
        let e3 = if e2 + 1 < s.len() && spec_is_sign(s[e2 + 1]) { e2 + 2 } else { e2 + 1 };
        if e3 < s.len() {
            assert(t[e3 + k] == s[e3]);
            lemma_digits_end_shift(w, s, e3);
        }
    }
    assert(number_end(t, p + k) == match number_end(s, p) { Some(e) => Some(e + k), None => None });
    lemma_ident_continue_end_shift(w, s, p + 1);
    assert(ident_end(t, p + k) == match ident_end(s, p) { Some(e) => Some(e + k), None => None });
    if let Some(e) = ident_end(s, p) {
        lemma_ws_end(s, e);
        lemma_ws_end_shift(w, s, e);
        let ws = ws_end(s, e);
        if ws < s.len() {
            assert(t[ws + k] == s[ws]);
        }
    }
    assert(func_end(t, p + k) == match func_end(s, p) { Some((e, a)) => Some((e + k, a + k)), None => None });
    if let Some(e) = number_end(s, p) {
        assert(t.subrange(p + k, e + k) =~= s.subrange(p, e));
    }
    if let Some((e, a)) = func_end(s, p) {
        assert(t.subrange(p + k, e + k) =~= s.subrange(p, e));
    }
    if let Some(e) = ident_end(s, p) {
        assert(t.subrange(p + k, e + k) =~= s.subrange(p, e));
    }
}

proof fn lemma_tokenize_from_shift(w: Seq<u8>, s: Seq<u8>, pos: int, after_operand: bool, parens: Seq<bool>)
    requires
        0 <= pos <= s.len(),
        w.len() + s.len() <= usize::MAX,
    ensures
        tokenize_from(w + s, pos + w.len(), after_operand, parens)
            == shift_error(tokenize_from(s, pos, after_operand, parens), w.len() as int),
    decreases s.len() - pos,
{
    let k = w.len() as int;
    lemma_ws_end(s, pos);
    lemma_ws_end_shift(w, s, pos);
    let p = ws_end(s, pos);
    if p < s.len() {
        let f = in_func_call(parens);
        lemma_next_token_shift(w, s, p, after_operand, f);
        lemma_next_token_advances(s, p, after_operand, f);
        if let Some((tk, np)) = next_token_spec(s, p, after_operand, f) {
            if !(tk is RParen && parens.len() == 0) {
                lemma_tokenize_from_shift(w, s, np, after_operand_after(tk, after_operand), parens_after(tk, parens));
            }
        }
    }
}

/// Whitespace before an expression changes its tokens in nothing; an unexpected token is
/// reported that many positions further on, and the other errors stay as they are.
pub proof fn lemma_tokenize_leading_whitespace(w: Seq<u8>, s: Seq<u8>)
    requires
        all_whitespace(w),
        w.len() + s.len() <= usize::MAX,
    ensures
        tokenize_spec(w + s) == shift_error(tokenize_spec(s), w.len() as int),
{
    let t = w + s;
    let k = w.len() as int;
    assert forall|j: int| 0 <= j < k implies spec_is_whitespace(#[trigger] t[j]) by {
        assert(t[j] == w[j]);
    }
    lemma_ws_end_prefix(t, 0, k);
    lemma_tokenize_from_shift(w, s, 0, false, Seq::empty());
    assert(ws_end(t, 0) == ws_end(t, k));
    assert(tokenize_from(t, 0, false, Seq::empty()) == tokenize_from(t, k, false, Seq::empty()));
}

/// Through whitespace up to `k`, `ws_end` goes on from `k`.
proof fn lemma_ws_end_prefix(t: Seq<u8>, j: int, k: int)
    requires
        0 <= j <= k <= t.len(),
        forall|i: int| 0 <= i < k ==> spec_is_whitespace(#[trigger] t[i]),
    ensures
        ws_end(t, j) == ws_end(t, k),
    decreases k - j,
{
    if j < k {
        lemma_ws_end_prefix(t, j + 1, k);
    }
}

/// The open parentheses after the tokens `ts`, starting from `parens`.
pub open spec fn parens_through(parens: Seq<bool>, ts: Seq<TokenView>) -> Seq<bool>
    decreases ts.len(),
{
    if ts.len() == 0 {
        parens
    } else {
        parens_after(ts.last(), parens_through(parens, ts.drop_last()))
    }
}

/// Going through a first token and then the rest is going through all of them.
proof fn lemma_parens_through_first(parens: Seq<bool>, t: TokenView, rest: Seq<TokenView>, i: int)
    requires
        0 <= i <= rest.len(),
    ensures
        parens_through(parens, (seq![t] + rest).take(i + 1)) == parens_through(parens_after(t, parens), rest.take(i)),
    decreases i,
{
    let ts = seq![t] + rest;
    if i == 0 {
        assert(ts.take(1).drop_last() =~= Seq::<TokenView>::empty());
        assert(rest.take(0) =~= Seq::<TokenView>::empty());
        assert(ts.take(1).last() == t);
        assert(parens_through(parens, ts.take(1).drop_last()) == parens);
        assert(parens_through(parens, ts.take(1)) == parens_after(t, parens));
    } else {
        lemma_parens_through_first(parens, t, rest, i - 1);
        assert(ts.take(i + 1).drop_last() =~= ts.take(i));
        assert(rest.take(i).drop_last() =~= rest.take(i - 1));
        assert(ts.take(i + 1).last() == rest.take(i).last());
    }
}

proof fn lemma_tokenize_from_commas(input: Seq<u8>, pos: int, after_operand: bool, parens: Seq<bool>)
    ensures
        tokenize_from(input, pos, after_operand, parens) matches Ok(ts) ==>
            forall|i: int| 0 <= i < ts.len() && #[trigger] ts[i] is Comma ==> in_func_call(parens_through(parens, ts.take(i))),
    decreases input.len() - pos,
{
    let p = ws_end(input, pos);
    if 0 <= pos && p < input.len() {
        let f = in_func_call(parens);
        if let Some((tk, np)) = next_token_spec(input, p, after_operand, f) {
            if !(tk is RParen && parens.len() == 0) {
                lemma_ws_end(input, pos);
                lemma_next_token_advances(input, p, after_operand, f);
                let a2 = after_operand_after(tk, after_operand);
                let ps2 = parens_after(tk, parens);
                lemma_tokenize_from_commas(input, np, a2, ps2);
                if let Ok(rest) = tokenize_from(input, np, a2, ps2) {
                    let ts = seq![tk] + rest;
                    assert forall|i: int| 0 <= i < ts.len() && #[trigger] ts[i] is Comma
                        implies in_func_call(parens_through(parens, ts.take(i))) by {
                        if i == 0 {
                            assert(ts.take(0) =~= Seq::<TokenView>::empty());
                            assert(tk is Comma);
                        } else {
                            assert(ts[i] == rest[i - 1]);
                            lemma_parens_through_first(parens, tk, rest, i - 1);
                        }
                    }
                }
            }
        }
    }
}

/// In what the tokenizer accepts, every comma stands directly inside the parentheses of
/// a function call: it separates function arguments.
pub proof fn lemma_tokenize_commas_in_calls(input: Seq<u8>)
    ensures
        tokenize_spec(input) matches Ok(ts) ==>
            forall|i: int| 0 <= i < ts.len() && #[trigger] ts[i] is Comma
                ==> in_func_call(parens_through(Seq::empty(), ts.take(i))),
{
    lemma_tokenize_from_commas(input, 0, false, Seq::empty());
}

/// A token that can start an operand: a number, a variable, a function call, `(`, or a
/// sign.
pub open spec fn starts_operand(t: TokenView) -> bool {
    t is Number || t is Var || t is Func || t is LParen || t == TokenView::Unary(Operation::Plus)
        || t == TokenView::Unary(Operation::Minus)
}

/// What the tokenizer accepts starts with a token that starts an operand, and its
/// function calls carry no argument count.
pub proof fn lemma_tokenize_first_and_calls(input: Seq<u8>)
    ensures
        tokenize_spec(input) matches Ok(ts) ==> {
            &&& ts.len() > 0
            &&& starts_operand(ts[0])
            &&& forall|j: int| 0 <= j < ts.len() && #[trigger] ts[j] is Func ==> ts[j] matches TokenView::Func(_, None)
        },
{
    lemma_tokenize_well_formed(input);
    lemma_tokenize_from_well_kinded(input, 0, false, Seq::empty());
    let p = ws_end(input, 0);
    if p < input.len() {
        lemma_next_token_kind(input, p, false, in_func_call(Seq::<bool>::empty()));
    }
    if let Ok(ts) = tokenize_spec(input) {
        assert forall|j: int| 0 <= j < ts.len() && #[trigger] ts[j] is Func implies ts[j] matches TokenView::Func(_, None) by {
            assert(well_kinded(ts[j]));
        }
    }
}

/// Where `s` tokenizes from `pos` on, `s + u` tokenizes alike up to the end of `s`, and
/// goes on from there after an operand with no parenthesis open.
proof fn lemma_tokenize_from_prefix(s: Seq<u8>, u: Seq<u8>, pos: int, after_operand: bool, parens: Seq<bool>)
    requires
        u.len() > 0,
        ends_names(u),
        !spec_is_whitespace(u[0]),
        0 <= pos <= s.len(),
        tokenize_from(s, pos, after_operand, parens) is Ok,
    ensures
        tokenize_from(s + u, pos, after_operand, parens) == prepend_tokens(
            tokenize_from(s, pos, after_operand, parens).unwrap(),
            tokenize_from(s + u, s.len() as int, true, Seq::empty()),
        ),
    decreases s.len() - pos,
{
    let t = s + u;
    lemma_ws_end(s, pos);
    lemma_ws_end_ext(s, u, pos);
    let p = ws_end(s, pos);
    if p < s.len() {
        let f = in_func_call(parens);
        lemma_next_token_advances(s, p, after_operand, f);
        let (tk, np) = next_token_spec(s, p, after_operand, f).unwrap();
        lemma_next_token_ext_some(s, u, p, after_operand, f);
        let a2 = after_operand_after(tk, after_operand);
        let ps2 = parens_after(tk, parens);
        lemma_tokenize_from_prefix(s, u, np, a2, ps2);
        let rest = tokenize_from(s, np, a2, ps2).unwrap();
        let tail = tokenize_from(t, s.len() as int, true, Seq::empty());
        if let Ok(v) = tail {
            assert(seq![tk] + (rest + v) =~= (seq![tk] + rest) + v);
        }
    } else {
        assert(after_operand && parens.len() == 0);
        assert(parens =~= Seq::<bool>::empty());
        assert(t[s.len() as int] == u[0]);
        assert(ws_end(t, s.len() as int) == s.len());
        assert(ws_end(t, pos) == s.len());
        if let Ok(v) = tokenize_from(t, s.len() as int, true, Seq::empty()) {
            assert(Seq::<TokenView>::empty() + v =~= v);
        }
    }
}

/// The byte of a binary operation and the operation it stands for.
pub open spec fn binary_byte(c: u8, op: Operation) -> bool {
    ||| c == BYTE_PLUS && op == Operation::Plus
    ||| c == BYTE_MINUS && op == Operation::Minus
    ||| c == BYTE_STAR && op == Operation::Times
    ||| c == BYTE_SLASH && op == Operation::Div
    ||| c == BYTE_PERCENT && op == Operation::Rem
    ||| c == BYTE_CARET && op == Operation::Pow
}

/// Two expressions joined by the byte of a binary operation tokenize as the tokens of the
/// first, that binary operation, and the tokens of the second.
pub proof fn lemma_tokenize_binary_join(s: Seq<u8>, c: u8, op: Operation, u: Seq<u8>)
    requires
        binary_byte(c, op),
        s.len() + 1 + u.len() <= usize::MAX,
        tokenize_spec(s) is Ok,
        tokenize_spec(u) is Ok,
    ensures
        tokenize_spec(s + seq![c] + u) == Ok::<Seq<TokenView>, ParseError>(
            tokenize_spec(s).unwrap() + seq![TokenView::Binary(op)] + tokenize_spec(u).unwrap(),
        ),
{
    let v = seq![c] + u;
    let x = s + v;
    assert(s + seq![c] + u =~= x);
    assert(v[0] == c);
    lemma_tokenize_from_prefix(s, v, 0, false, Seq::empty());
    // at the end of `s`, after an operand: the operation, then `u` shifted past it
    let k = s.len() as int;
    assert(x[k] == c);
    assert(ws_end(x, k) == k);
    assert(next_token_spec(x, k, true, false) == Some((TokenView::Binary(op), k + 1)));
    assert(in_func_call(Seq::<bool>::empty()) == false);
    let w = s + seq![c];
    assert(w + u =~= x);
    lemma_tokenize_from_shift(w, u, 0, false, Seq::empty());
    let ts = tokenize_spec(s).unwrap();
    let us = tokenize_spec(u).unwrap();
    assert(tokenize_from(x, k + 1, false, Seq::empty()) == Ok::<Seq<TokenView>, ParseError>(us));
    assert(tokenize_from(x, k, true, Seq::empty()) == Ok::<Seq<TokenView>, ParseError>(seq![TokenView::Binary(op)] + us));
    assert(ts + (seq![TokenView::Binary(op)] + us) =~= ts + seq![TokenView::Binary(op)] + us);
}

/// A factorial sign after an expression adds a factorial to its tokens.
pub proof fn lemma_tokenize_factorial(s: Seq<u8>)
    requires
        s.len() + 1 <= usize::MAX,
        tokenize_spec(s) is Ok,
    ensures
        tokenize_spec(s + seq![BYTE_BANG]) == Ok::<Seq<TokenView>, ParseError>(
            tokenize_spec(s).unwrap().push(TokenView::Unary(Operation::Fact)),
        ),
{
    let v = seq![BYTE_BANG];
    let x = s + v;
    lemma_tokenize_from_prefix(s, v, 0, false, Seq::empty());
    let k = s.len() as int;
    assert(x[k] == BYTE_BANG);
    assert(ws_end(x, k) == k);
    assert(next_token_spec(x, k, true, false) == Some((TokenView::Unary(Operation::Fact), k + 1)));
    assert(ws_end(x, k + 1) == k + 1);
    assert(tokenize_from(x, k + 1, true, Seq::empty()) == Ok::<Seq<TokenView>, ParseError>(Seq::empty()));
    let ts = tokenize_spec(s).unwrap();
    assert(seq![TokenView::Unary(Operation::Fact)] + Seq::<TokenView>::empty() =~= seq![TokenView::Unary(Operation::Fact)]);
    assert(ts + seq![TokenView::Unary(Operation::Fact)] =~= ts.push(TokenView::Unary(Operation::Fact)));
}

/// A sign in front of an expression is a unary sign of the same kind applied to it: `+`
/// gives a unary plus and `-` a unary minus before the tokens of the rest, and an
/// unexpected token of the rest is reported one byte further on.
pub proof fn lemma_tokenize_leading_sign(c: u8, s: Seq<u8>)
    requires
        c == BYTE_PLUS || c == BYTE_MINUS,
        s.len() + 1 <= usize::MAX,
    ensures
        tokenize_spec(seq![c] + s) == prepend_tokens(
            seq![TokenView::Unary(if c == BYTE_PLUS { Operation::Plus } else { Operation::Minus })],
            shift_error(tokenize_spec(s), 1),
        ),
{
    let w = seq![c];
    let x = w + s;
    assert(x[0] == c);
    assert(ws_end(x, 0) == 0);
    assert(number_end(x, 0) is None);
    assert(ident_end(x, 0) is None);
    assert(func_end(x, 0) is None);
    lemma_tokenize_from_shift(w, s, 0, false, Seq::empty());
}

/// What tokenizes from `pos` on with the parentheses `parens` open tokenizes alike inside
/// one more parenthesis of either kind, opened before them, that a `)` appended to the
/// input closes.
proof fn lemma_tokenize_from_in_parens(z: Seq<u8>, pos: int, after_operand: bool, parens: Seq<bool>, k: bool)
    requires
        0 <= pos <= z.len(),
        tokenize_from(z, pos, after_operand, parens) is Ok,
    ensures
        tokenize_from(z + seq![BYTE_RPAREN], pos, after_operand, seq![k] + parens) == Ok::<Seq<TokenView>, ParseError>(
            tokenize_from(z, pos, after_operand, parens).unwrap().push(TokenView::RParen),
        ),
    decreases z.len() - pos,
{
    let v = seq![BYTE_RPAREN];
    let x = z + v;
    assert(v[0] == BYTE_RPAREN);
    lemma_ws_end(z, pos);
    lemma_ws_end_ext(z, v, pos);
    let p = ws_end(z, pos);
    let outer = seq![k] + parens;
    if p < z.len() {
        let f = in_func_call(parens);
        lemma_next_token_advances(z, p, after_operand, f);
        let (tk, np) = next_token_spec(z, p, after_operand, f).unwrap();
        lemma_next_token_ext_some(z, v, p, after_operand, f);
        if parens.len() > 0 {
            assert(outer.last() == parens.last());
        }
        assert(next_token_spec(x, p, after_operand, in_func_call(outer)) == Some((tk, np)));
        let a2 = after_operand_after(tk, after_operand);
        let ps2 = parens_after(tk, parens);
        assert(parens_after(tk, outer) =~= seq![k] + ps2);
        lemma_tokenize_from_in_parens(z, np, a2, ps2, k);
        let rest = tokenize_from(z, np, a2, ps2).unwrap();
        assert(seq![tk] + rest.push(TokenView::RParen) =~= (seq![tk] + rest).push(TokenView::RParen));
    } else {
        assert(after_operand && parens.len() == 0);
        assert(outer =~= seq![k]);
        let m = z.len() as int;
        assert(x[m] == BYTE_RPAREN);
        assert(ws_end(x, m) == m);
        assert(ws_end(x, pos) == m);
        assert(next_token_spec(x, m, true, in_func_call(outer)) == Some((TokenView::RParen, m + 1)));
        assert(parens_after(TokenView::RParen, outer) =~= Seq::<bool>::empty());
        assert(ws_end(x, m + 1) == m + 1);
        assert(tokenize_from(x, m + 1, true, Seq::empty()) == Ok::<Seq<TokenView>, ParseError>(Seq::empty()));
        assert(seq![TokenView::RParen] + Seq::<TokenView>::empty() =~= Seq::<TokenView>::empty().push(TokenView::RParen));
    }
}

/// An expression in parentheses tokenizes as `(`, the tokens of the expression, and `)`.
pub proof fn lemma_tokenize_parenthesized(u: Seq<u8>)
    requires
        u.len() + 2 <= usize::MAX,
        tokenize_spec(u) is Ok,
    ensures
        tokenize_spec(seq![BYTE_LPAREN] + u + seq![BYTE_RPAREN]) == Ok::<Seq<TokenView>, ParseError>(
            seq![TokenView::LParen] + tokenize_spec(u).unwrap() + seq![TokenView::RParen],
        ),
{
    let w = seq![BYTE_LPAREN];
    let z = w + u;
    let x = z + seq![BYTE_RPAREN];
    assert(seq![BYTE_LPAREN] + u + seq![BYTE_RPAREN] =~= x);
    let us = tokenize_spec(u).unwrap();
    lemma_tokenize_from_shift(w, u, 0, false, Seq::empty());
    assert(tokenize_from(z, 1, false, Seq::empty()) == Ok::<Seq<TokenView>, ParseError>(us));
    lemma_tokenize_from_in_parens(z, 1, false, Seq::empty(), false);
    assert(seq![false] + Seq::<bool>::empty() =~= seq![false]);
    assert(x[0] == BYTE_LPAREN);
    assert(ws_end(x, 0) == 0);
    assert(number_end(x, 0) is None);
    assert(ident_end(x, 0) is None);
    assert(func_end(x, 0) is None);
    assert(next_token_spec(x, 0, false, false) == Some((TokenView::LParen, 1int)));
    assert(parens_after(TokenView::LParen, Seq::<bool>::empty()) =~= seq![false]);
    assert(seq![TokenView::LParen] + us.push(TokenView::RParen) =~= seq![TokenView::LParen] + us + seq![TokenView::RParen]);
}

/// A name: a letter or `_`, then letters, digits and `_`.
pub open spec fn is_name(n: Seq<u8>) -> bool {
    n.len() > 0 && spec_is_ident_start(n[0]) && forall|j: int| 1 <= j < n.len() ==> spec_is_ident_continue(#[trigger] n[j])
}

/// A name right before a parenthesised expression is a function call: the call with no
/// argument count yet, the tokens of the expression, and `)`.
pub proof fn lemma_tokenize_call(n: Seq<u8>, u: Seq<u8>)
    requires
        is_name(n),
        n.len() + u.len() + 2 <= usize::MAX,
        tokenize_spec(u) is Ok,
    ensures
        tokenize_spec(n + seq![BYTE_LPAREN] + u + seq![BYTE_RPAREN]) == Ok::<Seq<TokenView>, ParseError>(
            seq![TokenView::Func(ascii_chars(n), None)] + tokenize_spec(u).unwrap() + seq![TokenView::RParen],
        ),
{
    let w = n + seq![BYTE_LPAREN];
    let z = w + u;
    let x = z + seq![BYTE_RPAREN];
    assert(n + seq![BYTE_LPAREN] + u + seq![BYTE_RPAREN] =~= x);
    let us = tokenize_spec(u).unwrap();
    let l = n.len() as int;
    lemma_tokenize_from_shift(w, u, 0, false, Seq::empty());
    assert(tokenize_from(z, l + 1, false, Seq::empty()) == Ok::<Seq<TokenView>, ParseError>(us));
    lemma_tokenize_from_in_parens(z, l + 1, false, Seq::empty(), true);
    assert(seq![true] + Seq::<bool>::empty() =~= seq![true]);
    // the call at the start
    assert forall|j: int| 0 <= j < l implies x[j] == n[j] by {}
    assert(x[l] == BYTE_LPAREN);
    lemma_ident_continue_run(x, 1, l);
    assert(ident_end(x, 0) == Some(l));
    assert(ws_end(x, l) == l);
    assert(func_end(x, 0) == Some((l, l + 1)));
    assert(number_end(x, 0) is None);
    assert(ws_end(x, 0) == 0);
    assert(x.subrange(0, l) =~= n);
    assert(next_token_spec(x, 0, false, false) == Some((TokenView::Func(ascii_chars(n), None), l + 1)));
    assert(parens_after(TokenView::Func(ascii_chars(n), None), Seq::<bool>::empty()) =~= seq![true]);
    assert(seq![TokenView::Func(ascii_chars(n), None)] + us.push(TokenView::RParen)
        =~= seq![TokenView::Func(ascii_chars(n), None)] + us + seq![TokenView::RParen]);
}

/// Over a run of bytes that continue a name, up to a byte that does not, the name goes on.
proof fn lemma_ident_continue_run(x: Seq<u8>, i: int, l: int)
    requires
        1 <= i <= l < x.len(),
        forall|j: int| i <= j < l ==> spec_is_ident_continue(#[trigger] x[j]),
        !spec_is_ident_continue(x[l]),
    ensures
        ident_continue_end(x, i) == l,
    decreases l - i,
{
    if i < l {
        lemma_ident_continue_run(x, i + 1, l);
    }
}

/// Over a run of digits, up to the end or a byte that is not one, the digits go on.
proof fn lemma_digits_run(x: Seq<u8>, i: int, l: int)
    requires
        0 <= i <= l <= x.len(),
        forall|j: int| i <= j < l ==> spec_is_digit(#[trigger] x[j]),
        l < x.len() ==> !spec_is_digit(x[l]),
    ensures
        digits_end(x, i) == l,
    decreases l - i,
{
    if i < l {
        lemma_digits_run(x, i + 1, l);
    }
}

/// Every byte of `d` is a digit.
pub open spec fn all_digits(d: Seq<u8>) -> bool {
    forall|j: int| 0 <= j < d.len() ==> spec_is_digit(#[trigger] d[j])
}

/// An input that is a single token standing alone: that token, an operand.
proof fn lemma_single_operand(x: Seq<u8>, t: TokenView)
    requires
        x.len() > 0,
        !spec_is_whitespace(x[0]),
        next_token_spec(x, 0, false, false) == Some((t, x.len() as int)),
        t is Number || t is Var,
    ensures
        tokenize_spec(x) == Ok::<Seq<TokenView>, ParseError>(seq![t]),
{
    assert(ws_end(x, 0) == 0);
    assert(ws_end(x, x.len() as int) == x.len());
    assert(tokenize_from(x, x.len() as int, true, Seq::empty()) == Ok::<Seq<TokenView>, ParseError>(Seq::empty()));
    assert(seq![t] + Seq::<TokenView>::empty() =~= seq![t]);
}

/// Digits, optionally followed by a dot and more digits, and optionally by an exponent
/// (`e` or `E`, an optional sign, and at least one digit), are one number, whose text is
/// the whole input.
pub proof fn lemma_tokenize_number(d1: Seq<u8>, frac: Option<Seq<u8>>, exp: Option<(u8, Option<u8>, Seq<u8>)>)
    requires
        d1.len() > 0,
        all_digits(d1),
        frac matches Some(f) ==> all_digits(f),
        exp matches Some((m, sg, d2)) ==> spec_is_exp_mark(m) && (sg matches Some(g) ==> spec_is_sign(g))
            && d2.len() > 0 && all_digits(d2),
    ensures
        ({
            let fpart = match frac { Some(f) => seq![BYTE_DOT] + f, None => Seq::<u8>::empty() };
            let epart = match exp {
                Some((m, sg, d2)) => seq![m] + (match sg { Some(g) => seq![g], None => Seq::<u8>::empty() }) + d2,
                None => Seq::<u8>::empty(),
            };
            let x = d1 + fpart + epart;
            tokenize_spec(x) == Ok::<Seq<TokenView>, ParseError>(seq![TokenView::Number(ascii_chars(x))])
        }),
{
    let fpart = match frac { Some(f) => seq![BYTE_DOT] + f, None => Seq::<u8>::empty() };
    let sgn = match exp { Some((m, Some(g), d2)) => seq![g], _ => Seq::<u8>::empty() };
    let epart = match exp {
        Some((m, sg, d2)) => seq![m] + (match sg { Some(g) => seq![g], None => Seq::<u8>::empty() }) + d2,
        None => Seq::<u8>::empty(),
    };
    let x = d1 + fpart + epart;
    let l1 = d1.len() as int;
    let l2 = l1 + fpart.len();
    assert forall|j: int| 0 <= j < l1 implies x[j] == d1[j] by {}
    // the integer digits
    if l1 < x.len() {
        if frac is Some {
            assert(x[l1] == BYTE_DOT);
        } else {
            assert(x[l1] == epart[0]);
        }
    }
    lemma_digits_run(x, 0, l1);
    // the fraction
    if let Some(f) = frac {
        assert forall|j: int| l1 + 1 <= j < l2 implies x[j] == f[j - l1 - 1] by {}
        if l2 < x.len() {
            assert(x[l2] == epart[0]);
        }
        lemma_digits_run(x, l1 + 1, l2);
    }
    // the exponent
    if let Some((m, sg, d2)) = exp {
        assert(x[l2] == m);
        let l3 = l2 + 1 + sgn.len();
        if let Some(g) = sg {
            assert(x[l2 + 1] == g);
        } else {
            assert(x[l2 + 1] == d2[0]);
        }
        assert forall|j: int| l3 <= j < x.len() implies x[j] == d2[j - l3] by {}
        assert(x.len() == l3 + d2.len());
        lemma_digits_run(x, l3, x.len() as int);
    } else {
        assert(l2 == x.len());
    }
    assert(number_end(x, 0) == Some(x.len() as int));
    assert(x.subrange(0, x.len() as int) =~= x);
    lemma_single_operand(x, TokenView::Number(ascii_chars(x)));
}

/// A name standing alone is a variable of that name.
pub proof fn lemma_tokenize_name(n: Seq<u8>)
    requires
        is_name(n),
    ensures
        tokenize_spec(n) == Ok::<Seq<TokenView>, ParseError>(seq![TokenView::Var(ascii_chars(n))]),
{
    let l = n.len() as int;
    lemma_ident_continue_end_all(n, 1);
    assert(ident_end(n, 0) == Some(l));
    assert(ws_end(n, l) == l);
    assert(func_end(n, 0) is None);
    assert(number_end(n, 0) is None);
    assert(n.subrange(0, l) =~= n);
    lemma_single_operand(n, TokenView::Var(ascii_chars(n)));
}

/// Through bytes that continue a name up to the end, the name goes on to the end.
proof fn lemma_ident_continue_end_all(x: Seq<u8>, i: int)
    requires
        1 <= i <= x.len(),
        forall|j: int| 1 <= j < x.len() ==> spec_is_ident_continue(#[trigger] x[j]),
    ensures
        ident_continue_end(x, i) == x.len(),
    decreases x.len() - i,
{
    if i < x.len() {
        lemma_ident_continue_end_all(x, i + 1);
    }
}

} // verus!
