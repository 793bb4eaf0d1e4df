//! Laws of the conversion to postfix on short expressions: the usual precedence of the
//! arithmetic operations, the right associativity of `^`, and how signs and factorials
//! bind.
use vstd::prelude::*;
use crate::meval::tokenizer::{Operation, TokenView};
use crate::meval::shunting_yard::{to_rpn_spec, shunt, drain, verify_from, is_operand, pop_ops, prec_assoc_spec,
    pops_before, close_paren, comma, RPNError};

verus! {

/// An operation that a binary token may carry.
pub open spec fn is_binary_op(op: Operation) -> bool {
    op != Operation::Fact
}

/// How tightly a binary operation binds: addition and subtraction least, then
/// multiplication, division and remainder, then exponentiation.
pub open spec fn binding_level(op: Operation) -> int {
    match op {
        Operation::Plus | Operation::Minus => 1,
        Operation::Times | Operation::Div | Operation::Rem => 2,
        _ => 3,
    }
}

/// In `a o1 b o2 c`, the first operation applies first: it binds more tightly, or as
/// tightly and the operations group to the left (all but `^`, which groups to the right).
pub open spec fn first_applies_first(o1: Operation, o2: Operation) -> bool {
    binding_level(o1) > binding_level(o2) || (binding_level(o1) == binding_level(o2) && o2 != Operation::Pow)
}

/// `a o1 b o2 c` in postfix: `a b o1 c o2` where `o1` applies first, else `a b c o2 o1`.
/// So `a - b - c` is `(a - b) - c`, `a + b * c` is `a + (b * c)`, and `a ^ b ^ c` is
/// `a ^ (b ^ c)`.
pub proof fn lemma_to_rpn_two_operations(a: TokenView, o1: Operation, b: TokenView, o2: Operation, c: TokenView)
    requires
        is_operand(a),
        is_operand(b),
        is_operand(c),
        is_binary_op(o1),
        is_binary_op(o2),
    ensures
        to_rpn_spec(seq![a, TokenView::Binary(o1), b, TokenView::Binary(o2), c])
            == Some(Ok::<Seq<TokenView>, crate::meval::shunting_yard::RPNError>(
                if first_applies_first(o1, o2) {
                    seq![a, b, TokenView::Binary(o1), c, TokenView::Binary(o2)]
                } else {
                    seq![a, b, c, TokenView::Binary(o2), TokenView::Binary(o1)]
                },
            )),
{
    let input = seq![a, TokenView::Binary(o1), b, TokenView::Binary(o2), c];
    let e = Seq::<TokenView>::empty();
    let es = Seq::<(usize, TokenView)>::empty();
    let t1 = TokenView::Binary(o1);
    let t2 = TokenView::Binary(o2);
    assert(shunt(input, 0, e, es) == shunt(input, 1, e.push(a), es));
    assert(shunt(input, 1, e.push(a), es) == shunt(input, 2, e.push(a), es.push((1usize, t1))));
    assert(shunt(input, 2, e.push(a), es.push((1usize, t1))) == shunt(input, 3, e.push(a).push(b), es.push((1usize, t1))));
    let o = e.push(a).push(b);
    let st = es.push((1usize, t1));
    assert(st.drop_last() =~= es);
    assert(st.last() == (1usize, t1));
    if first_applies_first(o1, o2) {
        let o3 = o.push(t1);
        let st3 = es.push((3usize, t2));
        let pa2 = prec_assoc_spec(t2).unwrap();
        assert(pops_before(pa2, prec_assoc_spec(t1).unwrap()));
        assert(pop_ops(o3, es, pa2) == Some((o3, es)));
        assert(pop_ops(o, st, pa2) == pop_ops(o3, es, pa2));
        assert(shunt(input, 3, o, st) == shunt(input, 4, o3, st3));
        assert(shunt(input, 4, o3, st3) == shunt(input, 5, o3.push(c), st3));
        assert(shunt(input, 5, o3.push(c), st3) == Some(Ok::<(Seq<TokenView>, Seq<(usize, TokenView)>), crate::meval::shunting_yard::RPNError>((o3.push(c), st3))));
        assert(st3.drop_last() =~= es);
        assert(st3.last() == (3usize, t2));
        let out = o3.push(c).push(t2);
        assert(drain(out, es) == Some(Ok::<Seq<TokenView>, crate::meval::shunting_yard::RPNError>(out)));
        assert(drain(o3.push(c), st3) == Some(Ok::<Seq<TokenView>, crate::meval::shunting_yard::RPNError>(out)));
        assert(out =~= seq![a, b, t1, c, t2]);
        reveal_with_fuel(verify_from, 6);
        assert(verify_from(out, 0, 0) == Some(Ok::<(), crate::meval::shunting_yard::RPNError>(())));
    } else {
        let st3 = st.push((3usize, t2));
        let pa2 = prec_assoc_spec(t2).unwrap();
        assert(!pops_before(pa2, prec_assoc_spec(t1).unwrap()));
        assert(pop_ops(o, st, pa2) == Some((o, st)));
        assert(shunt(input, 3, o, st) == shunt(input, 4, o, st3));
        assert(shunt(input, 4, o, st3) == shunt(input, 5, o.push(c), st3));
        assert(shunt(input, 5, o.push(c), st3) == Some(Ok::<(Seq<TokenView>, Seq<(usize, TokenView)>), crate::meval::shunting_yard::RPNError>((o.push(c), st3))));
        assert(st3.drop_last() =~= st);
        assert(st3.last() == (3usize, t2));
        let out = o.push(c).push(t2).push(t1);
        assert(drain(out, es) == Some(Ok::<Seq<TokenView>, crate::meval::shunting_yard::RPNError>(out)));
        assert(drain(o.push(c).push(t2), st) == Some(Ok::<Seq<TokenView>, crate::meval::shunting_yard::RPNError>(out)));
        assert(drain(o.push(c), st3) == Some(Ok::<Seq<TokenView>, crate::meval::shunting_yard::RPNError>(out)));
        assert(out =~= seq![a, b, c, t2, t1]);
        reveal_with_fuel(verify_from, 6);
        assert(verify_from(out, 0, 0) == Some(Ok::<(), crate::meval::shunting_yard::RPNError>(())));
    }
}

/// A sign before `a o b` applies to `a` alone, except before `^`, which binds more
/// tightly: `-a * b` is `(-a) * b` and `-a ^ b` is `-(a ^ b)`.
pub proof fn lemma_to_rpn_sign_then_operation(u: Operation, a: TokenView, o: Operation, b: TokenView)
    requires
        u == Operation::Plus || u == Operation::Minus,
        is_operand(a),
        is_operand(b),
        is_binary_op(o),
    ensures
        to_rpn_spec(seq![TokenView::Unary(u), a, TokenView::Binary(o), b])
            == Some(Ok::<Seq<TokenView>, crate::meval::shunting_yard::RPNError>(
                if o == Operation::Pow {
                    seq![a, b, TokenView::Binary(o), TokenView::Unary(u)]
                } else {
                    seq![a, TokenView::Unary(u), b, TokenView::Binary(o)]
                },
            )),
{
    let input = seq![TokenView::Unary(u), a, TokenView::Binary(o), b];
    let e = Seq::<TokenView>::empty();
    let es = Seq::<(usize, TokenView)>::empty();
    let tu = TokenView::Unary(u);
    let tb = TokenView::Binary(o);
    let st = es.push((0usize, tu));
    assert(shunt(input, 0, e, es) == shunt(input, 1, e, st));
    assert(shunt(input, 1, e, st) == shunt(input, 2, e.push(a), st));
    assert(st.drop_last() =~= es);
    assert(st.last() == (0usize, tu));
    let pa = prec_assoc_spec(tb).unwrap();
    reveal_with_fuel(verify_from, 6);
    if o == Operation::Pow {
        let st2 = st.push((2usize, tb));
        assert(!pops_before(pa, prec_assoc_spec(tu).unwrap()));
        assert(pop_ops(e.push(a), st, pa) == Some((e.push(a), st)));
        assert(shunt(input, 2, e.push(a), st) == shunt(input, 3, e.push(a), st2));
        assert(shunt(input, 3, e.push(a), st2) == shunt(input, 4, e.push(a).push(b), st2));
        assert(st2.drop_last() =~= st);
        assert(st2.last() == (2usize, tb));
        let out = e.push(a).push(b).push(tb).push(tu);
        assert(drain(out, es) == Some(Ok::<Seq<TokenView>, crate::meval::shunting_yard::RPNError>(out)));
        assert(drain(e.push(a).push(b).push(tb), st) == Some(Ok::<Seq<TokenView>, crate::meval::shunting_yard::RPNError>(out)));
        assert(drain(e.push(a).push(b), st2) == Some(Ok::<Seq<TokenView>, crate::meval::shunting_yard::RPNError>(out)));
        assert(out =~= seq![a, b, tb, tu]);
        assert(verify_from(out, 0, 0) == Some(Ok::<(), crate::meval::shunting_yard::RPNError>(())));
    } else {
        let o2 = e.push(a).push(tu);
        let st2 = es.push((2usize, tb));
        assert(pops_before(pa, prec_assoc_spec(tu).unwrap()));
        assert(pop_ops(o2, es, pa) == Some((o2, es)));
        assert(pop_ops(e.push(a), st, pa) == pop_ops(o2, es, pa));
        assert(shunt(input, 2, e.push(a), st) == shunt(input, 3, o2, st2));
        assert(shunt(input, 3, o2, st2) == shunt(input, 4, o2.push(b), st2));
        assert(st2.drop_last() =~= es);
        assert(st2.last() == (2usize, tb));
        let out = o2.push(b).push(tb);
        assert(drain(out, es) == Some(Ok::<Seq<TokenView>, crate::meval::shunting_yard::RPNError>(out)));
        assert(drain(o2.push(b), st2) == Some(Ok::<Seq<TokenView>, crate::meval::shunting_yard::RPNError>(out)));
        assert(out =~= seq![a, tu, b, tb]);
        assert(verify_from(out, 0, 0) == Some(Ok::<(), crate::meval::shunting_yard::RPNError>(())));
    }
}

/// A factorial binds more tightly than every binary operation, on either side of it:
/// `a! o b` is `(a!) o b` and `a o b!` is `a o (b!)`.
pub proof fn lemma_to_rpn_factorial_binds_tightest(a: TokenView, o: Operation, b: TokenView)
    requires
        is_operand(a),
        is_operand(b),
        is_binary_op(o),
    ensures
        to_rpn_spec(seq![a, TokenView::Unary(Operation::Fact), TokenView::Binary(o), b])
            == Some(Ok::<Seq<TokenView>, crate::meval::shunting_yard::RPNError>(
                seq![a, TokenView::Unary(Operation::Fact), b, TokenView::Binary(o)],
            )),
        to_rpn_spec(seq![a, TokenView::Binary(o), b, TokenView::Unary(Operation::Fact)])
            == Some(Ok::<Seq<TokenView>, crate::meval::shunting_yard::RPNError>(
                seq![a, b, TokenView::Unary(Operation::Fact), TokenView::Binary(o)],
            )),
{
    let e = Seq::<TokenView>::empty();
    let es = Seq::<(usize, TokenView)>::empty();
    let tf = TokenView::Unary(Operation::Fact);
    let tb = TokenView::Binary(o);
    let pa = prec_assoc_spec(tb).unwrap();
    reveal_with_fuel(verify_from, 6);
    // a ! o b
    let input = seq![a, tf, tb, b];
    let st = es.push((1usize, tf));
    assert(shunt(input, 0, e, es) == shunt(input, 1, e.push(a), es));
    assert(shunt(input, 1, e.push(a), es) == shunt(input, 2, e.push(a), st));
    assert(st.drop_last() =~= es);
    assert(st.last() == (1usize, tf));
    let o2 = e.push(a).push(tf);
    let st2 = es.push((2usize, tb));
    assert(pops_before(pa, prec_assoc_spec(tf).unwrap()));
    assert(pop_ops(o2, es, pa) == Some((o2, es)));
    assert(pop_ops(e.push(a), st, pa) == pop_ops(o2, es, pa));
    assert(shunt(input, 2, e.push(a), st) == shunt(input, 3, o2, st2));
    assert(shunt(input, 3, o2, st2) == shunt(input, 4, o2.push(b), st2));
    assert(st2.drop_last() =~= es);
    assert(st2.last() == (2usize, tb));
    let out = o2.push(b).push(tb);
    assert(drain(out, es) == Some(Ok::<Seq<TokenView>, crate::meval::shunting_yard::RPNError>(out)));
    assert(drain(o2.push(b), st2) == Some(Ok::<Seq<TokenView>, crate::meval::shunting_yard::RPNError>(out)));
    assert(out =~= seq![a, tf, b, tb]);
    assert(verify_from(out, 0, 0) == Some(Ok::<(), crate::meval::shunting_yard::RPNError>(())));
    // a o b !
    let input2 = seq![a, tb, b, tf];
    let sb = es.push((1usize, tb));
    assert(shunt(input2, 0, e, es) == shunt(input2, 1, e.push(a), es));
    assert(pop_ops(e.push(a), es, pa) == Some((e.push(a), es)));
    assert(shunt(input2, 1, e.push(a), es) == shunt(input2, 2, e.push(a), sb));
    assert(shunt(input2, 2, e.push(a), sb) == shunt(input2, 3, e.push(a).push(b), sb));
    let sbf = sb.push((3usize, tf));
    assert(shunt(input2, 3, e.push(a).push(b), sb) == shunt(input2, 4, e.push(a).push(b), sbf));
    assert(sbf.drop_last() =~= sb);
    assert(sbf.last() == (3usize, tf));
    assert(sb.drop_last() =~= es);
    assert(sb.last() == (1usize, tb));
    let out2 = e.push(a).push(b).push(tf).push(tb);
    assert(drain(out2, es) == Some(Ok::<Seq<TokenView>, crate::meval::shunting_yard::RPNError>(out2)));
    assert(drain(e.push(a).push(b).push(tf), sb) == Some(Ok::<Seq<TokenView>, crate::meval::shunting_yard::RPNError>(out2)));
    assert(drain(e.push(a).push(b), sbf) == Some(Ok::<Seq<TokenView>, crate::meval::shunting_yard::RPNError>(out2)));
    assert(out2 =~= seq![a, b, tf, tb]);
    assert(verify_from(out2, 0, 0) == Some(Ok::<(), crate::meval::shunting_yard::RPNError>(())));
}

/// Parentheses group what they enclose, whatever the precedence: `(a o1 b) o2 c` is
/// `a b o1 c o2`, and `a o1 (b o2 c)` is `a b c o2 o1`.
pub proof fn lemma_to_rpn_parentheses_group(a: TokenView, o1: Operation, b: TokenView, o2: Operation, c: TokenView)
    requires
        is_operand(a),
        is_operand(b),
        is_operand(c),
        is_binary_op(o1),
        is_binary_op(o2),
    ensures
        to_rpn_spec(seq![TokenView::LParen, a, TokenView::Binary(o1), b, TokenView::RParen, TokenView::Binary(o2), c])
            == Some(Ok::<Seq<TokenView>, RPNError>(seq![a, b, TokenView::Binary(o1), c, TokenView::Binary(o2)])),
        to_rpn_spec(seq![a, TokenView::Binary(o1), TokenView::LParen, b, TokenView::Binary(o2), c, TokenView::RParen])
            == Some(Ok::<Seq<TokenView>, RPNError>(seq![a, b, c, TokenView::Binary(o2), TokenView::Binary(o1)])),
{
    let e = Seq::<TokenView>::empty();
    let es = Seq::<(usize, TokenView)>::empty();
    let t1 = TokenView::Binary(o1);
    let t2 = TokenView::Binary(o2);
    let lp = TokenView::LParen;
    let pa1 = prec_assoc_spec(t1).unwrap();
    let pa2 = prec_assoc_spec(t2).unwrap();
    reveal_with_fuel(verify_from, 6);
    // (a o1 b) o2 c
    let input = seq![lp, a, t1, b, TokenView::RParen, t2, c];
    let s1 = es.push((0usize, lp));
    let s2 = s1.push((2usize, t1));
    assert(s1.drop_last() =~= es);
    assert(s2.drop_last() =~= s1);
    assert(s1.last() == (0usize, lp));
    assert(s2.last() == (2usize, t1));
    assert(shunt(input, 0, e, es) == shunt(input, 1, e, s1));
    assert(shunt(input, 1, e, s1) == shunt(input, 2, e.push(a), s1));
    assert(pop_ops(e.push(a), s1, pa1) == Some((e.push(a), s1)));
    assert(shunt(input, 2, e.push(a), s1) == shunt(input, 3, e.push(a), s2));
    let ab = e.push(a).push(b);
    assert(shunt(input, 3, e.push(a), s2) == shunt(input, 4, ab, s2));
    assert(close_paren(ab.push(t1), s1) == Some((true, ab.push(t1), es)));
    assert(close_paren(ab, s2) == Some((true, ab.push(t1), es)));
    assert(shunt(input, 4, ab, s2) == shunt(input, 5, ab.push(t1), es));
    let s5 = es.push((5usize, t2));
    assert(pop_ops(ab.push(t1), es, pa2) == Some((ab.push(t1), es)));
    assert(shunt(input, 5, ab.push(t1), es) == shunt(input, 6, ab.push(t1), s5));
    assert(shunt(input, 6, ab.push(t1), s5) == shunt(input, 7, ab.push(t1).push(c), s5));
    assert(s5.drop_last() =~= es);
    assert(s5.last() == (5usize, t2));
    let out = ab.push(t1).push(c).push(t2);
    assert(drain(out, es) == Some(Ok::<Seq<TokenView>, RPNError>(out)));
    assert(drain(ab.push(t1).push(c), s5) == Some(Ok::<Seq<TokenView>, RPNError>(out)));
    assert(out =~= seq![a, b, t1, c, t2]);
    assert(verify_from(out, 0, 0) == Some(Ok::<(), RPNError>(())));
    // a o1 (b o2 c)
    let input2 = seq![a, t1, lp, b, t2, c, TokenView::RParen];
    let r1 = es.push((1usize, t1));
    let r2 = r1.push((2usize, lp));
    let r4 = r2.push((4usize, t2));
    assert(r1.drop_last() =~= es);
    assert(r2.drop_last() =~= r1);
    assert(r4.drop_last() =~= r2);
    assert(r1.last() == (1usize, t1));
    assert(r2.last() == (2usize, lp));
    assert(r4.last() == (4usize, t2));
    assert(shunt(input2, 0, e, es) == shunt(input2, 1, e.push(a), es));
    assert(pop_ops(e.push(a), es, pa1) == Some((e.push(a), es)));
    assert(shunt(input2, 1, e.push(a), es) == shunt(input2, 2, e.push(a), r1));
    assert(shunt(input2, 2, e.push(a), r1) == shunt(input2, 3, e.push(a), r2));
    assert(shunt(input2, 3, e.push(a), r2) == shunt(input2, 4, ab, r2));
    assert(pop_ops(ab, r2, pa2) == Some((ab, r2)));
    assert(shunt(input2, 4, ab, r2) == shunt(input2, 5, ab, r4));
    let abc = ab.push(c);
    assert(shunt(input2, 5, ab, r4) == shunt(input2, 6, abc, r4));
    assert(close_paren(abc.push(t2), r2) == Some((true, abc.push(t2), r1)));
    assert(close_paren(abc, r4) == Some((true, abc.push(t2), r1)));
    assert(shunt(input2, 6, abc, r4) == shunt(input2, 7, abc.push(t2), r1));
    let out2 = abc.push(t2).push(t1);
    assert(drain(out2, es) == Some(Ok::<Seq<TokenView>, RPNError>(out2)));
    assert(drain(abc.push(t2), r1) == Some(Ok::<Seq<TokenView>, RPNError>(out2)));
    assert(out2 =~= seq![a, b, c, t2, t1]);
    assert(verify_from(out2, 0, 0) == Some(Ok::<(), RPNError>(())));
}

/// A call with two arguments comes out after its arguments, counted: `f(a, b)` is
/// `a b f` with a count of two.
pub proof fn lemma_to_rpn_call_two_arguments(name: Seq<char>, a: TokenView, b: TokenView)
    requires
        is_operand(a),
        is_operand(b),
    ensures
        to_rpn_spec(seq![TokenView::Func(name, None), a, TokenView::Comma, b, TokenView::RParen])
            == Some(Ok::<Seq<TokenView>, RPNError>(seq![a, b, TokenView::Func(name, Some(2usize))])),
{
    let e = Seq::<TokenView>::empty();
    let es = Seq::<(usize, TokenView)>::empty();
    let f0 = TokenView::Func(name, None);
    let f1 = TokenView::Func(name, Some(1usize));
    let f2 = TokenView::Func(name, Some(2usize));
    let input = seq![f0, a, TokenView::Comma, b, TokenView::RParen];
    let s0 = es.push((0usize, f0));
    let s1 = es.push((0usize, f1));
    assert(s0.drop_last() =~= es);
    assert(s1.drop_last() =~= es);
    assert(s0.last() == (0usize, f0));
    assert(s1.last() == (0usize, f1));
    assert(shunt(input, 0, e, es) == shunt(input, 1, e, s0));
    assert(shunt(input, 1, e, s0) == shunt(input, 2, e.push(a), s0));
    assert(comma(e.push(a), s0, 2usize) == Some(Ok::<(Seq<TokenView>, Seq<(usize, TokenView)>), RPNError>((e.push(a), s1))));
    assert(shunt(input, 2, e.push(a), s0) == shunt(input, 3, e.push(a), s1));
    let ab = e.push(a).push(b);
    assert(shunt(input, 3, e.push(a), s1) == shunt(input, 4, ab, s1));
    assert(close_paren(ab, s1) == Some((true, ab.push(f2), es)));
    assert(shunt(input, 4, ab, s1) == shunt(input, 5, ab.push(f2), es));
    let out = ab.push(f2);
    assert(drain(out, es) == Some(Ok::<Seq<TokenView>, RPNError>(out)));
    assert(out =~= seq![a, b, f2]);
    reveal_with_fuel(verify_from, 4);
    assert(verify_from(out, 0, 0) == Some(Ok::<(), RPNError>(())));
}

} // verus!
