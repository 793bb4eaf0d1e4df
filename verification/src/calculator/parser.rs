//! Rewriting of expressions before evaluation: Unicode and word operators into ASCII
//! ones, hexadecimal, binary and octal literals into decimal ones, and the split of an
//! expression at an operator.
use vstd::prelude::*;
use vstd::string::StringSliceAdditionalSpecFns;
use vstd::utf8::{decode_utf8, is_char_boundary};
use crate::text::{chars_of, decimal, decimal_of, push_chars};
use crate::bitview::string_of;

verus! {

/// Rewrites expressions before evaluation.
pub struct Parser;

/// `s` with every occurrence of the non-empty `pat`, from left to right and without
/// overlaps, replaced by `rep`.
pub open spec fn replace_all(s: Seq<char>, pat: Seq<char>, rep: Seq<char>) -> Seq<char>
    decreases s.len(),
{
    if pat.len() == 0 || s.len() < pat.len() {
        s
    } else if s.take(pat.len() as int) == pat {
        rep + replace_all(s.skip(pat.len() as int), pat, rep)
    } else {
        seq![s[0]] + replace_all(s.skip(1), pat, rep)
    }
}

/// The Unicode logic operators and the word and double-star operators replaced by the
/// operators of the evaluator, in this order: `¬` by `~`, `∨` by `|`, `∧` by `&`, `⊻` by
/// `^`, `xor` by `^^` and `**` by `^`.
pub open spec fn unicode_ops_replaced(s: Seq<char>) -> Seq<char> {
    let s1 = replace_all(s, seq!['¬'], seq!['~']);
    let s2 = replace_all(s1, seq!['∨'], seq!['|']);
    let s3 = replace_all(s2, seq!['∧'], seq!['&']);
    let s4 = replace_all(s3, seq!['⊻'], seq!['^']);
    let s5 = replace_all(s4, seq!['x', 'o', 'r'], seq!['^', '^']);
    replace_all(s5, seq!['*', '*'], seq!['^'])
}

/// Replaces every occurrence of `pat` in `s` by `rep`.
fn replace_chars(s: &[char], pat: &[char], rep: &[char]) -> (r: Vec<char>)
    requires
        pat@.len() > 0,
    ensures
        r@ == replace_all(s@, pat@, rep@),
{
    let mut out: Vec<char> = Vec::new();
    let mut i: usize = 0;
    proof {
        assert(s@.skip(0) =~= s@);
    }
    while i < s.len()
        invariant
            pat@.len() > 0,
            i <= s@.len(),
            out@ + replace_all(s@.skip(i as int), pat@, rep@) == replace_all(s@, pat@, rep@),
        decreases s@.len() - i,
    {
        let ghost rest = s@.skip(i as int);
        let ghost before = out@;
        // does pat start at i?
        let mut matches = s.len() - i >= pat.len();
        if matches {
            let mut j: usize = 0;
            let n = s.len();
            while j < pat.len()
                invariant
                    n == s@.len(),
                    i + pat@.len() <= s@.len(),
                    j <= pat@.len(),
                    matches == (forall|t: int| 0 <= t < j ==> s@[i + t] == pat@[t]),
                decreases pat@.len() - j,
            {
                if s[i + j] != pat[j] {
                    matches = false;
                }
                j += 1;
            }
            proof {
                if matches {
                    assert(rest.take(pat@.len() as int) =~= pat@);
                } else {
                    let t = choose|t: int| 0 <= t < pat@.len() && s@[i + t] != pat@[t];
                    assert(rest.take(pat@.len() as int)[t] != pat@[t]);
                }
            }
        }
        if matches {
            let mut k: usize = 0;
            while k < rep.len()
                invariant
                    k <= rep@.len(),
                    out@ == before + rep@.take(k as int),
                decreases rep@.len() - k,
            {
                out.push(rep[k]);
                proof {
                    assert(rep@.take(k + 1) =~= rep@.take(k as int).push(rep@[k as int]));
                }
                k += 1;
            }
            proof {
                assert(rep@.take(rep@.len() as int) =~= rep@);
                assert(rest.skip(pat@.len() as int) =~= s@.skip(i + pat@.len()));
                assert(replace_all(rest, pat@, rep@) == rep@ + replace_all(rest.skip(pat@.len() as int), pat@, rep@));
                assert(out@ + replace_all(s@.skip(i + pat@.len()), pat@, rep@)
                    =~= before + replace_all(rest, pat@, rep@));
            }
            i += pat.len();
        } else {
            out.push(s[i]);
            proof {
                assert(rest.skip(1) =~= s@.skip(i + 1));
                assert(rest[0] == s@[i as int]);
                assert(replace_all(rest, pat@, rep@) == seq![rest[0]] + replace_all(rest.skip(1), pat@, rep@));
                assert(out@ + replace_all(s@.skip(i + 1), pat@, rep@) =~= before + replace_all(rest, pat@, rep@));
            }
            i += 1;
        }
    }
    proof {
        assert(s@.skip(i as int) =~= Seq::<char>::empty());
        assert(out@ + Seq::<char>::empty() =~= out@);
    }
    out
}

/// How many times `c` occurs in `s`.
pub open spec fn count_char(s: Seq<char>, c: char) -> nat
    decreases s.len(),
{
    if s.len() == 0 {
        0
    } else {
        count_char(s.drop_last(), c) + if s.last() == c { 1nat } else { 0nat }
    }
}

/// Counting distributes over concatenation.
pub proof fn lemma_count_concat(a: Seq<char>, b: Seq<char>, c: char)
    ensures
        count_char(a + b, c) == count_char(a, c) + count_char(b, c),
    decreases b.len(),
{
    if b.len() == 0 {
        assert(a + b =~= a);
    } else {
        lemma_count_concat(a, b.drop_last(), c);
        assert((a + b).drop_last() =~= a + b.drop_last());
    }
}

/// A sequence without `c` has no occurrence of it.
pub proof fn lemma_count_absent(s: Seq<char>, c: char)
    requires
        forall|j: int| 0 <= j < s.len() ==> s[j] != c,
    ensures
        count_char(s, c) == 0,
    decreases s.len(),
{
    if s.len() > 0 {
        lemma_count_absent(s.drop_last(), c);
    }
}

/// `c` is a digit in base `radix` (2, 8 or 16): for 16 the letters a-f in either case.
pub open spec fn is_radix_digit(c: char, radix: nat) -> bool {
    if radix == 16 {
        ('0' <= c && c <= '9') || ('a' <= c && c <= 'f') || ('A' <= c && c <= 'F')
    } else {
        '0' <= c && (c as int) < ('0' as int) + radix
    }
}

/// The value of a digit character.
pub open spec fn digit_value(c: char) -> int {
    if '0' <= c && c <= '9' {
        c as int - '0' as int
    } else if 'a' <= c && c <= 'f' {
        c as int - 'a' as int + 10
    } else {
        c as int - 'A' as int + 10
    }
}

/// The number that the digits `ds` write in base `radix`.
pub open spec fn digits_value(ds: Seq<char>, radix: nat) -> int
    decreases ds.len(),
{
    if ds.len() == 0 {
        0
    } else {
        digits_value(ds.drop_last(), radix) * radix + digit_value(ds.last())
    }
}

/// The longest run of base-`radix` digits of `s` that starts at index `i`.
pub open spec fn digit_run(s: Seq<char>, i: int, radix: nat) -> Seq<char>
    decreases s.len() - i,
{
    if i < 0 || i >= s.len() || !is_radix_digit(s[i], radix) {
        Seq::empty()
    } else {
        seq![s[i]] + digit_run(s, i + 1, radix)
    }
}

/// The first index `i >= from` with `s[i] == '0'` and `s[i + 1] == m`.
pub open spec fn find_prefix(s: Seq<char>, m: char, from: int) -> Option<int>
    decreases s.len() - from,
{
    if from < 0 || from + 1 >= s.len() {
        None
    } else if s[from] == '0' && s[from + 1] == m {
        Some(from)
    } else {
        find_prefix(s, m, from + 1)
    }
}

/// The number of one literal, when its digits are not empty and the value fits in an
/// `i64` (as `i64::from_str_radix` accepts it).
pub open spec fn literal_value(run: Seq<char>, radix: nat) -> Option<int> {
    if run.len() > 0 && digits_value(run, radix) <= i64::MAX {
        Some(digits_value(run, radix))
    } else {
        None
    }
}

/// A literal `0m...` at `pos` replaced by its decimal value.
pub open spec fn replace_literal(s: Seq<char>, pos: int, run: Seq<char>, v: int) -> Seq<char> {
    s.take(pos) + decimal(v) + s.skip(pos + 2 + run.len())
}

/// The literals `0m` followed by base-`radix` digits replaced by their decimal values, one
/// after the other from the left, until there is none left or one has no digits or too
/// large a value.
pub open spec fn convert_literals_spec(s: Seq<char>, m: char, radix: nat) -> Seq<char>
    decreases count_char(s, m),
{
    match find_prefix(s, m, 0) {
        None => s,
        Some(pos) => {
            let run = digit_run(s, pos + 2, radix);
            match literal_value(run, radix) {
                None => s,
                Some(v) => {
                    if marker_ok(m, radix) && 0 <= pos && pos + 1 < s.len() && s[pos + 1] == m {
                        proof {
                            lemma_replace_literal_count(s, pos, m, radix, v);
                        }
                        convert_literals_spec(replace_literal(s, pos, run, v), m, radix)
                    } else {
                        s
                    }
                },
            }
        },
    }
}

/// The markers and bases that the parser converts: `x` with 16, `b` with 2, `o` with 8;
/// no digit of the base is the marker.
pub open spec fn marker_ok(m: char, radix: nat) -> bool {
    (m == 'x' && radix == 16) || (m == 'b' && radix == 2) || (m == 'o' && radix == 8)
}

/// A run of digits holds none of the markers.
pub proof fn lemma_run_has_no_marker(s: Seq<char>, i: int, m: char, radix: nat)
    requires
        marker_ok(m, radix),
    ensures
        forall|j: int| 0 <= j < digit_run(s, i, radix).len() ==> #[trigger] digit_run(s, i, radix)[j] != m,
        forall|j: int| 0 <= j < digit_run(s, i, radix).len() ==> digit_run(s, i, radix)[j] == s[i + j],
        i >= 0 ==> i + digit_run(s, i, radix).len() <= s.len() || digit_run(s, i, radix).len() == 0,
    decreases s.len() - i,
{
    if !(i < 0 || i >= s.len() || !is_radix_digit(s[i], radix)) {
        lemma_run_has_no_marker(s, i + 1, m, radix);
        let r = digit_run(s, i, radix);
        let r1 = digit_run(s, i + 1, radix);
        assert forall|j: int| 0 <= j < r.len() implies #[trigger] r[j] != m && r[j] == s[i + j] by {
            if j > 0 {
                assert(r[j] == r1[j - 1]);
            }
        }
    }
}

/// Replacing a literal removes one marker.
pub proof fn lemma_replace_literal_count(s: Seq<char>, pos: int, m: char, radix: nat, v: int)
    requires
        marker_ok(m, radix),
        0 <= pos,
        pos + 1 < s.len(),
        s[pos + 1] == m,
    ensures
        count_char(replace_literal(s, pos, digit_run(s, pos + 2, radix), v), m) < count_char(s, m),
{
    let run = digit_run(s, pos + 2, radix);
    lemma_run_has_no_marker(s, pos + 2, m, radix);
    let end = pos + 2 + run.len();
    assert(end <= s.len());
    let mid = s.subrange(pos, end);
    assert(s =~= s.take(pos) + mid + s.skip(end));
    lemma_count_concat(s.take(pos) + mid, s.skip(end), m);
    lemma_count_concat(s.take(pos), mid, m);
    assert(mid =~= seq![s[pos], m] + run);
    lemma_count_concat(seq![s[pos], m], run, m);
    lemma_count_absent(run, m);
    assert(count_char(seq![s[pos], m], m) >= 1) by {
        assert(seq![s[pos], m].drop_last() =~= seq![s[pos]]);
    }
    crate::text::lemma_decimal_chars(v);
    lemma_decimal_has_no_marker(v, m, radix);
    lemma_count_absent(decimal(v), m);
    lemma_count_concat(s.take(pos) + decimal(v), s.skip(end), m);
    lemma_count_concat(s.take(pos), decimal(v), m);
}

/// A decimal representation holds no marker letter.
pub proof fn lemma_decimal_has_no_marker(v: int, m: char, radix: nat)
    requires
        marker_ok(m, radix),
    ensures
        forall|j: int| 0 <= j < decimal(v).len() ==> #[trigger] decimal(v)[j] != m,
{
    crate::text::lemma_decimal_digit_chars(v);
}

/// Whether `c` is a digit in base `radix` (2, 8 or 16).
fn is_radix_digit_exec(c: char, radix: u64) -> (r: bool)
    requires
        radix == 2 || radix == 8 || radix == 16,
    ensures
        r == is_radix_digit(c, radix as nat),
{
    if radix == 16 {
        ('0' <= c && c <= '9') || ('a' <= c && c <= 'f') || ('A' <= c && c <= 'F')
    } else {
        '0' <= c && (c as u32) < ('0' as u32) + (radix as u32)
    }
}

/// The value of a digit character in base `radix`.
fn digit_value_exec(c: char, radix: u64) -> (r: u64)
    requires
        radix == 2 || radix == 8 || radix == 16,
        is_radix_digit(c, radix as nat),
    ensures
        r == digit_value(c),
        r < radix,
{
    if '0' <= c && c <= '9' {
        ((c as u32) - ('0' as u32)) as u64
    } else if 'a' <= c && c <= 'f' {
        ((c as u32) - ('a' as u32) + 10) as u64
    } else {
        ((c as u32) - ('A' as u32) + 10) as u64
    }
}

/// The first `0m` from `from` on is the first from `from + 1` on when `from` starts none.
proof fn lemma_find_prefix_step(s: Seq<char>, m: char, from: int)
    requires
        0 <= from,
        from + 1 < s.len(),
        !(s[from] == '0' && s[from + 1] == m),
    ensures
        find_prefix(s, m, from) == find_prefix(s, m, from + 1),
{
}

/// The digit run from `i` is the slice from `i` to the first non-digit `e`.
proof fn lemma_digit_run_slice(s: Seq<char>, i: int, e: int, radix: nat)
    requires
        0 <= i <= e <= s.len(),
        forall|k: int| i <= k < e ==> is_radix_digit(#[trigger] s[k], radix),
        e == s.len() || !is_radix_digit(s[e], radix),
    ensures
        digit_run(s, i, radix) == s.subrange(i, e),
    decreases e - i,
{
    if i < e {
        lemma_digit_run_slice(s, i + 1, e, radix);
        assert(s.subrange(i, e) =~= seq![s[i]] + s.subrange(i + 1, e));
    } else {
        assert(s.subrange(i, e) =~= Seq::<char>::empty());
    }
}

/// Adding a digit never makes the value smaller.
proof fn lemma_digits_value_grows(ds: Seq<char>, k: int, radix: nat)
    requires
        radix >= 2,
        0 <= k <= ds.len(),
        forall|j: int| 0 <= j < ds.len() ==> 0 <= #[trigger] digit_value(ds[j]),
    ensures
        0 <= digits_value(ds.take(k), radix) <= digits_value(ds, radix),
    decreases ds.len() - k,
{
    if k < ds.len() {
        lemma_digits_value_grows(ds.drop_last(), if k <= ds.len() - 1 { k } else { ds.len() - 1 }, radix);
        assert(ds.drop_last().take(k) =~= ds.take(k));
        assert(0 <= digits_value(ds.drop_last(), radix));
        assert(digits_value(ds.drop_last(), radix) <= digits_value(ds.drop_last(), radix) * radix + digit_value(ds.last()))
            by (nonlinear_arith)
            requires 0 <= digits_value(ds.drop_last(), radix), radix >= 2, 0 <= digit_value(ds.last());
    } else {
        assert(ds.take(k) =~= ds);
        lemma_digits_value_nonneg(ds, radix);
    }
}

/// The value of digits is not negative.
proof fn lemma_digits_value_nonneg(ds: Seq<char>, radix: nat)
    requires
        forall|j: int| 0 <= j < ds.len() ==> 0 <= #[trigger] digit_value(ds[j]),
    ensures
        0 <= digits_value(ds, radix),
    decreases ds.len(),
{
    if ds.len() > 0 {
        lemma_digits_value_nonneg(ds.drop_last(), radix);
        assert(0 <= digit_value(ds[ds.len() - 1]));
        assert(0 <= digits_value(ds.drop_last(), radix) * radix) by (nonlinear_arith)
            requires 0 <= digits_value(ds.drop_last(), radix);
    }
}

/// Replaces each literal `0m...` of base `radix` by its decimal value, from the left,
/// until none is left or one cannot be read.
fn convert_prefixed(s: Vec<char>, m: char, radix: u64) -> (r: Vec<char>)
    requires
        marker_ok(m, radix as nat),
    ensures
        r@ == convert_literals_spec(s@, m, radix as nat),
{
    let mut cur = s;
    loop
        invariant
            marker_ok(m, radix as nat),
            radix == 2 || radix == 8 || radix == 16,
            convert_literals_spec(cur@, m, radix as nat) == convert_literals_spec(s@, m, radix as nat),
        decreases count_char(cur@, m),
    {
        let n = cur.len();
        // find the first "0m"
        if n < 2 {
            return cur;
        }
        let mut pos: usize = 0;
        while pos < n - 1 && !(cur[pos] == '0' && cur[pos + 1] == m)
            invariant
                n == cur@.len(),
                n >= 2,
                pos <= n - 1,
                find_prefix(cur@, m, 0) == find_prefix(cur@, m, pos as int),
            decreases n - pos,
        {
            proof {
                lemma_find_prefix_step(cur@, m, pos as int);
            }
            pos += 1;
        }
        if pos >= n - 1 {
            return cur;
        }
        assert(find_prefix(cur@, m, 0) == Some(pos as int));
        // the run of digits after it
        let start = pos + 2;
        let mut e: usize = start;
        while e < n && is_radix_digit_exec(cur[e], radix)
            invariant
                n == cur@.len(),
                start <= e <= n,
                radix == 2 || radix == 8 || radix == 16,
                forall|k: int| start <= k < e ==> is_radix_digit(#[trigger] cur@[k], radix as nat),
            decreases n - e,
        {
            e += 1;
        }
        proof {
            lemma_digit_run_slice(cur@, start as int, e as int, radix as nat);
        }
        let ghost run = cur@.subrange(start as int, e as int);
        if e == start {
            return cur;
        }
        // its value, as long as it fits in an i64
        let mut v: u64 = 0;
        let mut k: usize = start;
        while k < e
            invariant
                start <= k <= e <= n,
                n == cur@.len(),
                radix == 2 || radix == 8 || radix == 16,
                marker_ok(m, radix as nat),
                start == pos + 2,
                find_prefix(cur@, m, 0) == Some(pos as int),
                digit_run(cur@, start as int, radix as nat) == run,
                convert_literals_spec(cur@, m, radix as nat) == convert_literals_spec(s@, m, radix as nat),
                run == cur@.subrange(start as int, e as int),
                forall|t: int| start <= t < e ==> is_radix_digit(#[trigger] cur@[t], radix as nat),
                v == digits_value(run.take(k - start), radix as nat),
                v <= i64::MAX,
            decreases e - k,
        {
            let d = digit_value_exec(cur[k], radix);
            proof {
                assert(run.take(k - start + 1).drop_last() =~= run.take(k - start));
                assert(run.take(k - start + 1).last() == cur@[k as int]);
                assert(v * radix + d <= i64::MAX * 16 + 16) by (nonlinear_arith)
                    requires v <= i64::MAX, radix <= 16, d < 16;
            }
            let next: u128 = (v as u128) * (radix as u128) + (d as u128);
            if next > i64::MAX as u128 {
                proof {
                    assert forall|j: int| 0 <= j < run.len() implies 0 <= #[trigger] digit_value(run[j]) by {
                        assert(is_radix_digit(cur@[start + j], radix as nat));
                    }
                    lemma_digits_value_grows(run, k - start + 1, radix as nat);
                    assert(digits_value(run.take(k - start + 1), radix as nat) == v * radix + d);
                    assert(literal_value(run, radix as nat) is None);
                }
                return cur;
            }
            v = next as u64;
            k += 1;
        }
        proof {
            assert(run.take(e - start) =~= run);
        }
        // replace it by its decimal value
        let dec = decimal_of(v as i64);
        let mut next_s: Vec<char> = Vec::new();
        let mut t: usize = 0;
        while t < pos
            invariant
                t <= pos < n,
                n == cur@.len(),
                next_s@ == cur@.take(t as int),
            decreases pos - t,
        {
            next_s.push(cur[t]);
            proof {
                assert(cur@.take(t + 1) =~= cur@.take(t as int).push(cur@[t as int]));
            }
            t += 1;
        }
        let mut t2: usize = 0;
        while t2 < dec.len()
            invariant
                t2 <= dec@.len(),
                next_s@ == cur@.take(pos as int) + dec@.take(t2 as int),
            decreases dec@.len() - t2,
        {
            next_s.push(dec[t2]);
            proof {
                assert(dec@.take(t2 + 1) =~= dec@.take(t2 as int).push(dec@[t2 as int]));
            }
            t2 += 1;
        }
        proof {
            assert(dec@.take(dec@.len() as int) =~= dec@);
        }
        let mut t3: usize = e;
        while t3 < n
            invariant
                e <= t3 <= n,
                n == cur@.len(),
                next_s@ == cur@.take(pos as int) + dec@ + cur@.subrange(e as int, t3 as int),
            decreases n - t3,
        {
            next_s.push(cur[t3]);
            proof {
                assert(cur@.subrange(e as int, t3 + 1) =~= cur@.subrange(e as int, t3 as int).push(cur@[t3 as int]));
            }
            t3 += 1;
        }
        proof {
            assert(cur@.subrange(e as int, n as int) =~= cur@.skip(e as int));
            assert(e == pos + 2 + run.len());
            assert(literal_value(run, radix as nat) == Some(v as int));
            assert(next_s@ == replace_literal(cur@, pos as int, run, v as int));
            assert(cur@[pos + 1] == m);
            lemma_replace_literal_count(cur@, pos as int, m, radix as nat, v as int);
        }
        cur = next_s;
    }
}

/// `c` is white space as Unicode defines it (`char::is_whitespace`).
pub open spec fn is_white_space(c: char) -> bool {
    ('\u{9}' <= c && c <= '\u{d}') || c == ' ' || c == '\u{85}' || c == '\u{a0}' || c == '\u{1680}'
        || ('\u{2000}' <= c && c <= '\u{200a}') || c == '\u{2028}' || c == '\u{2029}' || c == '\u{202f}'
        || c == '\u{205f}' || c == '\u{3000}'
}

/// `s` without the white space at its start and at its end.
pub open spec fn trim_white_space(s: Seq<char>) -> Seq<char>
    decreases s.len(),
{
    if s.len() > 0 && is_white_space(s[0]) {
        trim_white_space(s.skip(1))
    } else if s.len() > 0 && is_white_space(s.last()) {
        trim_white_space(s.drop_last())
    } else {
        s
    }
}

/// Whether `c` is white space.
fn is_white_space_exec(c: char) -> (r: bool)
    ensures
        r == is_white_space(c),
{
    ('\u{9}' <= c && c <= '\u{d}') || c == ' ' || c == '\u{85}' || c == '\u{a0}' || c == '\u{1680}'
        || ('\u{2000}' <= c && c <= '\u{200a}') || c == '\u{2028}' || c == '\u{2029}' || c == '\u{202f}'
        || c == '\u{205f}' || c == '\u{3000}'
}

/// The characters of `cs` from `from` to `to`, without white space at both ends.
pub(crate) fn trimmed_text(cs: &[char], from: usize, to: usize) -> (r: String)
    requires
        from <= to <= cs@.len(),
    ensures
        r@ == trim_white_space(cs@.subrange(from as int, to as int)),
{
    let ghost s = cs@.subrange(from as int, to as int);
    let mut a = from;
    let mut b = to;
    while a < b && is_white_space_exec(cs[a])
        invariant
            from <= a <= b == to <= cs@.len(),
            s == cs@.subrange(from as int, to as int),
            trim_white_space(cs@.subrange(a as int, b as int)) == trim_white_space(s),
        decreases b - a,
    {
        proof {
            assert(cs@.subrange(a as int, b as int).skip(1) =~= cs@.subrange(a + 1, b as int));
        }
        a += 1;
    }
    while b > a && is_white_space_exec(cs[b - 1])
        invariant
            from <= a <= b <= to <= cs@.len(),
            s == cs@.subrange(from as int, to as int),
            a < b ==> !is_white_space(cs@[a as int]),
            trim_white_space(cs@.subrange(a as int, b as int)) == trim_white_space(s),
        decreases b - a,
    {
        proof {
            let t = cs@.subrange(a as int, b as int);
            assert(t.drop_last() =~= cs@.subrange(a as int, b - 1));
            assert(t[0] == cs@[a as int]);
        }
        b -= 1;
    }
    proof {
        let t = cs@.subrange(a as int, b as int);
        if t.len() > 0 {
            assert(t[0] == cs@[a as int]);
            assert(t.last() == cs@[b - 1]);
        }
        assert(trim_white_space(t) == t);
    }
    let mut out = String::new();
    let mut k = a;
    while k < b
        invariant
            a <= k <= b <= cs@.len(),
            out@ == cs@.subrange(a as int, k as int),
        decreases b - k,
    {
        crate::text::push_char(&mut out, cs[k]);
        proof {
            assert(cs@.subrange(a as int, k + 1) =~= cs@.subrange(a as int, k as int).push(cs@[k as int]));
        }
        k += 1;
    }
    out
}

impl Parser {
    /// The Unicode logic operators and the word and double-star operators replaced by the
    /// operators of the evaluator.
    pub fn replace_unicode_ops(expr: &str) -> (r: String)
        ensures
            r@ == unicode_ops_replaced(expr@),
    {
        let s0 = chars_of(expr);
        let s1 = replace_chars(s0.as_slice(), &['¬'], &['~']);
        let s2 = replace_chars(s1.as_slice(), &['∨'], &['|']);
        let s3 = replace_chars(s2.as_slice(), &['∧'], &['&']);
        let s4 = replace_chars(s3.as_slice(), &['⊻'], &['^']);
        let s5 = replace_chars(s4.as_slice(), &['x', 'o', 'r'], &['^', '^']);
        let s6 = replace_chars(s5.as_slice(), &['*', '*'], &['^']);
        proof {
            assert(['¬']@ =~= seq!['¬']);
            assert(['~']@ =~= seq!['~']);
            assert(['∨']@ =~= seq!['∨']);
            assert(['|']@ =~= seq!['|']);
            assert(['∧']@ =~= seq!['∧']);
            assert(['&']@ =~= seq!['&']);
            assert(['⊻']@ =~= seq!['⊻']);
            assert(['^']@ =~= seq!['^']);
            assert(['x', 'o', 'r']@ =~= seq!['x', 'o', 'r']);
            assert(['^', '^']@ =~= seq!['^', '^']);
            assert(['*', '*']@ =~= seq!['*', '*']);
        }
        string_of(s6.as_slice())
    }

    /// Hexadecimal, binary and octal literals (`0x`, `0b`, `0o`) replaced by their decimal
    /// values, in that order; it always succeeds.
    pub fn convert_literals(expr: &str) -> (r: Result<String, String>)
        ensures
            r matches Ok(s) && s@ == convert_literals_spec(convert_literals_spec(convert_literals_spec(
                expr@, 'x', 16), 'b', 2), 'o', 8),
    {
        let out = Self::convert_hex(expr);
        let out = match out {
            Ok(s) => s,
            Err(e) => return Err(e),
        };
        let out = match Self::convert_bin(out.as_str()) {
            Ok(s) => s,
            Err(e) => return Err(e),
        };
        Self::convert_oct(out.as_str())
    }

    /// Hexadecimal literals `0x...` replaced by their decimal values.
    pub fn convert_hex(expr: &str) -> (r: Result<String, String>)
        ensures
            r matches Ok(s) && s@ == convert_literals_spec(expr@, 'x', 16),
    {
        let cs = convert_prefixed(chars_of(expr), 'x', 16);
        Ok(string_of(cs.as_slice()))
    }

    /// Binary literals `0b...` replaced by their decimal values.
    pub fn convert_bin(expr: &str) -> (r: Result<String, String>)
        ensures
            r matches Ok(s) && s@ == convert_literals_spec(expr@, 'b', 2),
    {
        let cs = convert_prefixed(chars_of(expr), 'b', 2);
        Ok(string_of(cs.as_slice()))
    }

    /// Octal literals `0o...` replaced by their decimal values.
    pub fn convert_oct(expr: &str) -> (r: Result<String, String>)
        ensures
            r matches Ok(s) && s@ == convert_literals_spec(expr@, 'o', 8),
    {
        let cs = convert_prefixed(chars_of(expr), 'o', 8);
        Ok(string_of(cs.as_slice()))
    }

    /// The two sides of the one-byte operator at byte index `pos`, each without the white
    /// space at its ends, with the range to replace: from 0 to the length of `s` in bytes
    /// (all of it). Both `pos` and `pos + 1` must lie on character boundaries.
    pub fn extract_operands(s: &str, pos: usize) -> (r: Result<(String, String, usize, usize), String>)
        requires
            pos < s.spec_bytes().len(),
            is_char_boundary(s.spec_bytes(), pos as int),
            is_char_boundary(s.spec_bytes(), pos + 1),
        ensures
            r matches Ok(t) && t.0@ == trim_white_space(decode_utf8(s.spec_bytes().subrange(0, pos as int)))
                && t.1@ == trim_white_space(decode_utf8(s.spec_bytes().subrange(pos + 1, s.spec_bytes().len() as int)))
                && t.2 == 0 && t.3 == s.spec_bytes().len(),
    {
        broadcast use vstd::utf8::group_utf8_lib;

        let n = s.as_bytes().len();
        let (before, _) = s.split_at(pos);
        let (_, after) = s.split_at(pos + 1);
        let cb = chars_of(before);
        let ca = chars_of(after);
        let left = trimmed_text(cb.as_slice(), 0, cb.len());
        let right = trimmed_text(ca.as_slice(), 0, ca.len());
        proof {
            assert(cb@.subrange(0, cb@.len() as int) =~= cb@);
            assert(ca@.subrange(0, ca@.len() as int) =~= ca@);
            assert(decode_utf8(before.spec_bytes()) == before@);
            assert(decode_utf8(after.spec_bytes()) == after@);
        }
        Ok((left, right, 0, n))
    }
}

} // verus!
