//! Text building blocks for the formatters: the digits of integers in a base, binary
//! digits padded to a width, grouping into chunks, and appending characters and text.
use vstd::prelude::*;

verus! {

/// The digit for `d` (below 16), with upper-case letters above 9.
pub open spec fn digit_char(d: int) -> char {
    if d < 10 {
        (d + 48) as char
    } else {
        (d + 55) as char
    }
}

/// The digits of `n` in base `b` (at least 2), most significant first, without leading
/// zeros; "0" for zero.
pub open spec fn digits(n: nat, b: nat) -> Seq<char>
    decreases n,
{
    if b < 2 || n < b {
        seq![digit_char(n as int)]
    } else {
        proof {
            assert(n / b < n) by (nonlinear_arith) requires b >= 2, n >= b;
        }
        digits(n / b, b).push(digit_char((n % b) as int))
    }
}

/// The decimal representation of an integer, with a leading '-' when it is negative.
pub open spec fn decimal(v: int) -> Seq<char> {
    if v < 0 {
        seq!['-'] + digits((-v) as nat, 10)
    } else {
        digits(v as nat, 10)
    }
}

/// The bits of an `i64` as an unsigned 64-bit number (two's complement).
pub open spec fn unsigned(v: int) -> nat {
    (if v < 0 { v + 0x1_0000_0000_0000_0000 } else { v }) as nat
}

/// The lowest `len` binary digits of `n`, most significant first.
pub open spec fn bits(n: nat, len: nat) -> Seq<char>
    decreases len,
{
    if len == 0 {
        Seq::empty()
    } else {
        bits(n / 2, (len - 1) as nat).push(digit_char((n % 2) as int))
    }
}

/// `s` with `c` repeated in front of it up to length `width` (unchanged when it is
/// already that long).
pub open spec fn pad_left(s: Seq<char>, width: int, c: char) -> Seq<char> {
    if s.len() >= width {
        s
    } else {
        Seq::new((width - s.len()) as nat, |i: int| c) + s
    }
}

/// `s` cut into chunks of four characters joined by `sep` (empty for empty `s`).
pub open spec fn group4(s: Seq<char>, sep: Seq<char>) -> Seq<char>
    decreases s.len(),
{
    if s.len() <= 4 {
        s
    } else {
        s.take(4) + sep + group4(s.skip(4), sep)
    }
}

/// No digit is a comma, a space or a minus sign.
pub proof fn lemma_digits_chars(n: nat, b: nat)
    requires
        2 <= b <= 16,
    ensures
        forall|j: int| 0 <= j < digits(n, b).len() ==> {
            let c = #[trigger] digits(n, b)[j];
            c != ',' && c != ' ' && c != '-'
        },
    decreases n,
{
    if !(b < 2 || n < b) {
        assert(n / b < n) by (nonlinear_arith) requires b >= 2, n >= b;
        lemma_digits_chars(n / b, b);
        let d = (n % b) as int;
        assert(digit_char(d) != ',' && digit_char(d) != ' ' && digit_char(d) != '-');
        let prev = digits(n / b, b);
        assert forall|j: int| 0 <= j < digits(n, b).len() implies {
            let c = #[trigger] digits(n, b)[j];
            c != ',' && c != ' ' && c != '-'
        } by {
            if j < prev.len() {
                assert(digits(n, b)[j] == prev[j]);
            }
        }
    } else {
        assert(digit_char(n as int) != ',' && digit_char(n as int) != ' ' && digit_char(n as int) != '-');
    }
}

/// A decimal representation holds no comma and no space.
pub proof fn lemma_decimal_chars(v: int)
    ensures
        forall|j: int| 0 <= j < decimal(v).len() ==> #[trigger] decimal(v)[j] != ',' && decimal(v)[j] != ' ',
{
    if v < 0 {
        lemma_digits_chars((-v) as nat, 10);
        assert forall|j: int| 0 <= j < decimal(v).len() implies #[trigger] decimal(v)[j] != ',' && decimal(v)[j] != ' ' by {
            if j > 0 {
                assert(decimal(v)[j] == digits((-v) as nat, 10)[j - 1]);
            }
        }
    } else {
        lemma_digits_chars(v as nat, 10);
    }
}

/// `bits(n, len)` has `len` characters.
pub proof fn lemma_bits_len(n: nat, len: nat)
    ensures
        bits(n, len).len() == len,
    decreases len,
{
    if len > 0 {
        lemma_bits_len(n / 2, (len - 1) as nat);
    }
}

/// A number below `2^k` (with `k >= 1`) has at most `k` digits in any base.
pub proof fn lemma_digits_len(n: nat, b: nat, k: nat)
    requires
        2 <= b,
        1 <= k,
        n < vstd::arithmetic::power2::pow2(k),
    ensures
        1 <= digits(n, b).len() <= k,
    decreases n,
{
    if n >= b {
        assert(n / b < n) by (nonlinear_arith) requires b >= 2, n >= b;
        vstd::arithmetic::power2::lemma_pow2_unfold(k);
        assert(n / b < vstd::arithmetic::power2::pow2((k - 1) as nat)) by (nonlinear_arith)
            requires n < 2 * vstd::arithmetic::power2::pow2((k - 1) as nat), b >= 2;
        if k == 1 {
            vstd::arithmetic::power2::lemma2_to64();
            assert(n < 2);
        }
        lemma_digits_len(n / b, b, (k - 1) as nat);
    }
}

/// The decimal digits are the characters '0' to '9'.
pub proof fn lemma_decimal_digits_range(n: nat)
    ensures
        forall|j: int| 0 <= j < digits(n, 10).len() ==> '0' <= #[trigger] digits(n, 10)[j] <= '9',
    decreases n,
{
    if n >= 10 {
        lemma_decimal_digits_range(n / 10);
        let prev = digits(n / 10, 10);
        assert forall|j: int| 0 <= j < digits(n, 10).len() implies '0' <= #[trigger] digits(n, 10)[j] <= '9' by {
            if j < prev.len() {
                assert(digits(n, 10)[j] == prev[j]);
            }
        }
    }
}

/// A decimal representation holds a leading '-' and otherwise the characters '0' to '9'.
pub proof fn lemma_decimal_digit_chars(v: int)
    ensures
        forall|j: int| 0 <= j < decimal(v).len() ==> #[trigger] decimal(v)[j] == '-'
            || ('0' <= decimal(v)[j] <= '9'),
{
    if v < 0 {
        lemma_decimal_digits_range((-v) as nat);
        assert forall|j: int| 0 <= j < decimal(v).len() implies #[trigger] decimal(v)[j] == '-'
            || ('0' <= decimal(v)[j] <= '9') by {
            if j > 0 {
                assert(decimal(v)[j] == digits((-v) as nat, 10)[j - 1]);
            }
        }
    } else {
        lemma_decimal_digits_range(v as nat);
    }
}

/// The character of a digit below 16.
pub fn digit_to_char(d: u64) -> (c: char)
    requires
        d < 16,
    ensures
        c == digit_char(d as int),
{
    if d < 10 {
        ((d as u8) + 48u8) as char
    } else {
        ((d as u8) + 55u8) as char
    }
}

/// Appends a character to a string (`String::push`): the characters of the string grow
/// by `c`.
#[verifier::external_body]
pub(crate) fn push_char(s: &mut String, c: char)
    ensures
        final(s)@ == old(s)@.push(c),
{
    s.push(c);
}

/// Appends the characters of `cs` to `s`.
pub fn push_chars(s: &mut String, cs: &[char])
    ensures
        final(s)@ == old(s)@ + cs@,
{
    let mut i: usize = 0;
    while i < cs.len()
        invariant
            i <= cs@.len(),
            s@ == old(s)@ + cs@.take(i as int),
        decreases cs@.len() - i,
    {
        push_char(s, cs[i]);
        proof {
            assert(cs@.take(i + 1) =~= cs@.take(i as int).push(cs@[i as int]));
        }
        i += 1;
    }
    proof {
        assert(cs@.take(cs@.len() as int) =~= cs@);
    }
}

/// The characters of a string slice.
pub fn chars_of(s: &str) -> (r: Vec<char>)
    ensures
        r@ == s@,
{
    let n = s.unicode_len();
    let mut v: Vec<char> = Vec::new();
    let mut i: usize = 0;
    while i < n
        invariant
            n == s@.len(),
            i <= n,
            v@ == s@.take(i as int),
        decreases n - i,
    {
        v.push(s.get_char(i));
        proof {
            assert(s@.take(i + 1) =~= s@.take(i as int).push(s@[i as int]));
        }
        i += 1;
    }
    proof {
        assert(s@.take(n as int) =~= s@);
    }
    v
}

/// One step of peeling the lowest digit: `digits(m)` is `digits(m / b)` followed by the
/// digit of `m % b`, or just that digit when `m < b`.
proof fn lemma_digits_step(m: nat, b: nat)
    requires
        2 <= b <= 16,
    ensures
        m < b ==> m / b == 0 && digits(m, b) == seq![digit_char((m % b) as int)],
        m >= b ==> m / b > 0 && digits(m, b) == digits(m / b, b).push(digit_char((m % b) as int)),
{
    if m < b {
        vstd::arithmetic::div_mod::lemma_basic_div(m as int, b as int);
        vstd::arithmetic::div_mod::lemma_small_mod(m, b);
    } else {
        assert(m / b > 0) by (nonlinear_arith) requires m >= b, b >= 2;
    }
}

/// The digits of `n` in base `b` (2 to 16).
pub fn digits_of(n: u64, b: u64) -> (r: Vec<char>)
    requires
        2 <= b <= 16,
    ensures
        r@ == digits(n as nat, b as nat),
{
    let mut out: Vec<char> = Vec::new();
    proof {
        lemma_digits_step(n as nat, b as nat);
    }
    out.push(digit_to_char(n % b));
    let mut m: u64 = n / b;
    proof {
        if m > 0 {
            assert(digits(m as nat, b as nat) + out@ =~= digits(n as nat, b as nat));
        } else {
            assert(out@ =~= digits(n as nat, b as nat));
        }
    }
    while m > 0
        invariant
            2 <= b <= 16,
            m > 0 ==> digits(m as nat, b as nat) + out@ == digits(n as nat, b as nat),
            m == 0 ==> out@ == digits(n as nat, b as nat),
        decreases m,
    {
        let ghost before = out@;
        proof {
            lemma_digits_step(m as nat, b as nat);
        }
        out.insert(0, digit_to_char(m % b));
        let ghost old_m = m;
        m = m / b;
        proof {
            if m > 0 {
                assert(digits(m as nat, b as nat) + out@ =~= digits(old_m as nat, b as nat) + before);
            } else {
                assert(out@ =~= digits(old_m as nat, b as nat) + before);
            }
        }
    }
    out
}

/// The decimal representation of an `i64`.
pub fn decimal_of(v: i64) -> (r: Vec<char>)
    ensures
        r@ == decimal(v as int),
{
    if v < 0 {
        let mag = (-(v as i128)) as u64;
        let mut out: Vec<char> = Vec::new();
        out.push('-');
        let ds = digits_of(mag, 10);
        let mut i: usize = 0;
        while i < ds.len()
            invariant
                i <= ds@.len(),
                out@ == seq!['-'] + ds@.take(i as int),
            decreases ds@.len() - i,
        {
            out.push(ds[i]);
            proof {
                assert(ds@.take(i + 1) =~= ds@.take(i as int).push(ds@[i as int]));
            }
            i += 1;
        }
        proof {
            assert(ds@.take(ds@.len() as int) =~= ds@);
        }
        out
    } else {
        digits_of(v as u64, 10)
    }
}

/// The two's complement bits of an `i64` as an unsigned number.
pub fn unsigned_of(v: i64) -> (r: u64)
    ensures
        r == unsigned(v as int),
{
    if v < 0 {
        (v as i128 + 0x1_0000_0000_0000_0000i128) as u64
    } else {
        v as u64
    }
}

/// The lowest `len` binary digits of `n`.
pub fn bits_of(n: u64, len: usize) -> (r: Vec<char>)
    ensures
        r@ == bits(n as nat, len as nat),
{
    let mut out: Vec<char> = Vec::new();
    let mut m: u64 = n;
    let mut k: usize = 0;
    while k < len
        invariant
            k <= len,
            bits(n as nat, len as nat) == bits(m as nat, (len - k) as nat) + out@,
        decreases len - k,
    {
        let ghost before = out@;
        out.insert(0, digit_to_char(m % 2));
        proof {
            assert(bits(m as nat, (len - k) as nat) == bits((m / 2) as nat, (len - k - 1) as nat).push(digit_char((m % 2) as int)));
            assert(bits(m as nat, (len - k) as nat) + before
                =~= bits((m / 2) as nat, (len - k - 1) as nat) + out@);
        }
        m = m / 2;
        k += 1;
    }
    proof {
        assert(bits(m as nat, 0) + out@ =~= out@);
    }
    out
}

/// `cs` padded on the left with `c` to length `width`.
pub fn pad_left_of(cs: &[char], width: usize, c: char) -> (r: Vec<char>)
    ensures
        r@ == pad_left(cs@, width as int, c),
{
    let mut out: Vec<char> = Vec::new();
    if cs.len() < width {
        let mut k: usize = 0;
        while k < width - cs.len()
            invariant
                cs@.len() < width,
                k <= width - cs@.len(),
                out@ == Seq::new(k as nat, |i: int| c),
            decreases width - cs@.len() - k,
        {
            out.push(c);
            proof {
                assert(out@ =~= Seq::new((k + 1) as nat, |i: int| c));
            }
            k += 1;
        }
    }
    let ghost pre = out@;
    let mut i: usize = 0;
    while i < cs.len()
        invariant
            i <= cs@.len(),
            out@ == pre + cs@.take(i as int),
        decreases cs@.len() - i,
    {
        out.push(cs[i]);
        proof {
            assert(cs@.take(i + 1) =~= cs@.take(i as int).push(cs@[i as int]));
        }
        i += 1;
    }
    proof {
        assert(cs@.take(cs@.len() as int) =~= cs@);
        if cs@.len() >= width {
            assert(pre =~= Seq::<char>::empty());
        }
    }
    out
}

/// `cs` cut into chunks of four joined by `sep`.
pub fn group4_of(cs: &[char], sep: &[char]) -> (r: Vec<char>)
    ensures
        r@ == group4(cs@, sep@),
{
    let mut out: Vec<char> = Vec::new();
    let mut i: usize = 0;
    proof {
        assert(cs@.skip(0) =~= cs@);
    }
    while i < cs.len()
        invariant
            i <= cs@.len(),
            out@ + group4(cs@.skip(i as int), sep@) == group4(cs@, sep@),
        decreases cs@.len() - i,
    {
        let ghost rest = cs@.skip(i as int);
        if cs.len() - i <= 4 {
            let mut j: usize = i;
            while j < cs.len()
                invariant
                    i <= j <= cs@.len(),
                    out@ + cs@.subrange(j as int, cs@.len() as int) == group4(cs@, sep@),
                decreases cs@.len() - j,
            {
                out.push(cs[j]);
                proof {
                    assert(cs@.subrange(j as int, cs@.len() as int)
                        =~= seq![cs@[j as int]] + cs@.subrange(j + 1, cs@.len() as int));
                }
                j += 1;
            }
            proof {
                assert(rest =~= cs@.subrange(i as int, cs@.len() as int));
                assert(out@ =~= group4(cs@, sep@));
            }
            return out;
        }
        proof {
            assert(rest.take(4) =~= cs@.subrange(i as int, i + 4));
            assert(rest.skip(4) =~= cs@.skip(i + 4));
            assert(group4(rest, sep@) == rest.take(4) + sep@ + group4(rest.skip(4), sep@));
            assert(out@ + group4(rest, sep@) =~= out@ + cs@.subrange(i as int, i + 4) + sep@ + group4(cs@.skip(i + 4), sep@));
        }
        let end = i + 4;
        let mut j: usize = i;
        while j < end
            invariant
                end == i + 4,
                i + 4 < cs@.len(),
                i <= j <= i + 4,
                out@ + cs@.subrange(j as int, i + 4) + sep@ + group4(cs@.skip(i + 4), sep@) == group4(cs@, sep@),
            decreases i + 4 - j,
        {
            out.push(cs[j]);
            proof {
                assert(cs@.subrange(j as int, i + 4) =~= seq![cs@[j as int]] + cs@.subrange(j + 1, i + 4));
            }
            j += 1;
        }
        let mut t: usize = 0;
        while t < sep.len()
            invariant
                i + 4 < cs@.len(),
                t <= sep@.len(),
                out@ + sep@.skip(t as int) + group4(cs@.skip(i + 4), sep@) == group4(cs@, sep@),
            decreases sep@.len() - t,
        {
            out.push(sep[t]);
            proof {
                assert(sep@.skip(t as int) =~= seq![sep@[t as int]] + sep@.skip(t + 1));
            }
            t += 1;
        }
        proof {
            assert(sep@.skip(sep@.len() as int) =~= Seq::<char>::empty());
        }
        i += 4;
    }
    proof {
        assert(cs@.skip(i as int) =~= Seq::<char>::empty());
    }
    out
}

} // verus!
