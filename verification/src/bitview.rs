//! Bit-level views of 64-bit integers: the binary digits grouped in fours, the 64 bits in
//! two labelled rows, and the signed and unsigned readings of the same bits.
use vstd::prelude::*;
use crate::traits::BitFormatter;
use crate::text::{bits, bits_of, chars_of, decimal, decimal_of, digits, digits_of, group4, group4_of, pad_left,
    pad_left_of, push_chars, unsigned, unsigned_of};

verus! {

/// The separator of the groups of four bits in the 64-bit view.
pub open spec fn wide_sep() -> Seq<char> {
    seq![' ', ' ']
}

/// The binary digits of the two's complement bits of `v` (no leading zeros), padded with
/// zeros to a multiple of four.
pub open spec fn padded_bin(v: int) -> Seq<char> {
    let raw = digits(unsigned(v), 2);
    pad_left(raw, raw.len() + (4 - raw.len() % 4) % 4, '0')
}

/// `0b` and the padded binary digits of `v` in groups of four separated by spaces.
pub open spec fn format_bin_spec(v: int) -> Seq<char> {
    "0b"@ + group4(padded_bin(v), seq![' '])
}

/// The 64 bits of `v`: the upper 32 in groups of four, a line of bit positions, an empty
/// line, the lower 32 in groups of four, and their bit positions.
pub open spec fn format_64bit_spec(v: int) -> Seq<char> {
    let b = bits(unsigned(v), 64);
    group4(b.take(32), wide_sep()) + "\n63                      47                  32\n\n"@
        + group4(b.skip(32), wide_sep()) + "\n31                      15                   0"@
}

/// The signed and the unsigned reading of the bits of `v`, one per line.
pub open spec fn signed_unsigned_spec(v: int) -> Seq<char> {
    "Signed (i64):   "@ + decimal(v) + "\nUnsigned (u64): "@ + digits(unsigned(v), 10)
}

/// `0b` and the binary digits of `value` grouped in fours.
pub(crate) fn format_bin_text(value: i64) -> (r: String)
    ensures
        r@ == format_bin_spec(value as int),
{
    let raw = digits_of(unsigned_of(value), 2);
    proof {
        vstd::arithmetic::power2::lemma2_to64();
        crate::text::lemma_digits_len(unsigned(value as int), 2, 64);
    }
    let padding = (4 - raw.len() % 4) % 4;
    let padded = pad_left_of(raw.as_slice(), raw.len() + padding, '0');
    let grouped = group4_of(padded.as_slice(), &[' ']);
    let mut out = String::new();
    out.append("0b");
    push_chars(&mut out, grouped.as_slice());
    proof {
        assert(seq![' '] =~= [' ']@);
    }
    out
}

/// The characters of `cs` as a string.
pub(crate) fn string_of(cs: &[char]) -> (r: String)
    ensures
        r@ == cs@,
{
    let mut out = String::new();
    push_chars(&mut out, cs);
    out
}

/// The 64 bits of `value` in two labelled rows.
pub(crate) fn format_64bit_text(value: i64) -> (r: String)
    ensures
        r@ == format_64bit_spec(value as int),
{
    let mut upper = bits_of(unsigned_of(value), 64);
    let ghost all = upper@;
    proof {
        crate::text::lemma_bits_len(unsigned(value as int), 64);
    }
    let lower = upper.split_off(32);
    let upper_s = string_of(upper.as_slice());
    let lower_s = string_of(lower.as_slice());
    let mut out = group4_text(upper_s.as_str(), &[' ', ' ']);
    out.append("\n63                      47                  32\n\n");
    let low = group4_text(lower_s.as_str(), &[' ', ' ']);
    out.append(low.as_str());
    out.append("\n31                      15                   0");
    proof {
        assert(upper@ =~= all.take(32));
        assert(lower@ =~= all.skip(32));
        assert(wide_sep() =~= [' ', ' ']@);
    }
    out
}

/// The characters of `s` in chunks of four joined by `sep`.
pub(crate) fn group4_text(s: &str, sep: &[char]) -> (r: String)
    ensures
        r@ == group4(s@, sep@),
{
    let cs = chars_of(s);
    let grouped = group4_of(cs.as_slice(), sep);
    string_of(grouped.as_slice())
}

/// Binary/bit view formatter with detailed bit layout.
pub struct BitView;

impl BitFormatter for BitView {
    fn format_64bit(&self, value: i64) -> (r: String)
        ensures
            r@ == format_64bit_spec(value as int),
    {
        format_64bit_text(value)
    }

    fn format_bin(&self, value: i64) -> (r: String)
        ensures
            r@ == format_bin_spec(value as int),
    {
        format_bin_text(value)
    }
}

impl BitView {
    /// The characters of `s` in chunks of four joined by two spaces.
    pub fn group4(s: &str) -> (r: String)
        ensures
            r@ == group4(s@, wide_sep()),
    {
        proof {
            assert(wide_sep() =~= [' ', ' ']@);
        }
        group4_text(s, &[' ', ' '])
    }
}

/// Signed/unsigned view for i64 values.
pub struct SignedView;

impl SignedView {
    /// The value read as a signed and as an unsigned 64-bit integer, one per line.
    pub fn format_signed_unsigned(value: i64) -> (r: String)
        ensures
            r@ == signed_unsigned_spec(value as int),
    {
        let mut out = String::new();
        out.append("Signed (i64):   ");
        push_chars(&mut out, decimal_of(value).as_slice());
        out.append("\nUnsigned (u64): ");
        push_chars(&mut out, digits_of(unsigned_of(value), 10).as_slice());
        out
    }
}

} // verus!
