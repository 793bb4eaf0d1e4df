//! The full output of a result: its formatted value and its hexadecimal, decimal, octal,
//! binary and 64-bit views.
use vstd::prelude::*;
use crate::bitview::{format_64bit_spec, format_64bit_text, format_bin_spec, format_bin_text, group4_text, wide_sep};
use crate::text::{digits, digits_of, group4, push_chars, unsigned, unsigned_of};

verus! {

/// Formats the full output of a calculation.
pub struct ResultFormatter;

/// `0x` and the upper-case hexadecimal digits of the bits of `v`.
pub open spec fn hex_spec(v: int) -> Seq<char> {
    "0x"@ + digits(unsigned(v), 16)
}

/// `0o` and the octal digits of the bits of `v`.
pub open spec fn oct_spec(v: int) -> Seq<char> {
    "0o"@ + digits(unsigned(v), 8)
}

/// The full output for `v` shown as `formatted`.
pub open spec fn full_output_spec(v: int, formatted: Seq<char>) -> Seq<char> {
    "\t"@ + formatted + "\n━━━━━━━━━━━━━━━━━━━━━━━━━━━━\nHEX : \""@ + hex_spec(v) + "\"\nDEC : \""@ + formatted
        + "\"\nOCT : \""@ + oct_spec(v) + "\"\nBIN : \""@ + format_bin_spec(v) + "\"\n"@
        + format_64bit_spec(v) + "\n"@
}

impl ResultFormatter {
    /// The formatted value, a rule, and the value in hexadecimal, as formatted, in octal, in
    /// binary and as 64 bits.
    pub fn full_output(value: i64, formatted: &str) -> (r: String)
        ensures
            r@ == full_output_spec(value as int, formatted@),
    {
        let mut hex = String::new();
        hex.append("0x");
        push_chars(&mut hex, digits_of(unsigned_of(value), 16).as_slice());
        let mut oct = String::new();
        oct.append("0o");
        push_chars(&mut oct, digits_of(unsigned_of(value), 8).as_slice());
        let bin = Self::format_bin(value);
        let binary_64 = Self::format_64bit(value);
        let mut out = String::new();
        out.append("\t");
        out.append(formatted);
        out.append("\n━━━━━━━━━━━━━━━━━━━━━━━━━━━━\nHEX : \"");
        out.append(hex.as_str());
        out.append("\"\nDEC : \"");
        out.append(formatted);
        out.append("\"\nOCT : \"");
        out.append(oct.as_str());
        out.append("\"\nBIN : \"");
        out.append(bin.as_str());
        out.append("\"\n");
        out.append(binary_64.as_str());
        out.append("\n");
        out
    }

    /// `0b` and the binary digits of `value` grouped in fours.
    fn format_bin(value: i64) -> (r: String)
        ensures
            r@ == format_bin_spec(value as int),
    {
        format_bin_text(value)
    }

    /// The 64 bits of `value` in two labelled rows.
    fn format_64bit(value: i64) -> (r: String)
        ensures
            r@ == format_64bit_spec(value as int),
    {
        format_64bit_text(value)
    }

    /// The characters of `s` in chunks of four joined by two spaces.
    fn group4(s: &str) -> (r: String)
        ensures
            r@ == group4(s@, wide_sep()),
    {
        proof {
            assert(wide_sep() =~= [' ', ' ']@);
        }
        group4_text(s, &[' ', ' '])
    }
}

} // verus!
