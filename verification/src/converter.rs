//! Conversion of integers to hexadecimal, octal, binary and Unicode code points, and of
//! text to the code points of its characters.
use vstd::prelude::*;
use crate::traits::Converter;
use crate::text::{chars_of, decimal, decimal_of, digits, digits_of, pad_left, pad_left_of, push_char, push_chars,
    unsigned, unsigned_of};

verus! {

/// Number converter for different bases and representations.
pub struct NumberConverter;

/// `c` is a quote, single or double.
pub open spec fn is_quote(c: char) -> bool {
    c == '"' || c == '\''
}

/// `s` without the quotes at its start and at its end.
pub open spec fn trim_quotes(s: Seq<char>) -> Seq<char>
    decreases s.len(),
{
    if s.len() > 0 && is_quote(s[0]) {
        trim_quotes(s.skip(1))
    } else if s.len() > 0 && is_quote(s.last()) {
        trim_quotes(s.drop_last())
    } else {
        s
    }
}

/// The upper-case hexadecimal digits of `n`, at least four (zero padded).
pub open spec fn hex4(n: nat) -> Seq<char> {
    pad_left(digits(n, 16), 4, '0')
}

/// The description of one character: the character, its code point in hexadecimal and in
/// decimal.
pub open spec fn char_line(c: char) -> Seq<char> {
    "\t'"@ + seq![c] + "' → U+"@ + hex4(c as nat) + " ("@ + digits(c as nat, 10) + ")"@
}

/// The descriptions of the characters of `cs`, joined by a comma and a newline.
pub open spec fn char_lines(cs: Seq<char>) -> Seq<char>
    decreases cs.len(),
{
    if cs.len() == 0 {
        Seq::empty()
    } else if cs.len() == 1 {
        char_line(cs[0])
    } else {
        char_lines(cs.drop_last()) + ",\n"@ + char_line(cs.last())
    }
}

/// `v` is a Unicode scalar value (a valid `char`).
pub open spec fn is_scalar(v: int) -> bool {
    (0 <= v < 0xD800) || (0xE000 <= v <= 0x10FFFF)
}

/// The lowest 32 bits of `v`.
pub open spec fn low32(v: int) -> nat {
    unsigned(v) % 0x1_0000_0000
}

/// The code point of the lowest 32 bits of `v` and its character: `U+`, the hexadecimal
/// digits of `v` (at least four), and the character in single quotes.
pub open spec fn unicode_text(v: int) -> Seq<char> {
    "U+"@ + pad_left(digits(unsigned(v), 16), 4, '0') + " '"@ + seq![low32(v) as char] + "'"@
}

/// All four bases: hexadecimal, decimal, octal and binary, one per line.
pub open spec fn convert_all_spec(v: int) -> Seq<char> {
    "HEX: 0x"@ + digits(unsigned(v), 16) + "\nDEC: "@ + decimal(v) + "\nOCT: 0o"@ + digits(unsigned(v), 8)
        + "\nBIN: 0b"@ + digits(unsigned(v), 2)
}

/// The character with code point `v`, when there is one (`char::from_u32`): `None` for a
/// surrogate or a value above `0x10FFFF`.
#[verifier::external_body]
fn char_from_u32(v: u32) -> (r: Option<char>)
    ensures
        r is Some <==> is_scalar(v as int),
        r matches Some(c) ==> c as int == v as int,
{
    char::from_u32(v)
}

/// Whether two strings hold the same characters.
pub fn str_equals(a: &str, b: &str) -> (r: bool)
    ensures
        r == (a@ == b@),
{
    let ca = chars_of(a);
    let cb = chars_of(b);
    if ca.len() != cb.len() {
        return false;
    }
    let mut i: usize = 0;
    while i < ca.len()
        invariant
            ca@ == a@,
            cb@ == b@,
            ca@.len() == cb@.len(),
            i <= ca@.len(),
            forall|j: int| 0 <= j < i ==> ca@[j] == cb@[j],
        decreases ca@.len() - i,
    {
        if ca[i] != cb[i] {
            return false;
        }
        i += 1;
    }
    proof {
        assert(a@ =~= b@);
    }
    true
}

/// Appends the description of one character.
fn push_char_line(out: &mut String, c: char)
    ensures
        final(out)@ == old(out)@ + char_line(c),
{
    let code = (c as u32) as u64;
    assert(code == c as nat);
    out.append("\t'");
    push_char(out, c);
    out.append("' → U+");
    let hex = digits_of(code, 16);
    push_chars(out, pad_left_of(hex.as_slice(), 4, '0').as_slice());
    out.append(" (");
    push_chars(out, digits_of(code, 10).as_slice());
    out.append(")");
}

impl Converter for NumberConverter {
    fn convert_all(&self, value: i64) -> (r: String)
        ensures
            r@ == convert_all_spec(value as int),
    {
        let u = unsigned_of(value);
        let mut out = String::new();
        out.append("HEX: 0x");
        push_chars(&mut out, digits_of(u, 16).as_slice());
        out.append("\nDEC: ");
        push_chars(&mut out, decimal_of(value).as_slice());
        out.append("\nOCT: 0o");
        push_chars(&mut out, digits_of(u, 8).as_slice());
        out.append("\nBIN: 0b");
        push_chars(&mut out, digits_of(u, 2).as_slice());
        out
    }

    fn convert_to(&self, value: i64, format: &str) -> (r: Result<String, String>)
        ensures
            format@ == "hex"@ ==> (r matches Ok(s) && s@ == "0x"@ + digits(unsigned(value as int), 16)),
            format@ == "bin"@ ==> (r matches Ok(s) && s@ == "0b"@ + digits(unsigned(value as int), 2)),
            format@ == "oct"@ ==> (r matches Ok(s) && s@ == "0o"@ + digits(unsigned(value as int), 8)),
            format@ == "unicode"@ || format@ == "uni"@ ==> (is_scalar(low32(value as int) as int)
                ==> (r matches Ok(s) && s@ == unicode_text(value as int))),
            format@ == "unicode"@ || format@ == "uni"@ ==> (!is_scalar(low32(value as int) as int)
                ==> (r matches Err(e) && e@ == "Invalid Unicode"@)),
            !(format@ == "hex"@ || format@ == "bin"@ || format@ == "oct"@ || format@ == "unicode"@
                || format@ == "uni"@) ==> (r matches Err(e) && e@ == "Unknown format: "@ + format@),
    {
        proof {
            reveal_strlit("hex");
            reveal_strlit("bin");
            reveal_strlit("oct");
            reveal_strlit("unicode");
            reveal_strlit("uni");
            assert("bin"@[0] != "hex"@[0] && "oct"@[0] != "hex"@[0] && "oct"@[0] != "bin"@[0]);
            assert("unicode"@[0] != "hex"@[0] && "unicode"@[0] != "bin"@[0] && "unicode"@[0] != "oct"@[0]);
            assert("uni"@[0] != "hex"@[0] && "uni"@[0] != "bin"@[0] && "uni"@[0] != "oct"@[0]);
        }
        let u = unsigned_of(value);
        if str_equals(format, "hex") {
            let mut out = String::new();
            out.append("0x");
            push_chars(&mut out, digits_of(u, 16).as_slice());
            Ok(out)
        } else if str_equals(format, "bin") {
            let mut out = String::new();
            out.append("0b");
            push_chars(&mut out, digits_of(u, 2).as_slice());
            Ok(out)
        } else if str_equals(format, "oct") {
            let mut out = String::new();
            out.append("0o");
            push_chars(&mut out, digits_of(u, 8).as_slice());
            Ok(out)
        } else if str_equals(format, "unicode") || str_equals(format, "uni") {
            Self::to_unicode(value)
        } else {
            let mut out = String::new();
            out.append("Unknown format: ");
            out.append(format);
            Err(out)
        }
    }
}

impl NumberConverter {
    /// The code points of the characters of `input` (without the quotes around it), one
    /// line each, joined by a comma and a newline.
    pub fn string_to_unicode(input: &str) -> (r: Result<String, String>)
        ensures
            r matches Ok(s) && s@ == char_lines(trim_quotes(input@)),
    {
        let cs = chars_of(input);
        let mut start: usize = 0;
        let mut end: usize = cs.len();
        let ghost s = input@;
        proof {
            assert(s.subrange(0, s.len() as int) =~= s);
        }
        while start < end && (cs[start] == '"' || cs[start] == '\'')
            invariant
                cs@ == s,
                start <= end == cs@.len(),
                trim_quotes(s.subrange(start as int, end as int)) == trim_quotes(s),
            decreases end - start,
        {
            proof {
                assert(s.subrange(start as int, end as int).skip(1) =~= s.subrange(start + 1, end as int));
            }
            start += 1;
        }
        while end > start && (cs[end - 1] == '"' || cs[end - 1] == '\'')
            invariant
                cs@ == s,
                start <= end <= cs@.len(),
                start < end ==> !is_quote(s[start as int]),
                trim_quotes(s.subrange(start as int, end as int)) == trim_quotes(s),
            decreases end - start,
        {
            proof {
                let t = s.subrange(start as int, end as int);
                assert(t.drop_last() =~= s.subrange(start as int, end - 1));
                assert(t[0] == s[start as int]);
            }
            end -= 1;
        }
        let ghost content = s.subrange(start as int, end as int);
        proof {
            if content.len() > 0 {
                assert(content[0] == s[start as int]);
                assert(content.last() == s[end - 1]);
            }
            assert(trim_quotes(content) == content);
        }
        let mut out = String::new();
        let mut i: usize = start;
        while i < end
            invariant
                cs@ == s,
                start <= i <= end <= cs@.len(),
                content == s.subrange(start as int, end as int),
                out@ == char_lines(s.subrange(start as int, i as int)),
            decreases end - i,
        {
            let ghost prefix = s.subrange(start as int, i + 1);
            proof {
                assert(prefix.drop_last() =~= s.subrange(start as int, i as int));
                assert(prefix.last() == s[i as int]);
            }
            if i > start {
                out.append(",\n");
            }
            push_char_line(&mut out, cs[i]);
            proof {
                if i == start {
                    assert(s.subrange(start as int, i as int) =~= Seq::<char>::empty());
                }
            }
            i += 1;
        }
        Ok(out)
    }

    /// The code point of the lowest 32 bits of `value` in hexadecimal (at least four digits)
    /// and its character; an error when those bits are no Unicode scalar value.
    fn to_unicode(value: i64) -> (r: Result<String, String>)
        ensures
            is_scalar(low32(value as int) as int) ==> (r matches Ok(s) && s@ == unicode_text(value as int)),
            !is_scalar(low32(value as int) as int) ==> (r matches Err(e) && e@ == "Invalid Unicode"@),
    {
        let u = unsigned_of(value);
        let low = (u % 0x1_0000_0000) as u32;
        match char_from_u32(low) {
            Some(c) => {
                let mut out = String::new();
                out.append("U+");
                let hex = digits_of(u, 16);
                push_chars(&mut out, pad_left_of(hex.as_slice(), 4, '0').as_slice());
                out.append(" '");
                push_char(&mut out, c);
                out.append("'");
                proof {
                    assert(c == low32(value as int) as char);
                }
                Ok(out)
            },
            None => {
                let mut e = String::new();
                e.append("Invalid Unicode");
                Err(e)
            },
        }
    }
}

} // verus!
