//! Grouping the digits of an integer in threes with commas.
use vstd::prelude::*;
use crate::text::{decimal, digits, digits_of, push_char};

verus! {

/// Formats integers with their digits grouped in threes.
pub struct PriceFormatter;

/// The characters of `s` from index `i` on, with a comma in front of each character
/// (after the first of `s`) that has a multiple of three characters from it to the end.
pub open spec fn comma_grouped(s: Seq<char>, i: int) -> Seq<char>
    decreases s.len() - i,
{
    if i >= s.len() {
        Seq::empty()
    } else {
        (if i > 0 && (s.len() - i) % 3 == 0 { seq![','] } else { Seq::empty() }) + seq![s[i]]
            + comma_grouped(s, i + 1)
    }
}

/// `s` without its commas.
pub open spec fn without_commas(s: Seq<char>) -> Seq<char>
    decreases s.len(),
{
    if s.len() == 0 {
        s
    } else {
        (if s[0] == ',' { Seq::empty() } else { seq![s[0]] }) + without_commas(s.skip(1))
    }
}

/// Removing commas distributes over concatenation.
proof fn lemma_without_commas_concat(a: Seq<char>, b: Seq<char>)
    ensures
        without_commas(a + b) == without_commas(a) + without_commas(b),
    decreases a.len(),
{
    if a.len() == 0 {
        assert(a + b =~= b);
    } else {
        lemma_without_commas_concat(a.skip(1), b);
        assert((a + b).skip(1) =~= a.skip(1) + b);
        assert((a + b)[0] == a[0]);
    }
}

/// Grouping a text without commas and removing the commas again gives the text back.
pub proof fn lemma_comma_grouping_reversible(s: Seq<char>, i: int)
    requires
        0 <= i <= s.len(),
        forall|j: int| 0 <= j < s.len() ==> s[j] != ',',
    ensures
        without_commas(comma_grouped(s, i)) == s.skip(i),
    decreases s.len() - i,
{
    if i < s.len() {
        lemma_comma_grouping_reversible(s, i + 1);
        let sep: Seq<char> = if i > 0 && (s.len() - i) % 3 == 0 { seq![','] } else { Seq::empty() };
        lemma_without_commas_concat(sep + seq![s[i]], comma_grouped(s, i + 1));
        lemma_without_commas_concat(sep, seq![s[i]]);
        assert(without_commas(seq![s[i]]) =~= seq![s[i]]) by {
            assert(seq![s[i]].skip(1) =~= Seq::<char>::empty());
            reveal_with_fuel(without_commas, 2);
        }
        if sep.len() > 0 {
            assert(without_commas(sep) =~= Seq::<char>::empty()) by {
                assert(sep.skip(1) =~= Seq::<char>::empty());
                reveal_with_fuel(without_commas, 2);
            }
        } else {
            assert(sep =~= Seq::<char>::empty());
        }
        assert(s.skip(i) =~= seq![s[i]] + s.skip(i + 1));
    } else {
        assert(s.skip(i) =~= Seq::<char>::empty());
    }
}

/// The text that `PriceFormatter::format` gives for `v`: a minus sign for a negative
/// value, then the decimal digits of `|v|` with a comma in front of every group of three
/// digits counted from the end.
pub open spec fn price_text(v: int) -> Seq<char> {
    (if v < 0 { seq!['-'] } else { Seq::empty() }) + comma_grouped(
        digits((if v < 0 { -v } else { v }) as nat, 10),
        0,
    )
}

/// Removing the commas from the formatted value gives back its decimal representation.
pub proof fn lemma_price_format_reversible(v: int)
    ensures
        without_commas(price_text(v)) == decimal(v),
{
    let m: nat = (if v < 0 { -v } else { v }) as nat;
    let ds = digits(m, 10);
    crate::text::lemma_digits_chars(m, 10);
    assert forall|j: int| 0 <= j < ds.len() implies ds[j] != ',' by {
        assert(ds[j] != ',' && ds[j] != ' ' && ds[j] != '-');
    }
    lemma_comma_grouping_reversible(ds, 0);
    assert(ds.skip(0) =~= ds);
    let sign: Seq<char> = if v < 0 { seq!['-'] } else { Seq::empty() };
    lemma_without_commas_concat(sign, comma_grouped(ds, 0));
    if v < 0 {
        assert(without_commas(sign) =~= sign) by {
            assert(sign.skip(1) =~= Seq::<char>::empty());
            reveal_with_fuel(without_commas, 2);
        }
    } else {
        assert(without_commas(sign) =~= sign);
        assert(sign + ds =~= ds);
    }
}

impl PriceFormatter {
    /// The decimal representation of `value` with its digits grouped in threes by commas,
    /// counted from the last digit; a negative value has its minus sign in front
    /// (`-1234567` gives `-1,234,567`, `-123` gives `-123`).
    pub fn format(value: i64) -> (r: String)
        ensures
            r@ == price_text(value as int),
    {
        let mag: u64 = if value < 0 { (-(value as i128)) as u64 } else { value as u64 };
        let chars = digits_of(mag, 10);
        let ghost s = chars@;
        let mut result = String::new();
        if value < 0 {
            push_char(&mut result, '-');
        }
        let ghost sign = result@;
        proof {
            assert(sign =~= (if value < 0 { seq!['-'] } else { Seq::<char>::empty() }));
            assert(sign + comma_grouped(s, 0) == price_text(value as int));
        }
        let mut i: usize = 0;
        while i < chars.len()
            invariant
                s == chars@,
                i <= s.len(),
                result@ + comma_grouped(s, i as int) == sign + comma_grouped(s, 0),
            decreases s.len() - i,
        {
            let ghost before = result@;
            let ghost sep: Seq<char> = if i > 0 && (s.len() - i) % 3 == 0 { seq![','] } else { Seq::empty() };
            if i > 0 && (chars.len() - i) % 3 == 0 {
                push_char(&mut result, ',');
            }
            push_char(&mut result, chars[i]);
            proof {
                assert(result@ =~= before + sep + seq![s[i as int]]);
                assert(comma_grouped(s, i as int) == sep + seq![s[i as int]] + comma_grouped(s, i + 1));
                assert(result@ + comma_grouped(s, i + 1) =~= before + comma_grouped(s, i as int));
            }
            i += 1;
        }
        proof {
            assert(comma_grouped(s, s.len() as int) =~= Seq::<char>::empty());
            assert(result@ =~= result@ + comma_grouped(s, s.len() as int));
        }
        result
    }
}

} // verus!
