//! Splitting a calculator request of the form `<expression> to <format>`.
use vstd::prelude::*;
use crate::calculator::parser::{trim_white_space, trimmed_text};
use crate::text::chars_of;

verus! {

/// The first index from `from` on at which `pat` occurs in `s`.
pub open spec fn find_from(s: Seq<char>, pat: Seq<char>, from: int) -> Option<int>
    decreases s.len() - from,
{
    if from < 0 || from >= s.len() || from + pat.len() > s.len() {
        None
    } else if s.subrange(from, from + pat.len()) == pat {
        Some(from)
    } else {
        find_from(s, pat, from + 1)
    }
}

/// The text ` to ` that separates an expression from the format to convert it to.
pub open spec fn to_separator() -> Seq<char> {
    seq![' ', 't', 'o', ' ']
}

/// The expression before the first ` to ` and the format after it, both without
/// surrounding white space; `None` without a ` to `.
pub fn extract_to(input: &str) -> (r: Option<(String, String)>)
    ensures
        match find_from(input@, to_separator(), 0) {
            None => r is None,
            Some(pos) => r matches Some(p) && p.0@ == trim_white_space(input@.take(pos))
                && p.1@ == trim_white_space(input@.skip(pos + 4)),
        },
{
    let cs = chars_of(input);
    let n = cs.len();
    if n < 4 {
        return None;
    }
    let mut pos: usize = 0;
    while pos <= n - 4 && !(cs[pos] == ' ' && cs[pos + 1] == 't' && cs[pos + 2] == 'o' && cs[pos + 3] == ' ')
        invariant
            n == cs@.len(),
            cs@ == input@,
            n >= 4,
            pos <= n - 3,
            find_from(cs@, to_separator(), 0) == find_from(cs@, to_separator(), pos as int),
        decreases n - pos,
    {
        proof {
            let sub = cs@.subrange(pos as int, pos + 4);
            if sub == to_separator() {
                assert(sub[0] == ' ' && sub[1] == 't' && sub[2] == 'o' && sub[3] == ' ');
            }
        }
        pos += 1;
    }
    if pos > n - 4 {
        proof {
            assert(find_from(cs@, to_separator(), pos as int) is None);
        }
        return None;
    }
    proof {
        assert(cs@.subrange(pos as int, pos + 4) =~= to_separator());
    }
    let left = trimmed_text(cs.as_slice(), 0, pos);
    let right = trimmed_text(cs.as_slice(), pos + 4, n);
    proof {
        assert(cs@.subrange(0, pos as int) =~= input@.take(pos as int));
        assert(cs@.subrange(pos + 4, n as int) =~= input@.skip(pos + 4));
    }
    Some((left, right))
}

} // verus!
