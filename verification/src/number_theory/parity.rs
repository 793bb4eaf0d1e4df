//! Parity of integers.
use vstd::prelude::*;

verus! {

/// Checks whether an integer is even.
pub fn is_even(n: i64) -> (r: bool)
    ensures
        r == ((n as int) % 2 == 0),
{
    n % 2 == 0
}

/// Checks whether an integer is odd.
pub fn is_odd(n: i64) -> (r: bool)
    ensures
        r == ((n as int) % 2 == 1),
{
    !is_even(n)
}

} // verus!
