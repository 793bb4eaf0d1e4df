//! Absolute value, sign and rounding of rational numbers given as a numerator and a
//! denominator.
use vstd::prelude::*;
use crate::number_theory::division::{abs_int, trunc_div, trunc_rem, lemma_trunc_div_rem, div_rem_trunc};

verus! {

/// Rounding mode for the `round` function.
#[derive(Debug, Clone, Copy, PartialEq, Eq, Structural)]
pub enum RoundingMode {
    /// Round half to even (banker's rounding)
    HalfToEven,
    /// Round half away from zero
    HalfAwayFromZero,
    /// Round half toward zero
    HalfTowardZero,
    /// Round half up (toward positive infinity)
    HalfUp,
    /// Round half down (toward negative infinity)
    HalfDown,
    /// Round toward positive infinity (ceiling)
    Up,
    /// Round toward negative infinity (floor)
    Down,
    /// Round toward zero (truncation)
    TowardZero,
    /// Round away from zero
    AwayFromZero,
}

impl Default for RoundingMode {
    fn default() -> (r: Self)
        ensures
            r == RoundingMode::HalfToEven,
    {
        RoundingMode::HalfToEven
    }
}

/// `k <= n/d` for the rational `n/d` (with `d != 0`).
pub open spec fn int_le_ratio(k: int, n: int, d: int) -> bool {
    if d > 0 { k * d <= n } else { k * d >= n }
}

/// `k` is the floor of `n/d`: `k <= n/d < k + 1`.
pub open spec fn is_floor(k: int, n: int, d: int) -> bool {
    int_le_ratio(k, n, d) && !int_le_ratio(k + 1, n, d)
}

/// `k` is the ceiling of `n/d`: `k - 1 < n/d <= k`.
pub open spec fn is_ceil(k: int, n: int, d: int) -> bool {
    is_floor(-k, -n, d)
}

/// The floor of `n/d`.
pub open spec fn floor_div(n: int, d: int) -> int {
    if d > 0 { n / d } else { (-n) / (-d) }
}

/// The ceiling of `n/d`.
pub open spec fn ceil_div(n: int, d: int) -> int {
    -floor_div(-n, d)
}

/// `n/d` is negative.
pub open spec fn ratio_negative(n: int, d: int) -> bool {
    n != 0 && ((n < 0) != (d < 0))
}

/// `n/d` is positive.
pub open spec fn ratio_positive(n: int, d: int) -> bool {
    n != 0 && ((n < 0) == (d < 0))
}

/// The integer that `mode` rounds `n/d` to.
///
/// The nearest-integer modes compare twice the distance from the floor, `t / |d|`,
/// with 1; they differ only when `n/d` lies halfway between two integers.
pub open spec fn round_spec(n: int, d: int, mode: RoundingMode) -> int {
    let fl = floor_div(n, d);
    let ce = ceil_div(n, d);
    let t = if d > 0 { 2 * (n - fl * d) } else { 2 * (fl * d - n) };
    let ad = abs_int(d);
    let tie = match mode {
        RoundingMode::HalfToEven => if fl % 2 == 0 { fl } else { ce },
        RoundingMode::HalfAwayFromZero => if ratio_positive(n, d) { ce } else { fl },
        RoundingMode::HalfTowardZero => if ratio_positive(n, d) { fl } else { ce },
        RoundingMode::HalfUp => ce,
        _ => fl,
    };
    match mode {
        RoundingMode::Up => ce,
        RoundingMode::Down => fl,
        RoundingMode::TowardZero => trunc_div(n, d),
        RoundingMode::AwayFromZero => if ratio_negative(n, d) { fl } else { ce },
        _ => if fl == ce { fl } else if t < ad { fl } else if t > ad { ce } else { tie },
    }
}

/// `floor_div` and `ceil_div` are the floor and the ceiling, and these are unique.
pub proof fn lemma_floor_ceil(n: int, d: int)
    requires
        d != 0,
    ensures
        is_floor(floor_div(n, d), n, d),
        is_ceil(ceil_div(n, d), n, d),
        forall|k: int| #[trigger] is_floor(k, n, d) ==> k == floor_div(n, d),
        forall|k: int| #[trigger] is_ceil(k, n, d) ==> k == ceil_div(n, d),
{
    lemma_floor_is_floor(n, d);
    lemma_floor_is_floor(-n, d);
    assert forall|k: int| #[trigger] is_floor(k, n, d) implies k == floor_div(n, d) by {
        lemma_floor_unique(k, floor_div(n, d), n, d);
    }
    assert forall|k: int| #[trigger] is_ceil(k, n, d) implies k == ceil_div(n, d) by {
        lemma_floor_unique(-k, floor_div(-n, d), -n, d);
    }
}

proof fn lemma_floor_is_floor(n: int, d: int)
    requires
        d != 0,
    ensures
        is_floor(floor_div(n, d), n, d),
{
    let f = floor_div(n, d);
    if d > 0 {
        assert(f * d <= n && n < (f + 1) * d) by (nonlinear_arith)
            requires d > 0, f == n / d;
    } else {
        assert(f * d >= n && n > (f + 1) * d) by (nonlinear_arith)
            requires d < 0, f == (-n) / (-d);
    }
}

proof fn lemma_floor_unique(k1: int, k2: int, n: int, d: int)
    requires
        d != 0,
        is_floor(k1, n, d),
        is_floor(k2, n, d),
    ensures
        k1 == k2,
{
    if d > 0 {
        assert(k1 == k2) by (nonlinear_arith)
            requires d > 0, k1 * d <= n, n < (k1 + 1) * d, k2 * d <= n, n < (k2 + 1) * d;
    } else {
        assert(k1 == k2) by (nonlinear_arith)
            requires d < 0, k1 * d >= n, n > (k1 + 1) * d, k2 * d >= n, n > (k2 + 1) * d;
    }
}

/// How the truncated quotient `q` relates to the floor and the ceiling of `n/d`.
proof fn lemma_trunc_floor_ceil(n: int, d: int)
    requires
        d != 0,
    ensures
        ({
            let q = trunc_div(n, d);
            let r = trunc_rem(n, d);
            &&& r == 0 ==> floor_div(n, d) == q && ceil_div(n, d) == q
            &&& r != 0 && ratio_negative(n, d) ==> floor_div(n, d) == q - 1 && ceil_div(n, d) == q
            &&& r != 0 && !ratio_negative(n, d) ==> floor_div(n, d) == q && ceil_div(n, d) == q + 1
            &&& r != 0 ==> n != 0
        }),
{
    lemma_trunc_div_rem(n, d);
    lemma_floor_ceil(n, d);
    let q = trunc_div(n, d);
    let r = trunc_rem(n, d);
    assert(n == d * q + r);
    if r == 0 {
        assert(is_floor(q, n, d) && is_ceil(q, n, d)) by (nonlinear_arith)
            requires d != 0, n == d * q;
    } else if ratio_negative(n, d) {
        assert(q <= 0) by (nonlinear_arith)
            requires n == d * q + r, abs_int(r) < abs_int(d), r != 0, (r < 0) == (n < 0),
                n != 0, (n < 0) != (d < 0);
        assert(is_floor(q - 1, n, d) && is_ceil(q, n, d)) by (nonlinear_arith)
            requires n == d * q + r, abs_int(r) < abs_int(d), r != 0, (r < 0) == (n < 0),
                (n < 0) != (d < 0);
    } else {
        if n == 0 {
            assert(q == 0);
            assert(d * q == 0) by (nonlinear_arith) requires q == 0;
            assert(r == 0);
        }
        assert(is_floor(q, n, d) && is_ceil(q + 1, n, d)) by (nonlinear_arith)
            requires n == d * q + r, abs_int(r) < abs_int(d), r != 0, (r < 0) == (n < 0),
                (n < 0) == (d < 0);
    }
}

/// Twice the distance of `n/d` from its floor, in units of `1/|d|`, given the
/// truncated quotient `q` and the nonzero remainder `r`.
proof fn lemma_twice_distance(n: int, d: int, q: int, r: int)
    requires
        d != 0,
        r != 0,
        q == trunc_div(n, d),
        r == trunc_rem(n, d),
    ensures
        ({
            let fl = floor_div(n, d);
            let t = if d > 0 { 2 * (n - fl * d) } else { 2 * (fl * d - n) };
            t == if ratio_negative(n, d) { 2 * abs_int(d) - 2 * abs_int(r) } else { 2 * abs_int(r) }
        }),
{
    lemma_trunc_div_rem(n, d);
    lemma_trunc_floor_ceil(n, d);
    let fl = floor_div(n, d);
    assert(n == d * q + r);
    let t = if d > 0 { 2 * (n - fl * d) } else { 2 * (fl * d - n) };
    if ratio_negative(n, d) {
        assert(fl == q - 1);
        assert(fl * d == d * q - d) by (nonlinear_arith) requires fl == q - 1;
        if d > 0 {
            assert(t == 2 * d + 2 * r);
            assert(r < 0);
        } else {
            assert(t == -2 * d - 2 * r);
            assert(r > 0);
        }
    } else {
        assert(fl == q);
        assert(fl * d == d * q) by (nonlinear_arith) requires fl == q;
        assert(n != 0);
        if d > 0 {
            assert(r > 0);
        } else {
            assert(r < 0);
        }
    }
}

/// The modes that round to a nearest integer.
pub open spec fn is_nearest_mode(mode: RoundingMode) -> bool {
    match mode {
        RoundingMode::Up | RoundingMode::Down | RoundingMode::TowardZero | RoundingMode::AwayFromZero => false,
        _ => true,
    }
}

/// Every mode rounds `n/d` to its floor or its ceiling; these are equal exactly when `d`
/// divides `n`, and otherwise one apart.
pub proof fn lemma_round_between_floor_and_ceil(n: int, d: int, mode: RoundingMode)
    requires
        d != 0,
    ensures
        floor_div(n, d) <= round_spec(n, d, mode) <= ceil_div(n, d),
        round_spec(n, d, mode) == floor_div(n, d) || round_spec(n, d, mode) == ceil_div(n, d),
        ceil_div(n, d) - floor_div(n, d) == if n % d == 0 { 0int } else { 1int },
{
    lemma_trunc_floor_ceil(n, d);
    lemma_trunc_div_rem(n, d);
    let q = trunc_div(n, d);
    let r = trunc_rem(n, d);
    if r == 0 {
        assert(n == d * q);
        assert(n == q * d) by (nonlinear_arith) requires n == d * q;
        if d > 0 {
            vstd::arithmetic::div_mod::lemma_mod_multiples_basic(q, d);
        } else {
            vstd::arithmetic::div_mod::lemma_fundamental_div_mod(n, d);
            let k = n / d;
            let r2 = n % d;
            assert(0 <= r2 < abs_int(d));
            assert(r2 == 0) by (nonlinear_arith)
                requires n == d * q, n == d * k + r2, 0 <= r2 < abs_int(d), d < 0, abs_int(d) == -d;
        }
    } else {
        if n % d == 0 {
            vstd::arithmetic::div_mod::lemma_fundamental_div_mod(n, d);
            let k = n / d;
            assert(is_floor(k, n, d) && is_ceil(k, n, d)) by (nonlinear_arith)
                requires n == d * k + 0, d != 0;
            lemma_floor_ceil(n, d);
        }
    }
}

/// The nearest-integer modes round `n/d` to an integer at distance at most one half.
pub proof fn lemma_round_is_nearest(n: int, d: int, mode: RoundingMode)
    requires
        d != 0,
        is_nearest_mode(mode),
    ensures
        2 * abs_int(n - round_spec(n, d, mode) * d) <= abs_int(d),
{
    lemma_floor_ceil(n, d);
    lemma_round_between_floor_and_ceil(n, d, mode);
    let fl = floor_div(n, d);
    let ce = ceil_div(n, d);
    let ad = abs_int(d);
    let t = if d > 0 { 2 * (n - fl * d) } else { 2 * (fl * d - n) };
    let rr = round_spec(n, d, mode);
    if fl == ce {
        assert(n == fl * d) by (nonlinear_arith)
            requires is_floor(fl, n, d), is_ceil(fl, n, d), d != 0;
    } else {
        assert(ce == fl + 1);
        if rr == fl {
            assert(t <= ad);
            assert(2 * abs_int(n - fl * d) == t) by (nonlinear_arith)
                requires is_floor(fl, n, d), d != 0, t == (if d > 0 { 2 * (n - fl * d) } else { 2 * (fl * d - n) });
        } else {
            assert(t >= ad);
            assert(2 * abs_int(n - ce * d) == 2 * ad - t) by (nonlinear_arith)
                requires is_floor(fl, n, d), ce == fl + 1, d != 0, ad == abs_int(d),
                    t == (if d > 0 { 2 * (n - fl * d) } else { 2 * (fl * d - n) });
        }
    }
}

/// On a tie, half-to-even rounding gives an even integer.
pub proof fn lemma_round_half_to_even_tie(n: int, d: int)
    requires
        d != 0,
        2 * abs_int(n - floor_div(n, d) * d) == abs_int(d),
    ensures
        round_spec(n, d, RoundingMode::HalfToEven) % 2 == 0,
{
    lemma_floor_ceil(n, d);
    let fl = floor_div(n, d);
    let ce = ceil_div(n, d);
    let ad = abs_int(d);
    let t = if d > 0 { 2 * (n - fl * d) } else { 2 * (fl * d - n) };
    assert(t == ad) by (nonlinear_arith)
        requires is_floor(fl, n, d), d != 0, 2 * abs_int(n - fl * d) == abs_int(d),
            t == (if d > 0 { 2 * (n - fl * d) } else { 2 * (fl * d - n) }), ad == abs_int(d);
    if fl == ce {
        assert(n == fl * d) by (nonlinear_arith)
            requires is_floor(fl, n, d), is_ceil(fl, n, d), d != 0;
        assert(ad == 0) by (nonlinear_arith) requires 2 * abs_int(n - fl * d) == ad, n == fl * d;
    } else {
        lemma_round_between_floor_and_ceil(n, d, RoundingMode::HalfToEven);
        assert(ce == fl + 1);
    }
}

/// Truncation rounds toward zero: it is the floor of a non-negative quotient and the
/// ceiling of a negative one.
pub proof fn lemma_trunc_toward_zero(n: int, d: int)
    requires
        d != 0,
    ensures
        !ratio_negative(n, d) ==> trunc_div(n, d) == floor_div(n, d),
        ratio_negative(n, d) ==> trunc_div(n, d) == ceil_div(n, d),
{
    lemma_trunc_floor_ceil(n, d);
}

/// What each mode does, stated directly on `n/d`: `Up` gives the ceiling, `Down` the
/// floor, `TowardZero` the floor of a non-negative quotient and the ceiling of a negative
/// one, `AwayFromZero` the reverse; the `Half*` modes give an integer within one half of
/// `n/d`, and on a tie (exactly one half away) the ceiling for `HalfUp`, the floor for
/// `HalfDown`, the one farther from zero for `HalfAwayFromZero`, the one nearer to zero
/// for `HalfTowardZero`, and an even one for `HalfToEven`.
pub proof fn lemma_round_modes(n: int, d: int, mode: RoundingMode)
    requires
        d != 0,
    ensures
        ({
            let r = round_spec(n, d, mode);
            let tie = 2 * abs_int(n - r * d) == abs_int(d);
            match mode {
                RoundingMode::Up => is_ceil(r, n, d),
                RoundingMode::Down => is_floor(r, n, d),
                RoundingMode::TowardZero => if ratio_negative(n, d) { is_ceil(r, n, d) } else { is_floor(r, n, d) },
                RoundingMode::AwayFromZero => if ratio_negative(n, d) { is_floor(r, n, d) } else { is_ceil(r, n, d) },
                RoundingMode::HalfUp => 2 * abs_int(n - r * d) <= abs_int(d) && (tie ==> is_ceil(r, n, d)),
                RoundingMode::HalfDown => 2 * abs_int(n - r * d) <= abs_int(d) && (tie ==> is_floor(r, n, d)),
                RoundingMode::HalfAwayFromZero => 2 * abs_int(n - r * d) <= abs_int(d)
                    && (tie ==> if ratio_positive(n, d) { is_ceil(r, n, d) } else { is_floor(r, n, d) }),
                RoundingMode::HalfTowardZero => 2 * abs_int(n - r * d) <= abs_int(d)
                    && (tie ==> if ratio_positive(n, d) { is_floor(r, n, d) } else { is_ceil(r, n, d) }),
                RoundingMode::HalfToEven => 2 * abs_int(n - r * d) <= abs_int(d) && (tie ==> r % 2 == 0),
            }
        }),
{
    lemma_floor_ceil(n, d);
    lemma_round_between_floor_and_ceil(n, d, mode);
    lemma_trunc_toward_zero(n, d);
    let fl = floor_div(n, d);
    let ce = ceil_div(n, d);
    let ad = abs_int(d);
    let t = if d > 0 { 2 * (n - fl * d) } else { 2 * (fl * d - n) };
    let r = round_spec(n, d, mode);
    if is_nearest_mode(mode) {
        lemma_round_is_nearest(n, d, mode);
        if 2 * abs_int(n - r * d) == ad {
            if fl == ce {
                assert(n == fl * d) by (nonlinear_arith)
                    requires is_floor(fl, n, d), is_ceil(fl, n, d), d != 0;
                assert(ad == 0) by (nonlinear_arith) requires 2 * abs_int(n - r * d) == ad, n == fl * d, r == fl;
            } else {
                assert(ce == fl + 1);
                assert(2 * abs_int(n - fl * d) == t) by (nonlinear_arith)
                    requires is_floor(fl, n, d), d != 0, t == (if d > 0 { 2 * (n - fl * d) } else { 2 * (fl * d - n) });
                assert(2 * abs_int(n - ce * d) == 2 * ad - t) by (nonlinear_arith)
                    requires is_floor(fl, n, d), ce == fl + 1, d != 0, ad == abs_int(d),
                        t == (if d > 0 { 2 * (n - fl * d) } else { 2 * (fl * d - n) });
                assert(t == ad);
                if mode == RoundingMode::HalfToEven {
                    if fl % 2 != 0 {
                        assert(ce % 2 == 0);
                    }
                }
            }
        }
    }
}

/// Computes the absolute value of a rational number.
pub fn abs(numerator: i64, denominator: i64) -> (r: (i64, i64))
    requires
        numerator != i64::MIN,
        denominator != i64::MIN,
    ensures
        r.0 == abs_int(numerator as int),
        r.1 == abs_int(denominator as int),
{
    let n = if numerator < 0 { -numerator } else { numerator };
    let d = if denominator < 0 { -denominator } else { denominator };
    (n, d)
}

/// Computes the ceiling of a rational number (round toward +infinity).
pub fn ceil(numerator: i64, denominator: i64) -> (r: i64)
    requires
        denominator != 0,
        !(numerator == i64::MIN && denominator == -1),
    ensures
        is_ceil(r as int, numerator as int, denominator as int),
        r == ceil_div(numerator as int, denominator as int),
{
    let (q, rem) = div_rem_trunc(numerator, denominator);
    proof {
        lemma_trunc_div_rem(numerator as int, denominator as int);
        lemma_trunc_floor_ceil(numerator as int, denominator as int);
        lemma_floor_ceil(numerator as int, denominator as int);
    }
    let mut result = q;
    if rem > 0 && denominator > 0 || rem < 0 && denominator < 0 {
        result = result + 1;
    }
    result
}

/// Computes the floor of a rational number (round toward -infinity).
pub fn floor(numerator: i64, denominator: i64) -> (r: i64)
    requires
        denominator != 0,
        !(numerator == i64::MIN && denominator == -1),
    ensures
        is_floor(r as int, numerator as int, denominator as int),
        r == floor_div(numerator as int, denominator as int),
{
    let (q, rem) = div_rem_trunc(numerator, denominator);
    proof {
        lemma_trunc_div_rem(numerator as int, denominator as int);
        lemma_trunc_floor_ceil(numerator as int, denominator as int);
        lemma_floor_ceil(numerator as int, denominator as int);
    }
    let mut result = q;
    if rem < 0 && denominator > 0 || rem > 0 && denominator < 0 {
        result = result - 1;
    }
    result
}

/// Computes the truncation of a rational number (round toward zero).
pub fn trunc(numerator: i64, denominator: i64) -> (r: i64)
    requires
        denominator != 0,
        !(numerator == i64::MIN && denominator == -1),
    ensures
        r == trunc_div(numerator as int, denominator as int),
{
    div_rem_trunc(numerator, denominator).0
}

/// Rounds a rational number to an integer: the nearest one for the `Half*` modes,
/// which differ only on ties, and in the named direction for the other modes.
pub fn round(numerator: i64, denominator: i64, mode: RoundingMode) -> (r: i64)
    requires
        denominator != 0,
        numerator != i64::MIN,
        denominator != i64::MIN,
    ensures
        r == round_spec(numerator as int, denominator as int, mode),
{
    let ghost n = numerator as int;
    let ghost d = denominator as int;
    let (integer_part, rem) = div_rem_trunc(numerator, denominator);
    proof {
        lemma_trunc_div_rem(n, d);
        lemma_trunc_floor_ceil(n, d);
    }
    if rem == 0 {
        return integer_part;
    }
    let negative = (numerator < 0) != (denominator < 0);
    // Twice the distance from the truncated value, against the denominator.
    let twice: i128 = 2 * (if rem < 0 { -(rem as i128) } else { rem as i128 });
    let ad: i128 = if denominator < 0 { -(denominator as i128) } else { denominator as i128 };
    proof {
        assert(abs_int(d) >= 2);
        lemma_twice_distance(n, d, integer_part as int, rem as int);
    }
    // The integer next to the truncated value, away from zero.
    let away = if negative { integer_part - 1 } else { integer_part + 1 };
    let nearer = if twice < ad { integer_part } else if twice > ad { away } else {
        match mode {
            RoundingMode::HalfToEven => {
                if integer_part % 2 == 0 { integer_part } else { away }
            },
            RoundingMode::HalfAwayFromZero => away,
            RoundingMode::HalfTowardZero => integer_part,
            RoundingMode::HalfUp => if negative { integer_part } else { away },
            _ => if negative { away } else { integer_part },
        }
    };
    proof {
        if integer_part % 2 == 0 {
            assert((integer_part - 1) % 2 != 0 && (integer_part + 1) % 2 != 0);
        } else {
            assert((integer_part - 1) % 2 == 0 && (integer_part + 1) % 2 == 0);
        }
    }
    match mode {
        RoundingMode::Up => if negative { integer_part } else { away },
        RoundingMode::Down => if negative { away } else { integer_part },
        RoundingMode::TowardZero => integer_part,
        RoundingMode::AwayFromZero => away,
        _ => nearer,
    }
}

/// Signum function: -1 for a negative number, 0 for zero, 1 for a positive one.
pub fn signum(n: i64) -> (r: i64)
    ensures
        r == (if n < 0 { -1int } else if n == 0 { 0int } else { 1int }),
{
    if n < 0 {
        -1
    } else if n == 0 {
        0
    } else {
        1
    }
}

/// The absolute value of an integer; it always fits in a `u64`.
pub fn abs_integer(n: i64) -> (r: u64)
    ensures
        r == abs_int(n as int),
{
    if n < 0 {
        (-(n as i128)) as u64
    } else {
        n as u64
    }
}

/// Signum of an integer: -1, 0 or 1.
pub fn signum_integer(n: i64) -> (r: i64)
    ensures
        r == (if n < 0 { -1int } else if n == 0 { 0int } else { 1int }),
{
    if n == 0 {
        0
    } else if n > 0 {
        1
    } else {
        -1
    }
}

} // verus!
