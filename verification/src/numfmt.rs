//! Decimal rendering of integers and the fixed-point hours formatter.

use vstd::prelude::*;
use vstd::string::StringExecFns;

verus! {

/// The character for one decimal digit.
pub open spec fn digit_of(d: nat) -> char {
    if d == 0 {
        '0'
    } else if d == 1 {
        '1'
    } else if d == 2 {
        '2'
    } else if d == 3 {
        '3'
    } else if d == 4 {
        '4'
    } else if d == 5 {
        '5'
    } else if d == 6 {
        '6'
    } else if d == 7 {
        '7'
    } else if d == 8 {
        '8'
    } else {
        '9'
    }
}

/// Decimal representation of `n`, most significant digit first, without
/// leading zeros (zero itself is a single `'0'`).
pub open spec fn decimal(n: nat) -> Seq<char>
    decreases n,
{
    if n < 10 {
        seq![digit_of(n)]
    } else {
        decimal(n / 10).push(digit_of(n % 10))
    }
}

fn digit_str(d: u8) -> (r: &'static str)
    requires
        d < 10,
    ensures
        r@ == seq![digit_of(d as nat)],
{
    let r: &'static str = if d == 0 {
        "0"
    } else if d == 1 {
        "1"
    } else if d == 2 {
        "2"
    } else if d == 3 {
        "3"
    } else if d == 4 {
        "4"
    } else if d == 5 {
        "5"
    } else if d == 6 {
        "6"
    } else if d == 7 {
        "7"
    } else if d == 8 {
        "8"
    } else {
        "9"
    };
    proof {
        reveal_strlit("0");
        reveal_strlit("1");
        reveal_strlit("2");
        reveal_strlit("3");
        reveal_strlit("4");
        reveal_strlit("5");
        reveal_strlit("6");
        reveal_strlit("7");
        reveal_strlit("8");
        reveal_strlit("9");
        assert(r@ =~= seq![digit_of(d as nat)]);
    }
    r
}

/// Appends the decimal representation of `n` to `out`.
pub fn push_decimal(out: &mut String, n: u128)
    ensures
        final(out)@ == old(out)@ + decimal(n as nat),
    decreases n,
{
    if n >= 10 {
        push_decimal(out, n / 10);
    }
    let d: u8 = (n % 10) as u8;
    out.append(digit_str(d));
    proof {
        if n >= 10 {
            assert(decimal(n as nat) == decimal(n as nat / 10).push(digit_of(n as nat % 10)));
            assert(final(out)@ =~= old(out)@ + decimal(n as nat));
        } else {
            assert(final(out)@ =~= old(out)@ + decimal(n as nat));
        }
    }
}

/// The whole hundredths of hours nearest to `minutes` minutes.  The exact
/// value `minutes / 60` has a fractional hundredth of 0, 1/3 or 2/3, so a
/// tie never arises and rounding half up is rounding to nearest.
pub open spec fn spec_hundredths(minutes: nat) -> nat {
    (minutes * 100 + 30) / 60
}

/// A hundredths count below one hundred, always two digits.
pub open spec fn two_digits(f: nat) -> Seq<char> {
    if f < 10 {
        seq![digit_of(0)] + decimal(f)
    } else {
        decimal(f)
    }
}

/// A minute count rendered as hours with exactly two digits after the
/// decimal point, then the unit suffix.
pub open spec fn spec_format_minutes(minutes: nat) -> Seq<char> {
    decimal(spec_hundredths(minutes) / 100) + "."@ + two_digits(spec_hundredths(minutes) % 100)
        + " hrs"@
}

/// Renders a minute count as a fixed-point hours string, e.g. 90 minutes
/// becomes "1.50 hrs".
pub fn format_minutes(minutes: u64) -> (r: String)
    ensures
        r@ == spec_format_minutes(minutes as nat),
{
    let h: u128 = (minutes as u128 * 100 + 30) / 60;
    let whole: u128 = h / 100;
    let frac: u128 = h % 100;
    let mut r = String::new();
    push_decimal(&mut r, whole);
    r.append(".");
    if frac < 10 {
        push_decimal(&mut r, 0);
    }
    push_decimal(&mut r, frac);
    r.append(" hrs");
    proof {
        assert(h as nat == spec_hundredths(minutes as nat));
        assert(decimal(0) =~= seq![digit_of(0)]);
        assert(r@ =~= spec_format_minutes(minutes as nat));
    }
    r
}

/// The formatter is a pure function of the minute count: two renderings of
/// the same count are the same string of characters.
pub proof fn lemma_format_minutes_deterministic(minutes: u64, r1: Seq<char>, r2: Seq<char>)
    requires
        r1 == spec_format_minutes(minutes as nat),
        r2 == spec_format_minutes(minutes as nat),
    ensures
        r1 == r2,
{
}

} // verus!
