//! Decimal text of numbers in tenths, with one digit after the point.

use vstd::prelude::*;
use vstd::string::StringExecFns;

verus! {

/// The character of a decimal digit.
pub open spec fn digit_char(d: int) -> char {
    if d == 0 {
        '0'
    } else if d == 1 {
        '1'
    } else if d == 2 {
        '2'
    } else if d == 3 {
        '3'
    } else if d == 4 {
        '4'
    } else if d == 5 {
        '5'
    } else if d == 6 {
        '6'
    } else if d == 7 {
        '7'
    } else if d == 8 {
        '8'
    } else {
        '9'
    }
}

/// The decimal digits of `n`, without leading zeros.
pub open spec fn decimal_text(n: nat) -> Seq<char>
    decreases n,
{
    if n < 10 {
        seq![digit_char(n as int)]
    } else {
        decimal_text(n / 10).push(digit_char(n as int % 10))
    }
}

pub open spec fn abs(t: int) -> nat {
    if t < 0 {
        (-t) as nat
    } else {
        t as nat
    }
}

/// A number of tenths written with one digit after the point: `-12` is
/// `-1.2`, `5` is `0.5`, `200` is `20.0`.
pub open spec fn tenths_text(t: int) -> Seq<char> {
    (if t < 0 {
        seq!['-']
    } else {
        Seq::<char>::empty()
    }) + decimal_text(abs(t) / 10) + seq!['.', digit_char(abs(t) as int % 10)]
}

fn push_literal(out: &mut String, lit: &str)
    ensures
        final(out)@ == old(out)@ + lit@,
{
    out.append(lit);
}

/// Appends the character of digit `d`.
fn push_digit(out: &mut String, d: u64)
    requires
        d < 10,
    ensures
        final(out)@ == old(out)@.push(digit_char(d as int)),
{
    let lit = if d == 0 {
        "0"
    } else if d == 1 {
        "1"
    } else if d == 2 {
        "2"
    } else if d == 3 {
        "3"
    } else if d == 4 {
        "4"
    } else if d == 5 {
        "5"
    } else if d == 6 {
        "6"
    } else if d == 7 {
        "7"
    } else if d == 8 {
        "8"
    } else {
        "9"
    };
    proof {
        reveal_strlit("0");
        reveal_strlit("1");
        reveal_strlit("2");
        reveal_strlit("3");
        reveal_strlit("4");
        reveal_strlit("5");
        reveal_strlit("6");
        reveal_strlit("7");
        reveal_strlit("8");
        reveal_strlit("9");
    }
    push_literal(out, lit);
    assert(final(out)@ =~= old(out)@.push(digit_char(d as int)));
}

/// Appends the decimal digits of `n`.
fn push_decimal(out: &mut String, n: u64)
    ensures
        final(out)@ == old(out)@ + decimal_text(n as nat),
    decreases n,
{
    if n >= 10 {
        push_decimal(out, n / 10);
    }
    push_digit(out, n % 10);
    assert(final(out)@ =~= old(out)@ + decimal_text(n as nat));
}

/// Appends `tenths_text(t)`.
pub fn push_tenths(out: &mut String, t: i64)
    ensures
        final(out)@ == old(out)@ + tenths_text(t as int),
{
    let a: u64 = if t < 0 {
        (-(t as i128)) as u64
    } else {
        t as u64
    };
    if t < 0 {
        push_literal(out, "-");
    }
    push_decimal(out, a / 10);
    push_literal(out, ".");
    push_digit(out, a % 10);
    proof {
        reveal_strlit("-");
        reveal_strlit(".");
    }
    assert(final(out)@ =~= old(out)@ + tenths_text(t as int));
}

} // verus!
