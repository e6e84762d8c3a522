//! Decimal rendering of counters for the messages that the runtime and the
//! diagnostic mod produce.
use vstd::prelude::*;
use vstd::string::StringExecFns;

verus! {

/// The character of a decimal digit.
pub open spec fn digit_char(d: int) -> char {
    if d == 0 {
        '0'
    } else if d == 1 {
        '1'
    } else if d == 2 {
        '2'
    } else if d == 3 {
        '3'
    } else if d == 4 {
        '4'
    } else if d == 5 {
        '5'
    } else if d == 6 {
        '6'
    } else if d == 7 {
        '7'
    } else if d == 8 {
        '8'
    } else {
        '9'
    }
}

/// The decimal digits of `n`, most significant first, without leading zeros.
pub open spec fn decimal(n: nat) -> Seq<char>
    decreases n,
{
    if n < 10 {
        seq![digit_char(n as int)]
    } else {
        decimal(n / 10).push(digit_char((n % 10) as int))
    }
}

fn append_digit(s: &mut String, d: u64)
    requires
        d < 10,
    ensures
        final(s)@ == old(s)@.push(digit_char(d as int)),
{
    match d {
        0 => {
            s.append("0");
            proof { reveal_strlit("0"); }
        },
        1 => {
            s.append("1");
            proof { reveal_strlit("1"); }
        },
        2 => {
            s.append("2");
            proof { reveal_strlit("2"); }
        },
        3 => {
            s.append("3");
            proof { reveal_strlit("3"); }
        },
        4 => {
            s.append("4");
            proof { reveal_strlit("4"); }
        },
        5 => {
            s.append("5");
            proof { reveal_strlit("5"); }
        },
        6 => {
            s.append("6");
            proof { reveal_strlit("6"); }
        },
        7 => {
            s.append("7");
            proof { reveal_strlit("7"); }
        },
        8 => {
            s.append("8");
            proof { reveal_strlit("8"); }
        },
        _ => {
            s.append("9");
            proof { reveal_strlit("9"); }
        },
    }
    assert(s@ =~= old(s)@.push(digit_char(d as int)));
}

/// Appends the decimal digits of `n`.
pub fn push_decimal(s: &mut String, n: u64)
    ensures
        final(s)@ == old(s)@ + decimal(n as nat),
    decreases n,
{
    if n >= 10 {
        push_decimal(s, n / 10);
    }
    append_digit(s, n % 10);
    assert(s@ =~= old(s)@ + decimal(n as nat));
}

/// The decimal digits of `n`, as a string.
pub fn to_decimal(n: u64) -> (s: String)
    ensures
        s@ == decimal(n as nat),
{
    let mut s = String::new();
    push_decimal(&mut s, n);
    assert(s@ =~= decimal(n as nat));
    s
}

/// The ASCII byte of a decimal digit.
pub open spec fn digit_byte(d: int) -> u8 {
    (48 + d) as u8
}

/// The decimal digits of `n` as ASCII bytes, most significant first.
pub open spec fn decimal_digits(n: nat) -> Seq<u8>
    decreases n,
{
    if n < 10 {
        seq![digit_byte(n as int)]
    } else {
        decimal_digits(n / 10).push(digit_byte((n % 10) as int))
    }
}

/// Every byte of a decimal rendering is an ASCII digit.
pub proof fn lemma_decimal_digits_are_digits(n: nat)
    ensures
        decimal_digits(n).len() > 0,
        forall|i: int| 0 <= i < decimal_digits(n).len() ==> 48 <= #[trigger] decimal_digits(n)[i] <= 57,
    decreases n,
{
    if n >= 10 {
        lemma_decimal_digits_are_digits(n / 10);
    }
}

/// Appends the decimal digits of `n` as ASCII bytes.
pub fn push_decimal_digits(v: &mut Vec<u8>, n: u64)
    ensures
        final(v)@ == old(v)@ + decimal_digits(n as nat),
    decreases n,
{
    if n >= 10 {
        push_decimal_digits(v, n / 10);
    }
    v.push(48 + (n % 10) as u8);
    assert(v@ =~= old(v)@ + decimal_digits(n as nat));
}

} // verus!
