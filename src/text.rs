//! Text forms of the values the library hands to its callers.

use vstd::prelude::*;

verus! {

pub open spec fn digit_char(d: nat) -> char {
    if d == 0 { '0' }
    else if d == 1 { '1' }
    else if d == 2 { '2' }
    else if d == 3 { '3' }
    else if d == 4 { '4' }
    else if d == 5 { '5' }
    else if d == 6 { '6' }
    else if d == 7 { '7' }
    else if d == 8 { '8' }
    else { '9' }
}

/// The decimal digits of `n`, without leading zeros.
pub open spec fn decimal(n: nat) -> Seq<char>
    decreases n,
{
    if n < 10 {
        seq![digit_char(n)]
    } else {
        decimal(n / 10).push(digit_char(n % 10))
    }
}

/// An offset from UTC as text: its sign, `+` for zero, then its digits.
pub open spec fn offset_text(offset: int) -> Seq<char> {
    if offset >= 0 {
        seq!['+'] + decimal(offset as nat)
    } else {
        seq!['-'] + decimal((-offset) as nat)
    }
}

fn digit_str(d: u32) -> (r: &'static str)
    requires
        d < 10,
    ensures
        r@ == seq![digit_char(d as nat)],
{
    match d {
        0 => {
            proof { reveal_strlit("0"); }
            "0"
        },
        1 => {
            proof { reveal_strlit("1"); }
            "1"
        },
        2 => {
            proof { reveal_strlit("2"); }
            "2"
        },
        3 => {
            proof { reveal_strlit("3"); }
            "3"
        },
        4 => {
            proof { reveal_strlit("4"); }
            "4"
        },
        5 => {
            proof { reveal_strlit("5"); }
            "5"
        },
        6 => {
            proof { reveal_strlit("6"); }
            "6"
        },
        7 => {
            proof { reveal_strlit("7"); }
            "7"
        },
        8 => {
            proof { reveal_strlit("8"); }
            "8"
        },
        _ => {
            proof { reveal_strlit("9"); }
            "9"
        },
    }
}

fn append_decimal(s: &mut String, n: u32)
    ensures
        final(s)@ == old(s)@ + decimal(n as nat),
    decreases n,
{
    if n >= 10 {
        append_decimal(s, n / 10);
    }
    s.append(digit_str(n % 10));
    assert(s@ =~= old(s)@ + decimal(n as nat));
}

/// Writes an offset from UTC with its sign: `+3`, `+0`, `-5`.
pub fn offset_to_string(offset: i32) -> (r: String)
    ensures
        r@ == offset_text(offset as int),
{
    let mut s = if offset >= 0 {
        proof { reveal_strlit("+"); }
        String::from_str("+")
    } else {
        proof { reveal_strlit("-"); }
        String::from_str("-")
    };
    let magnitude: u32 = if offset >= 0 {
        offset as u32
    } else {
        (-(offset as i64)) as u32
    };
    append_decimal(&mut s, magnitude);
    s
}

} // verus!
