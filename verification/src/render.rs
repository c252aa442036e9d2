//! Decimal rendering of the integers that the report prints: plain
//! decimal numbers, zero-padded fields, and fixed two-decimal amounts.

use vstd::prelude::*;

verus! {

/// The decimal digit character for `d` (0 through 9).
pub open spec fn dec_digit(d: int) -> char {
    if d == 0 {
        '0'
    } else if d == 1 {
        '1'
    } else if d == 2 {
        '2'
    } else if d == 3 {
        '3'
    } else if d == 4 {
        '4'
    } else if d == 5 {
        '5'
    } else if d == 6 {
        '6'
    } else if d == 7 {
        '7'
    } else if d == 8 {
        '8'
    } else {
        '9'
    }
}

/// The decimal notation of `n`, without padding or sign.
pub open spec fn dec_str(n: nat) -> Seq<char>
    decreases n,
{
    if n < 10 {
        seq![dec_digit(n as int)]
    } else {
        dec_str(n / 10).push(dec_digit((n % 10) as int))
    }
}

/// The two-digit, zero-padded notation of `n` (for `n` below 100).
pub open spec fn two_digits(n: nat) -> Seq<char> {
    seq![dec_digit(n as int / 10), dec_digit(n as int % 10)]
}

/// The four-digit, zero-padded notation of `n` (for `n` below 10000).
pub open spec fn four_digits(n: nat) -> Seq<char> {
    seq![
        dec_digit(n as int / 1000),
        dec_digit((n as int / 100) % 10),
        dec_digit((n as int / 10) % 10),
        dec_digit(n as int % 10),
    ]
}

/// The notation of a nonnegative amount of hundredths as a decimal
/// number with exactly two fraction digits.
pub open spec fn nonneg_fixed2_str(v: int) -> Seq<char> {
    dec_str((v / 100) as nat) + seq!['.'] + two_digits((v % 100) as nat)
}

/// The notation of an amount of hundredths as a decimal number with
/// exactly two fraction digits and a leading minus sign when negative.
pub open spec fn fixed2_str(v: int) -> Seq<char> {
    if v >= 0 {
        nonneg_fixed2_str(v)
    } else {
        seq!['-'] + nonneg_fixed2_str(-v)
    }
}

/// The decimal digit character for `d`.
pub fn digit_to_str(d: u8) -> (r: &'static str)
    requires
        d < 10,
    ensures
        r@ == seq![dec_digit(d as int)],
{
    proof {
        reveal_strlit("0");
        reveal_strlit("1");
        reveal_strlit("2");
        reveal_strlit("3");
        reveal_strlit("4");
        reveal_strlit("5");
        reveal_strlit("6");
        reveal_strlit("7");
        reveal_strlit("8");
        reveal_strlit("9");
    }
    let r = match d {
        0 => "0",
        1 => "1",
        2 => "2",
        3 => "3",
        4 => "4",
        5 => "5",
        6 => "6",
        7 => "7",
        8 => "8",
        _ => "9",
    };
    proof {
        assert(r@ =~= seq![dec_digit(d as int)]);
    }
    r
}

/// The decimal notation of `n`.
pub fn u64_to_dec(n: u64) -> (s: String)
    ensures
        s@ == dec_str(n as nat),
    decreases n,
{
    if n < 10 {
        String::from_str(digit_to_str(n as u8))
    } else {
        let mut s = u64_to_dec(n / 10);
        s.append(digit_to_str((n % 10) as u8));
        proof {
            assert(s@ =~= dec_str(n as nat));
        }
        s
    }
}

/// Appends the two-digit, zero-padded notation of `n` to `out`.
pub fn push_two_digits(out: &mut String, n: u8)
    requires
        n < 100,
    ensures
        final(out)@ == old(out)@ + two_digits(n as nat),
{
    out.append(digit_to_str(n / 10));
    out.append(digit_to_str(n % 10));
    proof {
        assert(final(out)@ =~= old(out)@ + two_digits(n as nat));
    }
}

/// Appends the four-digit, zero-padded notation of `n` to `out`.
pub fn push_four_digits(out: &mut String, n: u16)
    requires
        n < 10000,
    ensures
        final(out)@ == old(out)@ + four_digits(n as nat),
{
    out.append(digit_to_str((n / 1000) as u8));
    out.append(digit_to_str(((n / 100) % 10) as u8));
    out.append(digit_to_str(((n / 10) % 10) as u8));
    out.append(digit_to_str((n % 10) as u8));
    proof {
        assert(final(out)@ =~= old(out)@ + four_digits(n as nat));
    }
}

/// The fixed two-decimal notation of `v` hundredths.
pub fn i64_fixed2(v: i64) -> (s: String)
    ensures
        s@ == fixed2_str(v as int),
{
    let m: u64 = if v >= 0 {
        v as u64
    } else {
        (-(v as i128)) as u64
    };
    let mut s = if v >= 0 {
        String::new()
    } else {
        proof {
            reveal_strlit("-");
        }
        String::from_str("-")
    };
    let whole: u64 = m / 100;
    let frac: u8 = (m % 100) as u8;
    let digits = u64_to_dec(whole);
    s.append(digits.as_str());
    proof {
        reveal_strlit(".");
    }
    s.append(".");
    push_two_digits(&mut s, frac);
    proof {
        assert(s@ =~= fixed2_str(v as int));
    }
    s
}

} // verus!
