//! Decimal rendering of unsigned integers, exact to the character.

use vstd::prelude::*;

verus! {

/// The character for one decimal digit.
pub open spec fn digit_char(d: int) -> char {
    if d == 0 {
        '0'
    } else if d == 1 {
        '1'
    } else if d == 2 {
        '2'
    } else if d == 3 {
        '3'
    } else if d == 4 {
        '4'
    } else if d == 5 {
        '5'
    } else if d == 6 {
        '6'
    } else if d == 7 {
        '7'
    } else if d == 8 {
        '8'
    } else {
        '9'
    }
}

/// The decimal digits of `n`, most significant first, with no leading zero
/// except for `n == 0` itself.
pub open spec fn dec_seq(n: nat) -> Seq<char>
    decreases n,
{
    if n < 10 {
        seq![digit_char(n as int)]
    } else {
        dec_seq(n / 10) + seq![digit_char((n % 10) as int)]
    }
}

/// The decimal digits of `n % 10^w`, zero-padded to exactly `w` characters.
pub open spec fn padded_dec(n: nat, w: nat) -> Seq<char>
    decreases w,
{
    if w <= 1 {
        seq![digit_char((n % 10) as int)]
    } else {
        padded_dec(n / 10, (w - 1) as nat) + seq![digit_char((n % 10) as int)]
    }
}

/// Appends the character for the digit `d`.
fn push_digit(out: &mut String, d: u8)
    requires
        d < 10,
    ensures
        final(out)@ == old(out)@ + seq![digit_char(d as int)],
{
    let s: &str = if d == 0 {
        "0"
    } else if d == 1 {
        "1"
    } else if d == 2 {
        "2"
    } else if d == 3 {
        "3"
    } else if d == 4 {
        "4"
    } else if d == 5 {
        "5"
    } else if d == 6 {
        "6"
    } else if d == 7 {
        "7"
    } else if d == 8 {
        "8"
    } else {
        "9"
    };
    proof {
        reveal_strlit("0");
        reveal_strlit("1");
        reveal_strlit("2");
        reveal_strlit("3");
        reveal_strlit("4");
        reveal_strlit("5");
        reveal_strlit("6");
        reveal_strlit("7");
        reveal_strlit("8");
        reveal_strlit("9");
        assert(s@ =~= seq![digit_char(d as int)]);
    }
    out.append(s);
}

/// Appends the decimal rendering of `n`.
pub fn push_decimal_u128(out: &mut String, n: u128)
    ensures
        final(out)@ == old(out)@ + dec_seq(n as nat),
    decreases n,
{
    if n >= 10 {
        push_decimal_u128(out, n / 10);
    }
    push_digit(out, (n % 10) as u8);
    proof {
        assert(out@ =~= old(out)@ + dec_seq(n as nat));
    }
}

/// Appends the decimal rendering of `n`.
pub fn push_decimal_u64(out: &mut String, n: u64)
    ensures
        final(out)@ == old(out)@ + dec_seq(n as nat),
{
    push_decimal_u128(out, n as u128);
}

/// Appends `n % 10^w`, zero-padded to exactly `w` digits.
pub fn push_padded_u128(out: &mut String, n: u128, w: u32)
    requires
        w >= 1,
    ensures
        final(out)@ == old(out)@ + padded_dec(n as nat, w as nat),
    decreases w,
{
    if w > 1 {
        push_padded_u128(out, n / 10, w - 1);
    }
    push_digit(out, (n % 10) as u8);
    proof {
        assert(out@ =~= old(out)@ + padded_dec(n as nat, w as nat));
    }
}

/// The decimal rendering of `n` as a fresh string.
pub fn u64_to_decimal(n: u64) -> (r: String)
    ensures
        r@ == dec_seq(n as nat),
{
    let mut out = String::new();
    push_decimal_u64(&mut out, n);
    out
}

} // verus!
