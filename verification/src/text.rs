//! Writing numbers as text: hexadecimal and decimal digits.
use vstd::prelude::*;

verus! {

/// The lower-case hexadecimal digit of `d`, for `d < 16`.
pub open spec fn hex_char(d: nat) -> char {
    if d < 10 {
        ((48 + d) as u8) as char
    } else {
        ((87 + d) as u8) as char
    }
}

/// `v` written in `width` lower-case hexadecimal digits, zero-padded on the
/// left (only the lowest `width` digits, where `v` has more).
pub open spec fn hex_fixed(v: nat, width: nat) -> Seq<char>
    decreases width,
{
    if width == 0 {
        Seq::empty()
    } else {
        hex_fixed(v / 16, (width - 1) as nat).push(hex_char(v % 16))
    }
}

/// The decimal digits of `n`, without leading zeros ("0" for zero).
pub open spec fn dec_text(n: nat) -> Seq<char>
    decreases n,
{
    if n < 10 {
        seq![hex_char(n)]
    } else {
        dec_text(n / 10).push(hex_char(n % 10))
    }
}

/// `h` hundredths written with two decimals, as `{:.2}` writes a number
/// whose value rounded to hundredths is `h`.
pub open spec fn fixed2_text(h: nat) -> Seq<char> {
    dec_text(h / 100) + seq!['.', hex_char((h % 100) / 10), hex_char(h % 10)]
}

pub fn hex_digit_str(d: u64) -> (r: &'static str)
    requires
        d < 16,
    ensures
        r@ == seq![hex_char(d as nat)],
{
    proof {
        reveal_strlit("0");
        reveal_strlit("1");
        reveal_strlit("2");
        reveal_strlit("3");
        reveal_strlit("4");
        reveal_strlit("5");
        reveal_strlit("6");
        reveal_strlit("7");
        reveal_strlit("8");
        reveal_strlit("9");
        reveal_strlit("a");
        reveal_strlit("b");
        reveal_strlit("c");
        reveal_strlit("d");
        reveal_strlit("e");
        reveal_strlit("f");
    }
    match d {
        0 => "0",
        1 => "1",
        2 => "2",
        3 => "3",
        4 => "4",
        5 => "5",
        6 => "6",
        7 => "7",
        8 => "8",
        9 => "9",
        10 => "a",
        11 => "b",
        12 => "c",
        13 => "d",
        14 => "e",
        _ => "f",
    }
}

/// Appends `v` as `width` zero-padded lower-case hexadecimal digits.
pub fn append_hex(s: &mut String, v: u64, width: usize)
    ensures
        final(s)@ == old(s)@ + hex_fixed(v as nat, width as nat),
    decreases width,
{
    if width > 0 {
        append_hex(s, v / 16, width - 1);
        let d: &str = hex_digit_str(v % 16);
        s.append(d);
        assert(final(s)@ =~= old(s)@ + hex_fixed(v as nat, width as nat));
    } else {
        assert(s@ =~= old(s)@ + hex_fixed(v as nat, width as nat));
    }
}

/// Appends the decimal digits of `n`.
pub fn append_decimal(s: &mut String, n: u128)
    ensures
        final(s)@ == old(s)@ + dec_text(n as nat),
    decreases n,
{
    if n >= 10 {
        append_decimal(s, n / 10);
    }
    let d: &str = hex_digit_str((n % 10) as u64);
    s.append(d);
    assert(final(s)@ =~= old(s)@ + dec_text(n as nat));
}

/// Appends `h` hundredths with two decimals.
pub fn append_fixed2(s: &mut String, h: u128)
    ensures
        final(s)@ == old(s)@ + fixed2_text(h as nat),
{
    append_decimal(s, h / 100);
    proof {
        reveal_strlit(".");
    }
    s.append(".");
    let frac: u128 = h % 100;
    let d1: &str = hex_digit_str((frac / 10) as u64);
    s.append(d1);
    let d2: &str = hex_digit_str((frac % 10) as u64);
    s.append(d2);
    assert(final(s)@ =~= old(s)@ + fixed2_text(h as nat));
}

} // verus!
