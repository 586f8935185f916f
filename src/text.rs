//! Decimal and hexadecimal text for numbers.

use vstd::prelude::*;

use crate::decimal::{Decimal, MICROS};

verus! {

/// The character of the digit `d` in `[0, 16)`; letters are upper case.
pub open spec fn hex_digit(d: int) -> char {
    seq!['0', '1', '2', '3', '4', '5', '6', '7', '8', '9', 'A', 'B', 'C', 'D', 'E', 'F'][d]
}

/// The decimal digits of `n`, without leading zeros (`0` is written `0`).
pub open spec fn nat_text(n: nat) -> Seq<char>
    decreases n,
{
    if n < 10 {
        seq![hex_digit(n as int)]
    } else {
        nat_text(n / 10).push(hex_digit((n % 10) as int))
    }
}

/// The last `w` decimal digits of `n`, with leading zeros.
pub open spec fn padded_digits(n: nat, w: nat) -> Seq<char>
    decreases w,
{
    if w == 0 {
        Seq::empty()
    } else {
        padded_digits(n / 10, (w - 1) as nat).push(hex_digit((n % 10) as int))
    }
}

/// `s` without its trailing `0` characters.
pub open spec fn trim_zeros(s: Seq<char>) -> Seq<char>
    decreases s.len(),
{
    if s.len() > 0 && s.last() == '0' {
        trim_zeros(s.drop_last())
    } else {
        s
    }
}

/// The shortest decimal text of `v`: a `-` for negative values, the whole part,
/// and, where the fraction is not zero, a `.` and its digits without trailing
/// zeros (`28.611`, `273`, `0.4`).
pub open spec fn decimal_text(v: Decimal) -> Seq<char> {
    let m: int = if v.micros < 0 {
        -v.micros
    } else {
        v.micros as int
    };
    let sign = if v.micros < 0 {
        seq!['-']
    } else {
        Seq::empty()
    };
    let frac = m % MICROS as int;
    let fraction = if frac == 0 {
        Seq::empty()
    } else {
        seq!['.'] + trim_zeros(padded_digits(frac as nat, 6))
    };
    sign + nat_text((m / MICROS as int) as nat) + fraction
}

/// Two hexadecimal digits of a byte value `n`.
pub open spec fn byte_hex(n: int) -> Seq<char> {
    seq![hex_digit(n / 16), hex_digit(n % 16)]
}

/// The text of the one digit `d`.
fn digit_text(d: u64) -> (r: &'static str)
    requires
        d < 16,
    ensures
        r@ == seq![hex_digit(d as int)],
{
    proof {
        reveal_strlit("0");
        reveal_strlit("1");
        reveal_strlit("2");
        reveal_strlit("3");
        reveal_strlit("4");
        reveal_strlit("5");
        reveal_strlit("6");
        reveal_strlit("7");
        reveal_strlit("8");
        reveal_strlit("9");
        reveal_strlit("A");
        reveal_strlit("B");
        reveal_strlit("C");
        reveal_strlit("D");
        reveal_strlit("E");
        reveal_strlit("F");
    }
    let r = match d {
        0 => "0",
        1 => "1",
        2 => "2",
        3 => "3",
        4 => "4",
        5 => "5",
        6 => "6",
        7 => "7",
        8 => "8",
        9 => "9",
        10 => "A",
        11 => "B",
        12 => "C",
        13 => "D",
        14 => "E",
        _ => "F",
    };
    assert(r@ =~= seq![hex_digit(d as int)]);
    r
}

/// Appends the decimal digits of `n`.
fn push_nat(out: &mut String, n: u64)
    ensures
        final(out)@ == old(out)@ + nat_text(n as nat),
    decreases n,
{
    if n >= 10 {
        push_nat(out, n / 10);
    }
    out.append(digit_text(n % 10));
    assert(final(out)@ =~= old(out)@ + nat_text(n as nat));
}

/// Appends the last `w` decimal digits of `n`.
fn push_padded(out: &mut String, n: u64, w: u32)
    ensures
        final(out)@ == old(out)@ + padded_digits(n as nat, w as nat),
    decreases w,
{
    if w == 0 {
        assert(old(out)@ + padded_digits(n as nat, 0) =~= old(out)@);
        return;
    }
    push_padded(out, n / 10, w - 1);
    out.append(digit_text(n % 10));
    assert(final(out)@ =~= old(out)@ + padded_digits(n as nat, w as nat));
}

/// Appends the two hexadecimal digits of the byte value `n`.
pub fn push_byte_hex(out: &mut String, n: u64)
    requires
        n < 256,
    ensures
        final(out)@ == old(out)@ + byte_hex(n as int),
{
    out.append(digit_text(n / 16));
    out.append(digit_text(n % 16));
    assert(final(out)@ =~= old(out)@ + byte_hex(n as int));
}

/// Appends `decimal_text(v)`.
pub fn push_decimal(out: &mut String, v: Decimal)
    ensures
        final(out)@ == old(out)@ + decimal_text(v),
{
    let ghost start = out@;
    let m: u64 = if v.micros < 0 {
        (-(v.micros as i128)) as u64
    } else {
        v.micros as u64
    };
    proof {
        reveal_strlit("-");
        reveal_strlit(".");
    }
    if v.micros < 0 {
        out.append("-");
    }
    push_nat(out, m / MICROS as u64);
    let ghost sign = if v.micros < 0 {
        seq!['-']
    } else {
        Seq::<char>::empty()
    };
    assert(out@ =~= start + sign + nat_text((m / MICROS as u64) as nat));
    let mut frac = m % MICROS as u64;
    if frac == 0 {
        assert(out@ =~= start + decimal_text(v));
        return;
    }
    let ghost full = padded_digits(frac as nat, 6);
    let mut w: u32 = 6;
    proof {
        reveal_with_fuel(crate::decimal::pow10, 7);
    }
    while frac % 10 == 0
        invariant
            0 < frac < crate::decimal::pow10(w as nat),
            w <= 6,
            trim_zeros(padded_digits(frac as nat, w as nat)) == trim_zeros(full),
        decreases w,
    {
        assert(w > 0);
        assert(padded_digits(frac as nat, w as nat) == padded_digits(
            (frac / 10) as nat,
            (w - 1) as nat,
        ).push('0'));
        assert(padded_digits(frac as nat, w as nat).drop_last() =~= padded_digits(
            (frac / 10) as nat,
            (w - 1) as nat,
        ));
        frac = frac / 10;
        w = w - 1;
    }
    assert(w > 0);
    assert(hex_digit((frac % 10) as int) != '0');
    assert(trim_zeros(padded_digits(frac as nat, w as nat)) == padded_digits(frac as nat, w as nat));
    out.append(".");
    push_padded(out, frac, w);
    assert(out@ =~= start + decimal_text(v));
}

impl Decimal {
    /// The shortest decimal text of this number (see `decimal_text`).
    pub fn to_string(&self) -> (r: String)
        ensures
            r@ == decimal_text(*self),
    {
        let mut out = String::new();
        push_decimal(&mut out, *self);
        out
    }
}

} // verus!
