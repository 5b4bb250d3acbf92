//! A size written for people: in bytes below 1024, and above that in the
//! largest binary unit that it reaches, with one decimal unless the number
//! of units is whole.
//!
//! The figures are those of a program that scales sizes in double
//! precision, digit for digit, and are computed here in integers: a size is
//! first brought to the nearest number that such a program can hold, which
//! changes it only from 2^53 bytes on, and the tenths are rounded to
//! nearest, halfway cases to the even tenth.

use vstd::prelude::*;
use vstd::arithmetic::div_mod::lemma_fundamental_div_mod;
use vstd::arithmetic::div_mod::lemma_fundamental_div_mod_converse;
use crate::text::decimal;
use crate::text::decimal_text;
use crate::text::digit_char;
use crate::text::digit_text;

verus! {

/// Bytes in a kibibyte.
pub const KIB: u64 = 1024;

/// Bytes in a mebibyte.
pub const MIB: u64 = 1048576;

/// Bytes in a gibibyte.
pub const GIB: u64 = 1073741824;

/// Bytes in a tebibyte.
pub const TIB: u64 = 1099511627776;

/// The quotient of `n` by `d` rounded to the nearest integer, and to the
/// even one of the two where it lies halfway.
pub open spec fn round_half_even(n: int, d: int) -> int
    recommends
        n >= 0,
        d > 0,
{
    let quotient = n / d;
    let rest = n % d;
    if 2 * rest > d || (2 * rest == d && quotient % 2 == 1) {
        quotient + 1
    } else {
        quotient
    }
}

/// The distance between neighbouring numbers that a double-precision float
/// can hold, around `n`: one up to 2^53, and twice as much with every
/// further power of two.
pub open spec fn float_spacing(n: int) -> int {
    if n < 0x20_0000_0000_0000 {
        1
    } else if n < 0x40_0000_0000_0000 {
        2
    } else if n < 0x80_0000_0000_0000 {
        4
    } else if n < 0x100_0000_0000_0000 {
        8
    } else if n < 0x200_0000_0000_0000 {
        16
    } else if n < 0x400_0000_0000_0000 {
        32
    } else if n < 0x800_0000_0000_0000 {
        64
    } else if n < 0x1000_0000_0000_0000 {
        128
    } else if n < 0x2000_0000_0000_0000 {
        256
    } else if n < 0x4000_0000_0000_0000 {
        512
    } else {
        1024
    }
}

/// The number nearest to `n` that a double-precision float can hold, the
/// even one of two that are equally near.
pub open spec fn nearest_float(n: int) -> int
    recommends
        0 <= n < 0x8000_0000_0000_0000,
{
    round_half_even(n, float_spacing(n)) * float_spacing(n)
}

/// An integer in decimal, with a minus sign where it is negative.
pub open spec fn signed_text(n: int) -> Seq<char> {
    if n < 0 {
        seq!['-'] + decimal_text((-n) as nat)
    } else {
        decimal_text(n as nat)
    }
}

/// A number of bytes in units of `unit` bytes: the whole number where it
/// is one, else the number rounded to tenths.
pub open spec fn scaled_text(value: int, unit: int) -> Seq<char>
    recommends
        value >= 0,
        unit > 0,
{
    if value % unit == 0 {
        decimal_text((value / unit) as nat)
    } else {
        let tenths = round_half_even(10 * value, unit);
        decimal_text((tenths / 10) as nat) + seq!['.'] + seq![digit_char(tenths % 10)]
    }
}

/// A size of `bytes` bytes as it is shown.
pub open spec fn bytes_text(bytes: int) -> Seq<char> {
    if bytes < 1024 {
        signed_text(bytes) + seq!['B']
    } else if bytes < 1048576 {
        scaled_text(bytes, 1024) + seq!['K']
    } else if bytes < 1073741824 {
        scaled_text(bytes, 1048576) + seq!['M']
    } else if bytes < 1099511627776 {
        scaled_text(bytes, 1073741824) + seq!['G']
    } else {
        scaled_text(nearest_float(bytes), 1099511627776) + seq!['T']
    }
}

/// A size of `blocks` blocks of 512 bytes as it is shown.
pub open spec fn size_text(blocks: int) -> Seq<char> {
    bytes_text(blocks * 512)
}

/// Divides and rounds to the nearest integer, halfway cases to the even
/// one.
pub fn divide_half_even(n: u64, d: u64) -> (rounded: u64)
    requires
        d > 0,
    ensures
        rounded == round_half_even(n as int, d as int),
{
    let quotient: u64 = n / d;
    let rest: u64 = n % d;
    let other: u64 = d - rest;
    if rest > other || (rest == other && quotient % 2 == 1) {
        proof {
            // Something is left over, so the divisor is two at least and
            // the quotient half the largest number at most.
            lemma_fundamental_div_mod(n as int, d as int);
            assert(quotient < u64::MAX) by (nonlinear_arith)
                requires
                    n == d * quotient + rest,
                    rest > 0,
                    d > rest,
                    n <= u64::MAX,
                    quotient >= 0,
            ;
        }
        quotient + 1
    } else {
        quotient
    }
}

/// Rounds a number below 2^63 to the nearest that a double-precision float
/// can hold.
pub fn round_to_float(n: u64) -> (rounded: u64)
    requires
        n < 0x8000_0000_0000_0000,
    ensures
        rounded == nearest_float(n as int),
        rounded <= 0x8000_0000_0000_0000,
{
    let spacing: u64 = if n < 0x20_0000_0000_0000 {
        1
    } else if n < 0x40_0000_0000_0000 {
        2
    } else if n < 0x80_0000_0000_0000 {
        4
    } else if n < 0x100_0000_0000_0000 {
        8
    } else if n < 0x200_0000_0000_0000 {
        16
    } else if n < 0x400_0000_0000_0000 {
        32
    } else if n < 0x800_0000_0000_0000 {
        64
    } else if n < 0x1000_0000_0000_0000 {
        128
    } else if n < 0x2000_0000_0000_0000 {
        256
    } else if n < 0x4000_0000_0000_0000 {
        512
    } else {
        1024
    };
    let steps: u64 = divide_half_even(n, spacing);
    steps * spacing
}

/// Writes an integer in decimal, with its sign.
pub fn signed_decimal(n: i64) -> (text: String)
    ensures
        text@ == signed_text(n as int),
{
    if n < 0 {
        let size: u64 = ((-(n + 1)) as u64) + 1;
        let mut text: String = String::from_str("-");
        proof {
            reveal_strlit("-");
        }
        let digits: String = decimal(size);
        text.append(digits.as_str());
        assert(text@ =~= signed_text(n as int));
        text
    } else {
        decimal(n as u64)
    }
}

/// Writes `value` bytes in units of `unit` bytes.
pub fn scaled(value: u64, unit: u64) -> (text: String)
    requires
        1024 <= unit <= 1099511627776,
        value <= 0x8000_0000_0000_0000,
    ensures
        text@ == scaled_text(value as int, unit as int),
{
    let whole: u64 = value / unit;
    let rest: u64 = value % unit;
    if rest == 0 {
        return decimal(whole);
    }
    let fraction: u64 = divide_half_even(rest * 10, unit);
    proof {
        let v = value as int;
        let u = unit as int;
        let q = (rest * 10) / u;
        let r = (rest * 10) % u;
        lemma_fundamental_div_mod(v, u);
        lemma_fundamental_div_mod(rest * 10, u);
        assert(10 * v == (10 * whole + q) * u + r) by (nonlinear_arith)
            requires
                v == u * whole + rest,
                rest * 10 == u * q + r,
        ;
        lemma_fundamental_div_mod_converse(10 * v, u, 10 * whole + q, r);
        assert((10 * whole + q) % 2 == q % 2);
        assert(q < 10) by (nonlinear_arith)
            requires
                rest * 10 == u * q + r,
                0 <= r,
                0 <= rest < u,
        ;
        assert(whole <= 0x20_0000_0000_0000) by (nonlinear_arith)
            requires
                v == u * whole + rest,
                v <= 0x8000_0000_0000_0000,
                u >= 1024,
                rest >= 0,
        ;
        assert(fraction + 10 * whole == round_half_even(10 * v, u));
    }
    let tenths: u64 = whole * 10 + fraction;
    let mut text: String = decimal(tenths / 10);
    proof {
        reveal_strlit(".");
    }
    text.append(".");
    text.append(digit_text(tenths % 10));
    assert(text@ =~= scaled_text(value as int, unit as int));
    text
}

/// Shows a size given in bytes.
pub fn format_bytes(bytes: i64) -> (text: String)
    ensures
        text@ == bytes_text(bytes as int),
{
    proof {
        reveal_strlit("B");
        reveal_strlit("K");
        reveal_strlit("M");
        reveal_strlit("G");
        reveal_strlit("T");
    }
    if bytes < 1024 {
        let mut text: String = signed_decimal(bytes);
        text.append("B");
        assert(text@ =~= bytes_text(bytes as int));
        text
    } else {
        let size: u64 = bytes as u64;
        if size < MIB {
            let mut text: String = scaled(size, KIB);
            text.append("K");
            assert(text@ =~= bytes_text(bytes as int));
            text
        } else if size < GIB {
            let mut text: String = scaled(size, MIB);
            text.append("M");
            assert(text@ =~= bytes_text(bytes as int));
            text
        } else if size < TIB {
            let mut text: String = scaled(size, GIB);
            text.append("G");
            assert(text@ =~= bytes_text(bytes as int));
            text
        } else {
            let mut text: String = scaled(round_to_float(size), TIB);
            text.append("T");
            assert(text@ =~= bytes_text(bytes as int));
            text
        }
    }
}

/// Shows a size given in blocks of 512 bytes.
pub fn format_size(blocks: i64) -> (text: String)
    requires
        i64::MIN <= blocks * 512 <= i64::MAX,
    ensures
        text@ == size_text(blocks as int),
{
    format_bytes(blocks * 512)
}

} // verus!
