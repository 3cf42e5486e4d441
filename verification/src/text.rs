//! Numbers as text, for the messages of failures and the keys of tables.

use vstd::prelude::*;
use vstd::string::StringExecFns;

verus! {

/// The text of a digit.
pub open spec fn digit_text(d: int) -> Seq<char> {
    if d == 0 {
        "0"@
    } else if d == 1 {
        "1"@
    } else if d == 2 {
        "2"@
    } else if d == 3 {
        "3"@
    } else if d == 4 {
        "4"@
    } else if d == 5 {
        "5"@
    } else if d == 6 {
        "6"@
    } else if d == 7 {
        "7"@
    } else if d == 8 {
        "8"@
    } else {
        "9"@
    }
}

/// Gives the text of a digit.
fn digit_str(d: u8) -> (r: &'static str)
    requires
        d < 10,
    ensures
        r@ == digit_text(d as int),
{
    if d == 0 {
        "0"
    } else if d == 1 {
        "1"
    } else if d == 2 {
        "2"
    } else if d == 3 {
        "3"
    } else if d == 4 {
        "4"
    } else if d == 5 {
        "5"
    } else if d == 6 {
        "6"
    } else if d == 7 {
        "7"
    } else if d == 8 {
        "8"
    } else {
        "9"
    }
}

/// A natural number in decimal digits, without leading zeros.
pub open spec fn decimal_text(n: nat) -> Seq<char>
    decreases n,
{
    if n < 10 {
        digit_text(n as int)
    } else {
        decimal_text(n / 10) + digit_text((n % 10) as int)
    }
}

/// Writes a natural number in decimal digits.
pub fn decimal(n: u64) -> (r: String)
    ensures
        r@ == decimal_text(n as nat),
    decreases n,
{
    if n < 10 {
        String::from_str(digit_str(n as u8))
    } else {
        let mut text = decimal(n / 10);
        text.append(digit_str((n % 10) as u8));
        text
    }
}

/// The digits after the decimal point of a fraction `f` that counts units of
/// which `unit * 10` make a whole: one digit for each place down from `unit`,
/// up to the last digit that is not zero.
pub open spec fn fraction_text(f: nat, unit: nat) -> Seq<char>
    decreases unit,
{
    if f == 0 || unit == 0 {
        Seq::empty()
    } else {
        digit_text((f / unit) as int) + fraction_text(f % unit, unit / 10)
    }
}

/// The units of the six places after the decimal point of a count of
/// millionths.
spec fn is_place(unit: nat) -> bool {
    unit == 1 || unit == 10 || unit == 100 || unit == 1_000 || unit == 10_000 || unit == 100_000
}

/// Writes the digits after the decimal point of a fraction.
fn fraction(f: u64, unit: u64) -> (r: String)
    requires
        is_place(unit as nat),
        f < 10 * unit,
    ensures
        r@ == fraction_text(f as nat, unit as nat),
    decreases unit,
{
    if f == 0 {
        String::new()
    } else {
        let digit: u8 = (f / unit) as u8;
        let rest: u64 = f % unit;
        let mut text = String::from_str(digit_str(digit));
        if unit >= 10 {
            let tail = fraction(rest, unit / 10);
            text.append(tail.as_str());
        } else {
            proof {
                assert(fraction_text(rest as nat, (unit / 10) as nat) =~= Seq::<char>::empty());
                assert(text@ + Seq::<char>::empty() =~= text@);
            }
        }
        text
    }
}

/// A count of millionths as a decimal number: a sign if it is negative, the
/// whole part, and, unless the count is a whole number, a point and the
/// digits after it up to the last that is not zero.
pub open spec fn fixed_text(value: i64) -> Seq<char> {
    let size: nat = if value < 0 {
        (-value) as nat
    } else {
        value as nat
    };
    let sign = if value < 0 {
        "-"@
    } else {
        Seq::<char>::empty()
    };
    let point = if size % 1_000_000 == 0 {
        Seq::<char>::empty()
    } else {
        "."@
    };
    sign + decimal_text(size / 1_000_000) + point + fraction_text(size % 1_000_000, 100_000)
}

/// Writes a count of millionths as a decimal number.
pub fn fixed(value: i64) -> (r: String)
    ensures
        r@ == fixed_text(value),
{
    let size: u64 = if value < 0 {
        (-(value as i128)) as u64
    } else {
        value as u64
    };
    let mut text = if value < 0 {
        String::from_str("-")
    } else {
        String::new()
    };
    let units = decimal(size / 1_000_000);
    text.append(units.as_str());
    let rest: u64 = size % 1_000_000;
    if rest != 0 {
        text.append(".");
    } else {
        proof {
            assert(text@ + Seq::<char>::empty() =~= text@);
        }
    }
    let digits = fraction(rest, 100_000);
    text.append(digits.as_str());
    text
}

/// The rate of the entry `i` of the table of rates, which begins at 0.7x and
/// goes on in steps of 0.1x, written with one decimal place: "0.7" for the
/// entry 0, "2.0" for the entry 13.
pub open spec fn rate_key_text(i: nat) -> Seq<char> {
    decimal_text((i + 7) / 10) + "."@ + digit_text(((i + 7) % 10) as int)
}

/// Writes the rate of the entry `index` with one decimal place.
pub fn rate_key(index: usize) -> (key: String)
    ensures
        key@ == rate_key_text(index as nat),
{
    let tenths: u128 = index as u128 + 7;
    let mut key = decimal((tenths / 10) as u64);
    key.append(".");
    key.append(digit_str((tenths % 10) as u8));
    key
}

} // verus!
