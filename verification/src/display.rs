//! Binary size formatting for the partition table.
use vstd::prelude::*;

use crate::number;
use crate::number::push_decimal;

verus! {

pub const KIB: u64 = 1024;

pub const MIB: u64 = 1024 * 1024;

/// Two to the power of 53: a binary64 float holds every whole number below it.
pub const FLOAT_EXACT: u64 = 0x20_0000_0000_0000;

/// The quotient, rounded to the nearest whole number, and to the even one of two
/// that are as near.
pub open spec fn nearest(value: int, divisor: int) -> int {
    let whole = value / divisor;
    let rest = value % divisor;
    if 2 * rest < divisor || (2 * rest == divisor && whole % 2 == 0) {
        whole
    } else {
        whole + 1
    }
}

/// The distance between the binary64 floats around `value`.
pub open spec fn float_step(value: int) -> int
    decreases value,
{
    if value < FLOAT_EXACT {
        1
    } else {
        2 * float_step(value / 2)
    }
}

/// The binary64 float nearest to `value`.
pub open spec fn float_value(value: int) -> int {
    nearest(value, float_step(value)) * float_step(value)
}

/// How many hundredths of a unit `size` is, in binary64 arithmetic.
pub open spec fn hundredths(size: int, unit: int) -> int {
    nearest(100 * float_value(size), unit)
}

/// A number of hundredths with two decimals.
pub open spec fn with_decimals(value: int) -> Seq<char> {
    number::decimal((value / 100) as nat) + "."@ + seq![
        number::digit_char((value / 10 % 10) as nat),
        number::digit_char((value % 10) as nat),
    ]
}

/// `size` in units of `unit` bytes: a whole number, or one with two decimals.
pub open spec fn in_units(size: int, unit: int) -> Seq<char> {
    if size % unit == 0 {
        number::decimal((size / unit) as nat)
    } else {
        with_decimals(hundredths(size, unit))
    }
}

/// A size as it is shown.
pub open spec fn size_text(size: int) -> Seq<char> {
    if size >= MIB {
        in_units(size, MIB as int) + " MiB"@
    } else if size >= KIB {
        in_units(size, KIB as int) + " KiB"@
    } else {
        number::decimal(size as nat) + " B"@
    }
}

proof fn lemma_float_step(value: int)
    requires
        value >= 0,
    ensures
        1 <= float_step(value),
        value >= 1 ==> float_step(value) <= value,
    decreases value,
{
    if value >= FLOAT_EXACT {
        lemma_float_step(value / 2);
    }
}

fn find_float_step(value: u64) -> (step: u64)
    ensures
        step == float_step(value as int),
    decreases value,
{
    if value < FLOAT_EXACT {
        1
    } else {
        let half = find_float_step(value / 2);
        proof {
            lemma_float_step(value as int);
        }
        2 * half
    }
}

fn divide_nearest(value: u128, divisor: u128) -> (quotient: u128)
    requires
        0 < divisor < 0x1_0000_0000_0000_0000,
        value < 0x100_0000_0000_0000_0000,
    ensures
        quotient == nearest(value as int, divisor as int),
{
    let whole: u128 = value / divisor;
    let rest: u128 = value % divisor;
    assert(whole <= value) by (nonlinear_arith)
        requires
            whole == value / divisor,
            divisor >= 1,
    ;
    if 2 * rest < divisor || (2 * rest == divisor && whole % 2 == 0) {
        whole
    } else {
        whole + 1
    }
}

/// A rounded quotient, multiplied again, is off by half a divisor at most.
proof fn lemma_nearest(value: int, divisor: int)
    requires
        value >= 0,
        divisor > 0,
    ensures
        nearest(value, divisor) >= 0,
        -divisor <= 2 * (nearest(value, divisor) * divisor - value) <= divisor,
{
    let whole = value / divisor;
    let rest = value % divisor;
    vstd::arithmetic::div_mod::lemma_fundamental_div_mod(value, divisor);
    assert(whole >= 0) by (nonlinear_arith)
        requires
            whole == value / divisor,
            value >= 0,
            divisor > 0,
    ;
    assert(divisor * whole == whole * divisor) by (nonlinear_arith);
    assert((whole + 1) * divisor == whole * divisor + divisor) by (nonlinear_arith);
}

/// Appends a number of hundredths with two decimals.
fn push_with_decimals(text: &mut String, value: u64)
    ensures
        final(text)@ == old(text)@ + with_decimals(value as int),
{
    let ghost before = text@;
    push_decimal(text, value / 100);
    text.append(".");
    text.push(number::to_digit_char(value / 10 % 10));
    text.push(number::to_digit_char(value % 10));
    assert(text@ =~= before + with_decimals(value as int));
}

/// Appends `size` in units of `unit` bytes.
fn push_in_units(text: &mut String, size: u64, unit: u64)
    requires
        unit == KIB || unit == MIB,
    ensures
        final(text)@ == old(text)@ + in_units(size as int, unit as int),
{
    if size % unit == 0 {
        push_decimal(text, size / unit);
        return;
    }
    let step = find_float_step(size);
    proof {
        lemma_float_step(size as int);
        lemma_nearest(size as int, step as int);
    }
    let steps: u128 = divide_nearest(size as u128, step as u128);
    assert(steps * step <= 2 * size) by {
        assert(2 * (steps * step - size) <= step);
    }
    let value: u128 = steps * step as u128;
    proof {
        lemma_nearest(100 * value as int, unit as int);
    }
    let hundredths: u128 = divide_nearest(100 * value, unit as u128);
    assert(hundredths <= u64::MAX) by (nonlinear_arith)
        requires
            2 * (hundredths * unit - 100 * value) <= unit,
            value <= 2 * size,
            size <= u64::MAX,
            unit >= 1024,
    ;
    push_with_decimals(text, hundredths as u64);
}

/// Show fractional units for stock partitions split into header and data MTDs.
pub fn format_size(size: u64) -> (text: String)
    ensures
        text@ == size_text(size as int),
{
    let mut text = "".to_string();
    assert(text@ =~= Seq::<char>::empty()) by {
        reveal_strlit("");
    }
    if size >= MIB {
        push_in_units(&mut text, size, MIB);
        text.append(" MiB");
    } else if size >= KIB {
        push_in_units(&mut text, size, KIB);
        text.append(" KiB");
    } else {
        push_decimal(&mut text, size);
        text.append(" B");
    }
    assert(text@ =~= size_text(size as int));
    text
}

/// Up to the sizes that a binary64 float holds exactly, the decimals shown are
/// those of the nearest hundredth: off by half a hundredth of a unit at most.
pub proof fn law_nearest_hundredth(size: int, unit: int)
    requires
        0 <= size < FLOAT_EXACT,
        unit > 0,
    ensures
        -unit <= 2 * (hundredths(size, unit) * unit - 100 * size) <= unit,
{
    assert(float_value(size) == size);
    lemma_nearest(100 * size, unit);
}

/// A rounded quotient is the nearest whole number, and the even one of two that are
/// as near; there is no other such number.
pub proof fn law_nearest(value: int, divisor: int, other: int)
    requires
        value >= 0,
        divisor > 0,
        -divisor <= 2 * (other * divisor - value) <= divisor,
        2 * (other * divisor - value) == divisor || 2 * (other * divisor - value) == -divisor
            ==> other % 2 == 0,
    ensures
        nearest(value, divisor) == other,
{
    let whole = value / divisor;
    let rest = value % divisor;
    vstd::arithmetic::div_mod::lemma_fundamental_div_mod(value, divisor);
    assert(divisor * whole == whole * divisor) by (nonlinear_arith);
    assert((whole + 1) * divisor == whole * divisor + divisor) by (nonlinear_arith);
    if other <= whole - 1 {
        assert(other * divisor <= whole * divisor - divisor) by (nonlinear_arith)
            requires
                other <= whole - 1,
                divisor > 0,
        ;
    }
    if other >= whole + 2 {
        assert(other * divisor >= whole * divisor + 2 * divisor) by (nonlinear_arith)
            requires
                other >= whole + 2,
                divisor > 0,
        ;
    }
}

/// A float holds 53 bits: numbers below two to the power of 53 stand for themselves,
/// and above it the floats lie twice as far apart each time the number doubles.
pub proof fn law_float(value: int)
    requires
        value >= 0,
    ensures
        value < 0x20_0000_0000_0000 ==> float_value(value) == value && float_step(value) == 1,
        value >= 0x20_0000_0000_0000 ==> {
            &&& float_step(value) == 2 * float_step(value / 2)
            &&& 0x10_0000_0000_0000 <= value / float_step(value) < 0x20_0000_0000_0000
        },
        float_value(value) == nearest(value, float_step(value)) * float_step(value),
    decreases value,
{
    lemma_float_step(value);
    if value >= 0x20_0000_0000_0000 {
        let half = value / 2;
        law_float(half);
        lemma_float_step(half);
        vstd::arithmetic::div_mod::lemma_div_denominator(value, 2, float_step(half));
        if half < 0x20_0000_0000_0000 {
            assert(half / 1 == half);
        }
    }
}

/// A size is shown in mebibytes from the first on, in kibibytes from the first on,
/// and else in bytes: as a whole number where it is one, and else with the two
/// decimals of the nearest hundredth of what the float of its size is.
pub proof fn law_size_shown(size: int)
    requires
        0 <= size,
    ensures
        size < 1024 ==> size_text(size) == number::digits(size as nat, 10) + " B"@,
        1024 <= size < 1048576 && size % 1024 == 0 ==> size_text(size) == number::digits(
            (size / 1024) as nat,
            10,
        ) + " KiB"@,
        size >= 1048576 && size % 1048576 == 0 ==> size_text(size) == number::digits(
            (size / 1048576) as nat,
            10,
        ) + " MiB"@,
        1024 <= size < 1048576 && size % 1024 != 0 ==> size_text(size) == with_decimals(
            nearest(100 * float_value(size), 1024),
        ) + " KiB"@,
        size >= 1048576 && size % 1048576 != 0 ==> size_text(size) == with_decimals(
            nearest(100 * float_value(size), 1048576),
        ) + " MiB"@,
{
}

/// Hundredths are shown as a whole number, a full stop and two digits, which read
/// back as the hundredths.
pub proof fn law_decimals_shown(value: int)
    requires
        value >= 0,
    ensures
        ({
            let shown = with_decimals(value);
            let n = shown.len() - 3;
            &&& n >= 1
            &&& shown.take(n) == number::digits((value / 100) as nat, 10)
            &&& shown[n] == '.'
            &&& '0' <= shown[n + 1] <= '9'
            &&& '0' <= shown[n + 2] <= '9'
            &&& (shown[n + 1] as int - 48) * 10 + (shown[n + 2] as int - 48) == value % 100
        }),
{
    reveal_strlit(".");
    let shown = with_decimals(value);
    let whole = number::digits((value / 100) as nat, 10);
    number::lemma_digits_chars((value / 100) as nat, 10);
    assert(shown.take(shown.len() - 3) =~= whole);
}

} // verus!
