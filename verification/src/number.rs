//! Unsigned numbers as text: reading them and writing them out.
use vstd::prelude::*;
use vstd::slice::slice_subrange;

use crate::text::{push_chars, strip_prefix, to_chars, trim};

verus! {

/// The value of `ch` as a digit. Letters of either case stand for ten and up.
pub open spec fn digit_value(ch: char, radix: nat) -> Option<nat> {
    let value = if '0' <= ch <= '9' {
        (ch as nat - '0' as nat) as nat
    } else if 'a' <= ch <= 'z' {
        (ch as nat - 'a' as nat + 10) as nat
    } else if 'A' <= ch <= 'Z' {
        (ch as nat - 'A' as nat + 10) as nat
    } else {
        radix
    };
    if value < radix {
        Some(value)
    } else {
        None
    }
}

/// The number that a row of digits stands for; `None` where one is no digit.
pub open spec fn digits_value(s: Seq<char>, radix: nat) -> Option<nat>
    decreases s.len(),
{
    if s.len() == 0 {
        Some(0)
    } else {
        match (digits_value(s.drop_last(), radix), digit_value(s.last(), radix)) {
            (Some(high), Some(low)) => Some(high * radix + low),
            _ => None,
        }
    }
}

/// `s` without one leading plus sign.
pub open spec fn without_sign(s: Seq<char>) -> Seq<char> {
    if s.len() > 0 && s[0] == '+' {
        s.drop_first()
    } else {
        s
    }
}

/// The number that `s` stands for: at least one digit, which one plus sign may
/// precede, with a value of at most `max`.
pub open spec fn number_value(s: Seq<char>, radix: nat, max: nat) -> Option<nat> {
    let digits = without_sign(s);
    if digits.len() == 0 {
        None
    } else {
        match digits_value(digits, radix) {
            Some(value) if value <= max => Some(value),
            _ => None,
        }
    }
}

/// The value of a digit, where `ch` is one.
fn to_digit(ch: char, radix: u32) -> (value: Option<u32>)
    requires
        2 <= radix <= 36,
    ensures
        match value {
            Some(v) => digit_value(ch, radix as nat) == Some(v as nat),
            None => digit_value(ch, radix as nat) is None,
        },
{
    let value: u32 = if '0' <= ch && ch <= '9' {
        ch as u32 - '0' as u32
    } else if 'a' <= ch && ch <= 'z' {
        ch as u32 - 'a' as u32 + 10
    } else if 'A' <= ch && ch <= 'Z' {
        ch as u32 - 'A' as u32 + 10
    } else {
        radix
    };
    if value < radix {
        Some(value)
    } else {
        None
    }
}

/// A longer row of digits stands for no smaller number, and a row with a
/// stranger in it stands for none however it goes on.
pub proof fn lemma_digits_grow(s: Seq<char>, radix: nat, n: int)
    requires
        radix >= 1,
        0 <= n <= s.len(),
    ensures
        digits_value(s.take(n), radix) is None ==> digits_value(s, radix) is None,
        digits_value(s, radix) matches Some(whole) ==> digits_value(s.take(n), radix) matches Some(
            part,
        ) && part <= whole,
    decreases s.len(),
{
    if n == s.len() {
        assert(s.take(n) =~= s);
    } else {
        lemma_digits_grow(s.drop_last(), radix, n);
        assert(s.drop_last().take(n) =~= s.take(n));
        match (digits_value(s.drop_last(), radix), digit_value(s.last(), radix)) {
            (Some(high), Some(low)) => {
                assert(high <= high * radix + low) by (nonlinear_arith)
                    requires
                        radix >= 1,
                ;
            },
            _ => {},
        }
    }
}

/// Reads a number of at most `max`.
pub fn parse_unsigned(s: &[char], radix: u32, max: u64) -> (value: Option<u64>)
    requires
        2 <= radix <= 36,
    ensures
        match value {
            Some(v) => number_value(s@, radix as nat, max as nat) == Some(v as nat),
            None => number_value(s@, radix as nat, max as nat) is None,
        },
{
    let digits = if s.len() > 0 && s[0] == '+' {
        slice_subrange(s, 1, s.len())
    } else {
        s
    };
    assert(digits@ =~= without_sign(s@));
    if digits.len() == 0 {
        return None;
    }
    let mut value: u64 = 0;
    for i in 0..digits.len()
        invariant
            2 <= radix <= 36,
            digits@ == without_sign(s@),
            digits@.len() > 0,
            value <= max,
            digits_value(digits@.take(i as int), radix as nat) == Some(value as nat),
    {
        let ghost before = digits@.take(i as int);
        let ghost upto = digits@.take(i + 1);
        assert(upto.drop_last() =~= before);
        match to_digit(digits[i], radix) {
            Some(low) => {
                assert(value as u128 * radix as u128 <= u64::MAX as u128 * 36) by (nonlinear_arith)
                    requires
                        value <= u64::MAX,
                        radix <= 36,
                ;
                let next: u128 = value as u128 * radix as u128 + low as u128;
                assert(digits_value(upto, radix as nat) == Some(next as nat));
                if next > max as u128 {
                    proof {
                        lemma_digits_grow(digits@, radix as nat, i + 1);
                    }
                    return None;
                }
                value = next as u64;
            },
            None => {
                proof {
                    lemma_digits_grow(digits@, radix as nat, i + 1);
                }
                return None;
            },
        }
    }
    assert(digits@.take(digits@.len() as int) =~= digits@);
    Some(value)
}

/// The number that a sysfs attribute holds: hexadecimal behind `0x`, decimal
/// otherwise, with white space around it.
pub open spec fn attribute_value(s: Seq<char>) -> Option<nat> {
    let t = crate::text::trimmed(s);
    match crate::text::without_prefix(t, "0x"@) {
        Some(hex) => number_value(hex, 16, u64::MAX as nat),
        None => number_value(t, 10, u64::MAX as nat),
    }
}

/// Reads the number that a sysfs attribute holds.
pub fn parse_number(text: &str) -> (value: Option<u64>)
    ensures
        match value {
            Some(v) => attribute_value(text@) == Some(v as nat),
            None => attribute_value(text@) is None,
        },
{
    let chars = to_chars(text);
    let inner = trim(&chars);
    match strip_prefix(inner, "0x") {
        Some(hex) => parse_unsigned(hex, 16, u64::MAX),
        None => parse_unsigned(inner, 10, u64::MAX),
    }
}

// ---------------------------------------------------------------------------
// Writing numbers
// ---------------------------------------------------------------------------

/// The lower-case digit of value `value`.
pub open spec fn digit_char(value: nat) -> char {
    if value < 10 {
        (value + '0' as nat) as char
    } else {
        (value - 10 + 'a' as nat) as char
    }
}

/// `value` written in `radix`, without leading zeros.
pub open spec fn digits(value: nat, radix: nat) -> Seq<char>
    recommends
        radix >= 2,
    decreases value,
    via digits_decreases
{
    if radix < 2 || value < radix {
        seq![digit_char(value)]
    } else {
        digits(value / radix, radix).push(digit_char(value % radix))
    }
}

#[via_fn]
proof fn digits_decreases(value: nat, radix: nat) {
    if radix >= 2 && value >= radix {
        lemma_quotient_smaller(value, radix);
    }
}

pub proof fn lemma_quotient_smaller(value: nat, radix: nat)
    requires
        radix >= 2,
        value >= 1,
    ensures
        value / radix < value,
        value % radix < radix,
        (value / radix) * radix + value % radix == value,
{
    assert(value / radix < value && value % radix < radix && (value / radix) * radix + value % radix
        == value) by (nonlinear_arith)
        requires
            radix >= 2,
            value >= 1,
    ;
}

/// `value` in decimal.
pub open spec fn decimal(value: nat) -> Seq<char> {
    digits(value, 10)
}

/// `value` in lower-case hexadecimal.
pub open spec fn hexadecimal(value: nat) -> Seq<char> {
    digits(value, 16)
}

/// `s` behind as many zeros as bring it to `width` characters.
pub open spec fn zero_padded(s: Seq<char>, width: nat) -> Seq<char> {
    if s.len() >= width {
        s
    } else {
        Seq::new((width - s.len()) as nat, |i: int| '0') + s
    }
}

pub fn to_digit_char(value: u64) -> (ch: char)
    requires
        value < 36,
    ensures
        ch == digit_char(value as nat),
{
    if value < 10 {
        (value as u8 + 0x30) as char
    } else {
        (value as u8 - 10 + 0x61) as char
    }
}

/// Writes `value` in `radix`.
pub fn to_digits(value: u64, radix: u64) -> (chars: Vec<char>)
    requires
        2 <= radix <= 36,
    ensures
        chars@ == digits(value as nat, radix as nat),
    decreases value,
{
    if value < radix {
        let mut chars: Vec<char> = Vec::new();
        chars.push(to_digit_char(value));
        assert(chars@ =~= seq![digit_char(value as nat)]);
        chars
    } else {
        proof {
            lemma_quotient_smaller(value as nat, radix as nat);
        }
        let mut chars = to_digits(value / radix, radix);
        chars.push(to_digit_char(value % radix));
        chars
    }
}

/// Appends `value` in decimal.
pub fn push_decimal(text: &mut String, value: u64)
    ensures
        final(text)@ == old(text)@ + decimal(value as nat),
{
    push_chars(text, &to_digits(value, 10));
}

/// Appends `value` in lower-case hexadecimal.
pub fn push_hexadecimal(text: &mut String, value: u64)
    ensures
        final(text)@ == old(text)@ + hexadecimal(value as nat),
{
    push_chars(text, &to_digits(value, 16));
}

/// Appends `value` in lower-case hexadecimal, with zeros up to `width` digits.
pub fn push_padded_hexadecimal(text: &mut String, value: u64, width: usize)
    ensures
        final(text)@ == old(text)@ + zero_padded(hexadecimal(value as nat), width as nat),
{
    let chars = to_digits(value, 16);
    let ghost before = text@;
    let mut n: usize = chars.len();
    assert(before + Seq::new(0, |i: int| '0') =~= before);
    while n < width
        invariant
            chars@.len() <= n,
            n <= width || n == chars@.len(),
            text@ == before + Seq::new((n - chars@.len()) as nat, |i: int| '0'),
        decreases width - n,
    {
        text.push('0');
        n += 1;
        assert(text@ =~= before + Seq::new((n - chars@.len()) as nat, |i: int| '0'));
    }
    push_chars(text, &chars);
    assert(text@ =~= before + zero_padded(chars@, width as nat));
}

/// Every digit reads back as its value.
proof fn lemma_digit_char(value: nat, radix: nat)
    requires
        value < radix <= 36,
    ensures
        digit_value(digit_char(value), radix) == Some(value),
        digit_char(value) != '+',
        '0' <= digit_char(value) <= '9' || 'a' <= digit_char(value) <= 'z',
{
}

/// What `digits` writes is never empty, holds only digits and lower-case
/// letters, and starts with no sign.
pub proof fn lemma_digits_chars(value: nat, radix: nat)
    requires
        2 <= radix <= 36,
    ensures
        digits(value, radix).len() >= 1,
        forall|i: int|
            0 <= i < digits(value, radix).len() ==> {
                let ch = #[trigger] digits(value, radix)[i];
                ('0' <= ch <= '9' || 'a' <= ch <= 'z') && ch != '+'
            },
    decreases value,
{
    if value < radix {
        lemma_digit_char(value, radix);
    } else {
        lemma_quotient_smaller(value, radix);
        lemma_digits_chars(value / radix, radix);
        lemma_digit_char(value % radix, radix);
    }
}

proof fn lemma_digits_value(value: nat, radix: nat)
    requires
        2 <= radix <= 36,
    ensures
        digits_value(digits(value, radix), radix) == Some(value),
    decreases value,
{
    let s = digits(value, radix);
    if value < radix {
        lemma_digit_char(value, radix);
        assert(s.drop_last() =~= Seq::<char>::empty());
        assert(digits_value(s.drop_last(), radix) == Some(0nat));
        assert(0 * radix == 0);
    } else {
        lemma_quotient_smaller(value, radix);
        lemma_digits_value(value / radix, radix);
        lemma_digit_char(value % radix, radix);
        assert(s.drop_last() =~= digits(value / radix, radix));
    }
}

/// A number that was written out reads back as itself.
pub proof fn law_number_round_trip(value: nat, radix: nat, max: nat)
    requires
        2 <= radix <= 36,
        value <= max,
    ensures
        number_value(digits(value, radix), radix, max) == Some(value),
{
    lemma_digits_chars(value, radix);
    lemma_digits_value(value, radix);
    assert(without_sign(digits(value, radix)) == digits(value, radix));
}

} // verus!
