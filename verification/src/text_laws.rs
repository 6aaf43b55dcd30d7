//! What lines, fields and numbers are: how they come together and apart.
use vstd::prelude::*;

use crate::number;
use crate::text;

verus! {

// ---------------------------------------------------------------------------
// Ends
// ---------------------------------------------------------------------------

/// The first `n` characters are white space, and the next, if any, is not.
proof fn lemma_trim_start_found(s: Seq<char>) -> (n: int)
    ensures
        0 <= n <= s.len(),
        text::trim_start(s) == s.skip(n),
        forall|i: int| 0 <= i < n ==> text::is_white(#[trigger] s[i]),
        n == s.len() || !text::is_white(s[n]),
    decreases s.len(),
{
    if s.len() > 0 && text::is_white(s[0]) {
        let n = lemma_trim_start_found(s.drop_first());
        assert(s.drop_first().skip(n) =~= s.skip(n + 1));
        assert forall|i: int| 0 <= i < n + 1 implies text::is_white(#[trigger] s[i]) by {
            if i > 0 {
                assert(s.drop_first()[i - 1] == s[i]);
            }
        }
        n + 1
    } else {
        assert(s.skip(0) =~= s);
        0
    }
}

proof fn lemma_trim_end_found(s: Seq<char>) -> (n: int)
    ensures
        0 <= n <= s.len(),
        text::trim_end(s) == s.take(n),
        forall|i: int| n <= i < s.len() ==> text::is_white(#[trigger] s[i]),
        n == 0 || !text::is_white(s[n - 1]),
    decreases s.len(),
{
    if s.len() > 0 && text::is_white(s.last()) {
        let n = lemma_trim_end_found(s.drop_last());
        assert(s.drop_last().take(n) =~= s.take(n));
        assert forall|i: int| n <= i < s.len() implies text::is_white(#[trigger] s[i]) by {
            if i < s.len() - 1 {
                assert(s.drop_last()[i] == s[i]);
            }
        }
        n
    } else {
        assert(s.take(s.len() as int) =~= s);
        s.len() as int
    }
}

/// Trimming takes off all the white space at both ends, and nothing else.
pub proof fn law_trimmed(before: Seq<char>, inner: Seq<char>, after: Seq<char>)
    requires
        forall|i: int| 0 <= i < before.len() ==> text::is_white(#[trigger] before[i]),
        forall|i: int| 0 <= i < after.len() ==> text::is_white(#[trigger] after[i]),
        inner.len() > 0 ==> !text::is_white(inner[0]) && !text::is_white(inner.last()),
    ensures
        text::trimmed(before + inner + after) == inner,
{
    let s = before + inner + after;
    let n = lemma_trim_start_found(s);
    let rest = s.skip(n);
    let m = lemma_trim_end_found(rest);
    let b = before.len() as int;
    let e = b + inner.len();
    if inner.len() == 0 {
        if n < s.len() {
            if n < b {
                assert(s[n] == before[n]);
            } else {
                assert(s[n] == after[n - b]);
            }
        }
        assert(rest.take(m) =~= inner);
    } else {
        assert(s[b] == inner[0]);
        if n < b {
            assert(s[n] == before[n]);
        }
        if n > b {
            assert(text::is_white(s[b]));
        }
        assert(n == b);
        assert(rest[e - b - 1] == inner.last());
        if m < e - b {
            assert(text::is_white(rest[e - b - 1]));
        }
        if m > e - b {
            assert(rest[m - 1] == after[m - 1 - (e - b)]);
        }
        assert(rest.take(m) =~= inner);
    }
}

proof fn lemma_unquote_start_found(s: Seq<char>, quote: char) -> (n: int)
    ensures
        0 <= n <= s.len(),
        text::unquote_start(s, quote) == s.skip(n),
        forall|i: int| 0 <= i < n ==> #[trigger] s[i] == quote,
        n == s.len() || s[n] != quote,
    decreases s.len(),
{
    if s.len() > 0 && s[0] == quote {
        let n = lemma_unquote_start_found(s.drop_first(), quote);
        assert(s.drop_first().skip(n) =~= s.skip(n + 1));
        assert forall|i: int| 0 <= i < n + 1 implies #[trigger] s[i] == quote by {
            if i > 0 {
                assert(s.drop_first()[i - 1] == s[i]);
            }
        }
        n + 1
    } else {
        assert(s.skip(0) =~= s);
        0
    }
}

proof fn lemma_unquote_end_found(s: Seq<char>, quote: char) -> (n: int)
    ensures
        0 <= n <= s.len(),
        text::unquote_end(s, quote) == s.take(n),
        forall|i: int| n <= i < s.len() ==> #[trigger] s[i] == quote,
        n == 0 || s[n - 1] != quote,
    decreases s.len(),
{
    if s.len() > 0 && s.last() == quote {
        let n = lemma_unquote_end_found(s.drop_last(), quote);
        assert(s.drop_last().take(n) =~= s.take(n));
        assert forall|i: int| n <= i < s.len() implies #[trigger] s[i] == quote by {
            if i < s.len() - 1 {
                assert(s.drop_last()[i] == s[i]);
            }
        }
        n
    } else {
        assert(s.take(s.len() as int) =~= s);
        s.len() as int
    }
}

/// All quotes at both ends are taken off, and nothing else.
pub proof fn law_unquoted(quote: char, inner: Seq<char>, n: nat, m: nat)
    requires
        inner.len() > 0 ==> inner[0] != quote && inner.last() != quote,
    ensures
        text::unquoted(
            Seq::new(n, |i: int| quote) + inner + Seq::new(m, |i: int| quote),
            quote,
        ) == inner,
{
    let s = Seq::new(n, |i: int| quote) + inner + Seq::new(m, |i: int| quote);
    let from = lemma_unquote_start_found(s, quote);
    let rest = s.skip(from);
    let to = lemma_unquote_end_found(rest, quote);
    let b = n as int;
    let len = inner.len() as int;
    if len == 0 {
        if from < s.len() {
            assert(s[from] == quote);
        }
        assert(rest.take(to) =~= inner);
    } else {
        assert(s[b] == inner[0]);
        if from < b {
            assert(s[from] == quote);
        }
        if from > b {
            assert(s[b] == quote);
        }
        assert(rest[len - 1] == inner.last());
        if to < len {
            assert(rest[len - 1] == quote);
        }
        if to > len {
            assert(rest[to - 1] == quote);
        }
        assert(rest.take(to) =~= inner);
    }
}

/// A prefix is taken off a text that starts with it, and off no other.
pub proof fn law_prefix(prefix: Seq<char>, rest: Seq<char>, other: Seq<char>)
    ensures
        text::without_prefix(prefix + rest, prefix) == Some(rest),
        text::without_prefix(other, prefix) matches Some(tail) ==> other == prefix + tail,
{
    assert((prefix + rest).skip(prefix.len() as int) =~= rest);
    assert(prefix.is_prefix_of(prefix + rest));
    if let Some(tail) = text::without_prefix(other, prefix) {
        assert(other =~= prefix + tail);
    }
}

/// The first place of a character is where nothing before it is that character.
pub proof fn law_position(before: Seq<char>, ch: char, after: Seq<char>)
    requires
        !before.contains(ch),
    ensures
        text::position(before + seq![ch] + after, ch) == before.len(),
        text::position(before, ch) == before.len(),
{
    let s = before + seq![ch] + after;
    let n = before.len() as int;
    text::lemma_position(s, ch);
    text::lemma_position(before, ch);
    assert(s[n] == ch);
    let p = text::position(s, ch) as int;
    if p < n {
        assert(s[p] == before[p]);
        assert(before.contains(ch));
    }
    let q = text::position(before, ch) as int;
    if q < n {
        assert(before.contains(before[q]));
    }
}

// ---------------------------------------------------------------------------
// Lines
// ---------------------------------------------------------------------------

/// A line ends at a line feed, and a carriage return right before that belongs to
/// the end; what stands behind the last line feed, if anything does, is a line as
/// it is.
pub proof fn law_lines(line: Seq<char>, rest: Seq<char>)
    requires
        !line.contains('\n'),
    ensures
        text::lines(Seq::empty()) == Seq::<Seq<char>>::empty(),
        line.len() > 0 ==> text::lines(line) == seq![line],
        (line.len() == 0 || line.last() != '\r') ==> text::lines(line + seq!['\n'] + rest)
            == seq![line] + text::lines(rest),
        text::lines(line + seq!['\r', '\n'] + rest) == seq![line] + text::lines(rest),
{
    law_position(line, '\n', rest);
    if line.len() > 0 {
        assert(text::after_line(line) == Seq::<char>::empty());
        assert(text::lines(text::after_line(line)) =~= Seq::<Seq<char>>::empty());
        assert(text::lines(line) =~= seq![line]);
    }
    let s = line + seq!['\n'] + rest;
    assert(s.take(line.len() as int) =~= line);
    assert(s.skip(line.len() as int + 1) =~= rest);
    let returned = line + seq!['\r'];
    let t = line + seq!['\r', '\n'] + rest;
    assert(t =~= returned + seq!['\n'] + rest);
    assert(!returned.contains('\n')) by {
        if returned.contains('\n') {
            let i = choose|i: int| 0 <= i < returned.len() && returned[i] == '\n';
            assert(i < line.len());
            assert(line[i] == '\n');
        }
    }
    law_position(returned, '\n', rest);
    assert(t.take(returned.len() as int) =~= returned);
    assert(returned.drop_last() =~= line);
    assert(t.skip(returned.len() as int + 1) =~= rest);
}

// ---------------------------------------------------------------------------
// Fields
// ---------------------------------------------------------------------------

/// White space before the first field makes no difference; a field ends at the
/// first white space, or with the text.
pub proof fn law_fields(word: Seq<char>, blank: char, rest: Seq<char>)
    requires
        text::is_white(blank),
        word.len() > 0,
        forall|i: int| 0 <= i < word.len() ==> !text::is_white(#[trigger] word[i]),
    ensures
        text::fields(Seq::empty()) == Seq::<Seq<char>>::empty(),
        text::fields(seq![blank] + rest) == text::fields(rest),
        text::fields(word) == seq![word],
        text::fields(word + seq![blank] + rest) == seq![word] + text::fields(rest),
{
    let spaced = seq![blank] + rest;
    assert(spaced.drop_first() =~= rest);
    assert(text::trim_start(spaced) == text::trim_start(rest));
    assert(text::fields(spaced) == text::fields(rest)) by {
        text::lemma_trim_start(spaced);
    }
    let empty = Seq::<char>::empty();
    assert(text::trim_start(word) == word);
    text::lemma_word_len(word);
    let n = text::word_len(word) as int;
    if n < word.len() {
        assert(text::is_white(word[n]));
    }
    assert(word.take(n) =~= word);
    assert(word.skip(n) =~= empty);
    assert(text::trim_start(empty) == empty);
    assert(text::fields(empty) =~= Seq::<Seq<char>>::empty());
    assert(text::fields(word) =~= seq![word]);
    let s = word + seq![blank] + rest;
    assert(s[0] == word[0]);
    assert(text::trim_start(s) == s);
    text::lemma_word_len(s);
    let m = text::word_len(s) as int;
    assert(s[word.len() as int] == blank);
    if m < word.len() {
        assert(s[m] == word[m]);
    }
    if m > word.len() {
        assert(!text::is_white(s[word.len() as int]));
    }
    assert(s.take(m) =~= word);
    assert(s.skip(m) =~= spaced);
}

// ---------------------------------------------------------------------------
// Numbers
// ---------------------------------------------------------------------------

/// The value of a digit: that of a decimal digit, or ten and up for the letters of
/// either case.
pub proof fn law_digit(ch: char, radix: nat)
    requires
        2 <= radix <= 36,
    ensures
        '0' <= ch <= '9' && ch as nat - 48 < radix ==> number::digit_value(ch, radix) == Some(
            (ch as nat - 48) as nat,
        ),
        'a' <= ch <= 'z' && ch as nat - 87 < radix ==> number::digit_value(ch, radix) == Some(
            (ch as nat - 87) as nat,
        ),
        'A' <= ch <= 'Z' && ch as nat - 55 < radix ==> number::digit_value(ch, radix) == Some(
            (ch as nat - 55) as nat,
        ),
        !('0' <= ch <= '9' && ch as nat - 48 < radix) && !('a' <= ch <= 'z' && ch as nat - 87
            < radix) && !('A' <= ch <= 'Z' && ch as nat - 55 < radix) ==> number::digit_value(
            ch,
            radix,
        ) is None,
{
}

/// A number starts with a digit, each further digit makes it so many times larger
/// and is added to it, and none is larger than what there is room for. One plus
/// sign before it makes no difference.
pub proof fn law_number(s: Seq<char>, ch: char, radix: nat, max: nat)
    requires
        2 <= radix <= 36,
    ensures
        number::number_value(Seq::empty(), radix, max) is None,
        number::number_value(seq![ch], radix, max) == (match number::digit_value(ch, radix) {
            Some(digit) if digit <= max => Some(digit),
            _ => None,
        }),
        s.len() > 0 && s != seq!['+'] ==> number::number_value(s.push(ch), radix, max) == (match (
            number::number_value(s, radix, max),
            number::digit_value(ch, radix),
        ) {
            (Some(high), Some(low)) if high * radix + low <= max => Some(high * radix + low),
            _ => None,
        }),
        s.len() > 0 && s[0] != '+' ==> number::number_value(seq!['+'] + s, radix, max)
            == number::number_value(s, radix, max),
        s.len() > 0 && s[0] == '+' ==> number::number_value(seq!['+'] + s, radix, max) is None,
{
    let one = seq![ch];
    assert(one.drop_last() =~= Seq::<char>::empty());
    assert(one.drop_first() =~= Seq::<char>::empty());
    assert(number::digits_value(Seq::<char>::empty(), radix) == Some(0nat));
    assert(0 * radix == 0) by (nonlinear_arith);
    if s.len() > 0 {
        let signed = seq!['+'] + s;
        assert(signed.drop_first() =~= s);
        if s[0] == '+' {
            number::lemma_digits_grow(s, radix, 1);
            let head = s.take(1);
            assert(head.drop_last() =~= Seq::<char>::empty());
            assert(head.last() == '+');
            assert(number::digits_value(head, radix) is None);
        }
        if s != seq!['+'] {
            let longer = s.push(ch);
            let digits = number::without_sign(s);
            assert(digits.len() > 0) by {
                if s[0] == '+' && s.len() == 1 {
                    assert(s =~= seq!['+']);
                }
            }
            assert(number::without_sign(longer) =~= digits.push(ch));
            assert(digits.push(ch).drop_last() =~= digits);
            match (number::digits_value(digits, radix), number::digit_value(ch, radix)) {
                (Some(high), Some(low)) => {
                    assert(high <= high * radix + low) by (nonlinear_arith)
                        requires
                            radix >= 1,
                    ;
                },
                _ => {},
            }
        }
    }
}

/// What a number is written as is short and plain: it starts with no zero unless
/// it is zero, holds only decimal digits and small letters, and reads back.
pub proof fn law_number_written(value: nat, radix: nat)
    requires
        2 <= radix <= 36,
    ensures
        number::digits(value, radix).len() > 0,
        value > 0 ==> number::digits(value, radix)[0] != '0',
        value == 0 ==> number::digits(value, radix) == seq!['0'],
        forall|i: int|
            0 <= i < number::digits(value, radix).len() ==> {
                ||| '0' <= #[trigger] number::digits(value, radix)[i] <= '9'
                ||| 'a' <= number::digits(value, radix)[i] <= 'z'
            },
        number::number_value(number::digits(value, radix), radix, value) == Some(value),
        number::decimal(value) == number::digits(value, 10),
        number::hexadecimal(value) == number::digits(value, 16),
    decreases value,
{
    number::lemma_digits_chars(value, radix);
    number::law_number_round_trip(value, radix, value);
    if value >= radix {
        number::lemma_quotient_smaller(value, radix);
        assert(value / radix > 0) by (nonlinear_arith)
            requires
                value >= radix,
                radix >= 2,
        ;
        law_number_written(value / radix, radix);
    }
}

/// A padded number is as wide as asked for, or as wide as it is; zeros stand before
/// it.
pub proof fn law_padded(s: Seq<char>, width: nat)
    ensures
        number::zero_padded(s, width).len() == if s.len() >= width {
            s.len()
        } else {
            width
        },
        number::zero_padded(s, width).skip(number::zero_padded(s, width).len() - s.len()) == s,
        forall|i: int|
            0 <= i < number::zero_padded(s, width).len() - s.len()
                ==> #[trigger] number::zero_padded(s, width)[i] == '0',
{
    let padded = number::zero_padded(s, width);
    assert(padded.skip(padded.len() - s.len()) =~= s);
}

/// An attribute holds a number between white space: hexadecimal where it starts
/// with `0x`, and decimal where it does not.
pub proof fn law_attribute(before: Seq<char>, inner: Seq<char>, after: Seq<char>)
    requires
        forall|i: int| 0 <= i < before.len() ==> text::is_white(#[trigger] before[i]),
        forall|i: int| 0 <= i < after.len() ==> text::is_white(#[trigger] after[i]),
        inner.len() > 0 ==> !text::is_white(inner[0]) && !text::is_white(inner.last()),
    ensures
        inner.len() >= 2 && inner[0] == '0' && inner[1] == 'x' ==> number::attribute_value(
            before + inner + after,
        ) == number::number_value(inner.skip(2), 16, 0xffff_ffff_ffff_ffff),
        !(inner.len() >= 2 && inner[0] == '0' && inner[1] == 'x') ==> number::attribute_value(
            before + inner + after,
        ) == number::number_value(inner, 10, 0xffff_ffff_ffff_ffff),
{
    law_trimmed(before, inner, after);
    reveal_strlit("0x");
    let prefix = "0x"@;
    assert(prefix.len() == 2 && prefix[0] == '0' && prefix[1] == 'x');
    if inner.len() >= 2 && inner[0] == '0' && inner[1] == 'x' {
        assert(inner =~= prefix + inner.skip(2));
        law_prefix(prefix, inner.skip(2), inner);
    } else {
        law_prefix(prefix, inner, inner);
        if let Some(tail) = text::without_prefix(inner, prefix) {
            assert(inner[0] == (prefix + tail)[0]);
            assert(inner[1] == (prefix + tail)[1]);
        }
    }
}

/// White space is the blank, the tab, the ends of lines and pages, and what Unicode
/// counts with them.
pub proof fn law_white_space(ch: char)
    ensures
        text::is_white(ch) <==> {
            let code = ch as int;
            ||| 9 <= code <= 13
            ||| code == 32
            ||| code == 0x85
            ||| code == 0xa0
            ||| code == 0x1680
            ||| 0x2000 <= code <= 0x200a
            ||| code == 0x2028
            ||| code == 0x2029
            ||| code == 0x202f
            ||| code == 0x205f
            ||| code == 0x3000
        },
{
}

} // verus!
