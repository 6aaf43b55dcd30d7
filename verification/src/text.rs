//! Text primitives: characters of a string, white space, lines, fields and numbers.
//!
//! Every function works on the characters of a text as a sequence. The spec
//! functions say what a line, a field or a number is; the executable functions
//! are proved against them.
use vstd::prelude::*;
use vstd::slice::slice_subrange;

verus! {

/// `String::push` appends the character to the end of the string.
pub assume_specification[ String::push ](string: &mut String, ch: char)
    ensures
        final(string)@ == old(string)@.push(ch),
;

/// The characters of `text`, in order.
pub fn to_chars(text: &str) -> (chars: Vec<char>)
    ensures
        chars@ == text@,
{
    let mut chars: Vec<char> = Vec::new();
    for ch in it: text.chars()
        invariant
            it.seq() == text@,
            chars@ == text@.take(it.index() as int),
    {
        chars.push(ch);
    }
    chars
}

/// Appends `chars` to `text`.
pub fn push_chars(text: &mut String, chars: &[char])
    ensures
        final(text)@ == old(text)@ + chars@,
{
    let ghost before = text@;
    assert(before + chars@.take(0) =~= before);
    for i in 0..chars.len()
        invariant
            text@ == before + chars@.take(i as int),
    {
        text.push(chars[i]);
        assert(before + chars@.take(i + 1) =~= (before + chars@.take(i as int)).push(
            chars@[i as int],
        ));
    }
    assert(chars@.take(chars@.len() as int) =~= chars@);
}

/// The string that consists of `chars`.
pub fn to_text(chars: &[char]) -> (text: String)
    ensures
        text@ == chars@,
{
    let mut text = String::new();
    push_chars(&mut text, chars);
    assert(Seq::<char>::empty() + chars@ =~= chars@);
    text
}

/// Whether two character sequences are the same.
pub fn same_chars(a: &[char], b: &[char]) -> (same: bool)
    ensures
        same == (a@ == b@),
{
    if a.len() != b.len() {
        return false;
    }
    for i in 0..a.len()
        invariant
            a.len() == b.len(),
            forall|j: int| 0 <= j < i ==> a@[j] == b@[j],
    {
        if a[i] != b[i] {
            return false;
        }
    }
    assert(a@ =~= b@);
    true
}

/// Whether two texts are the same.
pub fn same_text(a: &str, b: &str) -> (same: bool)
    ensures
        same == (a@ == b@),
{
    same_chars(&to_chars(a), &to_chars(b))
}

// ---------------------------------------------------------------------------
// White space
// ---------------------------------------------------------------------------

/// The characters with the Unicode property `White_Space`.
pub open spec fn is_white(ch: char) -> bool {
    ||| '\u{9}' <= ch <= '\u{d}'
    ||| ch == '\u{20}'
    ||| ch == '\u{85}'
    ||| ch == '\u{a0}'
    ||| ch == '\u{1680}'
    ||| '\u{2000}' <= ch <= '\u{200a}'
    ||| ch == '\u{2028}'
    ||| ch == '\u{2029}'
    ||| ch == '\u{202f}'
    ||| ch == '\u{205f}'
    ||| ch == '\u{3000}'
}

/// Whether `ch` is white space.
pub fn is_whitespace(ch: char) -> (white: bool)
    ensures
        white == is_white(ch),
{
    ('\u{9}' <= ch && ch <= '\u{d}') || ch == '\u{20}' || ch == '\u{85}' || ch == '\u{a0}' || ch
        == '\u{1680}' || ('\u{2000}' <= ch && ch <= '\u{200a}') || ch == '\u{2028}' || ch
        == '\u{2029}' || ch == '\u{202f}' || ch == '\u{205f}' || ch == '\u{3000}'
}

/// `s` without the white space it starts with.
pub open spec fn trim_start(s: Seq<char>) -> Seq<char>
    decreases s.len(),
{
    if s.len() > 0 && is_white(s[0]) {
        trim_start(s.drop_first())
    } else {
        s
    }
}

/// `s` without the white space it ends with.
pub open spec fn trim_end(s: Seq<char>) -> Seq<char>
    decreases s.len(),
{
    if s.len() > 0 && is_white(s.last()) {
        trim_end(s.drop_last())
    } else {
        s
    }
}

/// `s` without the white space around it.
pub open spec fn trimmed(s: Seq<char>) -> Seq<char> {
    trim_end(trim_start(s))
}

proof fn lemma_trim_start_at(s: Seq<char>, n: int)
    requires
        0 <= n <= s.len(),
        forall|j: int| 0 <= j < n ==> is_white(s[j]),
        n == s.len() || !is_white(s[n]),
    ensures
        trim_start(s) == s.skip(n),
    decreases n,
{
    if n == 0 {
        assert(s.skip(0) =~= s);
    } else {
        lemma_trim_start_at(s.drop_first(), n - 1);
        assert(s.drop_first().skip(n - 1) =~= s.skip(n));
    }
}

/// What remains after the leading white space starts with no white space.
pub proof fn lemma_trim_start(s: Seq<char>)
    ensures
        trim_start(s).len() <= s.len(),
        trim_start(s).len() > 0 ==> !is_white(trim_start(s)[0]),
    decreases s.len(),
{
    if s.len() > 0 && is_white(s[0]) {
        lemma_trim_start(s.drop_first());
    }
}

proof fn lemma_trim_end_at(s: Seq<char>, n: int)
    requires
        0 <= n <= s.len(),
        forall|j: int| n <= j < s.len() ==> is_white(s[j]),
        n == 0 || !is_white(s[n - 1]),
    ensures
        trim_end(s) == s.take(n),
    decreases s.len() - n,
{
    if n == s.len() {
        assert(s.take(n) =~= s);
    } else {
        lemma_trim_end_at(s.drop_last(), n);
        assert(s.drop_last().take(n) =~= s.take(n));
    }
}

/// Leaves out the leading white space.
pub fn skip_whitespace(s: &[char]) -> (rest: &[char])
    ensures
        rest@ == trim_start(s@),
{
    let mut n: usize = 0;
    while n < s.len() && is_whitespace(s[n])
        invariant
            n <= s.len(),
            forall|j: int| 0 <= j < n ==> is_white(s@[j]),
        decreases s.len() - n,
    {
        n += 1;
    }
    proof {
        lemma_trim_start_at(s@, n as int);
    }
    slice_subrange(s, n, s.len())
}

/// Leaves out the white space at both ends.
pub fn trim(s: &[char]) -> (inner: &[char])
    ensures
        inner@ == trimmed(s@),
{
    let rest = skip_whitespace(s);
    let mut n: usize = rest.len();
    while n > 0 && is_whitespace(rest[n - 1])
        invariant
            n <= rest.len(),
            forall|j: int| n <= j < rest.len() ==> is_white(rest@[j]),
        decreases n,
    {
        n -= 1;
    }
    proof {
        lemma_trim_end_at(rest@, n as int);
    }
    slice_subrange(rest, 0, n)
}

// ---------------------------------------------------------------------------
// Quotes
// ---------------------------------------------------------------------------

/// `s` without the `quote` characters it starts with.
pub open spec fn unquote_start(s: Seq<char>, quote: char) -> Seq<char>
    decreases s.len(),
{
    if s.len() > 0 && s[0] == quote {
        unquote_start(s.drop_first(), quote)
    } else {
        s
    }
}

/// `s` without the `quote` characters it ends with.
pub open spec fn unquote_end(s: Seq<char>, quote: char) -> Seq<char>
    decreases s.len(),
{
    if s.len() > 0 && s.last() == quote {
        unquote_end(s.drop_last(), quote)
    } else {
        s
    }
}

/// `s` without the `quote` characters around it.
pub open spec fn unquoted(s: Seq<char>, quote: char) -> Seq<char> {
    unquote_end(unquote_start(s, quote), quote)
}

proof fn lemma_unquote_start_at(s: Seq<char>, quote: char, n: int)
    requires
        0 <= n <= s.len(),
        forall|j: int| 0 <= j < n ==> s[j] == quote,
        n == s.len() || s[n] != quote,
    ensures
        unquote_start(s, quote) == s.skip(n),
    decreases n,
{
    if n == 0 {
        assert(s.skip(0) =~= s);
    } else {
        lemma_unquote_start_at(s.drop_first(), quote, n - 1);
        assert(s.drop_first().skip(n - 1) =~= s.skip(n));
    }
}

proof fn lemma_unquote_end_at(s: Seq<char>, quote: char, n: int)
    requires
        0 <= n <= s.len(),
        forall|j: int| n <= j < s.len() ==> s[j] == quote,
        n == 0 || s[n - 1] != quote,
    ensures
        unquote_end(s, quote) == s.take(n),
    decreases s.len() - n,
{
    if n == s.len() {
        assert(s.take(n) =~= s);
    } else {
        lemma_unquote_end_at(s.drop_last(), quote, n);
        assert(s.drop_last().take(n) =~= s.take(n));
    }
}

/// Leaves out the `quote` characters at both ends.
pub fn trim_matches(s: &[char], quote: char) -> (inner: &[char])
    ensures
        inner@ == unquoted(s@, quote),
{
    let mut from: usize = 0;
    while from < s.len() && s[from] == quote
        invariant
            from <= s.len(),
            forall|j: int| 0 <= j < from ==> s@[j] == quote,
        decreases s.len() - from,
    {
        from += 1;
    }
    proof {
        lemma_unquote_start_at(s@, quote, from as int);
    }
    let rest = slice_subrange(s, from, s.len());
    let mut n: usize = rest.len();
    while n > 0 && rest[n - 1] == quote
        invariant
            n <= rest.len(),
            forall|j: int| n <= j < rest.len() ==> rest@[j] == quote,
        decreases n,
    {
        n -= 1;
    }
    proof {
        lemma_unquote_end_at(rest@, quote, n as int);
    }
    slice_subrange(rest, 0, n)
}

// ---------------------------------------------------------------------------
// Lines and fields
// ---------------------------------------------------------------------------

/// Where `ch` first stands in `s`; the length of `s` where it does not stand in it.
pub open spec fn position(s: Seq<char>, ch: char) -> nat
    decreases s.len(),
{
    if s.len() == 0 || s[0] == ch {
        0
    } else {
        1 + position(s.drop_first(), ch)
    }
}

/// `position` is the first place of the character.
pub proof fn lemma_position(s: Seq<char>, ch: char)
    ensures
        position(s, ch) <= s.len(),
        position(s, ch) < s.len() ==> s[position(s, ch) as int] == ch,
        forall|j: int| 0 <= j < position(s, ch) ==> s[j] != ch,
    decreases s.len(),
{
    if s.len() > 0 && s[0] != ch {
        lemma_position(s.drop_first(), ch);
        assert forall|j: int| 0 <= j < position(s, ch) implies s[j] != ch by {
            if j > 0 {
                assert(s[j] == s.drop_first()[j - 1]);
            }
        }
    }
}

/// Finds the first `ch` in `s`; the length of `s` where there is none.
pub fn find(s: &[char], ch: char) -> (at: usize)
    ensures
        at == position(s@, ch),
{
    let mut at: usize = 0;
    while at < s.len() && s[at] != ch
        invariant
            at <= s.len(),
            forall|j: int| 0 <= j < at ==> s@[j] != ch,
        decreases s.len() - at,
    {
        at += 1;
    }
    proof {
        lemma_position(s@, ch);
    }
    at
}

/// `line` without the carriage return it ends with.
pub open spec fn strip_carriage_return(line: Seq<char>) -> Seq<char> {
    if line.len() > 0 && line.last() == '\r' {
        line.drop_last()
    } else {
        line
    }
}

/// The first line of a text, without its line ending. A line ends with a line
/// feed, which a carriage return may precede; what follows the last line feed
/// is a line too, and keeps a carriage return it ends with.
pub open spec fn head_line(s: Seq<char>) -> Seq<char> {
    let at = position(s, '\n');
    if at < s.len() {
        strip_carriage_return(s.take(at as int))
    } else {
        s
    }
}

/// What follows the first line of a text.
pub open spec fn after_line(s: Seq<char>) -> Seq<char> {
    let at = position(s, '\n');
    if at < s.len() {
        s.skip(at as int + 1)
    } else {
        Seq::empty()
    }
}

/// The lines of a text.
pub open spec fn lines(s: Seq<char>) -> Seq<Seq<char>>
    decreases s.len(),
{
    if s.len() == 0 {
        Seq::empty()
    } else {
        seq![head_line(s)] + lines(after_line(s))
    }
}

/// Splits the first line off.
pub fn split_line(s: &[char]) -> (parts: (&[char], &[char]))
    requires
        s@.len() > 0,
    ensures
        parts.0@ == head_line(s@),
        parts.1@ == after_line(s@),
        parts.1@.len() < s@.len(),
{
    let at = find(s, '\n');
    if at < s.len() {
        let end: usize = if at > 0 && s[at - 1] == '\r' {
            at - 1
        } else {
            at
        };
        assert(s@.subrange(0, end as int) =~= head_line(s@));
        (slice_subrange(s, 0, end), slice_subrange(s, at + 1, s.len()))
    } else {
        assert(s@.subrange(s@.len() as int, s@.len() as int) =~= Seq::<char>::empty());
        (s, slice_subrange(s, s.len(), s.len()))
    }
}

/// How many characters stand in `s` before its first white space.
pub open spec fn word_len(s: Seq<char>) -> nat
    decreases s.len(),
{
    if s.len() == 0 || is_white(s[0]) {
        0
    } else {
        1 + word_len(s.drop_first())
    }
}

/// `word_len` is the length of the longest start that holds no white space.
pub proof fn lemma_word_len(s: Seq<char>)
    ensures
        word_len(s) <= s.len(),
        word_len(s) < s.len() ==> is_white(s[word_len(s) as int]),
        forall|j: int| 0 <= j < word_len(s) ==> !is_white(s[j]),
    decreases s.len(),
{
    if s.len() > 0 && !is_white(s[0]) {
        lemma_word_len(s.drop_first());
        assert forall|j: int| 0 <= j < word_len(s) implies !is_white(s[j]) by {
            if j > 0 {
                assert(s[j] == s.drop_first()[j - 1]);
            }
        }
    }
}

/// The fields of a text: its longest parts without white space.
pub open spec fn fields(s: Seq<char>) -> Seq<Seq<char>>
    decreases s.len(),
    via fields_decreases
{
    let t = trim_start(s);
    if t.len() == 0 {
        Seq::empty()
    } else {
        let n = word_len(t) as int;
        seq![t.take(n)] + fields(t.skip(n))
    }
}

#[via_fn]
proof fn fields_decreases(s: Seq<char>) {
    lemma_trim_start(s);
    lemma_word_len(trim_start(s));
}

/// Splits the first field off, where there is one.
pub fn split_field(s: &[char]) -> (parts: Option<(&[char], &[char])>)
    ensures
        match parts {
            Some((field, rest)) => {
                &&& fields(s@) == seq![field@] + fields(rest@)
                &&& rest@.len() < s@.len()
            },
            None => fields(s@) == Seq::<Seq<char>>::empty(),
        },
{
    proof {
        lemma_trim_start(s@);
    }
    let t = skip_whitespace(s);
    if t.len() == 0 {
        return None;
    }
    let mut n: usize = 0;
    while n < t.len() && !is_whitespace(t[n])
        invariant
            n <= t.len(),
            forall|j: int| 0 <= j < n ==> !is_white(t@[j]),
        decreases t.len() - n,
    {
        n += 1;
    }
    proof {
        lemma_word_len(t@);
    }
    Some((slice_subrange(t, 0, n), slice_subrange(t, n, t.len())))
}

/// `prefix` taken off the front of `s`, where `s` starts with it.
pub open spec fn without_prefix(s: Seq<char>, prefix: Seq<char>) -> Option<Seq<char>> {
    if prefix.is_prefix_of(s) {
        Some(s.skip(prefix.len() as int))
    } else {
        None
    }
}

/// Takes `prefix` off the front of `s`.
pub fn strip_prefix<'a>(s: &'a [char], prefix: &str) -> (rest: Option<&'a [char]>)
    ensures
        match rest {
            Some(r) => without_prefix(s@, prefix@) == Some(r@),
            None => without_prefix(s@, prefix@) is None,
        },
{
    let p = to_chars(prefix);
    if p.len() <= s.len() {
        let head = slice_subrange(s, 0, p.len());
        if same_chars(head, &p) {
            assert(prefix@.is_prefix_of(s@));
            return Some(slice_subrange(s, p.len(), s.len()));
        }
        assert(s@.take(prefix@.len() as int) =~= head@);
    }
    None
}

} // verus!
