//! The page that shows the partitions.
use vstd::prelude::*;
use vstd::slice::slice_subrange;

use crate::display;
use crate::display::format_size;
use crate::mtd;
use crate::mtd::Partition;
use crate::number;
use crate::number::{push_decimal, push_padded_hexadecimal};
use crate::text::{same_chars, to_chars, to_text};

verus! {

// ---------------------------------------------------------------------------
// Escaping
// ---------------------------------------------------------------------------

/// A character as it stands in HTML text.
pub open spec fn escaped_char(ch: char) -> Seq<char> {
    if ch == '&' {
        "&amp;"@
    } else if ch == '<' {
        "&lt;"@
    } else if ch == '>' {
        "&gt;"@
    } else if ch == '"' {
        "&quot;"@
    } else {
        seq![ch]
    }
}

/// A text as it stands in HTML text.
pub open spec fn escaped(s: Seq<char>) -> Seq<char>
    decreases s.len(),
{
    if s.len() == 0 {
        Seq::empty()
    } else {
        escaped(s.drop_last()) + escaped_char(s.last())
    }
}

pub fn html_escape(source: &str) -> (html: String)
    ensures
        html@ == escaped(source@),
{
    let chars = to_chars(source);
    let mut html = "".to_string();
    assert(html@ =~= Seq::<char>::empty()) by {
        reveal_strlit("");
    }
    assert(chars@.take(0) =~= Seq::<char>::empty());
    for i in 0..chars.len()
        invariant
            html@ == escaped(chars@.take(i as int)),
    {
        let ch = chars[i];
        proof {
            assert(chars@.take(i + 1).drop_last() =~= chars@.take(i as int));
            assert(chars@.take(i + 1).last() == ch);
        }
        if ch == '&' {
            html.append("&amp;");
        } else if ch == '<' {
            html.append("&lt;");
        } else if ch == '>' {
            html.append("&gt;");
        } else if ch == '"' {
            html.append("&quot;");
        } else {
            html.push(ch);
        }
        assert(html@ =~= escaped(chars@.take(i as int)) + escaped_char(ch));
    }
    assert(chars@.take(chars@.len() as int) =~= chars@);
    html
}

/// `s` with `with` in place of every `ch`.
pub open spec fn substituted(s: Seq<char>, ch: char, with: Seq<char>) -> Seq<char>
    decreases s.len(),
{
    if s.len() == 0 {
        Seq::empty()
    } else if s.last() == ch {
        substituted(s.drop_last(), ch, with) + with
    } else {
        substituted(s.drop_last(), ch, with).push(s.last())
    }
}

proof fn lemma_substituted_joined(a: Seq<char>, b: Seq<char>, ch: char, with: Seq<char>)
    ensures
        substituted(a + b, ch, with) == substituted(a, ch, with) + substituted(b, ch, with),
    decreases b.len(),
{
    if b.len() == 0 {
        assert(a + b =~= a);
        assert(substituted(a, ch, with) + substituted(b, ch, with) =~= substituted(a, ch, with));
    } else {
        lemma_substituted_joined(a, b.drop_last(), ch, with);
        assert((a + b).drop_last() =~= a + b.drop_last());
        assert((a + b).last() == b.last());
        assert(substituted(a + b, ch, with) =~= substituted(a, ch, with) + substituted(
            b,
            ch,
            with,
        ));
    }
}

/// Nothing is put in place of a character that does not occur.
proof fn lemma_substituted_absent(s: Seq<char>, ch: char, with: Seq<char>)
    requires
        !s.contains(ch),
    ensures
        substituted(s, ch, with) == s,
    decreases s.len(),
{
    if s.len() > 0 {
        assert(s[s.len() - 1] != ch);
        assert(!s.drop_last().contains(ch)) by {
            if s.drop_last().contains(ch) {
                let i = choose|i: int| 0 <= i < s.drop_last().len() && s.drop_last()[i] == ch;
                assert(s[i] == ch);
            }
        }
        lemma_substituted_absent(s.drop_last(), ch, with);
        assert(s.drop_last().push(s.last()) =~= s);
    }
}

proof fn lemma_substituted_char(c: char, ch: char, with: Seq<char>)
    ensures
        substituted(seq![c], ch, with) == if c == ch {
            with
        } else {
            seq![c]
        },
{
    let s = seq![c];
    assert(s.drop_last() =~= Seq::<char>::empty());
    assert(substituted(s.drop_last(), ch, with) =~= Seq::<char>::empty());
    assert(Seq::<char>::empty() + with =~= with);
    assert(Seq::<char>::empty().push(c) =~= s);
}

/// The four characters put in place one after another.
pub open spec fn substituted_in_turn(s: Seq<char>) -> Seq<char> {
    substituted(
        substituted(
            substituted(substituted(s, '&', "&amp;"@), '<', "&lt;"@),
            '>',
            "&gt;"@,
        ),
        '"',
        "&quot;"@,
    )
}

proof fn lemma_turn_joined(a: Seq<char>, b: Seq<char>)
    ensures
        substituted_in_turn(a + b) == substituted_in_turn(a) + substituted_in_turn(b),
{
    let (a1, b1) = (substituted(a, '&', "&amp;"@), substituted(b, '&', "&amp;"@));
    let (a2, b2) = (substituted(a1, '<', "&lt;"@), substituted(b1, '<', "&lt;"@));
    let (a3, b3) = (substituted(a2, '>', "&gt;"@), substituted(b2, '>', "&gt;"@));
    lemma_substituted_joined(a, b, '&', "&amp;"@);
    lemma_substituted_joined(a1, b1, '<', "&lt;"@);
    lemma_substituted_joined(a2, b2, '>', "&gt;"@);
    lemma_substituted_joined(a3, b3, '"', "&quot;"@);
}

proof fn lemma_turn_char(c: char)
    ensures
        substituted_in_turn(seq![c]) == escaped_char(c),
{
    reveal_strlit("&amp;");
    reveal_strlit("&lt;");
    reveal_strlit("&gt;");
    reveal_strlit("&quot;");
    lemma_substituted_char(c, '&', "&amp;"@);
    lemma_substituted_char(c, '<', "&lt;"@);
    lemma_substituted_char(c, '>', "&gt;"@);
    lemma_substituted_char(c, '"', "&quot;"@);
    lemma_substituted_absent("&amp;"@, '<', "&lt;"@);
    lemma_substituted_absent("&amp;"@, '>', "&gt;"@);
    lemma_substituted_absent("&amp;"@, '"', "&quot;"@);
    lemma_substituted_absent("&lt;"@, '>', "&gt;"@);
    lemma_substituted_absent("&lt;"@, '"', "&quot;"@);
    lemma_substituted_absent("&gt;"@, '"', "&quot;"@);
}

/// Escaping character by character is the same as putting the ampersand's
/// entity in place first and those of the other three after it.
pub proof fn law_escape_in_turn(s: Seq<char>)
    ensures
        escaped(s) == substituted_in_turn(s),
    decreases s.len(),
{
    if s.len() == 0 {
        assert(substituted_in_turn(s) =~= Seq::<char>::empty());
    } else {
        law_escape_in_turn(s.drop_last());
        assert(s =~= s.drop_last() + seq![s.last()]);
        lemma_turn_joined(s.drop_last(), seq![s.last()]);
        lemma_turn_char(s.last());
    }
}

/// Escaped text holds nothing that opens or closes a tag or a quoted value.
pub proof fn law_escaped_is_inert(s: Seq<char>, i: int)
    requires
        0 <= i < escaped(s).len(),
    ensures
        escaped(s)[i] != '<',
        escaped(s)[i] != '>',
        escaped(s)[i] != '"',
    decreases s.len(),
{
    reveal_strlit("&amp;");
    reveal_strlit("&lt;");
    reveal_strlit("&gt;");
    reveal_strlit("&quot;");
    let before = escaped(s.drop_last());
    if i < before.len() {
        law_escaped_is_inert(s.drop_last(), i);
    } else {
        assert(escaped(s)[i] == escaped_char(s.last())[i - before.len()]);
    }
}

// ---------------------------------------------------------------------------
// The table
// ---------------------------------------------------------------------------

/// A physical offset as it is shown: eight hexadecimal digits or more, or a dash
/// where it is not known.
pub open spec fn offset_text(offset: Option<u64>) -> Seq<char> {
    match offset {
        Some(value) => "0x"@ + number::zero_padded(number::hexadecimal(value as nat), 8),
        None => "—"@,
    }
}

/// The row of a partition.
pub open spec fn row_text(partition: mtd::PartitionModel) -> Seq<char> {
    "<tr><td>mtd"@ + number::decimal(partition.index as nat) + "</td><td>"@ + escaped(
        partition.name,
    ) + "</td><td>"@ + display::size_text(partition.size as int) + "</td><td>"@
        + display::size_text(partition.erase_size as int) + "</td><td>"@ + offset_text(
        partition.offset,
    ) + "</td><td><a data-t=\"download\" href=\"/backup/"@ + number::decimal(
        partition.index as nat,
    ) + "\">Download</a></td></tr>"@
}

/// The rows of partitions, one behind the other.
pub open spec fn rows_text(partitions: Seq<mtd::PartitionModel>) -> Seq<char>
    decreases partitions.len(),
{
    if partitions.len() == 0 {
        Seq::empty()
    } else {
        rows_text(partitions.drop_last()) + row_text(partitions.last())
    }
}

/// The table of partitions.
pub open spec fn table_text(partitions: Seq<mtd::PartitionModel>) -> Seq<char> {
    if partitions.len() == 0 {
        "<p class=\"hint\" data-t=\"noPartitions\">No MTD partitions found.</p>"@
    } else {
        "<table><thead><tr><th data-t=\"device\">Device</th><th data-t=\"name\">Name</th><th data-t=\"size\">Size</th><th data-t=\"eraseBlock\">Erase block</th><th data-t=\"physicalOffset\">Physical offset</th><th></th></tr></thead><tbody>"@
            + rows_text(partitions) + "</tbody></table>"@
    }
}

fn push_offset(html: &mut String, offset: Option<u64>)
    ensures
        final(html)@ == old(html)@ + offset_text(offset),
{
    let ghost before = html@;
    match offset {
        Some(value) => {
            html.append("0x");
            push_padded_hexadecimal(html, value, 8);
        },
        None => {
            html.append("—");
        },
    }
    assert(html@ =~= before + offset_text(offset));
}

fn push_row(html: &mut String, partition: &Partition)
    ensures
        final(html)@ == old(html)@ + row_text(partition@),
{
    let ghost before = html@;
    html.append("<tr><td>mtd");
    push_decimal(html, partition.index as u64);
    html.append("</td><td>");
    html.append(html_escape(partition.name.as_str()).as_str());
    html.append("</td><td>");
    html.append(format_size(partition.size).as_str());
    html.append("</td><td>");
    html.append(format_size(partition.erase_size).as_str());
    html.append("</td><td>");
    push_offset(html, partition.offset);
    html.append("</td><td><a data-t=\"download\" href=\"/backup/");
    push_decimal(html, partition.index as u64);
    html.append("\">Download</a></td></tr>");
    assert(html@ =~= before + row_text(partition@));
}

pub fn partition_table(partitions: &[Partition]) -> (html: String)
    ensures
        html@ == table_text(mtd::models(partitions@)),
{
    if partitions.len() == 0 {
        return "<p class=\"hint\" data-t=\"noPartitions\">No MTD partitions found.</p>".to_string();
    }
    let mut html = "<table><thead><tr><th data-t=\"device\">Device</th><th data-t=\"name\">Name</th><th data-t=\"size\">Size</th><th data-t=\"eraseBlock\">Erase block</th><th data-t=\"physicalOffset\">Physical offset</th><th></th></tr></thead><tbody>".to_string();
    let ghost heading = html@;
    let ghost all = mtd::models(partitions@);
    assert(html@ =~= heading + rows_text(all.take(0)));
    for i in 0..partitions.len()
        invariant
            all == mtd::models(partitions@),
            html@ == heading + rows_text(all.take(i as int)),
    {
        proof {
            assert(all.take(i + 1).drop_last() =~= all.take(i as int));
            assert(all.take(i + 1).last() == partitions@[i as int]@);
        }
        push_row(&mut html, &partitions[i]);
        assert(html@ =~= heading + rows_text(all.take(i + 1)));
    }
    assert(all.take(partitions@.len() as int) =~= all);
    html.append("</tbody></table>");
    html
}

// ---------------------------------------------------------------------------
// The page
// ---------------------------------------------------------------------------

/// `s` with `with` in place of every `pattern`, from the front on.
pub open spec fn replaced(s: Seq<char>, pattern: Seq<char>, with: Seq<char>) -> Seq<char>
    decreases s.len(),
{
    if pattern.len() == 0 || s.len() < pattern.len() {
        s
    } else if s.take(pattern.len() as int) == pattern {
        with + replaced(s.skip(pattern.len() as int), pattern, with)
    } else {
        seq![s[0]] + replaced(s.skip(1), pattern, with)
    }
}

/// Puts `with` in place of every `pattern`.
fn replace(source: &[char], pattern: &[char], with: &[char]) -> (result: Vec<char>)
    requires
        pattern@.len() > 0,
    ensures
        result@ == replaced(source@, pattern@, with@),
{
    let mut result: Vec<char> = Vec::new();
    let mut at: usize = 0;
    let len: usize = source.len();
    let width: usize = pattern.len();
    assert(source@.skip(0) =~= source@);
    assert(result@ + replaced(source@, pattern@, with@) =~= replaced(source@, pattern@, with@));
    while len - at >= width
        invariant
            len == source@.len(),
            width == pattern@.len(),
            width > 0,
            at <= len,
            result@ + replaced(source@.skip(at as int), pattern@, with@) == replaced(
                source@,
                pattern@,
                with@,
            ),
        decreases len - at,
    {
        let ghost before = result@;
        let ghost rest = source@.skip(at as int);
        let window = slice_subrange(source, at, at + width);
        assert(window@ =~= rest.take(width as int));
        if same_chars(window, pattern) {
            result.extend_from_slice(with);
            assert(result@ =~= before + with@);
            assert(rest.skip(width as int) =~= source@.skip(at + width));
            at = at + width;
        } else {
            result.push(source[at]);
            assert(result@ =~= before + seq![rest[0]]);
            assert(rest.skip(1) =~= source@.skip(at + 1));
            at = at + 1;
        }
        assert(result@ + replaced(source@.skip(at as int), pattern@, with@) =~= before + replaced(
            rest,
            pattern@,
            with@,
        ));
    }
    let ghost before = result@;
    let rest = slice_subrange(source, at, len);
    assert(rest@ =~= source@.skip(at as int));
    result.extend_from_slice(rest);
    assert(result@ =~= before + rest@);
    result
}

/// The page: a template with the version and the table in their places.
pub open spec fn page_text(
    template: Seq<char>,
    version: Seq<char>,
    partitions: Seq<mtd::PartitionModel>,
) -> Seq<char> {
    replaced(
        replaced(template, "{{VERSION}}"@, version),
        "{{PARTITIONS}}"@,
        table_text(partitions),
    )
}

/// Fills in the page.
pub fn render_index(template: &str, version: &str, partitions: &[Partition]) -> (page: String)
    ensures
        page@ == page_text(template@, version@, mtd::models(partitions@)),
{
    proof {
        reveal_strlit("{{VERSION}}");
        reveal_strlit("{{PARTITIONS}}");
    }
    let versioned = replace(
        &to_chars(template),
        &to_chars("{{VERSION}}"),
        &to_chars(version),
    );
    let page = replace(
        &versioned,
        &to_chars("{{PARTITIONS}}"),
        &to_chars(partition_table(partitions).as_str()),
    );
    to_text(&page)
}

/// The pattern stands at `i`.
pub open spec fn occurs_at(s: Seq<char>, pattern: Seq<char>, i: int) -> bool {
    &&& 0 <= i
    &&& i + pattern.len() <= s.len()
    &&& s.subrange(i, i + pattern.len()) == pattern
}

/// A text that the pattern does not occur in stays as it is.
pub proof fn law_replace_absent(s: Seq<char>, pattern: Seq<char>, with: Seq<char>)
    requires
        forall|i: int| !#[trigger] occurs_at(s, pattern, i),
    ensures
        replaced(s, pattern, with) == s,
    decreases s.len(),
{
    if pattern.len() == 0 || s.len() < pattern.len() {
    } else {
        assert(s.take(pattern.len() as int) =~= s.subrange(0, 0int + pattern.len()));
        assert(!occurs_at(s, pattern, 0));
        let rest = s.skip(1);
        assert forall|i: int| !#[trigger] occurs_at(rest, pattern, i) by {
            if occurs_at(rest, pattern, i) {
                assert(rest.subrange(i, i + pattern.len()) =~= s.subrange(
                    i + 1,
                    i + 1 + pattern.len(),
                ));
                assert(occurs_at(s, pattern, i + 1));
            }
        }
        law_replace_absent(rest, pattern, with);
        assert(seq![s[0]] + rest =~= s);
    }
}

/// Where the pattern first occurs, the text before it stays, and the rest is
/// filled in on its own.
pub proof fn law_replace_first(s: Seq<char>, pattern: Seq<char>, with: Seq<char>, at: int)
    requires
        pattern.len() > 0,
        occurs_at(s, pattern, at),
        forall|i: int| i < at ==> !#[trigger] occurs_at(s, pattern, i),
    ensures
        replaced(s, pattern, with) == s.take(at) + with + replaced(
            s.skip(at + pattern.len()),
            pattern,
            with,
        ),
    decreases s.len(),
{
    assert(s.take(pattern.len() as int) =~= s.subrange(0, 0int + pattern.len()));
    if at == 0 {
        assert(s.take(0) + with =~= with);
    } else {
        assert(!occurs_at(s, pattern, 0));
        let rest = s.skip(1);
        assert(rest.subrange(at - 1, at - 1 + pattern.len()) =~= s.subrange(
            at,
            at + pattern.len(),
        ));
        assert forall|i: int| i < at - 1 implies !#[trigger] occurs_at(rest, pattern, i) by {
            if occurs_at(rest, pattern, i) {
                assert(rest.subrange(i, i + pattern.len()) =~= s.subrange(
                    i + 1,
                    i + 1 + pattern.len(),
                ));
                assert(occurs_at(s, pattern, i + 1));
            }
        }
        law_replace_first(rest, pattern, with, at - 1);
        assert(rest.skip(at - 1 + pattern.len()) =~= s.skip(at + pattern.len()));
        assert(seq![s[0]] + rest.take(at - 1) =~= s.take(at));
        assert(replaced(s, pattern, with) =~= s.take(at) + with + replaced(
            s.skip(at + pattern.len()),
            pattern,
            with,
        ));
    }
}

// ---------------------------------------------------------------------------
// What the page shows
// ---------------------------------------------------------------------------

/// A row shows a partition's device, its name in HTML text, its two sizes, its
/// offset and a link to its download.
pub proof fn law_row(partition: mtd::PartitionModel)
    ensures
        row_text(partition) == "<tr><td>mtd"@ + number::digits(partition.index as nat, 10)
            + "</td><td>"@ + escaped(partition.name) + "</td><td>"@ + display::size_text(
            partition.size as int,
        ) + "</td><td>"@ + display::size_text(partition.erase_size as int) + "</td><td>"@ + (
        match partition.offset {
            Some(offset) => "0x"@ + number::zero_padded(number::digits(offset as nat, 16), 8),
            None => "—"@,
        }) + "</td><td><a data-t=\"download\" href=\"/backup/"@ + number::digits(
            partition.index as nat,
            10,
        ) + "\">Download</a></td></tr>"@,
{
}

/// The table has one row for each partition, in their order, and none is left out;
/// without partitions it says that there are none.
pub proof fn law_table(partitions: Seq<mtd::PartitionModel>, partition: mtd::PartitionModel)
    ensures
        table_text(Seq::empty())
            == "<p class=\"hint\" data-t=\"noPartitions\">No MTD partitions found.</p>"@,
        rows_text(Seq::empty()) == Seq::<char>::empty(),
        rows_text(partitions.push(partition)) == rows_text(partitions) + row_text(partition),
        table_text(partitions.push(partition))
            == "<table><thead><tr><th data-t=\"device\">Device</th><th data-t=\"name\">Name</th><th data-t=\"size\">Size</th><th data-t=\"eraseBlock\">Erase block</th><th data-t=\"physicalOffset\">Physical offset</th><th></th></tr></thead><tbody>"@
            + rows_text(partitions.push(partition)) + "</tbody></table>"@,
{
    assert(partitions.push(partition).drop_last() =~= partitions);
}

/// Only the four characters that mean something in HTML text change.
pub proof fn law_escaped(s: Seq<char>, ch: char)
    ensures
        escaped(Seq::empty()) == Seq::<char>::empty(),
        escaped(s.push(ch)) == escaped(s) + (if ch == '&' {
            "&amp;"@
        } else if ch == '<' {
            "&lt;"@
        } else if ch == '>' {
            "&gt;"@
        } else if ch == '"' {
            "&quot;"@
        } else {
            seq![ch]
        }),
{
    assert(s.push(ch).drop_last() =~= s);
}

/// The page is the template with the version in place of `{{VERSION}}`, and then
/// the table in place of `{{PARTITIONS}}`.
pub proof fn law_page(
    template: Seq<char>,
    version: Seq<char>,
    partitions: Seq<mtd::PartitionModel>,
)
    ensures
        page_text(template, version, partitions) == replaced(
            replaced(template, "{{VERSION}}"@, version),
            "{{PARTITIONS}}"@,
            table_text(partitions),
        ),
{
}

} // verus!
