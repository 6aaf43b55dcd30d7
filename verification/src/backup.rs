//! The download of a partition: which one, under which name and headers.
use axum::http::HeaderValue;
use vstd::prelude::*;

use crate::mtd;
use crate::mtd::Partition;
use crate::number;
use crate::number::push_decimal;
use crate::reply;
use crate::reply::{fail, Reply, Status};
use crate::text::{to_chars, to_text};

verus! {

// ---------------------------------------------------------------------------
// The partition
// ---------------------------------------------------------------------------

/// The partition at `i` is the first with that index.
pub open spec fn is_first_with_index(
    partitions: Seq<mtd::PartitionModel>,
    index: u32,
    i: int,
) -> bool {
    &&& 0 <= i < partitions.len()
    &&& partitions[i].index == index
    &&& forall|j: int| 0 <= j < i ==> (#[trigger] partitions[j]).index != index
}

/// Finds the partition to download in what was discovered, or why nothing was.
pub fn select_backup(discovered: Result<Vec<Partition>, String>, index: u32) -> (result: Result<
    Partition,
    Reply,
>)
    ensures
        match discovered {
            Err(error) => result matches Err(reply) && reply@ == reply::failed(
                Status::InternalServerError,
                "Reading the MTD partition table failed: "@,
                error@,
            ),
            Ok(partitions) => match result {
                Ok(partition) => exists|i: int|
                    #[trigger] is_first_with_index(mtd::models(partitions@), index, i)
                        && mtd::models(partitions@)[i] == partition@,
                Err(reply) => {
                    &&& reply@.status == Status::NotFound
                    &&& reply@.message == "MTD partition not found"@
                    &&& forall|j: int|
                        0 <= j < partitions@.len() ==> (#[trigger] partitions@[j]).index != index
                },
            },
        },
{
    let partitions = match discovered {
        Ok(partitions) => partitions,
        Err(error) => {
            return Err(
                fail(
                    Status::InternalServerError,
                    "Reading the MTD partition table failed: ",
                    error.as_str(),
                ),
            );
        },
    };
    for i in 0..partitions.len()
        invariant
            discovered == Ok::<Vec<Partition>, String>(partitions),
            forall|j: int| 0 <= j < i ==> (#[trigger] partitions@[j]).index != index,
    {
        if partitions[i].index == index {
            proof {
                let all = mtd::models(partitions@);
                assert forall|j: int| 0 <= j < i implies (#[trigger] all[j]).index != index by {
                    assert(partitions@[j].index != index);
                }
                assert(is_first_with_index(all, index, i as int));
            }
            return Ok(partitions[i].clone());
        }
    }
    Err(Reply { status: Status::NotFound, message: "MTD partition not found".to_string() })
}

/// What is said of a partition that cannot be opened.
pub open spec fn unopened(path: Seq<char>, error: Seq<char>) -> reply::ReplyModel {
    reply::ReplyModel {
        status: Status::InternalServerError,
        message: "Opening "@ + path + " failed: "@ + error,
    }
}

/// Says that a partition cannot be opened.
pub fn open_failure(partition: &Partition, error: &str) -> (reply: Reply)
    ensures
        reply@ == unopened(partition@.path, error@),
{
    let mut message = "Opening ".to_string();
    message.append(partition.path.as_str());
    message.append(" failed: ");
    message.append(error);
    Reply { status: Status::InternalServerError, message }
}

// ---------------------------------------------------------------------------
// The file name
// ---------------------------------------------------------------------------

/// A character that a file name may hold.
pub open spec fn is_name_char(ch: char) -> bool {
    ||| 'a' <= ch <= 'z'
    ||| 'A' <= ch <= 'Z'
    ||| '0' <= ch <= '9'
    ||| ch == '.'
    ||| ch == '-'
    ||| ch == '_'
}

/// A text with an underscore in place of every character that a file name may
/// not hold.
pub open spec fn cleaned(s: Seq<char>) -> Seq<char> {
    s.map_values(
        |ch: char|
            if is_name_char(ch) {
                ch
            } else {
                '_'
            },
    )
}

/// The name of the file that a partition is downloaded as.
pub open spec fn filename(partition: mtd::PartitionModel) -> Seq<char> {
    cleaned("mtd"@ + number::decimal(partition.index as nat) + "-"@ + partition.name + ".bin"@)
}

fn clean_char(ch: char) -> (clean: char)
    ensures
        clean == if is_name_char(ch) {
            ch
        } else {
            '_'
        },
{
    if ('a' <= ch && ch <= 'z') || ('A' <= ch && ch <= 'Z') || ('0' <= ch && ch <= '9') || ch == '.'
        || ch == '-' || ch == '_' {
        ch
    } else {
        '_'
    }
}

pub fn backup_filename(partition: &Partition) -> (name: String)
    ensures
        name@ == filename(partition@),
{
    let mut raw = "mtd".to_string();
    push_decimal(&mut raw, partition.index as u64);
    raw.append("-");
    raw.append(partition.name.as_str());
    raw.append(".bin");
    let chars = to_chars(raw.as_str());
    let mut name: Vec<char> = Vec::new();
    for i in 0..chars.len()
        invariant
            name@ == cleaned(chars@.take(i as int)),
    {
        name.push(clean_char(chars[i]));
        assert(name@ =~= cleaned(chars@.take(i + 1)));
    }
    assert(chars@.take(chars@.len() as int) =~= chars@);
    to_text(&name)
}

/// A file name holds no blank, no slash and no quote: only ASCII letters and
/// digits, full stops, hyphens and underscores.
pub proof fn law_filename_clean(partition: mtd::PartitionModel, i: int)
    requires
        0 <= i < filename(partition).len(),
    ensures
        is_name_char(filename(partition)[i]),
{
}

// ---------------------------------------------------------------------------
// The headers
// ---------------------------------------------------------------------------

/// The value of an HTTP header.
#[verifier::external_type_specification]
#[verifier::external_body]
pub struct ExHeaderValue(HeaderValue);

/// The bytes that a header value holds.
pub uninterp spec fn header_bytes(value: HeaderValue) -> Seq<u8>;

/// A byte that a header value may hold: no control character but the tab.
pub open spec fn is_header_byte(byte: u8) -> bool {
    (byte >= 32 && byte != 127) || byte == 9
}

/// A text that is made of visible ASCII characters and blanks.
pub open spec fn is_visible(s: Seq<char>) -> bool {
    forall|i: int| 0 <= i < s.len() ==> ' ' <= #[trigger] s[i] <= '~'
}

/// `HeaderValue::from_str`: it takes a text whose UTF-8 bytes are all ones that a
/// header value may hold, and no other; the value then holds these bytes.
#[verifier::external_body]
fn header_from_str(source: &str) -> (value: Option<HeaderValue>)
    ensures
        match value {
            Some(v) => {
                &&& header_bytes(v) == vstd::utf8::encode_utf8(source@)
                &&& forall|i: int|
                    0 <= i < vstd::utf8::encode_utf8(source@).len() ==> is_header_byte(
                        #[trigger] vstd::utf8::encode_utf8(source@)[i],
                    )
            },
            None => exists|i: int|
                0 <= i < vstd::utf8::encode_utf8(source@).len() && !is_header_byte(
                    #[trigger] vstd::utf8::encode_utf8(source@)[i],
                ),
        },
{
    HeaderValue::from_str(source).ok()
}

/// `HeaderValue::from_static`: the value of a text of visible ASCII characters
/// holds its bytes. The call panics on a text that holds any other character but
/// the tab.
#[verifier::external_body]
fn header_from_static(source: &'static str) -> (value: HeaderValue)
    requires
        is_visible(source@),
    ensures
        header_bytes(value) == vstd::utf8::encode_utf8(source@),
{
    HeaderValue::from_static(source)
}

/// A visible text can stand in a header.
proof fn lemma_visible_bytes(s: Seq<char>)
    requires
        is_visible(s),
    ensures
        forall|i: int|
            0 <= i < vstd::utf8::encode_utf8(s).len() ==> is_header_byte(#[trigger] vstd::utf8::encode_utf8(s)[i]),
{
    assert(vstd::utf8::is_ascii_chars(s));
    vstd::utf8::is_ascii_chars_encode_utf8(s);
}

/// The value of the header that names the downloaded file.
pub open spec fn disposition(partition: mtd::PartitionModel) -> Seq<char> {
    "attachment; filename=\""@ + filename(partition) + "\""@
}

/// The headers of a download.
#[derive(Debug)]
pub struct DownloadHeaders {
    pub content_type: HeaderValue,
    pub content_length: HeaderValue,
    pub content_disposition: HeaderValue,
}

/// Makes a header value of a visible text.
fn visible_header(source: &str) -> (value: HeaderValue)
    requires
        is_visible(source@),
    ensures
        header_bytes(value) == vstd::utf8::encode_utf8(source@),
{
    proof {
        lemma_visible_bytes(source@);
    }
    header_from_str(source).unwrap()
}

/// Makes the headers of a download: its length follows `/proc/mtd`.
pub fn download_headers(partition: &Partition) -> (headers: DownloadHeaders)
    ensures
        header_bytes(headers.content_type) == vstd::utf8::encode_utf8("application/octet-stream"@),
        header_bytes(headers.content_length) == vstd::utf8::encode_utf8(
            number::decimal(partition.size as nat),
        ),
        header_bytes(headers.content_disposition) == vstd::utf8::encode_utf8(disposition(partition@)),
{
    let mut length = String::new();
    push_decimal(&mut length, partition.size);
    let mut named = "attachment; filename=\"".to_string();
    named.append(backup_filename(partition).as_str());
    named.append("\"");
    proof {
        reveal_strlit("application/octet-stream");
        reveal_strlit("attachment; filename=\"");
        reveal_strlit("\"");
        number::lemma_digits_chars(partition.size as nat, 10);
        assert(length@ =~= number::decimal(partition.size as nat));
        assert forall|i: int| 0 <= i < named@.len() implies ' ' <= #[trigger] named@[i] <= '~' by {
            let start = "attachment; filename=\""@.len();
            if start <= i < named@.len() - 1 {
                law_filename_clean(partition@, i - start);
            }
        }
    }
    DownloadHeaders {
        content_type: header_from_static("application/octet-stream"),
        content_length: visible_header(length.as_str()),
        content_disposition: visible_header(named.as_str()),
    }
}

/// Makes the value that keeps a reply out of every cache.
pub fn no_store() -> (value: HeaderValue)
    ensures
        header_bytes(value) == vstd::utf8::encode_utf8("no-store"@),
{
    proof {
        reveal_strlit("no-store");
    }
    header_from_static("no-store")
}

// ---------------------------------------------------------------------------
// What a download is
// ---------------------------------------------------------------------------

/// The first partition of an index is one of that index before which there is none
/// of it, and where any has it, there is a first.
pub proof fn law_first_with_index(partitions: Seq<mtd::PartitionModel>, index: u32, i: int)
    ensures
        is_first_with_index(partitions, index, i) <==> {
            &&& 0 <= i < partitions.len()
            &&& partitions[i].index == index
            &&& forall|j: int| 0 <= j < i ==> (#[trigger] partitions[j]).index != index
        },
        0 <= i < partitions.len() && partitions[i].index == index ==> exists|j: int|
            j <= i && #[trigger] is_first_with_index(partitions, index, j),
    decreases i,
{
    if 0 <= i < partitions.len() && partitions[i].index == index {
        if exists|j: int| 0 <= j < i && (#[trigger] partitions[j]).index == index {
            let j = choose|j: int| 0 <= j < i && (#[trigger] partitions[j]).index == index;
            law_first_with_index(partitions, index, j);
        } else {
            assert(is_first_with_index(partitions, index, i));
        }
    }
}

/// A file is named by the device's index and the partition's name, character by
/// character: ASCII letters and digits, full stops, hyphens and underscores stay,
/// and every other character becomes an underscore.
pub proof fn law_filename(partition: mtd::PartitionModel, i: int)
    ensures
        ({
            let plain = "mtd"@ + number::digits(partition.index as nat, 10) + "-"@ + partition.name
                + ".bin"@;
            let name = filename(partition);
            &&& name.len() == plain.len()
            &&& 0 <= i < plain.len() ==> name[i] == if 'a' <= plain[i] <= 'z' || 'A' <= plain[i]
                <= 'Z' || '0' <= plain[i] <= '9' || plain[i] == '.' || plain[i] == '-' || plain[i]
                == '_' {
                plain[i]
            } else {
                '_'
            }
        }),
{
}

/// The download is offered under that name, in quotes, and a partition that cannot
/// be opened is named by its path.
pub proof fn law_download_texts(
    partition: mtd::PartitionModel,
    path: Seq<char>,
    error: Seq<char>,
)
    ensures
        disposition(partition) == "attachment; filename=\""@ + filename(partition) + "\""@,
        unopened(path, error).status == Status::InternalServerError,
        unopened(path, error).message == "Opening "@ + path + " failed: "@ + error,
{
}

} // verus!
