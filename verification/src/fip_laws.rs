//! What holds of every package that is accepted, and of every first eraseblock
//! that is prepared.
use vstd::prelude::*;

use crate::bytes;
use crate::fip;
use crate::fip::Payload;

verus! {

/// A package with `n` payloads: the directory is closed, and every payload lies
/// in the file, behind the directory.
pub open spec fn well_formed(data: Seq<u8>, n: int) -> bool {
    &&& bytes::le_value(data.subrange(0, 4)) == fip::TOC_HEADER_NAME
    &&& n >= 1
    &&& fip::slot_present(data, n)
    &&& forall|i: int|
        0 <= i < n ==> {
            let payload = #[trigger] fip::slot(data, i);
            &&& !fip::is_nil(payload.uuid)
            &&& payload.size > 0
            &&& fip::slot_start(n + 1) <= payload.offset
            &&& payload.offset + payload.size <= data.len()
        }
    &&& fip::is_nil(fip::slot(data, n).uuid)
    &&& fip::closes(data, n)
}

/// The directory ends at `n` where the entries before it are good and it closes.
proof fn lemma_directory_end(data: Seq<u8>, k: int, n: int)
    requires
        data.len() <= usize::MAX,
        well_formed(data, n),
        0 <= k <= n,
    ensures
        fip::directory_end(data, k) == Ok::<int, Seq<char>>(n),
    decreases n - k,
{
    if k < n {
        let payload = fip::slot(data, k);
        assert(fip::payload_complaint(data, payload) is None);
        lemma_directory_end(data, k + 1, n);
    }
}

/// Every entry before the end of the directory is good, and the end closes it.
proof fn lemma_directory_good(data: Seq<u8>, k: int, n: int)
    requires
        k >= 0,
        fip::directory_end(data, k) == Ok::<int, Seq<char>>(n),
    ensures
        k <= n,
        fip::slot_present(data, n),
        fip::is_nil(fip::slot(data, n).uuid),
        fip::closes(data, n),
        forall|i: int|
            k <= i < n ==> {
                let payload = #[trigger] fip::slot(data, i);
                &&& !fip::is_nil(payload.uuid)
                &&& payload.size > 0
                &&& payload.offset + payload.size <= data.len()
            },
    decreases data.len() - fip::slot_start(k),
{
    if !fip::is_nil(fip::slot(data, k).uuid) {
        lemma_directory_good(data, k + 1, n);
    }
}

/// A well-formed package is accepted, with exactly the payloads of its directory.
pub proof fn law_well_formed_accepted(data: Seq<u8>, n: int)
    requires
        data.len() <= usize::MAX,
        well_formed(data, n),
    ensures
        fip::contents(data) == Ok::<Seq<Payload>, Seq<char>>(fip::payloads(data, n as nat)),
{
    lemma_directory_end(data, 0, n);
}

/// What is accepted is a well-formed package.
pub proof fn law_accepted_well_formed(data: Seq<u8>)
    requires
        fip::contents(data) is Ok,
    ensures
        well_formed(data, fip::contents(data)->Ok_0.len() as int),
        fip::contents(data)->Ok_0 == fip::payloads(data, fip::contents(data)->Ok_0.len()),
{
    let n = fip::directory_end(data, 0)->Ok_0;
    lemma_directory_good(data, 0, n);
}

/// Every payload of an accepted package lies in the file, behind the directory,
/// and holds something.
pub proof fn law_payloads_inside(data: Seq<u8>, i: int)
    requires
        fip::contents(data) is Ok,
        0 <= i < fip::contents(data)->Ok_0.len(),
    ensures
        ({
            let found = fip::contents(data)->Ok_0;
            &&& found[i].size > 0
            &&& fip::slot_start(found.len() as int + 1) <= found[i].offset
            &&& found[i].offset + found[i].size <= data.len()
        }),
{
    law_accepted_well_formed(data);
    assert(fip::contents(data)->Ok_0[i] == fip::slot(data, i));
}

/// Erased bytes behind an accepted package change nothing.
pub proof fn law_padding(data: Seq<u8>, n: nat)
    requires
        fip::contents(data) is Ok,
        data.len() + n <= usize::MAX,
    ensures
        fip::contents(data + bytes::filled(0xff, n)) == fip::contents(data),
{
    let padded = data + bytes::filled(0xff, n);
    let count = fip::contents(data)->Ok_0.len() as int;
    law_accepted_well_formed(data);
    assert(padded.subrange(0, 4) =~= data.subrange(0, 4));
    assert forall|i: int| 0 <= i <= count implies #[trigger] fip::slot(padded, i) == fip::slot(
        data,
        i,
    ) by {
        let at = fip::slot_start(i);
        assert(padded.subrange(at, at + 16) =~= data.subrange(at, at + 16));
        assert(padded.subrange(at + 16, at + 24) =~= data.subrange(at + 16, at + 24));
        assert(padded.subrange(at + 24, at + 32) =~= data.subrange(at + 24, at + 32));
    }
    assert forall|i: int| 0 <= i < count implies {
        let payload = #[trigger] fip::slot(padded, i);
        &&& !fip::is_nil(payload.uuid)
        &&& payload.size > 0
        &&& fip::slot_start(count + 1) <= payload.offset
        &&& payload.offset + payload.size <= padded.len()
    } by {
        assert(fip::slot(padded, i) == fip::slot(data, i));
    }
    assert(fip::slot(padded, count) == fip::slot(data, count));
    assert(fip::closes(padded, count));
    law_well_formed_accepted(padded, count);
    assert(fip::payloads(padded, count as nat) =~= fip::payloads(data, count as nat));
}

/// Entry `k` belongs to the directory: no entry before it ends it.
pub open spec fn in_directory(data: Seq<u8>, k: int) -> bool {
    &&& 0 <= k
    &&& fip::slot_present(data, k)
    &&& forall|j: int| 0 <= j < k ==> !fip::is_nil((#[trigger] fip::slot(data, j)).uuid)
}

/// The byte at `i` is one of the serial number or the flags of the header, or of
/// the flags of an entry of the directory.
pub open spec fn is_flag(data: Seq<u8>, i: int) -> bool {
    ||| 4 <= i < fip::TOC_HEADER_SIZE
    ||| exists|k: int|
        #[trigger] in_directory(data, k) && fip::slot_start(k) + 32 <= i < fip::slot_start(k + 1)
}

/// Two files are the same but for flags.
pub open spec fn same_but_flags(data: Seq<u8>, other: Seq<u8>) -> bool {
    &&& data.len() == other.len()
    &&& forall|i: int|
        0 <= i < data.len() && !is_flag(data, i) ==> #[trigger] data[i] == other[i]
}

proof fn lemma_slot_same(data: Seq<u8>, other: Seq<u8>, k: int)
    requires
        same_but_flags(data, other),
        0 <= k,
        fip::slot_present(data, k),
    ensures
        fip::slot(other, k) == fip::slot(data, k),
{
    let at = fip::slot_start(k);
    assert forall|i: int| at <= i < at + 32 implies data[i] == other[i] by {
        assert(!is_flag(data, i));
    }
    assert(data.subrange(at, at + 16) =~= other.subrange(at, at + 16));
    assert(data.subrange(at + 16, at + 24) =~= other.subrange(at + 16, at + 24));
    assert(data.subrange(at + 24, at + 32) =~= other.subrange(at + 24, at + 32));
}

/// The entry that ends the directory closes both files or neither.
proof fn lemma_closes_same(data: Seq<u8>, other: Seq<u8>, k: int)
    requires
        same_but_flags(data, other),
        in_directory(data, k),
        fip::is_nil(fip::slot(data, k).uuid),
    ensures
        fip::closes(other, k) == fip::closes(data, k),
{
    let end = fip::slot(data, k).offset as int;
    lemma_slot_same(data, other, k);
    if fip::slot_start(k + 1) <= end {
        assert forall|i: int| end <= i < data.len() implies data[i] == other[i] by {
            assert forall|j: int|
                #[trigger] in_directory(data, j) implies fip::slot_start(j + 1) <= i by {
                if j > k {
                    assert(!fip::is_nil(fip::slot(data, k).uuid));
                }
            }
            assert(!is_flag(data, i));
        }
    }
}

proof fn lemma_directory_same(data: Seq<u8>, other: Seq<u8>, k: int)
    requires
        same_but_flags(data, other),
        0 <= k,
        forall|j: int| 0 <= j < k ==> !fip::is_nil((#[trigger] fip::slot(data, j)).uuid),
    ensures
        fip::directory_end(other, k) == fip::directory_end(data, k),
        fip::directory_end(data, k) matches Ok(n) ==> fip::slot_present(data, n) && k <= n,
    decreases data.len() - fip::slot_start(k),
{
    if fip::slot_present(data, k) {
        lemma_slot_same(data, other, k);
        if fip::is_nil(fip::slot(data, k).uuid) {
            lemma_closes_same(data, other, k);
        } else {
            lemma_directory_same(data, other, k + 1);
        }
    }
}

/// The serial number and the flags of a package, and the flags of its entries,
/// have no influence on whether it is accepted, with which payloads, or why not.
pub proof fn law_flags_ignored(data: Seq<u8>, other: Seq<u8>)
    requires
        same_but_flags(data, other),
    ensures
        fip::contents(other) == fip::contents(data),
{
    if data.len() >= fip::TOC_HEADER_SIZE + fip::TOC_ENTRY_SIZE {
        assert forall|i: int| 0 <= i < 4 implies data[i] == other[i] by {
            assert(!is_flag(data, i));
        }
        assert(data.subrange(0, 4) =~= other.subrange(0, 4));
        lemma_directory_same(data, other, 0);
        if let Ok(n) = fip::directory_end(data, 0) {
            assert forall|i: int| 0 <= i < n implies #[trigger] fip::slot(other, i) == fip::slot(
                data,
                i,
            ) by {
                lemma_slot_same(data, other, i);
            }
            assert(fip::payloads(other, n as nat) =~= fip::payloads(data, n as nat));
            assert forall|i: int| 0 <= i < n implies (#[trigger] fip::slot(data, i)).offset
                == fip::slot(other, i).offset by {
                lemma_slot_same(data, other, i);
            }
        }
    }
}

/// A plain preloader is placed behind the bytes that the device keeps, with
/// erased bytes up to the end of the eraseblock.
pub proof fn law_plain_preloader_placed(upload: Seq<u8>, current: Seq<u8>, erase_size: int)
    requires
        fip::first_block(upload, current, erase_size) is Ok,
        upload.len() != erase_size,
    ensures
        ({
            let block = fip::first_block(upload, current, erase_size)->Ok_0;
            let end = fip::FIP_OFFSET + upload.len();
            &&& block.len() == erase_size
            &&& block.take(fip::FIP_OFFSET as int) == current.take(fip::FIP_OFFSET as int)
            &&& block.subrange(fip::FIP_OFFSET as int, end) == upload
            &&& fip::erased_from(block, end)
        }),
{
    let block = fip::first_block(upload, current, erase_size)->Ok_0;
    assert(block.take(fip::FIP_OFFSET as int) =~= current.take(fip::FIP_OFFSET as int));
    assert(block.subrange(fip::FIP_OFFSET as int, fip::FIP_OFFSET + upload.len()) =~= upload);
}

/// A whole first block is written as it was uploaded.
pub proof fn law_whole_block_unchanged(upload: Seq<u8>, current: Seq<u8>, erase_size: int)
    requires
        fip::first_block(upload, current, erase_size) is Ok,
        upload.len() == erase_size,
    ensures
        fip::first_block(upload, current, erase_size) == Ok::<Seq<u8>, Seq<char>>(upload),
{
}

/// Whatever was prepared holds a valid preloader at its place, and uploading it
/// as a whole first block gives it back unchanged, whatever the device holds.
pub proof fn law_prepared_block_accepted(
    upload: Seq<u8>,
    current: Seq<u8>,
    other: Seq<u8>,
    erase_size: int,
)
    requires
        erase_size <= usize::MAX,
        fip::first_block(upload, current, erase_size) is Ok,
        other.len() == erase_size,
    ensures
        ({
            let block = fip::first_block(upload, current, erase_size)->Ok_0;
            &&& fip::preloader_contents(block.skip(fip::FIP_OFFSET as int)) is Ok
            &&& fip::first_block(block, other, erase_size) == Ok::<Seq<u8>, Seq<char>>(block)
        }),
{
    let block = fip::first_block(upload, current, erase_size)->Ok_0;
    if upload.len() != erase_size {
        let n = (erase_size - fip::FIP_OFFSET - upload.len()) as nat;
        assert(block.skip(fip::FIP_OFFSET as int) =~= upload + bytes::filled(0xff, n));
        law_padding(upload, n);
    }
}

// ---------------------------------------------------------------------------
// What a package is, byte by byte
// ---------------------------------------------------------------------------

/// The number in four bytes at `at`, low byte first.
pub open spec fn le4(s: Seq<u8>, at: int) -> int {
    s[at] + s[at + 1] * 0x100 + s[at + 2] * 0x1_0000 + s[at + 3] * 0x100_0000
}

/// The number in eight bytes at `at`, low byte first.
pub open spec fn le8(s: Seq<u8>, at: int) -> int {
    le4(s, at) + le4(s, at + 4) * 0x1_0000_0000
}

/// The sixteen bytes at `at` are all zero.
pub open spec fn nil_at(s: Seq<u8>, at: int) -> bool {
    forall|i: int| at <= i < at + 16 ==> #[trigger] s[i] == 0
}

/// Where the payload of entry `k` starts, and how long it is: an entry takes forty
/// bytes, from the sixteenth on, and these numbers stand behind its identifier.
pub open spec fn payload_start(data: Seq<u8>, k: int) -> int {
    le8(data, 16 + 40 * k + 16)
}

pub open spec fn payload_size(data: Seq<u8>, k: int) -> int {
    le8(data, 16 + 40 * k + 24)
}

/// Entry `k` names a payload that lies in the file.
pub open spec fn names_payload(data: Seq<u8>, k: int) -> bool {
    &&& !nil_at(data, 16 + 40 * k)
    &&& payload_size(data, k) > 0
    &&& payload_start(data, k) + payload_size(data, k) <= data.len()
}

/// The directory entry at `at` ends the directory: it has no identifier and no
/// length, and says nothing of where the package ends, or says it rightly: behind
/// the directory, in the file, with nothing but erased bytes behind it.
pub open spec fn ends_directory(data: Seq<u8>, at: int) -> bool {
    let end = le8(data, at + 16);
    &&& nil_at(data, at)
    &&& le8(data, at + 24) == 0
    &&& end == 0 || {
        &&& at + 40 <= end <= data.len()
        &&& forall|i: int| end <= i < data.len() ==> #[trigger] data[i] == 0xff
    }
}

/// A package of `n` payloads: the number 0xaa640001, and from the sixteenth byte
/// on `n` entries of forty bytes that name payloads behind the directory, and one
/// that ends it.
pub open spec fn is_package(data: Seq<u8>, n: int) -> bool {
    &&& n >= 1
    &&& data.len() >= 56 + 40 * n
    &&& le4(data, 0) == 0xaa64_0001
    &&& forall|k: int|
        0 <= k < n ==> #[trigger] names_payload(data, k) && payload_start(data, k) >= 56 + 40 * n
    &&& ends_directory(data, 16 + 40 * n)
}

proof fn lemma_le4(s: Seq<u8>)
    requires
        s.len() == 4,
    ensures
        bytes::le_value(s) == le4(s, 0),
{
    reveal_with_fuel(bytes::le_value, 5);
}

proof fn lemma_le8(s: Seq<u8>)
    requires
        s.len() == 8,
    ensures
        bytes::le_value(s) == le8(s, 0),
{
    reveal_with_fuel(bytes::le_value, 9);
}

/// What an entry says, byte by byte.
proof fn lemma_slot_bytes(data: Seq<u8>, k: int)
    requires
        0 <= k,
        56 + 40 * k <= data.len(),
    ensures
        ({
            let at = 16 + 40 * k;
            let payload = fip::slot(data, k);
            &&& fip::slot_start(k) == at
            &&& fip::slot_present(data, k)
            &&& payload.uuid == data.subrange(at, at + 16)
            &&& payload.offset == le8(data, at + 16)
            &&& payload.size == le8(data, at + 24)
            &&& fip::is_nil(payload.uuid) <==> nil_at(data, at)
        }),
{
    let at = 16 + 40 * k;
    let uuid = data.subrange(at, at + 16);
    lemma_le8(data.subrange(at + 16, at + 24));
    lemma_le8(data.subrange(at + 24, at + 32));
    assert(le8(data.subrange(at + 16, at + 24), 0) == le8(data, at + 16));
    assert(le8(data.subrange(at + 24, at + 32), 0) == le8(data, at + 24));
    if fip::is_nil(uuid) {
        assert forall|i: int| at <= i < at + 16 implies #[trigger] data[i] == 0 by {
            assert(uuid[i - at] == data[i]);
        }
    }
    if nil_at(data, at) {
        assert forall|i: int| 0 <= i < 16 implies uuid[i] == 0 by {
            assert(data[at + i] == 0);
        }
    }
}

proof fn lemma_closes_bytes(data: Seq<u8>, k: int)
    requires
        0 <= k,
        56 + 40 * k <= data.len(),
        nil_at(data, 16 + 40 * k),
    ensures
        fip::closes(data, k) <==> ends_directory(data, 16 + 40 * k),
{
    lemma_slot_bytes(data, k);
}

proof fn lemma_magic_bytes(data: Seq<u8>)
    requires
        data.len() >= 4,
    ensures
        bytes::le_value(data.subrange(0, 4)) == le4(data, 0),
{
    lemma_le4(data.subrange(0, 4));
}

/// A package is accepted, with a payload for each entry of its directory: the
/// entry's identifier, and where the payload starts and how long it is.
pub proof fn law_package_accepted(data: Seq<u8>, n: int)
    requires
        data.len() <= usize::MAX,
        is_package(data, n),
    ensures
        fip::contents(data) matches Ok(found) && {
            &&& found.len() == n
            &&& forall|k: int|
                0 <= k < n ==> {
                    &&& (#[trigger] found[k]).uuid == data.subrange(16 + 40 * k, 16 + 40 * k + 16)
                    &&& found[k].offset == le8(data, 16 + 40 * k + 16)
                    &&& found[k].size == le8(data, 16 + 40 * k + 24)
                }
        },
{
    lemma_magic_bytes(data);
    assert forall|k: int| 0 <= k < n implies {
        let payload = #[trigger] fip::slot(data, k);
        &&& !fip::is_nil(payload.uuid)
        &&& payload.size > 0
        &&& fip::slot_start(n + 1) <= payload.offset
        &&& payload.offset + payload.size <= data.len()
    } by {
        lemma_slot_bytes(data, k);
        assert(names_payload(data, k));
    }
    lemma_slot_bytes(data, n);
    lemma_closes_bytes(data, n);
    assert(well_formed(data, n));
    law_well_formed_accepted(data, n);
    assert forall|k: int| 0 <= k < n implies {
        &&& (#[trigger] fip::payloads(data, n as nat)[k]).uuid == data.subrange(
            16 + 40 * k,
            16 + 40 * k + 16,
        )
        &&& fip::payloads(data, n as nat)[k].offset == le8(data, 16 + 40 * k + 16)
        &&& fip::payloads(data, n as nat)[k].size == le8(data, 16 + 40 * k + 24)
    } by {
        lemma_slot_bytes(data, k);
    }
}

/// Nothing but a package is accepted.
pub proof fn law_only_packages_accepted(data: Seq<u8>)
    requires
        fip::contents(data) is Ok,
    ensures
        is_package(data, fip::contents(data)->Ok_0.len() as int),
{
    let n = fip::contents(data)->Ok_0.len() as int;
    law_accepted_well_formed(data);
    lemma_magic_bytes(data);
    assert(data.len() >= 56 + 40 * n);
    assert forall|k: int| 0 <= k < n implies #[trigger] names_payload(data, k) && payload_start(
        data,
        k,
    ) >= 56 + 40 * n by {
        lemma_slot_bytes(data, k);
        assert(!fip::is_nil(fip::slot(data, k).uuid));
    }
    lemma_slot_bytes(data, n);
    lemma_closes_bytes(data, n);
}

/// A file that is too short for a directory, or does not start with the number of
/// a package, is refused for just that.
pub proof fn law_foreign_files_refused(data: Seq<u8>)
    ensures
        data.len() < 56 ==> fip::contents(data) == Err::<Seq<Payload>, Seq<char>>(
            "File is smaller than the minimum FIP directory"@,
        ),
        data.len() >= 56 && le4(data, 0) != 0xaa64_0001 ==> fip::contents(data) == Err::<
            Seq<Payload>,
            Seq<char>,
        >("Missing FIP ToC magic 0xaa640001"@),
{
    if data.len() >= 56 {
        lemma_magic_bytes(data);
    }
}

/// The directory goes on past entries that name payloads.
proof fn lemma_directory_goes_on(data: Seq<u8>, k: int)
    requires
        data.len() <= usize::MAX,
        0 <= k,
        16 + 40 * k <= data.len(),
        forall|j: int| 0 <= j < k ==> #[trigger] names_payload(data, j),
    ensures
        fip::directory_end(data, 0) == fip::directory_end(data, k),
    decreases k,
{
    if k > 0 {
        assert(names_payload(data, k - 1));
        lemma_slot_bytes(data, k - 1);
        lemma_directory_goes_on(data, k - 1);
    }
}

/// The first entry that neither names a payload nor ends the directory decides
/// why the file is refused.
pub proof fn law_first_bad_entry_decides(data: Seq<u8>, k: int)
    requires
        56 <= data.len() <= usize::MAX,
        le4(data, 0) == 0xaa64_0001,
        0 <= k,
        16 + 40 * k <= data.len(),
        forall|j: int| 0 <= j < k ==> #[trigger] names_payload(data, j),
    ensures
        ({
            let at = 16 + 40 * k;
            let start = le8(data, at + 16);
            let size = le8(data, at + 24);
            let refused = |message: Seq<char>|
                fip::contents(data) == Err::<Seq<Payload>, Seq<char>>(message);
            if at + 40 > data.len() {
                refused("FIP directory terminator is missing"@)
            } else if nil_at(data, at) {
                if start > usize::MAX {
                    refused("FIP end offset exceeds platform range"@)
                } else if !ends_directory(data, at) {
                    refused("FIP terminator boundary does not match file length"@)
                } else if k == 0 {
                    refused("FIP has no payloads"@)
                } else if exists|j: int|
                    0 <= j < k && #[trigger] payload_start(data, j) < at + 40 {
                    refused("FIP payload overlaps the directory"@)
                } else {
                    fip::contents(data) is Ok
                }
            } else if start > usize::MAX {
                refused("FIP payload offset exceeds platform range"@)
            } else if size > usize::MAX {
                refused("FIP payload length exceeds platform range"@)
            } else if start + size > usize::MAX {
                refused("FIP payload range overflows"@)
            } else if size == 0 || start + size > data.len() {
                refused("FIP payload extends beyond the file"@)
            } else {
                true
            }
        }),
{
    let at = 16 + 40 * k;
    lemma_magic_bytes(data);
    lemma_directory_goes_on(data, k);
    if at + 40 <= data.len() {
        lemma_slot_bytes(data, k);
        if nil_at(data, at) {
            lemma_closes_bytes(data, k);
            if exists|j: int| 0 <= j < k && #[trigger] payload_start(data, j) < at + 40 {
                let j = choose|j: int|
                    0 <= j < k && #[trigger] payload_start(data, j) < at + 40;
                lemma_slot_bytes(data, j);
                assert(fip::slot(data, j).offset < fip::slot_start(k + 1));
            } else {
                assert forall|j: int| 0 <= j < k implies (#[trigger] fip::slot(data, j)).offset
                    >= fip::slot_start(k + 1) by {
                    lemma_slot_bytes(data, j);
                    assert(payload_start(data, j) >= at + 40);
                }
            }
        }
    }
}

// ---------------------------------------------------------------------------
// Which payloads are required
// ---------------------------------------------------------------------------

/// The identifier of the trusted boot firmware, which is BL2.
pub open spec fn bl2_uuid() -> Seq<u8> {
    seq![
        0x5fu8, 0xf9, 0xec, 0x0b, 0x4d, 0x22, 0x3e, 0x4d, 0xa5, 0x44, 0xc3, 0x9d, 0x81, 0xc7, 0x3f,
        0x0a,
    ]
}

/// The identifier of BL31.
pub open spec fn bl31_uuid() -> Seq<u8> {
    seq![
        0x47u8, 0xd4, 0x08, 0x6d, 0x4c, 0xfe, 0x98, 0x46, 0x9b, 0x95, 0x29, 0x50, 0xcb, 0xbd, 0x5a,
        0x00,
    ]
}

/// The identifier of BL33, which is U-Boot.
pub open spec fn bl33_uuid() -> Seq<u8> {
    seq![
        0xd6u8, 0xd0, 0xee, 0xa7, 0xfc, 0xea, 0xd5, 0x4b, 0x97, 0x82, 0x99, 0x34, 0xf2, 0x34, 0xb6,
        0xe4,
    ]
}

/// One of the payloads has that identifier.
pub open spec fn holds(found: Seq<Payload>, uuid: Seq<u8>) -> bool {
    exists|i: int| 0 <= i < found.len() && #[trigger] found[i].uuid == uuid
}

/// A preloader is a package with BL2, and a boot package is one with BL31 and
/// BL33; what is accepted has the package's payloads, and what is refused is
/// refused as a package or for the first payload that is missing.
pub proof fn law_required_payloads(data: Seq<u8>)
    ensures
        match fip::contents(data) {
            Err(message) => {
                &&& fip::preloader_contents(data) == Err::<Seq<Payload>, Seq<char>>(message)
                &&& fip::boot_contents(data) == Err::<Seq<Payload>, Seq<char>>(message)
            },
            Ok(found) => {
                &&& holds(found, bl2_uuid()) ==> fip::preloader_contents(data) == Ok::<
                    Seq<Payload>,
                    Seq<char>,
                >(found)
                &&& !holds(found, bl2_uuid()) ==> fip::preloader_contents(data) == Err::<
                    Seq<Payload>,
                    Seq<char>,
                >("Preloader FIP is missing the TB_FW/BL2 payload"@)
                &&& holds(found, bl31_uuid()) && holds(found, bl33_uuid())
                    ==> fip::boot_contents(data) == Ok::<Seq<Payload>, Seq<char>>(found)
                &&& !holds(found, bl31_uuid()) ==> fip::boot_contents(data) == Err::<
                    Seq<Payload>,
                    Seq<char>,
                >("Boot FIP is missing the BL31 payload"@)
                &&& holds(found, bl31_uuid()) && !holds(found, bl33_uuid())
                    ==> fip::boot_contents(data) == Err::<Seq<Payload>, Seq<char>>(
                    "Boot FIP is missing the BL33/U-Boot payload"@,
                )
            },
        },
{
    assert(fip::UUID_TB_FW@ =~= bl2_uuid());
    assert(fip::UUID_BL31@ =~= bl31_uuid());
    assert(fip::UUID_BL33@ =~= bl33_uuid());
    if let Ok(found) = fip::contents(data) {
        assert(fip::has_payload(found, bl2_uuid()) == holds(found, bl2_uuid()));
        assert(fip::has_payload(found, bl31_uuid()) == holds(found, bl31_uuid()));
        assert(fip::has_payload(found, bl33_uuid()) == holds(found, bl33_uuid()));
    }
}

// ---------------------------------------------------------------------------
// The first eraseblock, byte by byte
// ---------------------------------------------------------------------------

/// Every sound plain preloader that fits behind the first 0x800 bytes is accepted.
/// The first eraseblock then keeps these bytes of the device, holds the preloader
/// behind them, and is erased up to its end.
pub proof fn law_plain_preloader_accepted(upload: Seq<u8>, current: Seq<u8>, erase_size: int)
    requires
        current.len() == erase_size,
        upload.len() + 0x800 <= erase_size,
        fip::preloader_contents(upload) is Ok,
    ensures
        fip::first_block(upload, current, erase_size) matches Ok(block) && {
            &&& block.len() == erase_size
            &&& forall|i: int| 0 <= i < 0x800 ==> #[trigger] block[i] == current[i]
            &&& forall|i: int|
                0x800 <= i < 0x800 + upload.len() ==> #[trigger] block[i] == upload[i - 0x800]
            &&& forall|i: int|
                0x800 + upload.len() <= i < erase_size ==> #[trigger] block[i] == 0xff
        },
{
    law_only_packages_accepted(upload);
}

/// Every first eraseblock with a sound preloader from its byte 0x800 on is
/// accepted, and written as it is.
pub proof fn law_whole_block_accepted(upload: Seq<u8>, current: Seq<u8>, erase_size: int)
    requires
        current.len() == erase_size,
        upload.len() == erase_size,
        erase_size > 0x800,
        fip::preloader_contents(upload.subrange(0x800, erase_size)) is Ok,
    ensures
        fip::first_block(upload, current, erase_size) == Ok::<Seq<u8>, Seq<char>>(upload),
{
    assert(upload.subrange(0x800, erase_size) =~= upload.skip(0x800));
}

/// Why an upload gives no first eraseblock: what the device holds is not one
/// eraseblock of more than 0x800 bytes, or the preloader is not sound, or it does
/// not fit.
pub proof fn law_first_block_refused(upload: Seq<u8>, current: Seq<u8>, erase_size: int)
    ensures
        current.len() != erase_size || erase_size <= 0x800 ==> fip::first_block(
            upload,
            current,
            erase_size,
        ) == Err::<Seq<u8>, Seq<char>>(
            "Current first-block length does not match the NAND eraseblock"@,
        ),
        current.len() == erase_size && erase_size > 0x800 && upload.len() == erase_size ==> (
        fip::preloader_contents(upload.subrange(0x800, erase_size)) matches Err(message)
            ==> fip::first_block(upload, current, erase_size) == Err::<Seq<u8>, Seq<char>>(message)),
        current.len() == erase_size && erase_size > 0x800 && upload.len() != erase_size ==> (
        fip::preloader_contents(upload) matches Err(message) ==> fip::first_block(
            upload,
            current,
            erase_size,
        ) == Err::<Seq<u8>, Seq<char>>(message)),
        current.len() == erase_size && erase_size > 0x800 && upload.len() != erase_size
            && fip::preloader_contents(upload) is Ok && upload.len() + 0x800 > erase_size
            ==> fip::first_block(upload, current, erase_size) == Err::<Seq<u8>, Seq<char>>(
            "Preloader FIP exceeds the first eraseblock"@,
        ),
{
    if upload.len() == erase_size && erase_size > 0x800 {
        assert(upload.subrange(0x800, erase_size) =~= upload.skip(0x800));
    }
}

/// What is told of an entry is its identifier, and where its payload starts and how
/// long it is; and of a package all of its entries, in order.
pub proof fn law_models(entry: fip::FipEntry, info: fip::FipInfo, i: int)
    ensures
        entry@.uuid == entry.uuid@,
        entry@.offset == entry.offset,
        entry@.size == entry.size,
        info@.len() == info.entries@.len(),
        0 <= i < info@.len() ==> info@[i] == info.entries@[i]@,
{
}

} // verus!
