//! Firmware image packages: reading the table of contents, and placing a
//! preloader in the first eraseblock.
use vstd::prelude::*;
use vstd::slice::slice_subrange;

use crate::bytes;
use crate::bytes::copy_into;

verus! {

pub const TOC_HEADER_NAME: u32 = 0xaa64_0001;

pub const TOC_HEADER_SIZE: usize = 16;

pub const TOC_ENTRY_SIZE: usize = 40;

/// Where a preloader starts in the first eraseblock.
pub const FIP_OFFSET: usize = 0x800;

pub const UUID_TB_FW: [u8; 16] = [
    0x5f,
    0xf9,
    0xec,
    0x0b,
    0x4d,
    0x22,
    0x3e,
    0x4d,
    0xa5,
    0x44,
    0xc3,
    0x9d,
    0x81,
    0xc7,
    0x3f,
    0x0a,
];

pub const UUID_BL31: [u8; 16] = [
    0x47,
    0xd4,
    0x08,
    0x6d,
    0x4c,
    0xfe,
    0x98,
    0x46,
    0x9b,
    0x95,
    0x29,
    0x50,
    0xcb,
    0xbd,
    0x5a,
    0x00,
];

pub const UUID_BL33: [u8; 16] = [
    0xd6,
    0xd0,
    0xee,
    0xa7,
    0xfc,
    0xea,
    0xd5,
    0x4b,
    0x97,
    0x82,
    0x99,
    0x34,
    0xf2,
    0x34,
    0xb6,
    0xe4,
];

#[derive(Debug, Clone, PartialEq, Eq)]
pub struct FipEntry {
    pub uuid: [u8; 16],
    pub offset: usize,
    pub size: usize,
}

#[derive(Debug, Clone, PartialEq, Eq)]
pub struct FipInfo {
    pub entries: Vec<FipEntry>,
}

/// A payload: what it is, where it starts and how long it is.
pub struct Payload {
    pub uuid: Seq<u8>,
    pub offset: nat,
    pub size: nat,
}

impl View for FipEntry {
    type V = Payload;

    open spec fn view(&self) -> Payload {
        Payload { uuid: self.uuid@, offset: self.offset as nat, size: self.size as nat }
    }
}

impl View for FipInfo {
    type V = Seq<Payload>;

    open spec fn view(&self) -> Seq<Payload> {
        self.entries@.map_values(|entry: FipEntry| entry@)
    }
}

// ---------------------------------------------------------------------------
// The table of contents
// ---------------------------------------------------------------------------

/// Where entry `k` of the directory starts.
pub open spec fn slot_start(k: int) -> int {
    TOC_HEADER_SIZE + TOC_ENTRY_SIZE * k
}

/// Entry `k` lies in the file.
pub open spec fn slot_present(data: Seq<u8>, k: int) -> bool {
    slot_start(k + 1) <= data.len()
}

/// What entry `k` says.
pub open spec fn slot(data: Seq<u8>, k: int) -> Payload {
    let at = slot_start(k);
    Payload {
        uuid: data.subrange(at, at + 16),
        offset: bytes::le_value(data.subrange(at + 16, at + 24)),
        size: bytes::le_value(data.subrange(at + 24, at + 32)),
    }
}

/// The identifier of the entry that ends the directory.
pub open spec fn is_nil(uuid: Seq<u8>) -> bool {
    forall|i: int| 0 <= i < uuid.len() ==> uuid[i] == 0
}

/// Everything from `from` on is erased.
pub open spec fn erased_from(data: Seq<u8>, from: int) -> bool {
    forall|i: int| from <= i < data.len() ==> data[i] == 0xff
}

/// Entry `k` ends the directory properly: it is empty, and the end of the
/// container that it records, if any, lies behind the directory and in the file,
/// with nothing but erased bytes behind it.
pub open spec fn closes(data: Seq<u8>, k: int) -> bool {
    let end = slot(data, k).offset;
    &&& slot(data, k).size == 0
    &&& end == 0 || (slot_start(k + 1) <= end <= data.len() && erased_from(data, end as int))
}

/// What is wrong with the entry that ends the directory.
pub open spec fn closing_complaint(data: Seq<u8>, k: int) -> Option<Seq<char>> {
    if slot(data, k).offset > usize::MAX {
        Some("FIP end offset exceeds platform range"@)
    } else if !closes(data, k) {
        Some("FIP terminator boundary does not match file length"@)
    } else {
        None
    }
}

/// What is wrong with a payload's place.
pub open spec fn payload_complaint(data: Seq<u8>, payload: Payload) -> Option<Seq<char>> {
    if payload.offset > usize::MAX {
        Some("FIP payload offset exceeds platform range"@)
    } else if payload.size > usize::MAX {
        Some("FIP payload length exceeds platform range"@)
    } else if payload.offset + payload.size > usize::MAX {
        Some("FIP payload range overflows"@)
    } else if payload.size == 0 || payload.offset + payload.size > data.len() {
        Some("FIP payload extends beyond the file"@)
    } else {
        None
    }
}

/// Reads the directory from entry `k` on: at which entry it ends, or what is
/// wrong with the first bad entry.
pub open spec fn directory_end(data: Seq<u8>, k: int) -> Result<int, Seq<char>>
    decreases data.len() - slot_start(k),
{
    if !slot_present(data, k) {
        Err("FIP directory terminator is missing"@)
    } else if is_nil(slot(data, k).uuid) {
        match closing_complaint(data, k) {
            Some(message) => Err(message),
            None => Ok(k),
        }
    } else {
        match payload_complaint(data, slot(data, k)) {
            Some(message) => Err(message),
            None => directory_end(data, k + 1),
        }
    }
}

/// The first `n` entries.
pub open spec fn payloads(data: Seq<u8>, n: nat) -> Seq<Payload> {
    Seq::new(n, |i: int| slot(data, i))
}

/// The payloads of a package, or what is wrong with it.
pub open spec fn contents(data: Seq<u8>) -> Result<Seq<Payload>, Seq<char>> {
    if data.len() < TOC_HEADER_SIZE + TOC_ENTRY_SIZE {
        Err("File is smaller than the minimum FIP directory"@)
    } else if bytes::le_value(data.subrange(0, 4)) != TOC_HEADER_NAME {
        Err("Missing FIP ToC magic 0xaa640001"@)
    } else {
        match directory_end(data, 0) {
            Err(message) => Err(message),
            Ok(n) => if n == 0 {
                Err("FIP has no payloads"@)
            } else if exists|i: int| 0 <= i < n && (#[trigger] slot(data, i)).offset < slot_start(
                n + 1,
            ) {
                Err("FIP payload overlaps the directory"@)
            } else {
                Ok(payloads(data, n as nat))
            },
        }
    }
}

// ---------------------------------------------------------------------------
// Reading
// ---------------------------------------------------------------------------

/// The number that at most eight bytes stand for, least significant first.
fn le_number(data: &[u8]) -> (value: u64)
    requires
        data@.len() <= 8,
    ensures
        value == bytes::le_value(data@),
        value < vstd::arithmetic::power::pow(256, data@.len()),
    decreases data@.len(),
{
    proof {
        vstd::arithmetic::power::lemma_pow0(256);
    }
    if data.len() == 0 {
        return 0;
    }
    let rest = slice_subrange(data, 1, data.len());
    let high = le_number(rest);
    proof {
        assert(rest@ =~= data@.drop_first());
        vstd::arithmetic::power::lemma_pow_increases(256, rest@.len(), 7);
        reveal_with_fuel(vstd::arithmetic::power::pow, 8);
        assert(vstd::arithmetic::power::pow(256, 7) == 0x100_0000_0000_0000);
        assert(vstd::arithmetic::power::pow(256, data@.len()) == 256
            * vstd::arithmetic::power::pow(256, rest@.len())) by {
            reveal(vstd::arithmetic::power::pow);
        }
    }
    data[0] as u64 + 256 * high
}

fn read_u32_le(data: &[u8], offset: usize) -> (result: Result<u32, String>)
    requires
        offset + 4 <= usize::MAX,
    ensures
        match result {
            Ok(value) => offset + 4 <= data@.len() && value == bytes::le_value(
                data@.subrange(offset as int, offset + 4),
            ),
            Err(message) => offset + 4 > data@.len() && message@ == "FIP header is truncated"@,
        },
{
    if data.len() < offset + 4 {
        return Err("FIP header is truncated".to_string());
    }
    let value = le_number(slice_subrange(data, offset, offset + 4));
    proof {
        reveal_with_fuel(vstd::arithmetic::power::pow, 5);
        assert(vstd::arithmetic::power::pow(256, 4) == 0x1_0000_0000);
    }
    Ok(value as u32)
}

fn read_u64_le(data: &[u8], offset: usize) -> (result: Result<u64, String>)
    requires
        offset + 8 <= usize::MAX,
    ensures
        match result {
            Ok(value) => offset + 8 <= data@.len() && value == bytes::le_value(
                data@.subrange(offset as int, offset + 8),
            ),
            Err(message) => offset + 8 > data@.len() && message@
                == "FIP directory entry is truncated"@,
        },
{
    if data.len() < offset + 8 {
        return Err("FIP directory entry is truncated".to_string());
    }
    Ok(le_number(slice_subrange(data, offset, offset + 8)))
}

/// An entry of the directory as it stands in the file.
struct RawEntry {
    uuid: [u8; 16],
    offset: u64,
    size: u64,
}

fn read_entry(data: &[u8], cursor: usize) -> (entry: RawEntry)
    requires
        cursor + TOC_ENTRY_SIZE <= data@.len(),
    ensures
        entry.uuid@ == data@.subrange(cursor as int, cursor + 16),
        entry.offset == bytes::le_value(data@.subrange(cursor + 16, cursor + 24)),
        entry.size == bytes::le_value(data@.subrange(cursor + 24, cursor + 32)),
{
    let total: usize = data.len();
    let uuid: [u8; 16] = [
        data[cursor],
        data[cursor + 1],
        data[cursor + 2],
        data[cursor + 3],
        data[cursor + 4],
        data[cursor + 5],
        data[cursor + 6],
        data[cursor + 7],
        data[cursor + 8],
        data[cursor + 9],
        data[cursor + 10],
        data[cursor + 11],
        data[cursor + 12],
        data[cursor + 13],
        data[cursor + 14],
        data[cursor + 15],
    ];
    assert(uuid@ =~= data@.subrange(cursor as int, cursor + 16));
    let entry = slice_subrange(data, cursor, cursor + TOC_ENTRY_SIZE);
    assert(entry@.subrange(16, 24) =~= data@.subrange(cursor + 16, cursor + 24));
    assert(entry@.subrange(24, 32) =~= data@.subrange(cursor + 24, cursor + 32));
    let offset = read_u64_le(entry, 16).unwrap();
    let size = read_u64_le(entry, 24).unwrap();
    RawEntry { uuid, offset, size }
}

fn all_bytes_are(data: &[u8], byte: u8) -> (all: bool)
    ensures
        all == (forall|i: int| 0 <= i < data@.len() ==> data@[i] == byte),
{
    for i in 0..data.len()
        invariant
            forall|j: int| 0 <= j < i ==> data@[j] == byte,
    {
        if data[i] != byte {
            return false;
        }
    }
    true
}

/// Whether the entry at `cursor` ends the directory properly.
fn closes_directory(data: &[u8], cursor: usize, offset: usize, size: u64) -> (proper: bool)
    requires
        cursor + TOC_ENTRY_SIZE <= data@.len(),
    ensures
        proper == (size == 0 && (offset == 0 || (cursor + TOC_ENTRY_SIZE <= offset <= data@.len()
            && erased_from(data@, offset as int)))),
{
    let total: usize = data.len();
    if size != 0 {
        return false;
    }
    if offset == 0 {
        return true;
    }
    if offset < cursor + TOC_ENTRY_SIZE || offset > total {
        return false;
    }
    let tail = slice_subrange(data, offset, total);
    let erased = all_bytes_are(tail, 0xff);
    proof {
        if erased {
            assert forall|i: int| offset <= i < data@.len() implies data@[i] == 0xff by {
                assert(tail@[i - offset] == data@[i]);
            }
        } else if erased_from(data@, offset as int) {
            assert forall|i: int| 0 <= i < tail@.len() implies tail@[i] == 0xff by {
                assert(tail@[i] == data@[offset + i]);
            }
        }
    }
    erased
}

pub fn parse(data: &[u8]) -> (result: Result<FipInfo, String>)
    ensures
        match result {
            Ok(info) => contents(data@) == Ok::<Seq<Payload>, Seq<char>>(info@),
            Err(message) => contents(data@) == Err::<Seq<Payload>, Seq<char>>(message@),
        },
{
    let len: usize = data.len();
    if len < TOC_HEADER_SIZE + TOC_ENTRY_SIZE {
        return Err("File is smaller than the minimum FIP directory".to_string());
    }
    match read_u32_le(data, 0) {
        Ok(magic) => {
            if magic != TOC_HEADER_NAME {
                return Err("Missing FIP ToC magic 0xaa640001".to_string());
            }
        },
        Err(message) => {
            return Err(message);
        },
    }

    let mut entries: Vec<FipEntry> = Vec::new();
    let mut cursor: usize = TOC_HEADER_SIZE;
    let table_end: usize;
    loop
        invariant_except_break
            directory_end(data@, 0) == directory_end(data@, entries@.len() as int),
        invariant
            len == data@.len(),
            len >= TOC_HEADER_SIZE + TOC_ENTRY_SIZE,
            bytes::le_value(data@.subrange(0, 4)) == TOC_HEADER_NAME,
            cursor == slot_start(entries@.len() as int),
            cursor <= len,
            forall|i: int| 0 <= i < entries@.len() ==> (#[trigger] entries@[i])@ == slot(data@, i),
        ensures
            directory_end(data@, 0) == Ok::<int, Seq<char>>(entries@.len() as int),
            table_end == slot_start(entries@.len() as int + 1),
        decreases len - cursor,
    {
        let ghost k = entries@.len() as int;
        if len - cursor < TOC_ENTRY_SIZE {
            return Err("FIP directory terminator is missing".to_string());
        }
        let entry = read_entry(data, cursor);
        if all_bytes_are(&entry.uuid, 0) {
            // fiptool records the container end here. A padded firstblock can
            // continue with 0xff bytes beyond that boundary.
            if entry.offset > usize::MAX as u64 {
                return Err("FIP end offset exceeds platform range".to_string());
            }
            if !closes_directory(data, cursor, entry.offset as usize, entry.size) {
                return Err("FIP terminator boundary does not match file length".to_string());
            }
            table_end = cursor + TOC_ENTRY_SIZE;
            break;
        }
        if entry.offset > usize::MAX as u64 {
            return Err("FIP payload offset exceeds platform range".to_string());
        }
        if entry.size > usize::MAX as u64 {
            return Err("FIP payload length exceeds platform range".to_string());
        }
        let offset: usize = entry.offset as usize;
        let size: usize = entry.size as usize;
        let end: usize = match offset.checked_add(size) {
            Some(end) => end,
            None => {
                return Err("FIP payload range overflows".to_string());
            },
        };
        if size == 0 || end > len {
            return Err("FIP payload extends beyond the file".to_string());
        }
        entries.push(FipEntry { uuid: entry.uuid, offset, size });
        cursor += TOC_ENTRY_SIZE;
    }

    if entries.is_empty() {
        return Err("FIP has no payloads".to_string());
    }
    for i in 0..entries.len()
        invariant
            len == data@.len(),
            len >= TOC_HEADER_SIZE + TOC_ENTRY_SIZE,
            bytes::le_value(data@.subrange(0, 4)) == TOC_HEADER_NAME,
            entries@.len() > 0,
            directory_end(data@, 0) == Ok::<int, Seq<char>>(entries@.len() as int),
            table_end == slot_start(entries@.len() as int + 1),
            forall|j: int| 0 <= j < entries@.len() ==> (#[trigger] entries@[j])@ == slot(data@, j),
            forall|j: int| 0 <= j < i ==> (#[trigger] slot(data@, j)).offset >= table_end,
    {
        if entries[i].offset < table_end {
            assert(slot(data@, i as int).offset < slot_start(entries@.len() as int + 1));
            return Err("FIP payload overlaps the directory".to_string());
        }
    }
    let info = FipInfo { entries };
    assert(info@ =~= payloads(data@, info.entries@.len()));
    Ok(info)
}

// ---------------------------------------------------------------------------
// Required payloads
// ---------------------------------------------------------------------------

/// A payload of that kind is among them.
pub open spec fn has_payload(payloads: Seq<Payload>, uuid: Seq<u8>) -> bool {
    exists|i: int| 0 <= i < payloads.len() && (#[trigger] payloads[i]).uuid == uuid
}

/// The payloads of a preloader, or what is wrong with it.
pub open spec fn preloader_contents(data: Seq<u8>) -> Result<Seq<Payload>, Seq<char>> {
    match contents(data) {
        Err(message) => Err(message),
        Ok(found) => if !has_payload(found, UUID_TB_FW@) {
            Err("Preloader FIP is missing the TB_FW/BL2 payload"@)
        } else {
            Ok(found)
        },
    }
}

/// The payloads of a boot package, or what is wrong with it.
pub open spec fn boot_contents(data: Seq<u8>) -> Result<Seq<Payload>, Seq<char>> {
    match contents(data) {
        Err(message) => Err(message),
        Ok(found) => if !has_payload(found, UUID_BL31@) {
            Err("Boot FIP is missing the BL31 payload"@)
        } else if !has_payload(found, UUID_BL33@) {
            Err("Boot FIP is missing the BL33/U-Boot payload"@)
        } else {
            Ok(found)
        },
    }
}

fn same_uuid(a: &[u8; 16], b: &[u8; 16]) -> (same: bool)
    ensures
        same == (a@ == b@),
{
    for i in 0..16
        invariant
            forall|j: int| 0 <= j < i ==> a@[j] == b@[j],
    {
        if a[i] != b[i] {
            return false;
        }
    }
    assert(a@ =~= b@);
    true
}

fn contains_uuid(info: &FipInfo, expected: &[u8; 16]) -> (found: bool)
    ensures
        found == has_payload(info@, expected@),
{
    for i in 0..info.entries.len()
        invariant
            forall|j: int| 0 <= j < i ==> (#[trigger] info@[j]).uuid != expected@,
    {
        if same_uuid(&info.entries[i].uuid, expected) {
            assert(info@[i as int].uuid == expected@);
            return true;
        }
    }
    false
}

pub fn validate_preloader(data: &[u8]) -> (result: Result<FipInfo, String>)
    ensures
        match result {
            Ok(info) => preloader_contents(data@) == Ok::<Seq<Payload>, Seq<char>>(info@),
            Err(message) => preloader_contents(data@) == Err::<Seq<Payload>, Seq<char>>(message@),
        },
{
    let info = match parse(data) {
        Ok(info) => info,
        Err(message) => {
            return Err(message);
        },
    };
    if !contains_uuid(&info, &UUID_TB_FW) {
        return Err("Preloader FIP is missing the TB_FW/BL2 payload".to_string());
    }
    Ok(info)
}

pub fn validate_bl31_uboot(data: &[u8]) -> (result: Result<FipInfo, String>)
    ensures
        match result {
            Ok(info) => boot_contents(data@) == Ok::<Seq<Payload>, Seq<char>>(info@),
            Err(message) => boot_contents(data@) == Err::<Seq<Payload>, Seq<char>>(message@),
        },
{
    let info = match parse(data) {
        Ok(info) => info,
        Err(message) => {
            return Err(message);
        },
    };
    if !contains_uuid(&info, &UUID_BL31) {
        return Err("Boot FIP is missing the BL31 payload".to_string());
    }
    if !contains_uuid(&info, &UUID_BL33) {
        return Err("Boot FIP is missing the BL33/U-Boot payload".to_string());
    }
    Ok(info)
}

// ---------------------------------------------------------------------------
// The first eraseblock
// ---------------------------------------------------------------------------

/// A plain preloader in its place: what the device holds before it is kept, and
/// what follows it is erased.
pub open spec fn placed(upload: Seq<u8>, current: Seq<u8>, erase_size: int) -> Seq<u8> {
    current.take(FIP_OFFSET as int) + upload + bytes::filled(
        0xff,
        (erase_size - FIP_OFFSET - upload.len()) as nat,
    )
}

/// The first eraseblock to write, or why there is none.
pub open spec fn first_block(upload: Seq<u8>, current: Seq<u8>, erase_size: int) -> Result<
    Seq<u8>,
    Seq<char>,
> {
    if current.len() != erase_size || erase_size <= FIP_OFFSET {
        Err("Current first-block length does not match the NAND eraseblock"@)
    } else if upload.len() == erase_size {
        match preloader_contents(upload.skip(FIP_OFFSET as int)) {
            Err(message) => Err(message),
            Ok(_) => Ok(upload),
        }
    } else {
        match preloader_contents(upload) {
            Err(message) => Err(message),
            Ok(_) => if upload.len() > erase_size - FIP_OFFSET {
                Err("Preloader FIP exceeds the first eraseblock"@)
            } else {
                Ok(placed(upload, current, erase_size))
            },
        }
    }
}

/// The plain preloader starts at 0x800; the device's first 0x800 bytes carry
/// the optional BL1 region and are retained when preparing that upload.
pub fn prepare_first_block(upload: &[u8], current_block: &[u8], erase_size: usize) -> (result:
    Result<Vec<u8>, String>)
    ensures
        match result {
            Ok(block) => first_block(upload@, current_block@, erase_size as int) == Ok::<
                Seq<u8>,
                Seq<char>,
            >(block@),
            Err(message) => first_block(upload@, current_block@, erase_size as int) == Err::<
                Seq<u8>,
                Seq<char>,
            >(message@),
        },
{
    if current_block.len() != erase_size || erase_size <= FIP_OFFSET {
        return Err("Current first-block length does not match the NAND eraseblock".to_string());
    }
    if upload.len() == erase_size {
        let inner = slice_subrange(upload, FIP_OFFSET, upload.len());
        assert(inner@ =~= upload@.skip(FIP_OFFSET as int));
        return match validate_preloader(inner) {
            Ok(_) => Ok(vstd::slice::slice_to_vec(upload)),
            Err(message) => Err(message),
        };
    }
    match validate_preloader(upload) {
        Ok(_) => {},
        Err(message) => {
            return Err(message);
        },
    }
    if upload.len() > erase_size - FIP_OFFSET {
        return Err("Preloader FIP exceeds the first eraseblock".to_string());
    }
    let mut block: Vec<u8> = vec![0xffu8; erase_size];
    copy_into(block.as_mut_slice(), 0, slice_subrange(current_block, 0, FIP_OFFSET));
    copy_into(block.as_mut_slice(), FIP_OFFSET, upload);
    assert(block@ =~= placed(upload@, current_block@, erase_size as int));
    Ok(block)
}

} // verus!
