//! The bootstrap UBI image: two layout eraseblocks, the static volume `fip` and
//! an eraseblock that marks the end.
use vstd::prelude::*;
use vstd::slice::slice_subrange;

use crate::bytes;
use crate::bytes::{copy_into, put_u16_be, put_u32_be, put_u64_be};

verus! {

pub const UBI_EC_HDR_MAGIC: u32 = 0x5542_4923;

pub const UBI_VID_HDR_MAGIC: u32 = 0x5542_4921;

pub const UBI_LAYOUT_VOLUME_ID: u32 = 0x7fff_efff;

pub const UBI_MAX_VOLUMES: usize = 128;

pub const UBI_VTBL_RECORD_SIZE: usize = 172;

pub const UBI_EC_HDR_SIZE: usize = 64;

pub const UBI_VID_HDR_SIZE: usize = 64;

pub const UBI_VID_DYNAMIC: u8 = 1;

pub const UBI_VID_STATIC: u8 = 2;

pub const UBI_LAYOUT_VOLUME_COMPAT: u8 = 5;

pub const UBI_CRC32_INIT: u32 = 0xffff_ffff;

// ---------------------------------------------------------------------------
// CRC
// ---------------------------------------------------------------------------

/// One bit of the reflected CRC-32 division.
pub open spec fn crc_shift(crc: u32) -> u32 {
    if crc & 1 == 1 {
        (crc >> 1) ^ 0xedb8_8320
    } else {
        crc >> 1
    }
}

/// `n` bits of the division.
pub open spec fn crc_shifts(crc: u32, n: nat) -> u32
    decreases n,
{
    if n == 0 {
        crc
    } else {
        crc_shift(crc_shifts(crc, (n - 1) as nat))
    }
}

/// The CRC register after `data`, from `start`.
pub open spec fn crc_from(start: u32, data: Seq<u8>) -> u32
    decreases data.len(),
{
    if data.len() == 0 {
        start
    } else {
        crc_shifts(crc_from(start, data.drop_last()) ^ (data.last() as u32), 8)
    }
}

/// The CRC-32 that UBI stores: the register starts with all ones and is not
/// inverted at the end.
pub open spec fn crc_value(data: Seq<u8>) -> u32 {
    crc_from(UBI_CRC32_INIT, data)
}

/// UBI stores the Linux crc32_le() result with an initial value of all ones.
pub fn crc32_ubi(data: &[u8]) -> (crc: u32)
    ensures
        crc == crc_value(data@),
{
    let mut crc: u32 = UBI_CRC32_INIT;
    for i in 0..data.len()
        invariant
            crc == crc_value(data@.take(i as int)),
    {
        let ghost before = crc;
        crc = crc ^ (data[i] as u32);
        let ghost mixed = crc;
        for bit in 0..8
            invariant
                crc == crc_shifts(mixed, bit as nat),
        {
            let mask: u32 = 0u32.wrapping_sub(crc & 1);
            proof {
                let low = crc & 1;
                assert(low == 0 || low == 1) by (bit_vector)
                    requires
                        low == crc & 1,
                ;
                assert(mask == 0u32 || mask == 0xffff_ffffu32);
                assert(0xedb8_8320u32 & 0u32 == 0u32 && 0xedb8_8320u32 & 0xffff_ffffu32
                    == 0xedb8_8320u32) by (bit_vector);
                assert((crc >> 1) ^ 0u32 == crc >> 1) by (bit_vector);
            }
            crc = (crc >> 1) ^ (0xedb8_8320 & mask);
        }
        assert(data@.take(i + 1).drop_last() =~= data@.take(i as int));
    }
    assert(data@.take(data@.len() as int) =~= data@);
    crc
}

/// The checksum of joined data goes on from that of the first part.
pub proof fn law_crc_joined(start: u32, a: Seq<u8>, b: Seq<u8>)
    ensures
        crc_from(start, a + b) == crc_from(crc_from(start, a), b),
    decreases b.len(),
{
    if b.len() == 0 {
        assert(a + b =~= a);
    } else {
        law_crc_joined(start, a, b.drop_last());
        assert((a + b).drop_last() =~= a + b.drop_last());
    }
}

/// Eight bits of the division move a register whose low byte is zero by a byte.
pub proof fn lemma_shift_byte(crc: u32)
    requires
        crc & 0xff == 0,
    ensures
        crc_shifts(crc, 8) == crc >> 8,
{
    reveal_with_fuel(crc_shifts, 9);
    assert(crc & 1 != 1 && (crc >> 1) & 1 != 1 && (crc >> 2) & 1 != 1 && (crc >> 3) & 1 != 1 && (crc
        >> 4) & 1 != 1 && (crc >> 5) & 1 != 1 && (crc >> 6) & 1 != 1 && (crc >> 7) & 1 != 1)
        by (bit_vector)
        requires
            crc & 0xff == 0,
    ;
    assert((crc >> 1) >> 1 == crc >> 2 && (crc >> 2) >> 1 == crc >> 3 && (crc >> 3) >> 1 == crc >> 4
        && (crc >> 4) >> 1 == crc >> 5 && (crc >> 5) >> 1 == crc >> 6 && (crc >> 6) >> 1 == crc >> 7
        && (crc >> 7) >> 1 == crc >> 8) by (bit_vector);
}

/// A register that meets its own bytes, the low one first, ends at zero.
proof fn lemma_register_cancels(crc: u32, tail: Seq<u8>)
    requires
        bytes::le_value(tail) == crc,
        tail.len() <= 4,
    ensures
        crc_from(crc, tail) == 0,
    decreases tail.len(),
{
    if tail.len() > 0 {
        let low = tail[0] as u32;
        let rest = tail.drop_first();
        let next: u32 = crc >> 8;
        assert(crc == tail[0] as nat + 256 * bytes::le_value(rest));
        assert((crc ^ low) & 0xff == 0 && (crc ^ low) >> 8 == next && next == crc / 256)
            by (bit_vector)
            requires
                low < 256,
                crc % 256 == low,
                next == crc >> 8,
        ;
        lemma_shift_byte(crc ^ low);
        lemma_register_cancels(next, rest);
        law_crc_joined(crc, tail.take(1), rest);
        assert(tail.take(1) + rest =~= tail);
        assert(tail.take(1).drop_last() =~= Seq::<u8>::empty());
        assert(crc_from(crc, tail.take(1).drop_last()) == crc);
        assert(crc_from(crc, tail.take(1)) == next);
    }
}

/// Data with its own checksum behind it, the low byte first, has checksum zero.
pub proof fn law_crc_of_sealed_data(data: Seq<u8>, tail: Seq<u8>)
    requires
        tail.len() == 4,
        bytes::le_value(tail) == crc_value(data),
    ensures
        crc_value(data + tail) == 0,
{
    law_crc_joined(UBI_CRC32_INIT, data, tail);
    lemma_register_cancels(crc_value(data), tail);
}

// ---------------------------------------------------------------------------
// Geometry
// ---------------------------------------------------------------------------

#[derive(Debug, Clone, Copy, PartialEq, Eq)]
pub struct Geometry {
    pub erase_size: usize,
    pub page_size: usize,
}

impl Geometry {
    /// A geometry that UBI can use: whole pages, at least three to an
    /// eraseblock, each large enough for a header.
    pub open spec fn usable(self) -> bool {
        &&& self.page_size >= UBI_EC_HDR_SIZE
        &&& self.page_size >= UBI_VID_HDR_SIZE
        &&& self.erase_size >= 3 * self.page_size
        &&& self.erase_size % self.page_size == 0
    }

    /// Where the data of an eraseblock starts.
    pub open spec fn data_start(self) -> int {
        2 * self.page_size
    }

    /// How many bytes of data an eraseblock holds.
    pub open spec fn capacity(self) -> int {
        self.erase_size - self.data_start()
    }

    /// What is wrong with the geometry.
    pub open spec fn complaint(self) -> Option<Seq<char>> {
        if self.page_size == 0 || self.erase_size < 3 * self.page_size {
            Some("Invalid NAND page or eraseblock geometry"@)
        } else if self.erase_size % self.page_size != 0 {
            Some("Eraseblock size must be a multiple of page size"@)
        } else if self.page_size < UBI_EC_HDR_SIZE || self.page_size < UBI_VID_HDR_SIZE {
            Some("NAND page is too small for a UBI header"@)
        } else {
            None
        }
    }

    pub fn validate(self) -> (result: Result<(), String>)
        ensures
            match result {
                Ok(()) => self.complaint() is None,
                Err(message) => self.complaint() == Some(message@),
            },
            result is Ok <==> self.usable(),
    {
        if self.page_size == 0 || self.erase_size / 3 < self.page_size {
            return Err("Invalid NAND page or eraseblock geometry".to_string());
        }
        if self.erase_size % self.page_size != 0 {
            return Err("Eraseblock size must be a multiple of page size".to_string());
        }
        if self.page_size < UBI_EC_HDR_SIZE || self.page_size < UBI_VID_HDR_SIZE {
            return Err("NAND page is too small for a UBI header".to_string());
        }
        Ok(())
    }

    pub fn data_offset(self) -> (offset: usize)
        requires
            self.data_start() <= usize::MAX,
        ensures
            offset == self.data_start(),
    {
        self.page_size * 2
    }

    pub fn leb_size(self) -> (size: usize)
        requires
            self.data_start() <= self.erase_size,
        ensures
            size == self.capacity(),
    {
        self.erase_size - self.data_offset()
    }
}

// ---------------------------------------------------------------------------
// Headers
// ---------------------------------------------------------------------------

/// The low 32 bits of `value`.
pub open spec fn low32(value: int) -> nat {
    (value % 0x1_0000_0000) as nat
}

fn to_u32(value: usize) -> (low: u32)
    ensures
        low == low32(value as int),
{
    (value as u64 % 0x1_0000_0000) as u32
}

/// A header or record: its content, then the checksum of the content.
pub open spec fn sealed(content: Seq<u8>) -> Seq<u8> {
    content + bytes::be_bytes(crc_value(content) as nat, 4)
}

/// The characters that mark the eraseblock at which a scan ends.
pub open spec fn eof_mark() -> Seq<u8> {
    seq![0x45u8, 0x4f, 0x46]
}

/// The erase counter header, up to its checksum. What the header does not set
/// stays as it was in `old`.
#[verifier::opaque]
pub open spec fn ec_content(old: Seq<u8>, geometry: Geometry, image_seq: u32, eof: bool) -> Seq<u8> {
    bytes::be_bytes(UBI_EC_HDR_MAGIC as nat, 4) + seq![1u8] + (if eof {
        eof_mark()
    } else {
        old.subrange(5, 8)
    }) + bytes::be_bytes(0, 8) + bytes::be_bytes(low32(geometry.page_size as int), 4)
        + bytes::be_bytes(low32(geometry.data_start()), 4) + bytes::be_bytes(image_seq as nat, 4)
        + old.subrange(28, 60)
}

#[verifier::spinoff_prover]
fn write_ec_header(peb: &mut [u8], geometry: Geometry, image_seq: u32, eof: bool)
    requires
        old(peb)@.len() >= UBI_EC_HDR_SIZE,
        geometry.data_start() <= usize::MAX,
    ensures
        final(peb)@ == bytes::overwritten(
            old(peb)@,
            0,
            sealed(ec_content(old(peb)@, geometry, image_seq, eof)),
        ),
{
    let ghost before = peb@;
    proof {
        bytes::lemma_be_bytes_len(UBI_EC_HDR_MAGIC as nat, 4);
        bytes::lemma_be_bytes_len(0, 8);
        bytes::lemma_be_bytes_len(low32(geometry.page_size as int), 4);
        bytes::lemma_be_bytes_len(low32(geometry.data_start()), 4);
        bytes::lemma_be_bytes_len(image_seq as nat, 4);
    }
    put_u32_be(peb, 0, UBI_EC_HDR_MAGIC);
    peb[4] = 1;
    if eof {
        peb[5] = 0x45;
        peb[6] = 0x4f;
        peb[7] = 0x46;
    }
    put_u64_be(peb, 8, 0);
    put_u32_be(peb, 16, to_u32(geometry.page_size));
    put_u32_be(peb, 20, to_u32(geometry.data_offset()));
    put_u32_be(peb, 24, image_seq);
    let ghost content = ec_content(before, geometry, image_seq, eof);
    assert(peb@.subrange(0, 60) =~= content) by {
        reveal(ec_content);
    }
    assert(peb@.skip(60) =~= before.skip(60));
    let crc = crc32_ubi(slice_subrange(peb, 0, 60));
    proof {
        bytes::lemma_be_bytes_len(crc as nat, 4);
    }
    put_u32_be(peb, 60, crc);
    assert(peb@ =~= bytes::overwritten(before, 0, sealed(content)));
}

/// What a volume identifier header says of its eraseblock.
#[derive(Debug, Clone, Copy, PartialEq, Eq)]
pub struct VolumeHeader {
    pub vol_type: u8,
    pub compat: u8,
    pub vol_id: u32,
    pub lnum: u32,
    pub data_size: u32,
    pub used_ebs: u32,
    pub data_crc: u32,
    pub sqnum: u64,
}

/// The volume identifier header, up to its checksum. What the header does not
/// set stays as it was in `old`.
#[verifier::opaque]
pub open spec fn vid_content(old: Seq<u8>, header: VolumeHeader) -> Seq<u8> {
    bytes::be_bytes(UBI_VID_HDR_MAGIC as nat, 4) + seq![
        1u8,
        header.vol_type,
        0u8,
        header.compat,
    ] + bytes::be_bytes(header.vol_id as nat, 4) + bytes::be_bytes(header.lnum as nat, 4)
        + old.subrange(16, 20) + bytes::be_bytes(header.data_size as nat, 4) + bytes::be_bytes(
        header.used_ebs as nat,
        4,
    ) + bytes::be_bytes(0, 4) + bytes::be_bytes(header.data_crc as nat, 4) + old.subrange(36, 40)
        + bytes::be_bytes(header.sqnum as nat, 8) + old.subrange(48, 60)
}

/// Sets the fields and the checksum of a volume identifier header.
#[verifier::spinoff_prover]
fn fill_vid_header(buffer: &mut [u8], header: VolumeHeader)
    requires
        old(buffer)@.len() == UBI_VID_HDR_SIZE,
    ensures
        final(buffer)@ == sealed(vid_content(old(buffer)@, header)),
        final(buffer)@.len() == UBI_VID_HDR_SIZE,
{
    let ghost before = buffer@;
    proof {
        bytes::lemma_be_bytes_len(UBI_VID_HDR_MAGIC as nat, 4);
        bytes::lemma_be_bytes_len(header.vol_id as nat, 4);
        bytes::lemma_be_bytes_len(header.lnum as nat, 4);
        bytes::lemma_be_bytes_len(header.data_size as nat, 4);
        bytes::lemma_be_bytes_len(header.used_ebs as nat, 4);
        bytes::lemma_be_bytes_len(0, 4);
        bytes::lemma_be_bytes_len(header.data_crc as nat, 4);
        bytes::lemma_be_bytes_len(header.sqnum as nat, 8);
    }
    put_u32_be(buffer, 0, UBI_VID_HDR_MAGIC);
    buffer[4] = 1;
    buffer[5] = header.vol_type;
    buffer[6] = 0;
    buffer[7] = header.compat;
    put_u32_be(buffer, 8, header.vol_id);
    put_u32_be(buffer, 12, header.lnum);
    put_u32_be(buffer, 20, header.data_size);
    put_u32_be(buffer, 24, header.used_ebs);
    put_u32_be(buffer, 28, 0);
    put_u32_be(buffer, 32, header.data_crc);
    put_u64_be(buffer, 40, header.sqnum);
    let ghost content = vid_content(before, header);
    assert(buffer@.subrange(0, 60) =~= content) by {
        reveal(vid_content);
    }
    let crc = crc32_ubi(slice_subrange(buffer, 0, 60));
    proof {
        bytes::lemma_be_bytes_len(crc as nat, 4);
    }
    put_u32_be(buffer, 60, crc);
    assert(buffer@ =~= sealed(content));
}

/// Writes the volume identifier header, which takes the start of the second page.
#[verifier::spinoff_prover]
fn write_vid_header(peb: &mut [u8], geometry: Geometry, header: VolumeHeader)
    requires
        geometry.page_size + UBI_VID_HDR_SIZE <= old(peb)@.len(),
    ensures
        final(peb)@ == bytes::overwritten(
            old(peb)@,
            geometry.page_size as int,
            sealed(vid_content(old(peb)@.skip(geometry.page_size as int), header)),
        ),
{
    let at: usize = geometry.page_size;
    let total: usize = peb.len();
    let mut buffer = vstd::slice::slice_to_vec(slice_subrange(peb, at, at + UBI_VID_HDR_SIZE));
    assert(vid_content(buffer@, header) =~= vid_content(peb@.skip(at as int), header)) by {
        reveal(vid_content);
        let rest = peb@.skip(at as int);
        assert(buffer@.subrange(16, 20) =~= rest.subrange(16, 20));
        assert(buffer@.subrange(36, 40) =~= rest.subrange(36, 40));
        assert(buffer@.subrange(48, 60) =~= rest.subrange(48, 60));
    }
    fill_vid_header(buffer.as_mut_slice(), header);
    copy_into(peb, at, &buffer);
}

// ---------------------------------------------------------------------------
// Volume table
// ---------------------------------------------------------------------------

/// The record of the static volume `fip`, up to its checksum: the eraseblocks it
/// takes, its alignment, no padding, its type, and the length of its name
/// before the name.
pub open spec fn fip_record_content(fip_pebs: int) -> Seq<u8> {
    bytes::be_bytes(low32(fip_pebs), 4) + bytes::be_bytes(1, 4) + bytes::be_bytes(0, 4) + seq![
        UBI_VID_STATIC,
        0u8,
    ] + bytes::be_bytes(3, 2) + seq![0x66u8, 0x69, 0x70] + bytes::filled(0, 149)
}

/// The volume table's record at position `k`: the first is that of `fip`, the
/// others are free.
pub open spec fn table_record(fip_pebs: int, k: int) -> Seq<u8> {
    if k == 0 {
        sealed(fip_record_content(fip_pebs))
    } else {
        sealed(bytes::filled(0, 168))
    }
}

/// The first `n` records of the volume table.
pub open spec fn table_records(fip_pebs: int, n: nat) -> Seq<u8>
    decreases n,
{
    if n == 0 {
        Seq::empty()
    } else {
        table_records(fip_pebs, (n - 1) as nat) + table_record(fip_pebs, n - 1)
    }
}

/// The volume table.
pub open spec fn table_bytes(fip_pebs: int) -> Seq<u8> {
    table_records(fip_pebs, UBI_MAX_VOLUMES as nat)
}

pub proof fn lemma_record_len(fip_pebs: int, k: int)
    ensures
        table_record(fip_pebs, k).len() == UBI_VTBL_RECORD_SIZE,
{
    bytes::lemma_be_bytes_len(low32(fip_pebs), 4);
    bytes::lemma_be_bytes_len(1, 4);
    bytes::lemma_be_bytes_len(0, 4);
    bytes::lemma_be_bytes_len(3, 2);
    bytes::lemma_be_bytes_len(crc_value(fip_record_content(fip_pebs)) as nat, 4);
    bytes::lemma_be_bytes_len(crc_value(bytes::filled(0, 168)) as nat, 4);
}

/// `n` records take `n` times the size of one.
pub proof fn lemma_table_len(fip_pebs: int, n: nat)
    ensures
        table_records(fip_pebs, n).len() == n * UBI_VTBL_RECORD_SIZE,
    decreases n,
{
    if n > 0 {
        lemma_table_len(fip_pebs, (n - 1) as nat);
        lemma_record_len(fip_pebs, n - 1);
    }
}

/// Sets the checksum of a volume table record.
fn seal_record(record: &mut [u8])
    requires
        old(record)@.len() == UBI_VTBL_RECORD_SIZE,
    ensures
        final(record)@ == sealed(old(record)@.take(168)),
{
    let ghost before = record@;
    let crc = crc32_ubi(slice_subrange(record, 0, 168));
    assert(before.subrange(0, 168) =~= before.take(168));
    proof {
        bytes::lemma_be_bytes_len(crc as nat, 4);
    }
    put_u32_be(record, 168, crc);
    assert(record@ =~= sealed(before.take(168)));
}

fn free_record() -> (record: Vec<u8>)
    ensures
        record@ == sealed(bytes::filled(0, 168)),
{
    let mut record: Vec<u8> = vec![0u8; UBI_VTBL_RECORD_SIZE];
    assert(record@.take(168) =~= bytes::filled(0, 168));
    seal_record(record.as_mut_slice());
    record
}

fn fip_record(fip_pebs: usize) -> (record: Vec<u8>)
    ensures
        record@ == sealed(fip_record_content(fip_pebs as int)),
{
    let mut record: Vec<u8> = vec![0u8; UBI_VTBL_RECORD_SIZE];
    proof {
        bytes::lemma_be_bytes_len(low32(fip_pebs as int), 4);
        bytes::lemma_be_bytes_len(1, 4);
        bytes::lemma_be_bytes_len(0, 4);
        bytes::lemma_be_bytes_len(3, 2);
    }
    let fip = record.as_mut_slice();
    put_u32_be(fip, 0, to_u32(fip_pebs));
    put_u32_be(fip, 4, 1);
    put_u32_be(fip, 8, 0);
    fip[12] = UBI_VID_STATIC;
    fip[13] = 0;
    put_u16_be(fip, 14, 3);
    fip[16] = 0x66;
    fip[17] = 0x69;
    fip[18] = 0x70;
    fip[144] = 0;
    assert(fip@.take(168) =~= fip_record_content(fip_pebs as int));
    seal_record(fip);
    record
}

fn volume_table(fip_pebs: usize) -> (table: Vec<u8>)
    ensures
        table@ == table_bytes(fip_pebs as int),
        table@.len() == UBI_MAX_VOLUMES * UBI_VTBL_RECORD_SIZE,
{
    let mut table = fip_record(fip_pebs);
    let free = free_record();
    proof {
        reveal_with_fuel(table_records, 2);
        assert(table_records(fip_pebs as int, 1) =~= table@);
    }
    for k in 1..UBI_MAX_VOLUMES
        invariant
            table@ == table_records(fip_pebs as int, k as nat),
            free@ == sealed(bytes::filled(0, 168)),
    {
        table.extend_from_slice(&free);
        assert(table@ =~= table_records(fip_pebs as int, k as nat) + free@);
    }
    proof {
        lemma_table_len(fip_pebs as int, UBI_MAX_VOLUMES as nat);
    }
    table
}

// ---------------------------------------------------------------------------
// Eraseblocks
// ---------------------------------------------------------------------------

/// An erased area of `n` bytes.
pub open spec fn erased(n: int) -> Seq<u8> {
    bytes::filled(0xff, n as nat)
}

/// The erase counter header of an eraseblock that was blank.
pub open spec fn ec_header(geometry: Geometry, image_seq: u32, eof: bool) -> Seq<u8> {
    sealed(ec_content(erased(UBI_EC_HDR_SIZE as int), geometry, image_seq, eof))
}

/// The volume identifier header of an eraseblock that was blank.
pub open spec fn vid_header(header: VolumeHeader) -> Seq<u8> {
    sealed(vid_content(erased(UBI_VID_HDR_SIZE as int), header))
}

/// An eraseblock of a volume: one page for each header, then the data.
pub open spec fn volume_block(
    geometry: Geometry,
    image_seq: u32,
    header: VolumeHeader,
    data: Seq<u8>,
) -> Seq<u8> {
    ec_header(geometry, image_seq, false) + erased(geometry.page_size - UBI_EC_HDR_SIZE)
        + vid_header(header) + erased(geometry.page_size - UBI_VID_HDR_SIZE) + data + erased(
        geometry.capacity() - data.len(),
    )
}

/// The eraseblock that marks the end.
pub open spec fn eof_block(geometry: Geometry, image_seq: u32) -> Seq<u8> {
    ec_header(geometry, image_seq, true) + erased(geometry.erase_size - UBI_EC_HDR_SIZE)
}

pub proof fn lemma_ec_len(old: Seq<u8>, geometry: Geometry, image_seq: u32, eof: bool)
    requires
        old.len() >= UBI_EC_HDR_SIZE,
    ensures
        ec_content(old, geometry, image_seq, eof).len() == 60,
        sealed(ec_content(old, geometry, image_seq, eof)).len() == UBI_EC_HDR_SIZE,
{
    reveal(ec_content);
    bytes::lemma_be_bytes_len(UBI_EC_HDR_MAGIC as nat, 4);
    bytes::lemma_be_bytes_len(0, 8);
    bytes::lemma_be_bytes_len(low32(geometry.page_size as int), 4);
    bytes::lemma_be_bytes_len(low32(geometry.data_start()), 4);
    bytes::lemma_be_bytes_len(image_seq as nat, 4);
    bytes::lemma_be_bytes_len(crc_value(ec_content(old, geometry, image_seq, eof)) as nat, 4);
}

pub proof fn lemma_vid_len(old: Seq<u8>, header: VolumeHeader)
    requires
        old.len() >= UBI_VID_HDR_SIZE,
    ensures
        vid_content(old, header).len() == 60,
        sealed(vid_content(old, header)).len() == UBI_VID_HDR_SIZE,
{
    reveal(vid_content);
    bytes::lemma_be_bytes_len(UBI_VID_HDR_MAGIC as nat, 4);
    bytes::lemma_be_bytes_len(header.vol_id as nat, 4);
    bytes::lemma_be_bytes_len(header.lnum as nat, 4);
    bytes::lemma_be_bytes_len(header.data_size as nat, 4);
    bytes::lemma_be_bytes_len(header.used_ebs as nat, 4);
    bytes::lemma_be_bytes_len(0, 4);
    bytes::lemma_be_bytes_len(header.data_crc as nat, 4);
    bytes::lemma_be_bytes_len(header.sqnum as nat, 8);
    bytes::lemma_be_bytes_len(crc_value(vid_content(old, header)) as nat, 4);
}

fn empty_peb(geometry: Geometry) -> (peb: Vec<u8>)
    ensures
        peb@ == erased(geometry.erase_size as int),
{
    let peb: Vec<u8> = vec![0xffu8; geometry.erase_size];
    assert(peb@ =~= erased(geometry.erase_size as int));
    peb
}

/// A blank eraseblock with its erase counter header.
#[verifier::spinoff_prover]
fn headed_peb(geometry: Geometry, image_seq: u32, eof: bool) -> (peb: Vec<u8>)
    requires
        geometry.usable(),
    ensures
        peb@ == ec_header(geometry, image_seq, eof) + erased(
            geometry.erase_size - UBI_EC_HDR_SIZE,
        ),
        peb@.len() == geometry.erase_size,
{
    let mut peb = empty_peb(geometry);
    let ghost blank = peb@;
    let ghost small = erased(UBI_EC_HDR_SIZE as int);
    write_ec_header(peb.as_mut_slice(), geometry, image_seq, eof);
    proof {
        assert(ec_content(blank, geometry, image_seq, eof) == ec_content(
            small,
            geometry,
            image_seq,
            eof,
        )) by {
            reveal(ec_content);
            assert(blank.subrange(5, 8) =~= small.subrange(5, 8));
            assert(blank.subrange(28, 60) =~= small.subrange(28, 60));
        }
        lemma_ec_len(blank, geometry, image_seq, eof);
        assert(peb@ =~= ec_header(geometry, image_seq, eof) + erased(
            geometry.erase_size - UBI_EC_HDR_SIZE,
        ));
    }
    peb
}

/// Builds an eraseblock of a volume.
#[verifier::spinoff_prover]
fn volume_peb(geometry: Geometry, image_seq: u32, header: VolumeHeader, data: &[u8]) -> (peb: Vec<
    u8,
>)
    requires
        geometry.usable(),
        data@.len() <= geometry.capacity(),
    ensures
        peb@ == volume_block(geometry, image_seq, header, data@),
        peb@.len() == geometry.erase_size,
{
    let mut peb = headed_peb(geometry, image_seq, false);
    let ghost page = geometry.page_size as int;
    let ghost headed = peb@;
    let ghost small = erased(UBI_VID_HDR_SIZE as int);
    proof {
        lemma_ec_len(erased(UBI_EC_HDR_SIZE as int), geometry, image_seq, false);
        lemma_vid_len(headed.skip(page), header);
        assert(vid_content(headed.skip(page), header) == vid_content(small, header)) by {
            reveal(vid_content);
            assert(headed.skip(page).subrange(16, 20) =~= small.subrange(16, 20));
            assert(headed.skip(page).subrange(36, 40) =~= small.subrange(36, 40));
            assert(headed.skip(page).subrange(48, 60) =~= small.subrange(48, 60));
        }
    }
    write_vid_header(peb.as_mut_slice(), geometry, header);
    let ghost named = peb@;
    assert(named =~= ec_header(geometry, image_seq, false) + erased(page - UBI_EC_HDR_SIZE)
        + vid_header(header) + erased(page - UBI_VID_HDR_SIZE) + erased(geometry.capacity()));
    copy_into(peb.as_mut_slice(), geometry.data_offset(), data);
    assert(peb@ =~= volume_block(geometry, image_seq, header, data@));
    peb
}

// ---------------------------------------------------------------------------
// The image
// ---------------------------------------------------------------------------

#[derive(Debug, Clone, PartialEq, Eq)]
pub struct BootstrapInfo {
    pub image: Vec<u8>,
    pub fip_pebs: usize,
    pub total_pebs: usize,
}

/// How many eraseblocks of `capacity` bytes hold `len` bytes.
pub open spec fn blocks_for(len: int, capacity: int) -> int {
    (len + capacity - 1) / capacity
}

/// The part of `fip` that eraseblock `k` of the volume holds.
pub open spec fn fip_chunk(fip: Seq<u8>, geometry: Geometry, k: int) -> Seq<u8> {
    let from = k * geometry.capacity();
    let to = (k + 1) * geometry.capacity();
    fip.subrange(
        from,
        if to <= fip.len() {
            to
        } else {
            fip.len() as int
        },
    )
}

/// The header of layout eraseblock `lnum`.
pub open spec fn layout_header(lnum: int) -> VolumeHeader {
    VolumeHeader {
        vol_type: UBI_VID_DYNAMIC,
        compat: UBI_LAYOUT_VOLUME_COMPAT,
        vol_id: UBI_LAYOUT_VOLUME_ID,
        lnum: lnum as u32,
        data_size: 0,
        used_ebs: 0,
        data_crc: 0,
        sqnum: (lnum + 1) as u64,
    }
}

/// The header of eraseblock `k` of the volume `fip`.
pub open spec fn fip_header(fip: Seq<u8>, geometry: Geometry, k: int) -> VolumeHeader {
    let chunk = fip_chunk(fip, geometry, k);
    VolumeHeader {
        vol_type: UBI_VID_STATIC,
        compat: 0,
        vol_id: 0,
        lnum: low32(k) as u32,
        data_size: low32(chunk.len() as int) as u32,
        used_ebs: low32(blocks_for(fip.len() as int, geometry.capacity())) as u32,
        data_crc: crc_value(chunk),
        sqnum: (k + 3) as u64,
    }
}

/// Eraseblock `lnum` of the layout volume, which holds the volume table.
pub open spec fn layout_block(fip: Seq<u8>, geometry: Geometry, image_seq: u32, lnum: int) -> Seq<
    u8,
> {
    volume_block(
        geometry,
        image_seq,
        layout_header(lnum),
        table_bytes(blocks_for(fip.len() as int, geometry.capacity())),
    )
}

/// Eraseblock `k` of the volume `fip`.
pub open spec fn fip_block(fip: Seq<u8>, geometry: Geometry, image_seq: u32, k: int) -> Seq<u8> {
    volume_block(geometry, image_seq, fip_header(fip, geometry, k), fip_chunk(fip, geometry, k))
}

/// Eraseblock `k` of the image: two of the layout volume, those of `fip`, and
/// the one that marks the end.
pub open spec fn image_block(fip: Seq<u8>, geometry: Geometry, image_seq: u32, k: int) -> Seq<u8> {
    if k < 2 {
        layout_block(fip, geometry, image_seq, k)
    } else if k < 2 + blocks_for(fip.len() as int, geometry.capacity()) {
        fip_block(fip, geometry, image_seq, k - 2)
    } else {
        eof_block(geometry, image_seq)
    }
}

/// The first `n` eraseblocks of the image.
pub open spec fn image_blocks(fip: Seq<u8>, geometry: Geometry, image_seq: u32, n: nat) -> Seq<u8>
    decreases n,
{
    if n == 0 {
        Seq::empty()
    } else {
        image_blocks(fip, geometry, image_seq, (n - 1) as nat) + image_block(
            fip,
            geometry,
            image_seq,
            n - 1,
        )
    }
}

/// How many eraseblocks the image takes.
pub open spec fn image_pebs(fip_len: int, geometry: Geometry) -> int {
    2 + blocks_for(fip_len, geometry.capacity()) + 1
}

/// Why no image can be built.
pub open spec fn bootstrap_complaint(fip_len: int, geometry: Geometry) -> Option<Seq<char>> {
    if geometry.complaint() is Some {
        geometry.complaint()
    } else if fip_len == 0 {
        Some("FIP volume content is empty"@)
    } else if UBI_MAX_VOLUMES * UBI_VTBL_RECORD_SIZE > geometry.capacity() {
        Some("UBI volume table exceeds one LEB"@)
    } else {
        None
    }
}

/// Whether the image, where there is one, can stand in memory. The first line
/// holds of every image of ordinary size: none takes more than that.
pub open spec fn image_fits(fip_len: int, geometry: Geometry) -> bool {
    ||| 4 * geometry.erase_size + 3 * fip_len <= isize::MAX
    ||| bootstrap_complaint(fip_len, geometry) is Some
    ||| image_pebs(fip_len, geometry) * geometry.erase_size <= isize::MAX
}

/// No image takes more than four eraseblocks and three times its content.
pub proof fn lemma_image_bound(fip_len: int, geometry: Geometry)
    requires
        fip_len >= 0,
        bootstrap_complaint(fip_len, geometry) is None,
    ensures
        image_pebs(fip_len, geometry) * geometry.erase_size <= 4 * geometry.erase_size + 3
            * fip_len,
{
    let cap = geometry.capacity();
    let e = geometry.erase_size as int;
    let n = blocks_for(fip_len, cap);
    lemma_blocks_for(fip_len, cap);
    assert((n - 1) * e <= (n - 1) * (3 * cap)) by (nonlinear_arith)
        requires
            n >= 1,
            e <= 3 * cap,
    ;
    assert((n - 1) * (3 * cap) == 3 * ((n - 1) * cap)) by (nonlinear_arith);
    assert((2 + n + 1) * e == (n - 1) * e + 4 * e) by (nonlinear_arith);
}

/// Whole eraseblocks, and one more for a rest.
pub proof fn lemma_blocks_for(len: int, capacity: int)
    requires
        len >= 1,
        capacity >= 1,
    ensures
        1 <= blocks_for(len, capacity) <= len,
        (blocks_for(len, capacity) - 1) * capacity < len <= blocks_for(len, capacity) * capacity,
        blocks_for(len, capacity) == len / capacity + (if len % capacity != 0 {
            1int
        } else {
            0
        }),
{
    let q = len / capacity;
    let r = len % capacity;
    vstd::arithmetic::div_mod::lemma_fundamental_div_mod(len, capacity);
    assert(q * capacity == capacity * q) by (nonlinear_arith);
    if r == 0 {
        vstd::arithmetic::div_mod::lemma_fundamental_div_mod_converse(
            len + capacity - 1,
            capacity,
            q,
            capacity - 1,
        );
        assert((q - 1) * capacity == q * capacity - capacity) by (nonlinear_arith);
        assert(1 <= q <= len) by (nonlinear_arith)
            requires
                len == q * capacity,
                len >= 1,
                capacity >= 1,
        ;
    } else {
        assert((q + 1) * capacity == q * capacity + capacity) by (nonlinear_arith);
        vstd::arithmetic::div_mod::lemma_fundamental_div_mod_converse(
            len + capacity - 1,
            capacity,
            q + 1,
            r - 1,
        );
        assert(0 <= q < len) by (nonlinear_arith)
            requires
                len == q * capacity + r,
                0 < r < capacity,
                len >= 1,
                capacity >= 1,
        ;
    }
}

/// Every part but the last fills its eraseblock, and the last holds something.
pub proof fn lemma_chunk(fip: Seq<u8>, geometry: Geometry, k: int)
    requires
        fip.len() >= 1,
        geometry.capacity() >= 1,
        0 <= k < blocks_for(fip.len() as int, geometry.capacity()),
    ensures
        0 <= k * geometry.capacity() < fip.len(),
        (k + 1) * geometry.capacity() == k * geometry.capacity() + geometry.capacity(),
        1 <= fip_chunk(fip, geometry, k).len() <= geometry.capacity(),
        k + 1 < blocks_for(fip.len() as int, geometry.capacity()) ==> (k + 1) * geometry.capacity()
            < fip.len(),
        k + 1 == blocks_for(fip.len() as int, geometry.capacity()) ==> (k + 1) * geometry.capacity()
            >= fip.len(),
{
    let cap = geometry.capacity();
    let n = blocks_for(fip.len() as int, cap);
    lemma_blocks_for(fip.len() as int, cap);
    assert((k + 1) * cap == k * cap + cap) by (nonlinear_arith);
    assert(0 <= k * cap <= (n - 1) * cap) by (nonlinear_arith)
        requires
            0 <= k <= n - 1,
            cap >= 1,
    ;
    if k + 1 < n {
        assert((k + 1) * cap <= (n - 1) * cap) by (nonlinear_arith)
            requires
                k + 1 <= n - 1,
                cap >= 1,
        ;
    }
}

/// The number of eraseblocks that hold `len` bytes.
fn block_count(len: usize, capacity: usize) -> (count: usize)
    requires
        len >= 1,
        capacity >= UBI_EC_HDR_SIZE,
    ensures
        count == blocks_for(len as int, capacity as int),
        1 <= count <= len / 64 + 1,
{
    proof {
        lemma_blocks_for(len as int, capacity as int);
        assert(len as int / capacity as int <= len / 64) by (nonlinear_arith)
            requires
                capacity >= 64,
                len >= 0,
        ;
    }
    let whole: usize = len / capacity;
    if len % capacity != 0 {
        whole + 1
    } else {
        whole
    }
}

/// Whether the image for `fip_len` bytes, where there is one, can stand in memory.
pub fn fits_in_memory(fip_len: usize, geometry: Geometry) -> (fits: bool)
    ensures
        fits == image_fits(fip_len as int, geometry),
{
    if geometry.validate().is_err() || fip_len == 0 {
        return true;
    }
    let leb_size = geometry.leb_size();
    if UBI_MAX_VOLUMES * UBI_VTBL_RECORD_SIZE > leb_size {
        return true;
    }
    let fip_pebs = block_count(fip_len, leb_size);
    let total_pebs: u128 = 2 + fip_pebs as u128 + 1;
    assert(total_pebs * geometry.erase_size as u128 <= u128::MAX) by (nonlinear_arith)
        requires
            total_pebs <= 0xffff_ffff_ffff_ffff,
            geometry.erase_size <= 0xffff_ffff_ffff_ffff,
    ;
    proof {
        lemma_image_bound(fip_len as int, geometry);
    }
    total_pebs * geometry.erase_size as u128 <= isize::MAX as u128
}

/// The EOF marker ends this BL2's UBI scan ahead of the stock image.
pub fn build_bootstrap(fip: &[u8], geometry: Geometry, image_seq: u32) -> (result: Result<
    BootstrapInfo,
    String,
>)
    requires
        image_fits(fip@.len() as int, geometry),
    ensures
        match result {
            Ok(info) => {
                &&& bootstrap_complaint(fip@.len() as int, geometry) is None
                &&& info.fip_pebs == blocks_for(fip@.len() as int, geometry.capacity())
                &&& info.total_pebs == image_pebs(fip@.len() as int, geometry)
                &&& info.image@ == image_blocks(fip@, geometry, image_seq, info.total_pebs as nat)
            },
            Err(message) => bootstrap_complaint(fip@.len() as int, geometry) == Some(message@),
        },
{
    match geometry.validate() {
        Ok(()) => {},
        Err(message) => {
            return Err(message);
        },
    }
    if fip.is_empty() {
        return Err("FIP volume content is empty".to_string());
    }
    let leb_size = geometry.leb_size();
    let fip_len: usize = fip.len();
    let fip_pebs = block_count(fip_len, leb_size);
    let total_pebs: usize = 2 + fip_pebs + 1;
    let table = volume_table(fip_pebs);
    if table.len() > leb_size {
        return Err("UBI volume table exceeds one LEB".to_string());
    }
    proof {
        lemma_image_bound(fip_len as int, geometry);
    }
    let mut image: Vec<u8> = Vec::with_capacity(total_pebs * geometry.erase_size);
    for lnum in 0..2u32
        invariant
            geometry.usable(),
            fip_pebs == blocks_for(fip@.len() as int, geometry.capacity()),
            table@ == table_bytes(fip_pebs as int),
            table@.len() <= geometry.capacity(),
            image@ == image_blocks(fip@, geometry, image_seq, lnum as nat),
    {
        let header = VolumeHeader {
            vol_type: UBI_VID_DYNAMIC,
            compat: UBI_LAYOUT_VOLUME_COMPAT,
            vol_id: UBI_LAYOUT_VOLUME_ID,
            lnum,
            data_size: 0,
            used_ebs: 0,
            data_crc: 0,
            sqnum: lnum as u64 + 1,
        };
        let peb = volume_peb(geometry, image_seq, header, &table);
        let ghost before = image@;
        image.extend_from_slice(&peb);
        assert(image@ =~= before + peb@);
    }

    for lnum in 0..fip_pebs
        invariant
            geometry.usable(),
            fip_len == fip@.len(),
            fip_len >= 1,
            leb_size == geometry.capacity(),
            fip_pebs == blocks_for(fip@.len() as int, geometry.capacity()),
            fip_pebs <= fip@.len() / 64 + 1,
            image@ == image_blocks(fip@, geometry, image_seq, (2 + lnum) as nat),
    {
        proof {
            lemma_chunk(fip@, geometry, lnum as int);
        }
        let from: usize = lnum * leb_size;
        let to: usize = if fip_len - from <= leb_size {
            fip_len
        } else {
            from + leb_size
        };
        let chunk = slice_subrange(fip, from, to);
        assert(chunk@ == fip_chunk(fip@, geometry, lnum as int));
        let header = VolumeHeader {
            vol_type: UBI_VID_STATIC,
            compat: 0,
            vol_id: 0,
            lnum: to_u32(lnum),
            data_size: to_u32(chunk.len()),
            used_ebs: to_u32(fip_pebs),
            data_crc: crc32_ubi(chunk),
            sqnum: lnum as u64 + 3,
        };
        let peb = volume_peb(geometry, image_seq, header, chunk);
        let ghost before = image@;
        image.extend_from_slice(&peb);
        assert(image@ =~= before + peb@);
    }

    let eof = headed_peb(geometry, image_seq, true);
    let ghost before = image@;
    image.extend_from_slice(&eof);
    assert(image@ =~= before + eof@);
    Ok(BootstrapInfo { image, fip_pebs, total_pebs })
}

} // verus!
