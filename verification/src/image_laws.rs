//! What every byte of a bootstrap image is, and which images there are.
//!
//! The laws speak of the bytes of the image as UBI lays them down, in its own
//! numbers.
use vstd::prelude::*;

use crate::bytes;
use crate::ubi;
use crate::ubi::Geometry;
use crate::ubi_laws;

verus! {

/// The number in two bytes at `at`, high byte first.
pub open spec fn be2(s: Seq<u8>, at: int) -> int {
    s[at] * 0x100 + s[at + 1]
}

/// The number in four bytes at `at`, high byte first.
pub open spec fn be4(s: Seq<u8>, at: int) -> int {
    s[at] * 0x100_0000 + s[at + 1] * 0x1_0000 + s[at + 2] * 0x100 + s[at + 3]
}

/// The number in eight bytes at `at`, high byte first.
pub open spec fn be8(s: Seq<u8>, at: int) -> int {
    be4(s, at) * 0x1_0000_0000 + be4(s, at + 4)
}

/// All bytes from `from` up to `to` have that value.
pub open spec fn all_are(s: Seq<u8>, from: int, to: int, byte: u8) -> bool {
    forall|i: int| from <= i < to ==> #[trigger] s[i] == byte
}

proof fn lemma_two_bytes(value: nat)
    requires
        value < 0x1_0000,
    ensures
        bytes::be_bytes(value, 2).len() == 2,
        be2(bytes::be_bytes(value, 2), 0) == value,
{
    reveal_with_fuel(bytes::be_bytes, 3);
}

proof fn lemma_four_bytes(value: nat)
    requires
        value < 0x1_0000_0000,
    ensures
        bytes::be_bytes(value, 4).len() == 4,
        be4(bytes::be_bytes(value, 4), 0) == value,
{
    reveal_with_fuel(bytes::be_bytes, 5);
}

proof fn lemma_eight_bytes(value: nat)
    requires
        value < 0x1_0000_0000_0000_0000,
    ensures
        bytes::be_bytes(value, 8).len() == 8,
        be8(bytes::be_bytes(value, 8), 0) == value,
{
    reveal_with_fuel(bytes::be_bytes, 9);
    let high = value / 0x1_0000_0000;
    let low = value % 0x1_0000_0000;
    let s = bytes::be_bytes(value, 8);
    assert(s[7] == value % 256);
    assert(s[6] == value / 0x100 % 256);
    assert(s[5] == value / 0x1_0000 % 256);
    assert(s[4] == value / 0x100_0000 % 256);
    assert(s[3] == value / 0x1_0000_0000 % 256);
    assert(s[2] == value / 0x100_0000_0000 % 256);
    assert(s[1] == value / 0x1_0000_0000_0000 % 256);
    assert(s[0] == value / 0x100_0000_0000_0000 % 256);
    assert(be4(s, 4) == low);
    assert(be4(s, 0) == high);
}

/// Bytes that stand inside others read as they do alone.
proof fn lemma_be4_at(s: Seq<u8>, at: int, part: Seq<u8>)
    requires
        part.len() == 4,
        0 <= at,
        at + 4 <= s.len(),
        s.subrange(at, at + 4) == part,
    ensures
        be4(s, at) == be4(part, 0),
{
    assert(s[at] == part[0] && s[at + 1] == part[1] && s[at + 2] == part[2] && s[at + 3]
        == part[3]);
}

proof fn lemma_be8_at(s: Seq<u8>, at: int, part: Seq<u8>)
    requires
        part.len() == 8,
        0 <= at,
        at + 8 <= s.len(),
        s.subrange(at, at + 8) == part,
    ensures
        be8(s, at) == be8(part, 0),
{
    assert(s.subrange(at, at + 4) =~= part.subrange(0, 4));
    assert(s.subrange(at + 4, at + 8) =~= part.subrange(4, 8));
    lemma_be4_at(s, at, part.subrange(0, 4));
    lemma_be4_at(s, at + 4, part.subrange(4, 8));
    lemma_be4_at(part, 0, part.subrange(0, 4));
    lemma_be4_at(part, 4, part.subrange(4, 8));
}

// ---------------------------------------------------------------------------
// Which images there are
// ---------------------------------------------------------------------------

/// An image can be built of `fip_len` bytes: there are some, at least three whole
/// pages make an eraseblock, each page has room for a header, and an eraseblock
/// behind its two header pages has room for the 128 records of the volume table.
pub open spec fn buildable(fip_len: int, geometry: Geometry) -> bool {
    &&& fip_len > 0
    &&& geometry.page_size >= 64
    &&& geometry.erase_size >= 3 * geometry.page_size
    &&& geometry.erase_size % geometry.page_size == 0
    &&& geometry.erase_size - 2 * geometry.page_size >= 128 * 172
}

/// How many eraseblocks the volume takes: as many as hold its content behind two
/// header pages each.
pub open spec fn volume_blocks(fip_len: int, geometry: Geometry) -> int {
    let room = geometry.erase_size - 2 * geometry.page_size;
    (fip_len + room - 1) / room
}

/// An image is built exactly where one can be built, and else the first thing
/// that is wrong is named.
pub proof fn law_buildable(fip_len: int, geometry: Geometry)
    requires
        fip_len >= 0,
    ensures
        buildable(fip_len, geometry) <==> ubi::bootstrap_complaint(fip_len, geometry) is None,
        geometry.page_size == 0 || geometry.erase_size < 3 * geometry.page_size ==> {
            &&& geometry.complaint() == Some("Invalid NAND page or eraseblock geometry"@)
            &&& ubi::bootstrap_complaint(fip_len, geometry) == geometry.complaint()
        },
        geometry.page_size > 0 && geometry.erase_size >= 3 * geometry.page_size
            && geometry.erase_size % geometry.page_size != 0 ==> {
            &&& geometry.complaint() == Some("Eraseblock size must be a multiple of page size"@)
            &&& ubi::bootstrap_complaint(fip_len, geometry) == geometry.complaint()
        },
        0 < geometry.page_size < 64 && geometry.erase_size >= 3 * geometry.page_size
            && geometry.erase_size % geometry.page_size == 0 ==> {
            &&& geometry.complaint() == Some("NAND page is too small for a UBI header"@)
            &&& ubi::bootstrap_complaint(fip_len, geometry) == geometry.complaint()
        },
        geometry.page_size >= 64 && geometry.erase_size >= 3 * geometry.page_size
            && geometry.erase_size % geometry.page_size == 0 ==> {
            &&& geometry.complaint() is None
            &&& fip_len == 0 ==> ubi::bootstrap_complaint(fip_len, geometry) == Some(
                "FIP volume content is empty"@,
            )
            &&& fip_len > 0 && geometry.erase_size - 2 * geometry.page_size < 128 * 172
                ==> ubi::bootstrap_complaint(fip_len, geometry) == Some(
                "UBI volume table exceeds one LEB"@,
            )
        },
        geometry.data_start() == 2 * geometry.page_size,
        geometry.capacity() == geometry.erase_size - 2 * geometry.page_size,
{
}

/// The volume takes just as many eraseblocks as its content needs, and the image
/// three more: two before it and one behind it.
pub proof fn law_image_size(fip: Seq<u8>, geometry: Geometry, image_seq: u32)
    requires
        buildable(fip.len() as int, geometry),
    ensures
        ({
            let room = geometry.erase_size - 2 * geometry.page_size;
            let n = volume_blocks(fip.len() as int, geometry);
            &&& (n - 1) * room < fip.len() <= n * room
            &&& n >= 1
            &&& ubi::blocks_for(fip.len() as int, geometry.capacity()) == n
            &&& ubi::image_pebs(fip.len() as int, geometry) == n + 3
            &&& ubi::image_blocks(fip, geometry, image_seq, (n + 3) as nat).len() == (n + 3)
                * geometry.erase_size
        }),
{
    let room = geometry.erase_size - 2 * geometry.page_size;
    let n = volume_blocks(fip.len() as int, geometry);
    let x = fip.len() + room - 1;
    vstd::arithmetic::div_mod::lemma_fundamental_div_mod(x, room);
    assert(room * n == n * room) by (nonlinear_arith);
    assert((n - 1) * room == n * room - room) by (nonlinear_arith);
    assert(n >= 1) by (nonlinear_arith)
        requires
            n * room >= fip.len(),
            fip.len() > 0,
            room > 0,
    ;
    ubi_laws::law_image_layout(fip, geometry, image_seq, 0);
}

/// An image stands in memory exactly where it takes no more bytes than the
/// largest allocation has.
pub proof fn law_image_fits(fip_len: int, geometry: Geometry)
    requires
        fip_len >= 0,
    ensures
        ubi::image_fits(fip_len, geometry) <==> {
            ||| !buildable(fip_len, geometry)
            ||| (volume_blocks(fip_len, geometry) + 3) * geometry.erase_size <= isize::MAX
        },
        4 * geometry.erase_size + 3 * fip_len <= isize::MAX ==> ubi::image_fits(fip_len, geometry),
{
    law_buildable(fip_len, geometry);
    if buildable(fip_len, geometry) {
        ubi::lemma_image_bound(fip_len, geometry);
    }
}

// ---------------------------------------------------------------------------
// The checksum
// ---------------------------------------------------------------------------

/// Two rows of bytes of the same length, combined bit by bit.
pub open spec fn combined(x: Seq<u8>, y: Seq<u8>) -> Seq<u8> {
    Seq::new(x.len(), |i: int| x[i] ^ y[i])
}

proof fn lemma_shift_linear(a: u32, b: u32)
    ensures
        ubi::crc_shift(a ^ b) == ubi::crc_shift(a) ^ ubi::crc_shift(b),
{
    assert(ubi::crc_shift(a ^ b) == ubi::crc_shift(a) ^ ubi::crc_shift(b)) by (bit_vector);
}

proof fn lemma_shifts_linear(a: u32, b: u32, n: nat)
    ensures
        ubi::crc_shifts(a ^ b, n) == ubi::crc_shifts(a, n) ^ ubi::crc_shifts(b, n),
    decreases n,
{
    if n > 0 {
        let m = (n - 1) as nat;
        lemma_shifts_linear(a, b, m);
        lemma_shift_linear(ubi::crc_shifts(a, m), ubi::crc_shifts(b, m));
    }
}

/// The checksum is linear: combining registers and data bit by bit combines the
/// results.
pub proof fn law_crc_linear(a: u32, b: u32, x: Seq<u8>, y: Seq<u8>)
    requires
        x.len() == y.len(),
    ensures
        ubi::crc_from(a ^ b, combined(x, y)) == ubi::crc_from(a, x) ^ ubi::crc_from(b, y),
    decreases x.len(),
{
    if x.len() > 0 {
        let xy = combined(x, y);
        law_crc_linear(a, b, x.drop_last(), y.drop_last());
        assert(xy.drop_last() =~= combined(x.drop_last(), y.drop_last()));
        let p = ubi::crc_from(a, x.drop_last());
        let q = ubi::crc_from(b, y.drop_last());
        let u = x.last();
        let v = y.last();
        assert((p ^ q) ^ ((u ^ v) as u32) == (p ^ (u as u32)) ^ (q ^ (v as u32))) by (bit_vector);
        lemma_shifts_linear(p ^ (u as u32), q ^ (v as u32), 8);
    }
}

proof fn lemma_one_byte(register: u32, byte: u8)
    ensures
        ubi::crc_from(register, seq![byte]) == ubi::crc_shifts(register ^ (byte as u32), 8),
{
    assert(seq![byte].drop_last() =~= Seq::<u8>::empty());
    assert(ubi::crc_from(register, seq![byte].drop_last()) == register);
}

/// The checksum starts with all bits set, and no data leaves a register as it is.
/// A byte that is the register's low byte moves the register by eight bits. A
/// byte with only its high bit set leaves the polynomial 0xedb88320 in an empty
/// register, and halving a byte divides once more by it. With the laws on joined
/// and on combined data this settles the checksum of every row of bytes.
pub proof fn law_crc_settled(register: u32, byte: u8, data: Seq<u8>)
    ensures
        ubi::crc_value(data) == ubi::crc_from(0xffff_ffff, data),
        ubi::crc_from(register, Seq::empty()) == register,
        register % 256 == byte ==> ubi::crc_from(register, seq![byte]) == register / 256,
        ubi::crc_from(0, seq![0x80u8]) == 0xedb8_8320,
        byte < 0x80 ==> ({
            let twice = ubi::crc_from(0, seq![(2 * byte) as u8]);
            ubi::crc_from(0, seq![byte]) == if twice % 2 == 1 {
                (twice / 2) ^ 0xedb8_8320
            } else {
                twice / 2
            }
        }),
{
    lemma_one_byte(register, byte);
    lemma_one_byte(0, byte);
    lemma_one_byte(0, 0x80);
    if register % 256 == byte {
        let wide = byte as u32;
        assert((register ^ wide) & 0xff == 0 && (register ^ wide) >> 8 == register / 256)
            by (bit_vector)
            requires
                register % 256 == wide,
                wide < 256,
        ;
        ubi::lemma_shift_byte(register ^ wide);
    }
    assert(ubi::crc_from(0, seq![0x80u8]) == 0xedb8_8320u32) by {
        reveal_with_fuel(ubi::crc_shifts, 9);
        assert(0u32 ^ (0x80u8 as u32) == 0x80u32) by (bit_vector);
        assert(ubi::crc_shift(0x80) == 0x40u32) by (bit_vector);
        assert(ubi::crc_shift(0x40) == 0x20u32) by (bit_vector);
        assert(ubi::crc_shift(0x20) == 0x10u32) by (bit_vector);
        assert(ubi::crc_shift(0x10) == 0x08u32) by (bit_vector);
        assert(ubi::crc_shift(0x08) == 0x04u32) by (bit_vector);
        assert(ubi::crc_shift(0x04) == 0x02u32) by (bit_vector);
        assert(ubi::crc_shift(0x02) == 0x01u32) by (bit_vector);
        assert(ubi::crc_shift(0x01) == 0xedb8_8320u32) by (bit_vector);
    }
    if byte < 0x80 {
        let double = (2 * byte) as u8;
        lemma_one_byte(0, double);
        let wide = byte as u32;
        let wider = double as u32;
        assert(ubi::crc_shift(0u32 ^ wider) == 0u32 ^ wide) by (bit_vector)
            requires
                wider == 2 * wide,
                wide < 0x80,
        ;
        lemma_shifts_later(0u32 ^ wider, 7);
        let twice = ubi::crc_shifts(0u32 ^ wider, 8);
        assert(ubi::crc_shifts(0u32 ^ wide, 8) == ubi::crc_shift(ubi::crc_shifts(0u32 ^ wide, 7)));
        assert(ubi::crc_shift(twice) == if twice % 2 == 1 {
            (twice / 2) ^ 0xedb8_8320u32
        } else {
            twice / 2
        }) by (bit_vector);
    }
}

/// Shifting once and then `n` times is shifting `n + 1` times.
proof fn lemma_shifts_later(crc: u32, n: nat)
    ensures
        ubi::crc_shifts(ubi::crc_shift(crc), n) == ubi::crc_shifts(crc, n + 1),
    decreases n,
{
    reveal_with_fuel(ubi::crc_shifts, 2);
    if n > 0 {
        lemma_shifts_later(crc, (n - 1) as nat);
    }
}

// ---------------------------------------------------------------------------
// The bytes of the headers
// ---------------------------------------------------------------------------

/// The 64 bytes at the start of an eraseblock are an erase counter header: the
/// characters `UBI#`, version 1, three bytes for the end mark, a count of zero,
/// where the second header and the data start, the image's sequence number, and
/// the checksum of all before it. What UBI leaves unused is erased.
pub open spec fn is_erase_counter_header(
    block: Seq<u8>,
    geometry: Geometry,
    image_seq: u32,
    last: bool,
) -> bool {
    &&& block[0] == 0x55 && block[1] == 0x42 && block[2] == 0x49 && block[3] == 0x23
    &&& block[4] == 1
    &&& if last {
        block[5] == 0x45 && block[6] == 0x4f && block[7] == 0x46
    } else {
        all_are(block, 5, 8, 0xff)
    }
    &&& all_are(block, 8, 16, 0)
    &&& be4(block, 16) == geometry.page_size as int % 0x1_0000_0000
    &&& be4(block, 20) == (2 * geometry.page_size) % 0x1_0000_0000
    &&& be4(block, 24) == image_seq
    &&& all_are(block, 28, 60, 0xff)
    &&& be4(block, 60) == ubi::crc_value(block.subrange(0, 60))
}

/// The 64 bytes at `at` are a volume identifier header: the characters `UBI!`,
/// version 1, the volume's type, no copy, its compatibility, its number, the
/// number of the eraseblock in it, the length of its data, how many eraseblocks
/// the volume uses, no padding, the checksum of the data, the sequence number of
/// the header, and the checksum of all before it.
pub open spec fn is_volume_header(
    block: Seq<u8>,
    at: int,
    vol_type: int,
    compat: int,
    vol_id: int,
    lnum: int,
    data_size: int,
    used_ebs: int,
    data_crc: int,
    sqnum: int,
) -> bool {
    &&& block[at] == 0x55 && block[at + 1] == 0x42 && block[at + 2] == 0x49 && block[at + 3]
        == 0x21
    &&& block[at + 4] == 1
    &&& block[at + 5] == vol_type
    &&& block[at + 6] == 0
    &&& block[at + 7] == compat
    &&& be4(block, at + 8) == vol_id
    &&& be4(block, at + 12) == lnum
    &&& all_are(block, at + 16, at + 20, 0xff)
    &&& be4(block, at + 20) == data_size
    &&& be4(block, at + 24) == used_ebs
    &&& be4(block, at + 28) == 0
    &&& be4(block, at + 32) == data_crc
    &&& all_are(block, at + 36, at + 40, 0xff)
    &&& be8(block, at + 40) == sqnum
    &&& all_are(block, at + 48, at + 60, 0xff)
    &&& be4(block, at + 60) == ubi::crc_value(block.subrange(at, at + 60))
}

#[verifier::spinoff_prover]
proof fn lemma_ec_bytes(geometry: Geometry, image_seq: u32, last: bool)
    ensures
        ubi::ec_header(geometry, image_seq, last).len() == 64,
        is_erase_counter_header(
            ubi::ec_header(geometry, image_seq, last),
            geometry,
            image_seq,
            last,
        ),
{
    let old = ubi::erased(64);
    let content = ubi::ec_content(old, geometry, image_seq, last);
    let h = ubi::sealed(content);
    ubi::lemma_ec_len(old, geometry, image_seq, last);
    reveal(ubi::ec_content);
    let page = (geometry.page_size as int % 0x1_0000_0000) as nat;
    let data = ((2 * geometry.page_size) % 0x1_0000_0000) as nat;
    lemma_four_bytes(0x5542_4923);
    lemma_four_bytes(page);
    lemma_four_bytes(data);
    lemma_four_bytes(image_seq as nat);
    lemma_four_bytes(ubi::crc_value(content) as nat);
    lemma_eight_bytes(0);
    assert(ubi::low32(geometry.page_size as int) == page);
    assert(ubi::low32(geometry.data_start()) == data);
    assert(h.subrange(0, 4) =~= bytes::be_bytes(0x5542_4923, 4));
    assert(bytes::be_bytes(0x5542_4923, 4) =~= seq![0x55u8, 0x42, 0x49, 0x23]) by {
        reveal_with_fuel(bytes::be_bytes, 5);
    }
    assert(h[0] == h.subrange(0, 4)[0] && h[1] == h.subrange(0, 4)[1] && h[2] == h.subrange(
        0,
        4,
    )[2] && h[3] == h.subrange(0, 4)[3]);
    assert(bytes::be_bytes(0, 8) =~= seq![0u8, 0, 0, 0, 0, 0, 0, 0]) by {
        reveal_with_fuel(bytes::be_bytes, 9);
    }
    assert forall|i: int| 8 <= i < 16 implies #[trigger] h[i] == 0 by {
        assert(h[i] == bytes::be_bytes(0, 8)[i - 8]);
    }
    assert(h.subrange(16, 20) =~= bytes::be_bytes(page, 4));
    assert(h.subrange(20, 24) =~= bytes::be_bytes(data, 4));
    assert(h.subrange(24, 28) =~= bytes::be_bytes(image_seq as nat, 4));
    assert(h.subrange(60, 64) =~= bytes::be_bytes(ubi::crc_value(content) as nat, 4));
    assert(h.subrange(0, 60) =~= content);
    lemma_be4_at(h, 16, bytes::be_bytes(page, 4));
    lemma_be4_at(h, 20, bytes::be_bytes(data, 4));
    lemma_be4_at(h, 24, bytes::be_bytes(image_seq as nat, 4));
    lemma_be4_at(h, 60, bytes::be_bytes(ubi::crc_value(content) as nat, 4));
    if last {
        assert(h.subrange(5, 8) =~= seq![0x45u8, 0x4f, 0x46]);
        assert(h[5] == h.subrange(5, 8)[0] && h[6] == h.subrange(5, 8)[1] && h[7] == h.subrange(
            5,
            8,
        )[2]);
    }
}

#[verifier::spinoff_prover]
proof fn lemma_vid_bytes(header: ubi::VolumeHeader)
    ensures
        ubi::vid_header(header).len() == 64,
        is_volume_header(
            ubi::vid_header(header),
            0,
            header.vol_type as int,
            header.compat as int,
            header.vol_id as int,
            header.lnum as int,
            header.data_size as int,
            header.used_ebs as int,
            header.data_crc as int,
            header.sqnum as int,
        ),
{
    let old = ubi::erased(64);
    let content = ubi::vid_content(old, header);
    let h = ubi::sealed(content);
    ubi::lemma_vid_len(old, header);
    reveal(ubi::vid_content);
    lemma_four_bytes(0x5542_4921);
    lemma_four_bytes(header.vol_id as nat);
    lemma_four_bytes(header.lnum as nat);
    lemma_four_bytes(header.data_size as nat);
    lemma_four_bytes(header.used_ebs as nat);
    lemma_four_bytes(0);
    lemma_four_bytes(header.data_crc as nat);
    lemma_eight_bytes(header.sqnum as nat);
    lemma_four_bytes(ubi::crc_value(content) as nat);
    assert(bytes::be_bytes(0x5542_4921, 4) =~= seq![0x55u8, 0x42, 0x49, 0x21]) by {
        reveal_with_fuel(bytes::be_bytes, 5);
    }
    assert(h.subrange(0, 4) =~= bytes::be_bytes(0x5542_4921, 4));
    assert(h[0] == h.subrange(0, 4)[0] && h[1] == h.subrange(0, 4)[1] && h[2] == h.subrange(
        0,
        4,
    )[2] && h[3] == h.subrange(0, 4)[3]);
    assert(h.subrange(8, 12) =~= bytes::be_bytes(header.vol_id as nat, 4));
    assert(h.subrange(12, 16) =~= bytes::be_bytes(header.lnum as nat, 4));
    assert(h.subrange(20, 24) =~= bytes::be_bytes(header.data_size as nat, 4));
    assert(h.subrange(24, 28) =~= bytes::be_bytes(header.used_ebs as nat, 4));
    assert(h.subrange(28, 32) =~= bytes::be_bytes(0, 4));
    assert(h.subrange(32, 36) =~= bytes::be_bytes(header.data_crc as nat, 4));
    assert(h.subrange(40, 48) =~= bytes::be_bytes(header.sqnum as nat, 8));
    assert(h.subrange(60, 64) =~= bytes::be_bytes(ubi::crc_value(content) as nat, 4));
    assert(h.subrange(0, 60) =~= content);
    lemma_be4_at(h, 8, bytes::be_bytes(header.vol_id as nat, 4));
    lemma_be4_at(h, 12, bytes::be_bytes(header.lnum as nat, 4));
    lemma_be4_at(h, 20, bytes::be_bytes(header.data_size as nat, 4));
    lemma_be4_at(h, 24, bytes::be_bytes(header.used_ebs as nat, 4));
    lemma_be4_at(h, 28, bytes::be_bytes(0, 4));
    lemma_be4_at(h, 32, bytes::be_bytes(header.data_crc as nat, 4));
    lemma_be8_at(h, 40, bytes::be_bytes(header.sqnum as nat, 8));
    lemma_be4_at(h, 60, bytes::be_bytes(ubi::crc_value(content) as nat, 4));
}

// ---------------------------------------------------------------------------
// The bytes of the eraseblocks
// ---------------------------------------------------------------------------

/// Eraseblock `k` of an image.
pub open spec fn eraseblock(image: Seq<u8>, geometry: Geometry, k: int) -> Seq<u8> {
    image.subrange(k * geometry.erase_size, (k + 1) * geometry.erase_size)
}

/// The part of the content that eraseblock `k` of the volume holds: as much as
/// there is room for, from where the one before it stops.
pub open spec fn volume_part(fip: Seq<u8>, geometry: Geometry, k: int) -> Seq<u8> {
    let room = geometry.erase_size - 2 * geometry.page_size;
    fip.subrange(
        k * room,
        if (k + 1) * room < fip.len() {
            (k + 1) * room
        } else {
            fip.len() as int
        },
    )
}

/// An eraseblock with both headers, and `data` behind their pages; the rest is
/// erased.
pub open spec fn is_volume_block(block: Seq<u8>, geometry: Geometry, data: Seq<u8>) -> bool {
    let page = geometry.page_size as int;
    &&& block.len() == geometry.erase_size
    &&& all_are(block, 64, page, 0xff)
    &&& all_are(block, page + 64, 2 * page, 0xff)
    &&& 2 * page + data.len() <= block.len()
    &&& block.subrange(2 * page, 2 * page + data.len()) == data
    &&& all_are(block, 2 * page + data.len(), block.len() as int, 0xff)
}

proof fn lemma_ec_in_block(
    block: Seq<u8>,
    h: Seq<u8>,
    geometry: Geometry,
    image_seq: u32,
    last: bool,
)
    requires
        h.len() == 64,
        block.len() >= 64,
        block.subrange(0, 64) == h,
        is_erase_counter_header(h, geometry, image_seq, last),
    ensures
        is_erase_counter_header(block, geometry, image_seq, last),
{
    assert forall|i: int| 0 <= i < 64 implies #[trigger] block[i] == h[i] by {
        assert(block[i] == block.subrange(0, 64)[i]);
    }
    assert(block.subrange(0, 60) =~= h.subrange(0, 60));
}

proof fn lemma_vid_in_block(block: Seq<u8>, at: int, h: Seq<u8>, header: ubi::VolumeHeader)
    requires
        h.len() == 64,
        0 <= at,
        at + 64 <= block.len(),
        block.subrange(at, at + 64) == h,
        is_volume_header(
            h,
            0,
            header.vol_type as int,
            header.compat as int,
            header.vol_id as int,
            header.lnum as int,
            header.data_size as int,
            header.used_ebs as int,
            header.data_crc as int,
            header.sqnum as int,
        ),
    ensures
        is_volume_header(
            block,
            at,
            header.vol_type as int,
            header.compat as int,
            header.vol_id as int,
            header.lnum as int,
            header.data_size as int,
            header.used_ebs as int,
            header.data_crc as int,
            header.sqnum as int,
        ),
{
    assert forall|i: int| at <= i < at + 64 implies #[trigger] block[i] == h[i - at] by {
        assert(block[i] == block.subrange(at, at + 64)[i - at]);
    }
    assert(block.subrange(at, at + 60) =~= h.subrange(0, 60));
}

#[verifier::spinoff_prover]
proof fn lemma_volume_block_bytes(
    geometry: Geometry,
    image_seq: u32,
    header: ubi::VolumeHeader,
    data: Seq<u8>,
)
    requires
        geometry.page_size >= 64,
        data.len() <= geometry.erase_size - 2 * geometry.page_size,
    ensures
        ({
            let block = ubi::volume_block(geometry, image_seq, header, data);
            &&& is_volume_block(block, geometry, data)
            &&& is_erase_counter_header(block, geometry, image_seq, false)
            &&& is_volume_header(
                block,
                geometry.page_size as int,
                header.vol_type as int,
                header.compat as int,
                header.vol_id as int,
                header.lnum as int,
                header.data_size as int,
                header.used_ebs as int,
                header.data_crc as int,
                header.sqnum as int,
            )
        }),
{
    let block = ubi::volume_block(geometry, image_seq, header, data);
    let page = geometry.page_size as int;
    let ec = ubi::ec_header(geometry, image_seq, false);
    let vid = ubi::vid_header(header);
    lemma_ec_bytes(geometry, image_seq, false);
    lemma_vid_bytes(header);
    assert(block.subrange(0, 64) =~= ec);
    assert(block.subrange(page, page + 64) =~= vid);
    assert(block.subrange(2 * page, 2 * page + data.len()) =~= data);
    lemma_ec_in_block(block, ec, geometry, image_seq, false);
    lemma_vid_in_block(block, page, vid, header);
}

/// How many eraseblocks there are can be counted in 64 bits.
proof fn lemma_few_blocks(fip_len: int, geometry: Geometry)
    requires
        buildable(fip_len, geometry),
        fip_len <= usize::MAX,
    ensures
        volume_blocks(fip_len, geometry) + 3 <= u64::MAX,
{
    let room = geometry.erase_size - 2 * geometry.page_size;
    let n = volume_blocks(fip_len, geometry);
    let x = fip_len + room - 1;
    vstd::arithmetic::div_mod::lemma_fundamental_div_mod(x, room);
    assert(100 * (n - 1) <= fip_len) by (nonlinear_arith)
        requires
            room * n <= fip_len + room - 1,
            room >= 22016,
            fip_len > 0,
    ;
}

/// The first two eraseblocks are those of the layout volume: dynamic, of
/// compatibility 5, number 0x7fffefff, with the volume table as their data and
/// nothing said of its length.
pub proof fn law_layout_blocks(fip: Seq<u8>, geometry: Geometry, image_seq: u32, k: int)
    requires
        buildable(fip.len() as int, geometry),
        0 <= k < 2,
    ensures
        ({
            let n = volume_blocks(fip.len() as int, geometry);
            let image = ubi::image_blocks(fip, geometry, image_seq, (n + 3) as nat);
            let block = eraseblock(image, geometry, k);
            let page = geometry.page_size as int;
            &&& is_erase_counter_header(block, geometry, image_seq, false)
            &&& is_volume_header(block, page, 1, 5, 0x7fff_efff, k, 0, 0, 0, k + 1)
            &&& is_volume_block(block, geometry, block.subrange(2 * page, 2 * page + 128 * 172))
        }),
{
    let n = volume_blocks(fip.len() as int, geometry);
    let image = ubi::image_blocks(fip, geometry, image_seq, (n + 3) as nat);
    let table = ubi::table_bytes(n);
    law_image_size(fip, geometry, image_seq);
    ubi_laws::law_image_layout(fip, geometry, image_seq, k);
    ubi::lemma_table_len(n, ubi::UBI_MAX_VOLUMES as nat);
    lemma_volume_block_bytes(geometry, image_seq, ubi::layout_header(k), table);
    assert(eraseblock(image, geometry, k) == ubi_laws::block_at(image, geometry, k));
}

/// Behind them stand the eraseblocks of the volume `fip`, numbered zero: static,
/// like its record in the table, each with its part of the content, that part's
/// length and checksum, its place in the volume, and how many there are.
#[verifier::spinoff_prover]
pub proof fn law_volume_blocks(fip: Seq<u8>, geometry: Geometry, image_seq: u32, k: int)
    requires
        buildable(fip.len() as int, geometry),
        fip.len() <= usize::MAX,
        2 <= k < volume_blocks(fip.len() as int, geometry) + 2,
    ensures
        ({
            let n = volume_blocks(fip.len() as int, geometry);
            let image = ubi::image_blocks(fip, geometry, image_seq, (n + 3) as nat);
            let block = eraseblock(image, geometry, k);
            let part = volume_part(fip, geometry, k - 2);
            &&& part.len() > 0
            &&& is_erase_counter_header(block, geometry, image_seq, false)
            &&& is_volume_header(
                block,
                geometry.page_size as int,
                2,
                0,
                0,
                (k - 2) % 0x1_0000_0000,
                part.len() as int % 0x1_0000_0000,
                n % 0x1_0000_0000,
                ubi::crc_value(part) as int,
                k + 1,
            )
            &&& is_volume_block(block, geometry, part)
        }),
{
    let n = volume_blocks(fip.len() as int, geometry);
    let image = ubi::image_blocks(fip, geometry, image_seq, (n + 3) as nat);
    let part = volume_part(fip, geometry, k - 2);
    let header = ubi::fip_header(fip, geometry, k - 2);
    law_image_size(fip, geometry, image_seq);
    lemma_few_blocks(fip.len() as int, geometry);
    ubi_laws::law_image_layout(fip, geometry, image_seq, k);
    ubi::lemma_chunk(fip, geometry, k - 2);
    assert(ubi::fip_chunk(fip, geometry, k - 2) == part);
    lemma_volume_block_bytes(geometry, image_seq, header, part);
    assert(eraseblock(image, geometry, k) == ubi_laws::block_at(image, geometry, k));
    assert(header.lnum == (k - 2) % 0x1_0000_0000);
    assert(header.data_size == part.len() as int % 0x1_0000_0000);
    assert(header.used_ebs == n % 0x1_0000_0000);
    assert(header.sqnum == k + 1);
}

/// The last eraseblock carries the end mark, and nothing else.
pub proof fn law_end_block(fip: Seq<u8>, geometry: Geometry, image_seq: u32)
    requires
        buildable(fip.len() as int, geometry),
    ensures
        ({
            let n = volume_blocks(fip.len() as int, geometry);
            let image = ubi::image_blocks(fip, geometry, image_seq, (n + 3) as nat);
            let block = eraseblock(image, geometry, n + 2);
            &&& block.len() == geometry.erase_size
            &&& is_erase_counter_header(block, geometry, image_seq, true)
            &&& all_are(block, 64, block.len() as int, 0xff)
        }),
{
    let n = volume_blocks(fip.len() as int, geometry);
    let image = ubi::image_blocks(fip, geometry, image_seq, (n + 3) as nat);
    let block = ubi::eof_block(geometry, image_seq);
    law_image_size(fip, geometry, image_seq);
    ubi_laws::law_image_layout(fip, geometry, image_seq, n + 2);
    lemma_ec_bytes(geometry, image_seq, true);
    assert(block.subrange(0, 64) =~= ubi::ec_header(geometry, image_seq, true));
    lemma_ec_in_block(
        block,
        ubi::ec_header(geometry, image_seq, true),
        geometry,
        image_seq,
        true,
    );
    assert(eraseblock(image, geometry, n + 2) == ubi_laws::block_at(image, geometry, n + 2));
}

// ---------------------------------------------------------------------------
// The bytes of the volume table
// ---------------------------------------------------------------------------

/// The 172 bytes at `at` are the record of the volume `fip`: how many eraseblocks
/// are reserved for it, alignment 1, no padding, static, no update under way, a
/// name of three characters, the name, and the checksum of all before it.
pub open spec fn is_fip_record(block: Seq<u8>, at: int, reserved: int) -> bool {
    &&& be4(block, at) == reserved
    &&& be4(block, at + 4) == 1
    &&& be4(block, at + 8) == 0
    &&& block[at + 12] == 2
    &&& block[at + 13] == 0
    &&& be2(block, at + 14) == 3
    &&& block[at + 16] == 0x66 && block[at + 17] == 0x69 && block[at + 18] == 0x70
    &&& all_are(block, at + 19, at + 168, 0)
    &&& be4(block, at + 168) == ubi::crc_value(block.subrange(at, at + 168))
}

/// The 172 bytes at `at` are a free record.
pub open spec fn is_free_record(block: Seq<u8>, at: int) -> bool {
    &&& all_are(block, at, at + 168, 0)
    &&& be4(block, at + 168) == ubi::crc_value(block.subrange(at, at + 168))
}

#[verifier::spinoff_prover]
proof fn lemma_record_bytes(reserved: int, j: int)
    requires
        0 <= reserved,
    ensures
        ubi::table_record(reserved, j).len() == 172,
        j == 0 ==> is_fip_record(
            ubi::table_record(reserved, j),
            0,
            reserved % 0x1_0000_0000,
        ),
        j != 0 ==> is_free_record(ubi::table_record(reserved, j), 0),
{
    let r = ubi::table_record(reserved, j);
    ubi::lemma_record_len(reserved, j);
    let content = if j == 0 {
        ubi::fip_record_content(reserved)
    } else {
        bytes::filled(0, 168)
    };
    let low = (reserved % 0x1_0000_0000) as nat;
    lemma_four_bytes(low);
    lemma_four_bytes(1);
    lemma_four_bytes(0);
    lemma_two_bytes(3);
    lemma_four_bytes(ubi::crc_value(content) as nat);
    assert(r.subrange(0, 168) =~= content);
    assert(r.subrange(168, 172) =~= bytes::be_bytes(ubi::crc_value(content) as nat, 4));
    lemma_be4_at(r, 168, bytes::be_bytes(ubi::crc_value(content) as nat, 4));
    if j == 0 {
        assert(r.subrange(0, 4) =~= bytes::be_bytes(low, 4));
        assert(r.subrange(4, 8) =~= bytes::be_bytes(1, 4));
        assert(r.subrange(8, 12) =~= bytes::be_bytes(0, 4));
        assert(r.subrange(14, 16) =~= bytes::be_bytes(3, 2));
        assert(r[14] == r.subrange(14, 16)[0] && r[15] == r.subrange(14, 16)[1]);
        assert(r.subrange(16, 19) =~= seq![0x66u8, 0x69, 0x70]);
        assert(r[16] == r.subrange(16, 19)[0] && r[17] == r.subrange(16, 19)[1] && r[18]
            == r.subrange(16, 19)[2]);
        lemma_be4_at(r, 0, bytes::be_bytes(low, 4));
        lemma_be4_at(r, 4, bytes::be_bytes(1, 4));
        lemma_be4_at(r, 8, bytes::be_bytes(0, 4));
    }
}

/// Both layout eraseblocks hold the 128 records of the volume table: the first is
/// that of `fip`, for as many eraseblocks as it takes, and the others are free.
#[verifier::spinoff_prover]
pub proof fn law_table_records(
    fip: Seq<u8>,
    geometry: Geometry,
    image_seq: u32,
    k: int,
    record: int,
)
    requires
        buildable(fip.len() as int, geometry),
        0 <= k < 2,
        0 <= record < 128,
    ensures
        ({
            let n = volume_blocks(fip.len() as int, geometry);
            let image = ubi::image_blocks(fip, geometry, image_seq, (n + 3) as nat);
            let block = eraseblock(image, geometry, k);
            let at = 2 * geometry.page_size + record * 172;
            if record == 0 {
                is_fip_record(block, at, n % 0x1_0000_0000)
            } else {
                is_free_record(block, at)
            }
        }),
{
    let n = volume_blocks(fip.len() as int, geometry);
    let image = ubi::image_blocks(fip, geometry, image_seq, (n + 3) as nat);
    let block = eraseblock(image, geometry, k);
    let at = 2 * geometry.page_size + record * 172;
    let r = ubi::table_record(n, record);
    law_image_size(fip, geometry, image_seq);
    ubi_laws::law_volume_table(fip, geometry, image_seq, k, record);
    lemma_record_bytes(n, record);
    law_layout_blocks(fip, geometry, image_seq, k);
    assert(block == ubi_laws::block_at(image, geometry, k));
    assert(block.subrange(at, at + 172) == r);
    assert forall|i: int| at <= i < at + 172 implies #[trigger] block[i] == r[i - at] by {
        assert(block[i] == block.subrange(at, at + 172)[i - at]);
    }
    assert(block.subrange(at, at + 168) =~= r.subrange(0, 168));
}

/// What the header of an eraseblock says of its volume.
#[verifier::spinoff_prover]
proof fn lemma_header_types(fip: Seq<u8>, geometry: Geometry, image_seq: u32, k: int)
    requires
        buildable(fip.len() as int, geometry),
        fip.len() <= usize::MAX,
        0 <= k < volume_blocks(fip.len() as int, geometry) + 2,
    ensures
        ({
            let n = volume_blocks(fip.len() as int, geometry);
            let image = ubi::image_blocks(fip, geometry, image_seq, (n + 3) as nat);
            let block = eraseblock(image, geometry, k);
            let page = geometry.page_size as int;
            &&& block[page + 5] == if k < 2 {
                1int
            } else {
                2
            }
            &&& block[page + 7] == if k < 2 {
                5int
            } else {
                0
            }
            &&& be4(block, page + 8) == if k < 2 {
                0x7fff_efffint
            } else {
                0
            }
            &&& be4(block, page + 24) == if k < 2 {
                0
            } else {
                n % 0x1_0000_0000
            }
        }),
{
    if k < 2 {
        law_layout_blocks(fip, geometry, image_seq, k);
    } else {
        law_volume_blocks(fip, geometry, image_seq, k);
    }
}

/// What the volume table says of the volume.
#[verifier::spinoff_prover]
proof fn lemma_record_type(fip: Seq<u8>, geometry: Geometry, image_seq: u32, lnum: int)
    requires
        buildable(fip.len() as int, geometry),
        0 <= lnum < 2,
    ensures
        ({
            let n = volume_blocks(fip.len() as int, geometry);
            let image = ubi::image_blocks(fip, geometry, image_seq, (n + 3) as nat);
            let block = eraseblock(image, geometry, lnum);
            let at = 2 * geometry.page_size;
            &&& block[at + 12] == 2
            &&& be4(block, at) == n % 0x1_0000_0000
        }),
{
    law_table_records(fip, geometry, image_seq, lnum, 0);
}

/// A byte of an eraseblock is the byte at its place in the image.
proof fn lemma_byte_in_image(image: Seq<u8>, geometry: Geometry, blocks: int, k: int, i: int)
    requires
        image.len() == blocks * geometry.erase_size,
        0 <= k < blocks,
        0 <= i,
        i + 4 <= geometry.erase_size,
    ensures
        eraseblock(image, geometry, k)[i] == image[k * geometry.erase_size + i],
        be4(eraseblock(image, geometry, k), i) == be4(image, k * geometry.erase_size + i),
{
    let e = geometry.erase_size as int;
    assert(0 <= k * e && (k + 1) * e == k * e + e && (k + 1) * e <= blocks * e)
        by (nonlinear_arith)
        requires
            0 <= k < blocks,
            e >= 0,
    ;
}

/// The type of a volume is the same wherever it is told. In every image the headers
/// of the layout volume say dynamic, compatibility 5 and no eraseblocks used; those
/// of the volume `fip`, numbered zero, say static, no compatibility, and as many
/// eraseblocks as there are; and the record of that volume in the table says static
/// and the same number too.
#[verifier::spinoff_prover]
pub proof fn law_volume_types(fip: Seq<u8>, geometry: Geometry, image_seq: u32, k: int, lnum: int)
    requires
        0 < fip.len() <= usize::MAX,
        geometry.page_size >= 64,
        geometry.erase_size >= 3 * geometry.page_size,
        geometry.erase_size % geometry.page_size == 0,
        geometry.erase_size - 2 * geometry.page_size >= 22016,
        0 <= k < ubi::image_pebs(fip.len() as int, geometry) - 1,
        0 <= lnum < 2,
    ensures
        ({
            let room = geometry.erase_size - 2 * geometry.page_size;
            let pebs = (fip.len() + room - 1) / room;
            let image = ubi::image_blocks(
                fip,
                geometry,
                image_seq,
                ubi::image_pebs(fip.len() as int, geometry) as nat,
            );
            let at = k * geometry.erase_size + geometry.page_size;
            let id = image[at + 8] * 0x100_0000 + image[at + 9] * 0x1_0000 + image[at + 10] * 0x100
                + image[at + 11];
            let used = image[at + 24] * 0x100_0000 + image[at + 25] * 0x1_0000 + image[at + 26]
                * 0x100 + image[at + 27];
            let record = lnum * geometry.erase_size + 2 * geometry.page_size;
            let reserved = image[record] * 0x100_0000 + image[record + 1] * 0x1_0000
                + image[record + 2] * 0x100 + image[record + 3];
            &&& ubi::image_pebs(fip.len() as int, geometry) == pebs + 3
            &&& image[at + 5] == if k < 2 {
                1int
            } else {
                2
            }
            &&& image[at + 7] == if k < 2 {
                5int
            } else {
                0
            }
            &&& id == if k < 2 {
                0x7fff_efffint
            } else {
                0
            }
            &&& used == if k < 2 {
                0
            } else {
                pebs % 0x1_0000_0000
            }
            &&& image[record + 12] == 2
            &&& reserved == pebs % 0x1_0000_0000
        }),
{
    let n = volume_blocks(fip.len() as int, geometry);
    let image = ubi::image_blocks(fip, geometry, image_seq, (n + 3) as nat);
    let page = geometry.page_size as int;
    law_image_size(fip, geometry, image_seq);
    lemma_header_types(fip, geometry, image_seq, k);
    lemma_record_type(fip, geometry, image_seq, lnum);
    lemma_byte_in_image(image, geometry, n + 3, k, page + 5);
    lemma_byte_in_image(image, geometry, n + 3, k, page + 7);
    lemma_byte_in_image(image, geometry, n + 3, k, page + 8);
    lemma_byte_in_image(image, geometry, n + 3, k, page + 24);
    lemma_byte_in_image(image, geometry, n + 3, lnum, 2 * page);
    lemma_byte_in_image(image, geometry, n + 3, lnum, 2 * page + 12);
}

} // verus!
