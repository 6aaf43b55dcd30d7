//! What holds of every bootstrap image: where its eraseblocks lie, that their
//! headers check out, that the end is marked, and that the volume reads back.
use vstd::prelude::*;

use crate::bytes;
use crate::ubi;
use crate::ubi::Geometry;

verus! {

/// Eraseblock `k` of an image.
pub open spec fn block_at(image: Seq<u8>, geometry: Geometry, k: int) -> Seq<u8> {
    image.subrange(k * geometry.erase_size, (k + 1) * geometry.erase_size)
}

/// The number that `n` bytes of a block at `at` stand for.
pub open spec fn field(block: Seq<u8>, at: int, n: int) -> nat {
    bytes::be_value(block.subrange(at, at + n))
}

/// The checksum behind the content of a header at `at` is that of the content.
pub open spec fn header_intact(block: Seq<u8>, at: int) -> bool {
    field(block, at + 60, 4) == ubi::crc_value(block.subrange(at, at + 60))
}

/// The data of `n` eraseblocks from `first` on, each as long as its header says.
pub open spec fn read_volume(image: Seq<u8>, geometry: Geometry, first: int, n: nat) -> Seq<u8>
    decreases n,
{
    if n == 0 {
        Seq::empty()
    } else {
        let block = block_at(image, geometry, first + n - 1);
        let start = geometry.data_start();
        read_volume(image, geometry, first, (n - 1) as nat) + block.subrange(
            start,
            start + field(block, geometry.page_size + 20, 4),
        )
    }
}

/// The image for `fip`.
pub open spec fn image_of(fip: Seq<u8>, geometry: Geometry, image_seq: u32) -> Seq<u8> {
    ubi::image_blocks(
        fip,
        geometry,
        image_seq,
        ubi::image_pebs(fip.len() as int, geometry) as nat,
    )
}

/// An image can be built.
pub open spec fn buildable(fip: Seq<u8>, geometry: Geometry) -> bool {
    ubi::bootstrap_complaint(fip.len() as int, geometry) is None
}

proof fn lemma_four_bytes(value: nat)
    requires
        value < 0x1_0000_0000,
    ensures
        bytes::be_value(bytes::be_bytes(value, 4)) == value,
        bytes::be_bytes(value, 4).len() == 4,
{
    reveal_with_fuel(vstd::arithmetic::power::pow, 5);
    assert(vstd::arithmetic::power::pow(256, 4) == 0x1_0000_0000);
    bytes::law_be_round_trip(value, 4);
    bytes::lemma_be_bytes_len(value, 4);
}

proof fn lemma_eight_bytes(value: nat)
    requires
        value < 0x1_0000_0000_0000_0000,
    ensures
        bytes::be_value(bytes::be_bytes(value, 8)) == value,
        bytes::be_bytes(value, 8).len() == 8,
{
    reveal_with_fuel(vstd::arithmetic::power::pow, 9);
    assert(vstd::arithmetic::power::pow(256, 8) == 0x1_0000_0000_0000_0000);
    bytes::law_be_round_trip(value, 8);
    bytes::lemma_be_bytes_len(value, 8);
}

proof fn lemma_volume_block(
    geometry: Geometry,
    image_seq: u32,
    header: ubi::VolumeHeader,
    data: Seq<u8>,
)
    requires
        geometry.usable(),
        data.len() <= geometry.capacity(),
    ensures
        ({
            let block = ubi::volume_block(geometry, image_seq, header, data);
            let page = geometry.page_size as int;
            &&& block.len() == geometry.erase_size
            &&& block.subrange(0, 64) == ubi::ec_header(geometry, image_seq, false)
            &&& block.subrange(page, page + 64) == ubi::vid_header(header)
            &&& block.subrange(2 * page, 2 * page + data.len()) == data
        }),
{
    let block = ubi::volume_block(geometry, image_seq, header, data);
    let page = geometry.page_size as int;
    ubi::lemma_ec_len(ubi::erased(64), geometry, image_seq, false);
    ubi::lemma_vid_len(ubi::erased(64), header);
    assert(block.subrange(0, 64) =~= ubi::ec_header(geometry, image_seq, false));
    assert(block.subrange(page, page + 64) =~= ubi::vid_header(header));
    assert(block.subrange(2 * page, 2 * page + data.len()) =~= data);
}

/// The eraseblocks of the image are as long as the geometry says.
proof fn lemma_block_len(fip: Seq<u8>, geometry: Geometry, image_seq: u32, k: int)
    requires
        buildable(fip, geometry),
        0 <= k < ubi::image_pebs(fip.len() as int, geometry),
    ensures
        ubi::image_block(fip, geometry, image_seq, k).len() == geometry.erase_size,
{
    let n = ubi::blocks_for(fip.len() as int, geometry.capacity());
    if k < 2 {
        ubi::lemma_table_len(n, ubi::UBI_MAX_VOLUMES as nat);
        lemma_volume_block(geometry, image_seq, ubi::layout_header(k), ubi::table_bytes(n));
    } else if k < 2 + n {
        ubi::lemma_chunk(fip, geometry, k - 2);
        lemma_volume_block(
            geometry,
            image_seq,
            ubi::fip_header(fip, geometry, k - 2),
            ubi::fip_chunk(fip, geometry, k - 2),
        );
    } else {
        ubi::lemma_ec_len(ubi::erased(64), geometry, image_seq, true);
    }
}

proof fn lemma_blocks(fip: Seq<u8>, geometry: Geometry, image_seq: u32, n: nat)
    requires
        buildable(fip, geometry),
        n <= ubi::image_pebs(fip.len() as int, geometry),
    ensures
        ubi::image_blocks(fip, geometry, image_seq, n).len() == n * geometry.erase_size,
        forall|k: int|
            0 <= k < n ==> #[trigger] block_at(
                ubi::image_blocks(fip, geometry, image_seq, n),
                geometry,
                k,
            ) == ubi::image_block(fip, geometry, image_seq, k),
    decreases n,
{
    if n > 0 {
        let m = (n - 1) as nat;
        let e = geometry.erase_size as int;
        let part = ubi::image_blocks(fip, geometry, image_seq, m);
        let whole = ubi::image_blocks(fip, geometry, image_seq, n);
        lemma_blocks(fip, geometry, image_seq, m);
        lemma_block_len(fip, geometry, image_seq, m as int);
        assert(n * e == m * e + e) by (nonlinear_arith)
            requires
                n == m + 1,
        ;
        assert forall|k: int| 0 <= k < n implies #[trigger] block_at(whole, geometry, k)
            == ubi::image_block(fip, geometry, image_seq, k) by {
            if k < m {
                assert(0 <= k * e && k * e <= (k + 1) * e && (k + 1) * e <= m * e)
                    by (nonlinear_arith)
                    requires
                        0 <= k < m,
                        e >= 0,
                ;
                assert(block_at(whole, geometry, k) =~= block_at(part, geometry, k));
            } else {
                assert(block_at(whole, geometry, k) =~= ubi::image_block(
                    fip,
                    geometry,
                    image_seq,
                    k,
                ));
            }
        }
    }
}

/// The image is made of whole eraseblocks, and each lies at its place.
pub proof fn law_image_layout(fip: Seq<u8>, geometry: Geometry, image_seq: u32, k: int)
    requires
        buildable(fip, geometry),
        0 <= k < ubi::image_pebs(fip.len() as int, geometry),
    ensures
        image_of(fip, geometry, image_seq).len() == ubi::image_pebs(fip.len() as int, geometry)
            * geometry.erase_size,
        block_at(image_of(fip, geometry, image_seq), geometry, k) == ubi::image_block(
            fip,
            geometry,
            image_seq,
            k,
        ),
{
    lemma_blocks(
        fip,
        geometry,
        image_seq,
        ubi::image_pebs(fip.len() as int, geometry) as nat,
    );
}

proof fn lemma_sealed(content: Seq<u8>)
    requires
        content.len() == 60,
    ensures
        ubi::sealed(content).len() == 64,
        header_intact(ubi::sealed(content), 0),
{
    let header = ubi::sealed(content);
    lemma_four_bytes(ubi::crc_value(content) as nat);
    assert(header.subrange(0, 60) =~= content);
    assert(header.subrange(60, 64) =~= bytes::be_bytes(ubi::crc_value(content) as nat, 4));
}

/// A header inside a block is intact where the header alone is.
proof fn lemma_inner_header(block: Seq<u8>, at: int, header: Seq<u8>)
    requires
        0 <= at,
        at + 64 <= block.len(),
        block.subrange(at, at + 64) == header,
        header_intact(header, 0),
    ensures
        header_intact(block, at),
{
    assert(header.subrange(0, 60) =~= block.subrange(at, at + 60));
    assert(header.subrange(60, 64) =~= block.subrange(at + 60, at + 64));
}

/// A field of a header inside a block reads like that of the header alone.
proof fn lemma_inner_field(block: Seq<u8>, at: int, header: Seq<u8>, f: int, n: int)
    requires
        0 <= at,
        at + 64 <= block.len(),
        block.subrange(at, at + 64) == header,
        0 <= f,
        0 <= n,
        f + n <= 64,
    ensures
        field(block, at + f, n) == field(header, f, n),
{
    assert(block.subrange(at + f, at + f + n) =~= header.subrange(f, f + n));
}

/// What a blank eraseblock's erase counter header holds.
#[verifier::spinoff_prover]
proof fn lemma_ec_fields(geometry: Geometry, image_seq: u32, eof: bool)
    ensures
        ({
            let header = ubi::ec_header(geometry, image_seq, eof);
            &&& header.len() == 64
            &&& header_intact(header, 0)
            &&& field(header, 0, 4) == ubi::UBI_EC_HDR_MAGIC
            &&& field(header, 16, 4) == ubi::low32(geometry.page_size as int)
            &&& field(header, 20, 4) == ubi::low32(geometry.data_start())
            &&& field(header, 24, 4) == image_seq
            &&& header.subrange(5, 8) == (if eof {
                ubi::eof_mark()
            } else {
                ubi::erased(3)
            })
        }),
{
    reveal(ubi::ec_content);
    let old = ubi::erased(64);
    let content = ubi::ec_content(old, geometry, image_seq, eof);
    let header = ubi::sealed(content);
    ubi::lemma_ec_len(old, geometry, image_seq, eof);
    lemma_sealed(content);
    lemma_four_bytes(ubi::UBI_EC_HDR_MAGIC as nat);
    bytes::lemma_be_bytes_len(0, 8);
    lemma_four_bytes(ubi::low32(geometry.page_size as int));
    lemma_four_bytes(ubi::low32(geometry.data_start()));
    lemma_four_bytes(image_seq as nat);
    assert(header.subrange(0, 4) =~= bytes::be_bytes(ubi::UBI_EC_HDR_MAGIC as nat, 4));
    assert(header.subrange(16, 20) =~= bytes::be_bytes(ubi::low32(geometry.page_size as int), 4));
    assert(header.subrange(20, 24) =~= bytes::be_bytes(ubi::low32(geometry.data_start()), 4));
    assert(header.subrange(24, 28) =~= bytes::be_bytes(image_seq as nat, 4));
    if eof {
        assert(header.subrange(5, 8) =~= ubi::eof_mark());
    } else {
        assert(header.subrange(5, 8) =~= ubi::erased(3));
    }
}

/// What a blank eraseblock's volume identifier header holds.
#[verifier::spinoff_prover]
proof fn lemma_vid_fields(header: ubi::VolumeHeader)
    ensures
        ({
            let h = ubi::vid_header(header);
            &&& h.len() == 64
            &&& header_intact(h, 0)
            &&& field(h, 0, 4) == ubi::UBI_VID_HDR_MAGIC
            &&& h[5] == header.vol_type
            &&& h[7] == header.compat
            &&& field(h, 8, 4) == header.vol_id
            &&& field(h, 12, 4) == header.lnum
            &&& field(h, 20, 4) == header.data_size
            &&& field(h, 24, 4) == header.used_ebs
            &&& field(h, 32, 4) == header.data_crc
            &&& field(h, 40, 8) == header.sqnum
        }),
{
    reveal(ubi::vid_content);
    let old = ubi::erased(64);
    let content = ubi::vid_content(old, header);
    let h = ubi::sealed(content);
    ubi::lemma_vid_len(old, header);
    lemma_sealed(content);
    lemma_four_bytes(ubi::UBI_VID_HDR_MAGIC as nat);
    lemma_four_bytes(header.vol_id as nat);
    lemma_four_bytes(header.lnum as nat);
    lemma_four_bytes(header.data_size as nat);
    lemma_four_bytes(header.used_ebs as nat);
    lemma_four_bytes(0);
    lemma_four_bytes(header.data_crc as nat);
    lemma_eight_bytes(header.sqnum as nat);
    assert(h.subrange(0, 4) =~= bytes::be_bytes(ubi::UBI_VID_HDR_MAGIC as nat, 4));
    assert(h.subrange(8, 12) =~= bytes::be_bytes(header.vol_id as nat, 4));
    assert(h.subrange(12, 16) =~= bytes::be_bytes(header.lnum as nat, 4));
    assert(h.subrange(20, 24) =~= bytes::be_bytes(header.data_size as nat, 4));
    assert(h.subrange(24, 28) =~= bytes::be_bytes(header.used_ebs as nat, 4));
    assert(h.subrange(32, 36) =~= bytes::be_bytes(header.data_crc as nat, 4));
    assert(h.subrange(40, 48) =~= bytes::be_bytes(header.sqnum as nat, 8));
}

/// Every eraseblock of the image starts with an intact erase counter header of
/// this geometry and image; the last one alone carries the mark at which a scan
/// ends.
#[verifier::spinoff_prover]
pub proof fn law_erase_counter_headers(fip: Seq<u8>, geometry: Geometry, image_seq: u32, k: int)
    requires
        buildable(fip, geometry),
        0 <= k < ubi::image_pebs(fip.len() as int, geometry),
    ensures
        ({
            let block = block_at(image_of(fip, geometry, image_seq), geometry, k);
            &&& header_intact(block, 0)
            &&& field(block, 0, 4) == ubi::UBI_EC_HDR_MAGIC
            &&& field(block, 16, 4) == ubi::low32(geometry.page_size as int)
            &&& field(block, 20, 4) == ubi::low32(geometry.data_start())
            &&& field(block, 24, 4) == image_seq
            &&& block.subrange(5, 8) == ubi::eof_mark() <==> k == ubi::image_pebs(
                fip.len() as int,
                geometry,
            ) - 1
        }),
{
    let block = ubi::image_block(fip, geometry, image_seq, k);
    let n = ubi::blocks_for(fip.len() as int, geometry.capacity());
    law_image_layout(fip, geometry, image_seq, k);
    lemma_block_len(fip, geometry, image_seq, k);
    let eof = k == 2 + n;
    if k < 2 {
        ubi::lemma_table_len(n, ubi::UBI_MAX_VOLUMES as nat);
        lemma_volume_block(geometry, image_seq, ubi::layout_header(k), ubi::table_bytes(n));
    } else if k < 2 + n {
        ubi::lemma_chunk(fip, geometry, k - 2);
        lemma_volume_block(
            geometry,
            image_seq,
            ubi::fip_header(fip, geometry, k - 2),
            ubi::fip_chunk(fip, geometry, k - 2),
        );
    } else {
        lemma_ec_fields(geometry, image_seq, true);
        assert(block.subrange(0, 64) =~= ubi::ec_header(geometry, image_seq, true));
    }
    let header = ubi::ec_header(geometry, image_seq, eof);
    assert(block.subrange(0, 64) == header);
    lemma_ec_fields(geometry, image_seq, eof);
    lemma_inner_header(block, 0, header);
    lemma_inner_field(block, 0, header, 0, 4);
    lemma_inner_field(block, 0, header, 16, 4);
    lemma_inner_field(block, 0, header, 20, 4);
    lemma_inner_field(block, 0, header, 24, 4);
    assert(block.subrange(5, 8) =~= header.subrange(5, 8));
    assert(ubi::erased(3)[0] == 0xff && ubi::eof_mark()[0] == 0x45);
}

/// Every eraseblock before the last has an intact volume identifier header. Its
/// sequence numbers count the eraseblocks from one, so that no two are alike.
#[verifier::spinoff_prover]
pub proof fn law_volume_headers(fip: Seq<u8>, geometry: Geometry, image_seq: u32, k: int)
    requires
        buildable(fip, geometry),
        0 <= k < ubi::image_pebs(fip.len() as int, geometry) - 1,
        k < u64::MAX,
    ensures
        ({
            let block = block_at(image_of(fip, geometry, image_seq), geometry, k);
            let page = geometry.page_size as int;
            &&& header_intact(block, page)
            &&& field(block, page, 4) == ubi::UBI_VID_HDR_MAGIC
            &&& field(block, page + 8, 4) == (if k < 2 {
                ubi::UBI_LAYOUT_VOLUME_ID as nat
            } else {
                0
            })
            &&& field(block, page + 12, 4) == ubi::low32(
                if k < 2 {
                    k
                } else {
                    k - 2
                },
            )
            &&& field(block, page + 40, 8) == k + 1
        }),
{
    let block = ubi::image_block(fip, geometry, image_seq, k);
    let n = ubi::blocks_for(fip.len() as int, geometry.capacity());
    let page = geometry.page_size as int;
    law_image_layout(fip, geometry, image_seq, k);
    lemma_block_len(fip, geometry, image_seq, k);
    let header = if k < 2 {
        ubi::layout_header(k)
    } else {
        ubi::fip_header(fip, geometry, k - 2)
    };
    if k < 2 {
        ubi::lemma_table_len(n, ubi::UBI_MAX_VOLUMES as nat);
        lemma_volume_block(geometry, image_seq, header, ubi::table_bytes(n));
    } else {
        ubi::lemma_chunk(fip, geometry, k - 2);
        lemma_volume_block(geometry, image_seq, header, ubi::fip_chunk(fip, geometry, k - 2));
    }
    lemma_vid_fields(header);
    lemma_inner_header(block, page, ubi::vid_header(header));
    lemma_inner_field(block, page, ubi::vid_header(header), 0, 4);
    lemma_inner_field(block, page, ubi::vid_header(header), 8, 4);
    lemma_inner_field(block, page, ubi::vid_header(header), 12, 4);
    lemma_inner_field(block, page, ubi::vid_header(header), 40, 8);
}

/// The data of every eraseblock of the volume has the length and the checksum
/// that its header says. The header's length field has 32 bits.
#[verifier::spinoff_prover]
pub proof fn law_volume_data(fip: Seq<u8>, geometry: Geometry, image_seq: u32, k: int)
    requires
        buildable(fip, geometry),
        geometry.capacity() <= u32::MAX || fip.len() <= u32::MAX,
        0 <= k < ubi::blocks_for(fip.len() as int, geometry.capacity()),
    ensures
        ({
            let block = block_at(image_of(fip, geometry, image_seq), geometry, k + 2);
            let page = geometry.page_size as int;
            let len = field(block, page + 20, 4);
            let data = block.subrange(2 * page, 2 * page + len);
            &&& data == ubi::fip_chunk(fip, geometry, k)
            &&& field(block, page + 32, 4) == ubi::crc_value(data)
        }),
{
    let block = ubi::image_block(fip, geometry, image_seq, k + 2);
    let page = geometry.page_size as int;
    let header = ubi::fip_header(fip, geometry, k);
    let chunk = ubi::fip_chunk(fip, geometry, k);
    law_image_layout(fip, geometry, image_seq, k + 2);
    ubi::lemma_chunk(fip, geometry, k);
    lemma_volume_block(geometry, image_seq, header, chunk);
    lemma_vid_fields(header);
    lemma_inner_header(block, page, ubi::vid_header(header));
    lemma_inner_field(block, page, ubi::vid_header(header), 20, 4);
    lemma_inner_field(block, page, ubi::vid_header(header), 32, 4);
}

proof fn lemma_read_volume(fip: Seq<u8>, geometry: Geometry, image_seq: u32, n: nat)
    requires
        buildable(fip, geometry),
        geometry.capacity() <= u32::MAX || fip.len() <= u32::MAX,
        n <= ubi::blocks_for(fip.len() as int, geometry.capacity()),
    ensures
        read_volume(image_of(fip, geometry, image_seq), geometry, 2, n) == fip.take(
            if n < ubi::blocks_for(fip.len() as int, geometry.capacity()) {
                n * geometry.capacity()
            } else {
                fip.len() as int
            },
        ),
    decreases n,
{
    let image = image_of(fip, geometry, image_seq);
    let cap = geometry.capacity();
    ubi::lemma_blocks_for(fip.len() as int, cap);
    if n == 0 {
        assert(fip.take(0) =~= Seq::<u8>::empty());
    } else {
        let k = n - 1;
        lemma_read_volume(fip, geometry, image_seq, k as nat);
        ubi::lemma_chunk(fip, geometry, k);
        law_volume_data(fip, geometry, image_seq, k);
        let chunk = ubi::fip_chunk(fip, geometry, k);
        assert(read_volume(image, geometry, 2, n) == fip.take(k * cap) + chunk);
        assert(fip.take(k * cap) + chunk =~= fip.take(
            if n < ubi::blocks_for(fip.len() as int, cap) {
                n * cap
            } else {
                fip.len() as int
            },
        ));
    }
}

/// The volume reads back: the data of its eraseblocks, each as long as its
/// header says, is the content the image was built for. The header's length
/// field has 32 bits, so no eraseblock may hold more than that.
pub proof fn law_volume_round_trip(fip: Seq<u8>, geometry: Geometry, image_seq: u32)
    requires
        buildable(fip, geometry),
        geometry.capacity() <= u32::MAX || fip.len() <= u32::MAX,
    ensures
        read_volume(
            image_of(fip, geometry, image_seq),
            geometry,
            2,
            ubi::blocks_for(fip.len() as int, geometry.capacity()) as nat,
        ) == fip,
{
    ubi::lemma_blocks_for(fip.len() as int, geometry.capacity());
    lemma_read_volume(
        fip,
        geometry,
        image_seq,
        ubi::blocks_for(fip.len() as int, geometry.capacity()) as nat,
    );
    assert(fip.take(fip.len() as int) =~= fip);
}

proof fn lemma_table_record_at(fip_pebs: int, n: nat, k: int)
    requires
        0 <= k < n,
    ensures
        ubi::table_records(fip_pebs, n).len() == n * 172,
        ubi::table_records(fip_pebs, n).subrange(k * 172, k * 172 + 172) == ubi::table_record(
            fip_pebs,
            k,
        ),
    decreases n,
{
    let m = (n - 1) as nat;
    ubi::lemma_table_len(fip_pebs, n);
    ubi::lemma_table_len(fip_pebs, m);
    ubi::lemma_record_len(fip_pebs, m as int);
    let whole = ubi::table_records(fip_pebs, n);
    if k < m {
        lemma_table_record_at(fip_pebs, m, k);
        assert(whole.subrange(k * 172, k * 172 + 172) =~= ubi::table_records(fip_pebs, m).subrange(
            k * 172,
            k * 172 + 172,
        ));
    } else {
        assert(whole.subrange(k * 172, k * 172 + 172) =~= ubi::table_record(fip_pebs, k));
    }
}

/// Every record of the volume table has the checksum of its content.
#[verifier::spinoff_prover]
proof fn lemma_record_intact(fip_pebs: int, k: int)
    ensures
        ({
            let record = ubi::table_record(fip_pebs, k);
            &&& record.len() == 172
            &&& field(record, 168, 4) == ubi::crc_value(record.subrange(0, 168))
        }),
{
    let record = ubi::table_record(fip_pebs, k);
    let content = if k == 0 {
        ubi::fip_record_content(fip_pebs)
    } else {
        bytes::filled(0, 168)
    };
    ubi::lemma_record_len(fip_pebs, k);
    lemma_four_bytes(ubi::crc_value(content) as nat);
    assert(record == ubi::sealed(content));
    assert(record.subrange(0, 168) =~= content);
    assert(record.subrange(168, 172) =~= bytes::be_bytes(ubi::crc_value(content) as nat, 4));
}

/// A record of a table that stands in a block stands in the block.
proof fn lemma_inner_record(block: Seq<u8>, start: int, table: Seq<u8>, at: int, record: Seq<u8>)
    requires
        0 <= start,
        start + table.len() <= block.len(),
        block.subrange(start, start + table.len()) == table,
        0 <= at,
        at + 172 <= table.len(),
        table.subrange(at, at + 172) == record,
    ensures
        block.subrange(start + at, start + at + 172) == record,
        block.subrange(start + at, start + at + 168) == record.subrange(0, 168),
        block.subrange(start + at + 168, start + at + 172) == record.subrange(168, 172),
{
    assert(block.subrange(start + at, start + at + 172) =~= record);
    assert(block.subrange(start + at, start + at + 168) =~= record.subrange(0, 168));
    assert(block.subrange(start + at + 168, start + at + 172) =~= record.subrange(168, 172));
}

/// Both layout eraseblocks hold the volume table, and every record of it has the
/// checksum of its content.
#[verifier::spinoff_prover]
pub proof fn law_volume_table(
    fip: Seq<u8>,
    geometry: Geometry,
    image_seq: u32,
    lnum: int,
    record: int,
)
    requires
        buildable(fip, geometry),
        0 <= lnum < 2,
        0 <= record < ubi::UBI_MAX_VOLUMES,
    ensures
        ({
            let block = block_at(image_of(fip, geometry, image_seq), geometry, lnum);
            let at = geometry.data_start() + record * ubi::UBI_VTBL_RECORD_SIZE;
            &&& block.subrange(at, at + 172) == ubi::table_record(
                ubi::blocks_for(fip.len() as int, geometry.capacity()),
                record,
            )
            &&& field(block, at + 168, 4) == ubi::crc_value(block.subrange(at, at + 168))
        }),
{
    let block = ubi::image_block(fip, geometry, image_seq, lnum);
    let n = ubi::blocks_for(fip.len() as int, geometry.capacity());
    let table = ubi::table_bytes(n);
    law_image_layout(fip, geometry, image_seq, lnum);
    lemma_block_len(fip, geometry, image_seq, lnum);
    ubi::lemma_table_len(n, ubi::UBI_MAX_VOLUMES as nat);
    lemma_volume_block(geometry, image_seq, ubi::layout_header(lnum), table);
    lemma_table_record_at(n, ubi::UBI_MAX_VOLUMES as nat, record);
    lemma_record_intact(n, record);
    lemma_inner_record(
        block,
        geometry.data_start(),
        table,
        record * 172,
        ubi::table_record(n, record),
    );
}

/// Where an eraseblock's header holds the image's sequence number and its own
/// checksum.
pub open spec fn tells_sequence(i: int) -> bool {
    24 <= i < 28 || 60 <= i < 64
}

#[verifier::spinoff_prover]
proof fn lemma_ec_difference(geometry: Geometry, a: u32, b: u32, eof: bool, i: int)
    requires
        0 <= i < 64,
        !tells_sequence(i),
    ensures
        ubi::ec_header(geometry, a, eof)[i] == ubi::ec_header(geometry, b, eof)[i],
{
    let old = ubi::erased(64);
    ubi::lemma_ec_len(old, geometry, a, eof);
    ubi::lemma_ec_len(old, geometry, b, eof);
    reveal(ubi::ec_content);
    bytes::lemma_be_bytes_len(ubi::UBI_EC_HDR_MAGIC as nat, 4);
    bytes::lemma_be_bytes_len(0, 8);
    bytes::lemma_be_bytes_len(ubi::low32(geometry.page_size as int), 4);
    bytes::lemma_be_bytes_len(ubi::low32(geometry.data_start()), 4);
    bytes::lemma_be_bytes_len(a as nat, 4);
    bytes::lemma_be_bytes_len(b as nat, 4);
    assert(ubi::ec_content(old, geometry, a, eof)[i] == ubi::ec_content(
        old,
        geometry,
        b,
        eof,
    )[i]);
}

/// Two images that differ in their sequence numbers differ only in the bytes that
/// hold these, and in the checksums over them.
#[verifier::spinoff_prover]
pub proof fn law_sequence_number_local(
    fip: Seq<u8>,
    geometry: Geometry,
    a: u32,
    b: u32,
    k: int,
    i: int,
)
    requires
        buildable(fip, geometry),
        0 <= k < ubi::image_pebs(fip.len() as int, geometry),
        0 <= i < geometry.erase_size,
        !tells_sequence(i),
    ensures
        image_of(fip, geometry, a).len() == image_of(fip, geometry, b).len(),
        block_at(image_of(fip, geometry, a), geometry, k)[i] == block_at(
            image_of(fip, geometry, b),
            geometry,
            k,
        )[i],
{
    let n = ubi::blocks_for(fip.len() as int, geometry.capacity());
    let eof = k >= 2 + n;
    law_image_layout(fip, geometry, a, k);
    law_image_layout(fip, geometry, b, k);
    lemma_block_len(fip, geometry, a, k);
    lemma_block_len(fip, geometry, b, k);
    ubi::lemma_ec_len(ubi::erased(64), geometry, a, eof);
    ubi::lemma_ec_len(ubi::erased(64), geometry, b, eof);
    let of_a = ubi::image_block(fip, geometry, a, k);
    let of_b = ubi::image_block(fip, geometry, b, k);
    if i < 64 {
        lemma_ec_difference(geometry, a, b, eof, i);
        assert(of_a[i] == ubi::ec_header(geometry, a, eof)[i]);
        assert(of_b[i] == ubi::ec_header(geometry, b, eof)[i]);
    } else {
        assert(of_a.skip(64) =~= of_b.skip(64));
        assert(of_a.skip(64)[i - 64] == of_a[i]);
        assert(of_b.skip(64)[i - 64] == of_b[i]);
    }
}

/// The image is all the eraseblocks that it takes, for that sequence number.
pub proof fn law_image_of(fip: Seq<u8>, geometry: Geometry, image_seq: u32)
    ensures
        image_of(fip, geometry, image_seq) == ubi::image_blocks(
            fip,
            geometry,
            image_seq,
            ubi::image_pebs(fip.len() as int, geometry) as nat,
        ),
{
}

} // verus!
