//! What holds of every installation: no write is refused for its length, none
//! touches what another has written, together they put the first eraseblock and
//! the image on the chip, and nothing else, and what they leave there boots.
use vstd::prelude::*;

use crate::bytes;
use crate::fip;
use crate::install;
use crate::install::InstallModel;
use crate::mtd;
use crate::mtd_laws;
use crate::number;
use crate::search;
use crate::ubi;
use crate::ubi::Geometry;
use crate::ubi_laws;

verus! {

/// Where on the chip the `k`th write of an installation lies.
pub open spec fn chip_position(m: InstallModel, k: int) -> int {
    m.prepared.devices[m.step(k).device_index].partition.offset->0 + m.step(k).offset
}

/// The chip after the first `n` writes of an installation.
pub open spec fn chip_after(m: InstallModel, chip: Seq<u8>, n: nat) -> Seq<u8>
    decreases n,
{
    if n == 0 {
        chip
    } else {
        bytes::overwritten(
            chip_after(m, chip, (n - 1) as nat),
            chip_position(m, n - 1),
            m.step(n - 1).data,
        )
    }
}

/// Where the image starts on the chip.
pub open spec fn image_start(m: InstallModel) -> int {
    m.targets[0].physical_offset as int
}

/// Every write is as long as an eraseblock of its device, and lies within it, so
/// none is refused.
pub proof fn law_writes_fit(m: InstallModel, k: int)
    requires
        m.valid(),
        0 <= k < m.total(),
    ensures
        0 <= m.step(k).device_index < m.prepared.devices.len(),
        ({
            let device = m.prepared.devices[m.step(k).device_index];
            &&& device.partition.offset is Some
            &&& m.step(k).data.len() == device.erase_size
            &&& m.step(k).offset + m.step(k).data.len() <= device.partition.size
        }),
{
    if k > 0 {
        assert(install::settled(m.prepared, m.targets, k - 1));
        install::lemma_chunk_place(
            m.prepared.image.len() as int,
            m.prepared.blocks as int,
            m.prepared.geometry.erase_size as int,
            k - 1,
        );
    }
}

proof fn lemma_position(m: InstallModel, k: int)
    requires
        m.valid(),
        0 <= k < m.total(),
    ensures
        k == 0 ==> chip_position(m, k) == 0,
        k > 0 ==> chip_position(m, k) == image_start(m) + (k - 1) * m.prepared.geometry.erase_size,
        image_start(m) >= m.prepared.geometry.erase_size,
{
    assert(install::settled(m.prepared, m.targets, 0));
    if k > 0 {
        assert(install::settled(m.prepared, m.targets, k - 1));
    }
}

/// No write touches what another has written: each ends before the next starts.
pub proof fn law_writes_disjoint(m: InstallModel, j: int, k: int)
    requires
        m.valid(),
        0 <= j < k < m.total(),
    ensures
        chip_position(m, j) + m.step(j).data.len() <= chip_position(m, k),
{
    let e = m.prepared.geometry.erase_size as int;
    law_writes_fit(m, j);
    lemma_position(m, j);
    lemma_position(m, k);
    if j == 0 {
        assert(0 <= (k - 1) * e) by (nonlinear_arith)
            requires
                k >= 1,
                e >= 0,
        ;
    } else {
        assert(install::settled(m.prepared, m.targets, j - 1));
        assert((j - 1) * e + e <= (k - 1) * e) by (nonlinear_arith)
            requires
                j < k,
                e >= 0,
        ;
    }
}

/// Behind the first eraseblock, the eraseblocks of the image are written, each
/// as it was built.
pub proof fn law_image_blocks_written(m: InstallModel, k: int)
    requires
        m.valid(),
        0 <= k < m.prepared.blocks,
    ensures
        m.total() == 1 + ubi::image_pebs(
            m.prepared.upload.fip_image.len() as int,
            m.prepared.geometry,
        ),
        m.step(0).data == m.prepared.first_block,
        m.step(k + 1).data == ubi::image_block(
            m.prepared.upload.fip_image,
            m.prepared.geometry,
            m.prepared.image_seq,
            k,
        ),
{
    ubi_laws::law_image_layout(
        m.prepared.upload.fip_image,
        m.prepared.geometry,
        m.prepared.image_seq,
        k,
    );
}

/// What stands at `i` after the first `n` writes, of which there is at least one.
spec fn byte_after(m: InstallModel, chip: Seq<u8>, n: int, i: int) -> u8 {
    let e = m.prepared.geometry.erase_size as int;
    let start = image_start(m);
    if i < e {
        m.prepared.first_block[i]
    } else if start <= i < start + (n - 1) * e {
        m.prepared.image[i - start]
    } else {
        chip[i]
    }
}

#[verifier::spinoff_prover]
proof fn lemma_chip_after(m: InstallModel, chip: Seq<u8>, n: nat)
    requires
        m.valid(),
        1 <= n <= m.total(),
        image_start(m) + m.prepared.image.len() <= chip.len(),
    ensures
        chip_after(m, chip, n).len() == chip.len(),
        forall|i: int|
            0 <= i < chip.len() ==> #[trigger] chip_after(m, chip, n)[i] == byte_after(
                m,
                chip,
                n as int,
                i,
            ),
    decreases n,
{
    let e = m.prepared.geometry.erase_size as int;
    let start = image_start(m);
    let k = n - 1;
    let before = chip_after(m, chip, k as nat);
    let after = chip_after(m, chip, n);
    lemma_position(m, k);
    law_writes_fit(m, k);
    if n == 1 {
        assert(before == chip);
        assert((n - 1) * e == 0) by (nonlinear_arith)
            requires
                n == 1,
        ;
    } else {
        lemma_chip_after(m, chip, k as nat);
        install::lemma_chunk_place(
            m.prepared.image.len() as int,
            m.prepared.blocks as int,
            e,
            k - 1,
        );
        assert(install::settled(m.prepared, m.targets, k - 1));
        let at = start + (k - 1) * e;
        assert(chip_position(m, k) == at);
        assert(m.step(k).data.len() == e);
        assert forall|i: int| 0 <= i < chip.len() implies #[trigger] after[i] == byte_after(
            m,
            chip,
            n as int,
            i,
        ) by {
            assert(before[i] == byte_after(m, chip, k, i));
            if at <= i < at + e {
                assert(after[i] == m.step(k).data[i - at]);
            } else {
                assert(after[i] == before[i]);
            }
        }
    }
}

/// After the last write the chip holds the first eraseblock at its start and the
/// whole image where the report says, and is elsewhere what it was.
pub proof fn law_chip_installed(m: InstallModel, chip: Seq<u8>)
    requires
        m.valid(),
        image_start(m) + m.prepared.image.len() <= chip.len(),
    ensures
        ({
            let e = m.prepared.geometry.erase_size as int;
            let start = image_start(m);
            let end = m.targets.last().physical_offset + e;
            let installed = chip_after(m, chip, m.total());
            &&& installed.len() == chip.len()
            &&& e <= start
            &&& end == start + m.prepared.image.len()
            &&& installed.subrange(0, e) == m.prepared.first_block
            &&& installed.subrange(start, end) == m.prepared.image
            &&& installed.subrange(e, start) == chip.subrange(e, start)
            &&& installed.skip(end) == chip.skip(end)
        }),
{
    let e = m.prepared.geometry.erase_size as int;
    let start = image_start(m);
    let n = m.total();
    let end = start + m.prepared.image.len();
    let installed = chip_after(m, chip, n);
    lemma_chip_after(m, chip, n);
    lemma_position(m, 0);
    let last = m.targets.len() - 1;
    assert(install::settled(m.prepared, m.targets, last));
    assert(last * e + e == m.prepared.blocks * e) by (nonlinear_arith)
        requires
            last + 1 == m.prepared.blocks,
    ;
    assert((n - 1) * e == m.prepared.image.len());
    assert(installed.subrange(0, e) =~= m.prepared.first_block);
    assert(installed.subrange(start, end) =~= m.prepared.image);
    assert(installed.subrange(e, start) =~= chip.subrange(e, start));
    assert(installed.skip(end) =~= chip.skip(end));
}

/// Everything is in its place on a chip: the first eraseblock at its start, and
/// the image where it was to be written.
pub open spec fn in_place(m: InstallModel, chip: Seq<u8>) -> bool {
    let start = image_start(m);
    let end = start + m.prepared.image.len();
    &&& end <= chip.len()
    &&& chip.subrange(0, m.prepared.geometry.erase_size as int) == m.prepared.first_block
    &&& chip.subrange(start, end) == m.prepared.image
}

/// The content of the volume that stands on a chip where the image was written.
pub open spec fn package_on_chip(m: InstallModel, chip: Seq<u8>) -> Seq<u8> {
    let start = image_start(m);
    ubi_laws::read_volume(
        chip.subrange(start, start + m.prepared.image.len()),
        m.prepared.geometry,
        2,
        ubi::blocks_for(
            m.prepared.upload.fip_image.len() as int,
            m.prepared.geometry.capacity(),
        ) as nat,
    )
}

/// The preloader that stands in the first eraseblock of a chip.
pub open spec fn preloader_on_chip(m: InstallModel, chip: Seq<u8>) -> Seq<u8> {
    chip.subrange(fip::FIP_OFFSET as int, m.prepared.geometry.erase_size as int)
}

/// A chip can be booted from: it holds a sound preloader with BL2, and behind it
/// the boot package that was uploaded, which is sound and holds BL31 and BL33.
pub open spec fn bootable(m: InstallModel, chip: Seq<u8>) -> bool {
    let preloader = fip::preloader_contents(preloader_on_chip(m, chip));
    let package = fip::boot_contents(package_on_chip(m, chip));
    &&& preloader is Ok
    &&& fip::has_payload(preloader->Ok_0, fip::UUID_TB_FW@)
    &&& package_on_chip(m, chip) == m.prepared.upload.fip_image
    &&& package is Ok
    &&& fip::has_payload(package->Ok_0, fip::UUID_BL31@)
    &&& fip::has_payload(package->Ok_0, fip::UUID_BL33@)
}

/// No eraseblock of the image holds more data than the 32 bits of its header can
/// count.
pub open spec fn countable(m: InstallModel) -> bool {
    ||| m.prepared.geometry.capacity() <= u32::MAX
    ||| m.prepared.upload.fip_image.len() <= u32::MAX
}

proof fn lemma_bootable(m: InstallModel, chip: Seq<u8>)
    requires
        m.valid(),
        in_place(m, chip),
        countable(m),
    ensures
        bootable(m, chip),
{
    let e = m.prepared.geometry.erase_size as int;
    lemma_position(m, 0);
    assert(chip.subrange(0, e).skip(fip::FIP_OFFSET as int) =~= preloader_on_chip(m, chip));
    ubi_laws::law_volume_round_trip(
        m.prepared.upload.fip_image,
        m.prepared.geometry,
        m.prepared.image_seq,
    );
}

/// What the writes of an installation put on the chip can be booted from: the boot
/// package that was accepted reads back, with BL31 and BL33, and so does a
/// preloader with BL2.
pub proof fn law_installed_chip_boots(m: InstallModel, chip: Seq<u8>)
    requires
        m.valid(),
        image_start(m) + m.prepared.image.len() <= chip.len(),
        countable(m),
    ensures
        in_place(m, chip_after(m, chip, m.total())),
        bootable(m, chip_after(m, chip, m.total())),
{
    law_chip_installed(m, chip);
    lemma_bootable(m, chip_after(m, chip, m.total()));
}

/// Of an installation that reports, every eraseblock was read back, and was what
/// was to be written.
pub proof fn law_reported_verified(m: InstallModel, k: int)
    requires
        m.valid(),
        m.done == m.total(),
        0 <= k < m.total(),
    ensures
        m.readbacks.len() == m.total(),
        m.readbacks[k] == m.step(k).data,
{
}

/// What was read back of each eraseblock is what a chip holds in its place.
pub open spec fn read_from(m: InstallModel, chip: Seq<u8>) -> bool {
    forall|k: int|
        0 <= k < m.done ==> {
            &&& chip_position(m, k) + m.readbacks[k].len() <= chip.len()
            &&& #[trigger] m.readbacks[k] == chip.subrange(
                chip_position(m, k),
                chip_position(m, k) + m.readbacks[k].len(),
            )
        }
}

/// Where the readbacks of an installation that reports took what the chip holds,
/// the chip holds the first eraseblock and the whole image in their places, and
/// can be booted from.
pub proof fn law_reported_chip_boots(m: InstallModel, chip: Seq<u8>)
    requires
        m.valid(),
        m.done == m.total(),
        read_from(m, chip),
    ensures
        in_place(m, chip),
        countable(m) ==> bootable(m, chip),
{
    let e = m.prepared.geometry.erase_size as int;
    let start = image_start(m);
    let image = m.prepared.image;
    let blocks = m.prepared.blocks as int;
    lemma_position(m, 0);
    assert(m.readbacks[0] == m.step(0).data);
    assert(chip.subrange(0, e) =~= m.prepared.first_block);
    let last = blocks - 1;
    lemma_position(m, blocks);
    law_writes_fit(m, blocks);
    assert(m.readbacks[blocks] == m.step(blocks).data);
    assert(last * e + e == blocks * e) by (nonlinear_arith)
        requires
            last + 1 == blocks,
    ;
    assert forall|i: int| 0 <= i < image.len() implies #[trigger] chip.subrange(
        start,
        start + image.len(),
    )[i] == image[i] by {
        let k = i / e;
        let r = i % e;
        vstd::arithmetic::div_mod::lemma_fundamental_div_mod(i, e);
        assert(e * k == k * e) by (nonlinear_arith);
        assert(0 <= k < blocks) by (nonlinear_arith)
            requires
                i == k * e + r,
                0 <= r < e,
                0 <= i < blocks * e,
        ;
        lemma_position(m, k + 1);
        law_writes_fit(m, k + 1);
        install::lemma_chunk_place(image.len() as int, blocks, e, k);
        assert(m.readbacks[k + 1] == m.step(k + 1).data);
        let piece = chip.subrange(start + k * e, start + k * e + e);
        assert(piece == m.step(k + 1).data);
        assert(piece[r] == chip[start + i]);
        assert(m.step(k + 1).data[r] == image[i]);
    }
    assert(chip.subrange(start, start + image.len()) =~= image);
    if countable(m) {
        lemma_bootable(m, chip);
    }
}

// ---------------------------------------------------------------------------
// What is decided, and what is said
// ---------------------------------------------------------------------------

/// An upload is refused for its boot package, where that is not sound, and else
/// where the process does not run as root; and for nothing else.
pub proof fn law_upload_judged(fip_image: Seq<u8>)
    ensures
        match fip::boot_contents(fip_image) {
            Err(message) => {
                &&& install::upload_complaint(fip_image, true) == Some(message)
                &&& install::upload_complaint(fip_image, false) == Some(message)
            },
            Ok(_) => {
                &&& install::upload_complaint(fip_image, true) is None
                &&& install::upload_complaint(fip_image, false) == Some(
                    "Flashing requires root privileges"@,
                )
            },
        },
{
}

/// An upload counts as accepted where its boot package is sound and the process runs
/// as root.
pub proof fn law_upload_accepted(upload: install::UploadModel)
    ensures
        upload.accepted() <==> fip::boot_contents(upload.fip_image) is Ok && upload.root,
        upload.accepted() <==> install::upload_complaint(upload.fip_image, upload.root) is None,
{
}

/// Sizes that a device reports are refused only where memory has no such sizes.
pub proof fn law_sizes_judged(device: mtd::MtdDevice)
    ensures
        device.erase_size <= usize::MAX && device.write_size <= usize::MAX
            ==> install::size_complaint(device) is None,
        device.erase_size > usize::MAX ==> install::size_complaint(device) == Some(
            "Eraseblock size is out of range"@,
        ),
        device.erase_size <= usize::MAX && device.write_size > usize::MAX
            ==> install::size_complaint(device) == Some("Page size is out of range"@),
{
}

/// An image's sequence number is the low 32 bits of the seconds, or one where these
/// are zero.
pub proof fn law_sequence_number(seconds: u64)
    ensures
        install::sequence_number(seconds) > 0,
        seconds as int % 0x1_0000_0000 != 0 ==> install::sequence_number(seconds) == seconds as int
            % 0x1_0000_0000,
        seconds as int % 0x1_0000_0000 == 0 ==> install::sequence_number(seconds) == 1,
{
}

/// Nothing is prepared where the preloader gives no first eraseblock or no image can
/// be built, and it is prepared everywhere else; the preloader is judged first.
pub proof fn law_preparation_judged(
    bl2: Seq<u8>,
    fip_len: int,
    current: Seq<u8>,
    geometry: Geometry,
)
    ensures
        match fip::first_block(bl2, current, geometry.erase_size as int) {
            Err(message) => install::prepare_complaint(bl2, fip_len, current, geometry) == Some(
                message,
            ),
            Ok(_) => install::prepare_complaint(bl2, fip_len, current, geometry)
                == ubi::bootstrap_complaint(fip_len, geometry),
        },
{
}

/// The first write goes to the start of the boot device and carries the first
/// eraseblock; write `k` goes where the `k`th place says, and carries as many bytes
/// of the image as an eraseblock has, from where the write before it stopped.
pub proof fn law_steps(m: InstallModel, k: int)
    requires
        1 <= k <= m.targets.len(),
    ensures
        m.total() == m.targets.len() + 1,
        m.step(0).device_index == m.prepared.boot_index,
        m.step(0).offset == 0,
        m.step(0).data == m.prepared.first_block,
        m.step(k).device_index == m.targets[k - 1].device_index,
        m.step(k).offset == m.targets[k - 1].relative_offset,
        m.step(k).data == m.prepared.image.subrange(
            (k - 1) * m.prepared.geometry.erase_size,
            k * m.prepared.geometry.erase_size,
        ),
{
}

/// The image is searched a place for that has as many eraseblocks as the image, of
/// the boot device's size, on the same devices.
pub proof fn law_place_searched(prepared: install::PreparedModel)
    ensures
        install::image_search(prepared).devices == prepared.devices,
        install::image_search(prepared).required == prepared.blocks,
        install::image_search(prepared).erase_size == prepared.geometry.erase_size,
        install::image_search(prepared).verdicts == Seq::<bool>::empty(),
        forall|m: search::SearchModel|
            #![trigger install::searches_for(m, prepared)]
            install::searches_for(m, prepared) <==> m.devices == prepared.devices && m.required
                == prepared.blocks && m.erase_size == prepared.geometry.erase_size,
        search::range_end(prepared.devices) is Some ==> search::range_end(prepared.devices)
            == Some(install::image_search(prepared).end),
{
}

/// A write that fails names the boot device's block device, or the place of the
/// eraseblock on the chip; a report names the same device, and where the image
/// starts and ends on the chip.
pub proof fn law_install_texts(m: InstallModel, k: int, error: Seq<char>)
    requires
        m.valid(),
        1 <= k <= m.targets.len(),
    ensures
        ({
            let device = "/dev/mtdblock"@ + number::digits(
                m.prepared.devices[m.prepared.boot_index].partition.index as nat,
                10,
            );
            let erase_size = m.prepared.geometry.erase_size as int;
            let start = m.targets[0].physical_offset as int;
            &&& install::write_failure(m, 0, error) == "Writing BL2 first block to "@ + device
                + " failed: "@ + error
            &&& install::write_failure(m, k, error)
                == "Writing bootstrap UBI at physical offset 0x"@ + number::digits(
                (start + (k - 1) * erase_size) as nat,
                16,
            ) + " failed: "@ + error
            &&& install::success_report(m) == "BL2 written to "@ + device
                + "; bootstrap UBI at 0x"@ + number::digits(start as nat, 16) + "..0x"@
                + number::digits((start + m.prepared.image.len()) as nat, 16)
                + "; readback verified; rebooting"@
        }),
{
    let erase_size = m.prepared.geometry.erase_size as int;
    let last = m.targets.len() - 1;
    assert(install::settled(m.prepared, m.targets, k - 1));
    assert(install::settled(m.prepared, m.targets, last));
    assert(last * erase_size + erase_size == m.prepared.blocks * erase_size) by (nonlinear_arith)
        requires
            last + 1 == m.prepared.blocks,
    ;
}

/// What is booted from is the boot device, with the eraseblock and page sizes that it
/// reported; there is one where some device starts at offset zero with room for one
/// of its eraseblocks.
pub proof fn law_boot(boot: install::Boot)
    ensures
        boot.wf() <==> {
            &&& mtd::is_boot_device(boot.devices@, boot.index as int)
            &&& boot.geometry.erase_size == boot.devices@[boot.index as int].erase_size
            &&& boot.geometry.page_size == boot.devices@[boot.index as int].write_size
        },
        install::boot_device_exists(boot.devices@) <==> exists|i: int|
            {
                &&& 0 <= i < boot.devices@.len()
                &&& (#[trigger] boot.devices@[i]).partition.offset == Some(0u64)
                &&& boot.devices@[i].partition.size >= boot.devices@[i].erase_size
            },
{
    let devices = boot.devices@;
    if exists|i: int|
        {
            &&& 0 <= i < devices.len()
            &&& (#[trigger] devices[i]).partition.offset == Some(0u64)
            &&& devices[i].partition.size >= devices[i].erase_size
        } {
        let i = choose|i: int|
            {
                &&& 0 <= i < devices.len()
                &&& (#[trigger] devices[i]).partition.offset == Some(0u64)
                &&& devices[i].partition.size >= devices[i].erase_size
            };
        mtd_laws::law_boot_device(devices, i);
    }
    if install::boot_device_exists(devices) {
        let b = choose|b: int| #[trigger] mtd::is_boot_device(devices, b);
        mtd_laws::law_no_boot_device(devices, b);
        assert(devices[b].partition.offset == Some(0u64));
    }
}

/// There is a partition to boot from where some partition starts at offset zero with
/// room for an eraseblock.
pub proof fn law_boot_partition_exists(partitions: Seq<mtd::Partition>)
    ensures
        install::boot_partition_exists(partitions) <==> exists|i: int|
            {
                &&& 0 <= i < partitions.len()
                &&& (#[trigger] partitions[i]).offset == Some(0u64)
                &&& partitions[i].size >= partitions[i].erase_size
            },
{
    if exists|i: int|
        {
            &&& 0 <= i < partitions.len()
            &&& (#[trigger] partitions[i]).offset == Some(0u64)
            &&& partitions[i].size >= partitions[i].erase_size
        } {
        let i = choose|i: int|
            {
                &&& 0 <= i < partitions.len()
                &&& (#[trigger] partitions[i]).offset == Some(0u64)
                &&& partitions[i].size >= partitions[i].erase_size
            };
        mtd_laws::law_boot_partition(partitions, i);
    }
    if install::boot_partition_exists(partitions) {
        let b = choose|b: int| #[trigger] mtd::is_boot_partition(partitions, b);
        mtd_laws::law_no_boot_partition(partitions, b);
        assert(partitions[b].offset == Some(0u64));
    }
}

/// Everything that is prepared holds the upload that was accepted, and its image is
/// that of the uploaded package, for as many eraseblocks as it takes.
pub proof fn law_prepared(prepared: install::PreparedModel)
    requires
        prepared.valid(),
    ensures
        fip::boot_contents(prepared.upload.fip_image) is Ok,
        prepared.upload.root,
        prepared.image == ubi::image_blocks(
            prepared.upload.fip_image,
            prepared.geometry,
            prepared.image_seq,
            prepared.blocks,
        ),
        prepared.blocks == ubi::image_pebs(
            prepared.upload.fip_image.len() as int,
            prepared.geometry,
        ),
        fip::preloader_contents(
            prepared.first_block.subrange(0x800, prepared.first_block.len() as int),
        ) is Ok,
{
    assert(prepared.first_block.subrange(0x800, prepared.first_block.len() as int)
        =~= prepared.first_block.skip(0x800));
}

/// The model of a write tells all of it.
pub proof fn law_model(write: install::BlockWrite)
    ensures
        write@.device_index == write.device_index,
        write@.offset == write.offset,
        write@.data == write.data@,
{
}

} // verus!
