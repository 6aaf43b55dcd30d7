//! The installation: which uploads are accepted, which device is booted from,
//! what is written where and in which order, and what is reported.
use vstd::prelude::*;
use vstd::slice::slice_subrange;

use crate::fip;
use crate::fip::{prepare_first_block, validate_bl31_uboot};
use crate::fip_laws;
use crate::mtd;
use crate::mtd::{find_boot_device, find_boot_partition, BlockTarget, MtdDevice, Partition};
use crate::number;
use crate::number::push_hexadecimal;
use crate::search;
use crate::search::RunSearch;
use crate::transfer;
use crate::transfer::{EraseblockWrite, ReadTransfer};
use crate::ubi;
use crate::ubi::{build_bootstrap, BootstrapInfo, Geometry};
use crate::ubi_laws;

verus! {

// ---------------------------------------------------------------------------
// The upload
// ---------------------------------------------------------------------------

/// Why an upload is not installed at all.
pub open spec fn upload_complaint(fip_image: Seq<u8>, root: bool) -> Option<Seq<char>> {
    match fip::boot_contents(fip_image) {
        Err(message) => Some(message),
        Ok(_) => if root {
            None
        } else {
            Some("Flashing requires root privileges"@)
        },
    }
}

/// An upload that may be installed.
#[derive(Debug, Clone, Copy)]
pub struct Upload<'a> {
    bl2: &'a [u8],
    fip_image: &'a [u8],
    root: bool,
}

/// What was uploaded, and whether the process runs as root.
pub struct UploadModel {
    pub bl2: Seq<u8>,
    pub fip_image: Seq<u8>,
    pub root: bool,
}

impl UploadModel {
    /// What holds of every upload that was accepted: its boot package is sound,
    /// and the process runs as root.
    pub open spec fn accepted(self) -> bool {
        &&& fip::boot_contents(self.fip_image) is Ok
        &&& self.root
    }
}

impl<'a> View for Upload<'a> {
    type V = UploadModel;

    closed spec fn view(&self) -> UploadModel {
        UploadModel { bl2: self.bl2@, fip_image: self.fip_image@, root: self.root }
    }
}

impl<'a> Upload<'a> {
    /// Accepts an upload whose boot package is sound, from a process that runs as
    /// root.
    pub fn accept(bl2: &'a [u8], fip_image: &'a [u8], root: bool) -> (result: Result<
        Upload<'a>,
        String,
    >)
        ensures
            match result {
                Ok(upload) => {
                    &&& upload_complaint(fip_image@, root) is None
                    &&& upload@.accepted()
                    &&& upload@ == (UploadModel { bl2: bl2@, fip_image: fip_image@, root })
                },
                Err(message) => upload_complaint(fip_image@, root) == Some(message@),
            },
    {
        match validate_bl31_uboot(fip_image) {
            Ok(_) => {},
            Err(message) => {
                return Err(message);
            },
        }
        if !root {
            return Err("Flashing requires root privileges".to_string());
        }
        Ok(Upload { bl2, fip_image, root })
    }
}

// ---------------------------------------------------------------------------
// The boot device
// ---------------------------------------------------------------------------

/// The device that is booted from, and its geometry.
#[derive(Debug)]
pub struct Boot<'a> {
    pub devices: &'a [MtdDevice],
    pub index: usize,
    pub geometry: Geometry,
}

/// Why there is no device to boot from.
#[derive(Debug)]
pub enum BootFailure {
    /// This partition holds the first eraseblock, and could not be opened.
    Unopened(Partition),
    /// What there is to say.
    Refused(String),
}

/// Some device can write the first eraseblock.
pub open spec fn boot_device_exists(devices: Seq<MtdDevice>) -> bool {
    exists|i: int| #[trigger] mtd::is_boot_device(devices, i)
}

/// Some partition holds the first eraseblock.
pub open spec fn boot_partition_exists(partitions: Seq<Partition>) -> bool {
    exists|i: int| #[trigger] mtd::is_boot_partition(partitions, i)
}

/// Why a device's sizes cannot be worked with.
pub open spec fn size_complaint(device: MtdDevice) -> Option<Seq<char>> {
    if device.erase_size > usize::MAX {
        Some("Eraseblock size is out of range"@)
    } else if device.write_size > usize::MAX {
        Some("Page size is out of range"@)
    } else {
        None
    }
}

impl<'a> Boot<'a> {
    /// The device at `index` is the one to boot from, and this is its geometry.
    pub open spec fn wf(&self) -> bool {
        &&& mtd::is_boot_device(self.devices@, self.index as int)
        &&& self.geometry.erase_size == self.devices@[self.index as int].erase_size
        &&& self.geometry.page_size == self.devices@[self.index as int].write_size
    }

    /// Chooses the device to boot from.
    pub fn select(partitions: &[Partition], devices: &'a [MtdDevice]) -> (result: Result<
        Boot<'a>,
        BootFailure,
    >)
        ensures
            match result {
                Ok(boot) => {
                    &&& boot.wf()
                    &&& boot.devices@ == devices@
                    &&& size_complaint(devices@[boot.index as int]) is None
                },
                Err(BootFailure::Unopened(partition)) => {
                    &&& !boot_device_exists(devices@)
                    &&& exists|i: int|
                        #[trigger] mtd::is_boot_partition(partitions@, i) && partitions@[i]
                            == partition
                },
                Err(BootFailure::Refused(message)) => {
                    ||| {
                        &&& !boot_device_exists(devices@)
                        &&& !boot_partition_exists(partitions@)
                        &&& message@ == "No MTD partition covers physical offset 0"@
                    }
                    ||| exists|i: int|
                        #[trigger] mtd::is_boot_device(devices@, i) && size_complaint(devices@[i])
                            == Some(message@)
                },
            },
    {
        let index = match find_boot_device(devices) {
            Some(index) => index,
            None => {
                return match find_boot_partition(partitions) {
                    Some(partition) => Err(BootFailure::Unopened(partition.clone())),
                    None => Err(
                        BootFailure::Refused(
                            "No MTD partition covers physical offset 0".to_string(),
                        ),
                    ),
                };
            },
        };
        let boot = &devices[index];
        if boot.erase_size > usize::MAX as u64 {
            return Err(BootFailure::Refused("Eraseblock size is out of range".to_string()));
        }
        if boot.write_size > usize::MAX as u64 {
            return Err(BootFailure::Refused("Page size is out of range".to_string()));
        }
        Ok(
            Boot {
                devices,
                index,
                geometry: Geometry {
                    erase_size: boot.erase_size as usize,
                    page_size: boot.write_size as usize,
                },
            },
        )
    }

    /// Starts the read of the first eraseblock.
    pub fn read_first_block(&self) -> (transfer: ReadTransfer)
        requires
            self.wf(),
        ensures
            transfer@.valid(),
            transfer@ == (transfer::ReadModel {
                offset: 0,
                len: self.geometry.erase_size as nat,
                data: Seq::empty(),
            }),
    {
        self.devices[self.index].read_exact_at(0, self.geometry.erase_size)
    }
}

/// What is said of a boot partition that could not be opened.
pub fn open_failure(partition: &Partition, error: &str) -> (message: String)
    ensures
        message@ == "Opening "@ + mtd::block_path(partition.index as int) + " failed: "@ + error@,
{
    let mut message = "Opening ".to_string();
    message.append(mtd::block_device(partition.index).as_str());
    message.append(" failed: ");
    message.append(error);
    message
}

/// What is said of a first eraseblock that could not be read.
pub fn first_block_failure(error: &str) -> (message: String)
    ensures
        message@ == "Reading the current first block failed: "@ + error@,
{
    let mut message = "Reading the current first block failed: ".to_string();
    message.append(error);
    message
}

// ---------------------------------------------------------------------------
// The image
// ---------------------------------------------------------------------------

/// The image's sequence number, from the seconds since 1970: their low 32 bits,
/// and never zero.
pub open spec fn sequence_number(seconds: u64) -> u32 {
    let low = seconds as int % 0x1_0000_0000;
    if low == 0 {
        1
    } else {
        low as u32
    }
}

/// Makes the image's sequence number from the seconds since 1970.
pub fn image_sequence(seconds: u64) -> (sequence: u32)
    ensures
        sequence == sequence_number(seconds),
        sequence > 0,
{
    let low: u32 = (seconds % 0x1_0000_0000) as u32;
    if low == 0 {
        1
    } else {
        low
    }
}

/// Why nothing can be written: what is wrong with the preloader, or why there is
/// no image.
pub open spec fn prepare_complaint(
    bl2: Seq<u8>,
    fip_len: int,
    current: Seq<u8>,
    geometry: Geometry,
) -> Option<Seq<char>> {
    match fip::first_block(bl2, current, geometry.erase_size as int) {
        Err(message) => Some(message),
        Ok(_) => ubi::bootstrap_complaint(fip_len, geometry),
    }
}

/// What is to be written: the first eraseblock, and the image.
#[derive(Debug)]
pub struct Prepared<'a> {
    boot: Boot<'a>,
    upload: Upload<'a>,
    image_seq: u32,
    first_block: Vec<u8>,
    bootstrap: BootstrapInfo,
}

/// What was prepared, from which upload, and for which device.
pub struct PreparedModel {
    pub devices: Seq<MtdDevice>,
    pub boot_index: int,
    pub geometry: Geometry,
    pub upload: UploadModel,
    pub image_seq: u32,
    pub first_block: Seq<u8>,
    pub image: Seq<u8>,
    pub blocks: nat,
}

impl PreparedModel {
    /// What holds of everything prepared: the upload was accepted, the first
    /// eraseblock is whole and holds a preloader, the image is that of the boot
    /// package, in whole eraseblocks, and there is a device for the first.
    pub open spec fn valid(self) -> bool {
        &&& self.upload.accepted()
        &&& mtd::is_boot_device(self.devices, self.boot_index)
        &&& self.geometry.erase_size == self.devices[self.boot_index].erase_size
        &&& self.geometry.usable()
        &&& self.first_block.len() == self.geometry.erase_size
        &&& fip::FIP_OFFSET < self.geometry.erase_size
        &&& fip::preloader_contents(self.first_block.skip(fip::FIP_OFFSET as int)) is Ok
        &&& ubi_laws::buildable(self.upload.fip_image, self.geometry)
        &&& self.image == ubi_laws::image_of(
            self.upload.fip_image,
            self.geometry,
            self.image_seq,
        )
        &&& self.blocks == ubi::image_pebs(self.upload.fip_image.len() as int, self.geometry)
        &&& self.image.len() == self.blocks * self.geometry.erase_size
        &&& 0 < self.blocks <= usize::MAX
    }
}

impl<'a> View for Prepared<'a> {
    type V = PreparedModel;

    closed spec fn view(&self) -> PreparedModel {
        PreparedModel {
            devices: self.boot.devices@,
            boot_index: self.boot.index as int,
            geometry: self.boot.geometry,
            upload: self.upload@,
            image_seq: self.image_seq,
            first_block: self.first_block@,
            image: self.bootstrap.image@,
            blocks: self.bootstrap.total_pebs as nat,
        }
    }
}

impl<'a> Boot<'a> {
    /// Prepares what is to be written, from an upload that was accepted, the first
    /// eraseblock that the device holds, and the seconds since 1970.
    pub fn prepare(self, upload: &Upload<'a>, current_first_block: &[u8], seconds: u64) -> (result:
        Result<Prepared<'a>, String>)
        requires
            self.wf(),
            fip::boot_contents(upload@.fip_image) is Ok,
            upload@.root,
            fip::first_block(
                upload@.bl2,
                current_first_block@,
                self.geometry.erase_size as int,
            ) is Ok ==> ubi::image_fits(upload@.fip_image.len() as int, self.geometry),
        ensures
            match result {
                Ok(prepared) => {
                    &&& prepare_complaint(
                        upload@.bl2,
                        upload@.fip_image.len() as int,
                        current_first_block@,
                        self.geometry,
                    ) is None
                    &&& prepared@.valid()
                    &&& prepared@ == (PreparedModel {
                        devices: self.devices@,
                        boot_index: self.index as int,
                        geometry: self.geometry,
                        upload: upload@,
                        image_seq: sequence_number(seconds),
                        first_block: fip::first_block(
                            upload@.bl2,
                            current_first_block@,
                            self.geometry.erase_size as int,
                        )->Ok_0,
                        image: ubi_laws::image_of(
                            upload@.fip_image,
                            self.geometry,
                            sequence_number(seconds),
                        ),
                        blocks: ubi::image_pebs(
                            upload@.fip_image.len() as int,
                            self.geometry,
                        ) as nat,
                    })
                },
                Err(message) => prepare_complaint(
                    upload@.bl2,
                    upload@.fip_image.len() as int,
                    current_first_block@,
                    self.geometry,
                ) == Some(message@),
            },
    {
        let first_block = match prepare_first_block(
            upload.bl2,
            current_first_block,
            self.geometry.erase_size,
        ) {
            Ok(block) => block,
            Err(message) => {
                return Err(message);
            },
        };
        let sequence = image_sequence(seconds);
        let bootstrap = match build_bootstrap(upload.fip_image, self.geometry, sequence) {
            Ok(bootstrap) => bootstrap,
            Err(message) => {
                return Err(message);
            },
        };
        proof {
            ubi_laws::law_image_layout(upload@.fip_image, self.geometry, sequence, 0);
            fip_laws::law_prepared_block_accepted(
                upload@.bl2,
                current_first_block@,
                current_first_block@,
                self.geometry.erase_size as int,
            );
        }
        Ok(Prepared { boot: self, upload: *upload, image_seq: sequence, first_block, bootstrap })
    }
}

// ---------------------------------------------------------------------------
// The place of the image
// ---------------------------------------------------------------------------

/// The search for the place of an image, of which no eraseblock was looked at.
pub open spec fn image_search(prepared: PreparedModel) -> search::SearchModel {
    search::SearchModel {
        devices: prepared.devices,
        required: prepared.blocks,
        erase_size: prepared.geometry.erase_size as int,
        end: search::range_end(prepared.devices)->0,
        verdicts: Seq::empty(),
    }
}

/// A search, however far it has got, is one for the place of the image.
pub open spec fn searches_for(m: search::SearchModel, prepared: PreparedModel) -> bool {
    &&& m.devices == prepared.devices
    &&& m.required == prepared.blocks
    &&& m.erase_size == prepared.geometry.erase_size
}

impl<'a> Prepared<'a> {
    /// Starts the search for the place of the image.
    pub fn find_place(&self) -> (result: Result<RunSearch<'a>, String>)
        requires
            self@.valid(),
            search::addressable(self@.devices),
        ensures
            match result {
                Ok(search) => {
                    &&& search::range_end(self@.devices) is Some
                    &&& search.wf()
                    &&& search@ == image_search(self@)
                },
                Err(message) => {
                    &&& search::range_end(self@.devices) is None
                    &&& message@ == "No writable physical MTD range"@
                },
            },
    {
        match RunSearch::start(
            self.boot.devices,
            self.bootstrap.total_pebs,
            self.boot.geometry.erase_size as u64,
        ) {
            Ok(search) => Ok(search),
            Err(error) => Err(error.message),
        }
    }

    /// Settles where everything is written, once the search is at its end.
    pub fn settle<'p>(&'p self, search: RunSearch<'p>) -> (result: Result<
        Installation<'p>,
        String,
    >)
        requires
            self@.valid(),
            search.wf(),
            searches_for(search@, self@),
            search@.found() || !search@.in_range(),
        ensures
            match result {
                Ok(installation) => {
                    &&& search@.found()
                    &&& installation@.valid()
                    &&& installation@ == (InstallModel {
                        prepared: self@,
                        targets: search@.run(),
                        done: 0,
                        readbacks: Seq::empty(),
                    })
                },
                Err(message) => {
                    &&& !search@.found()
                    &&& message@ == "No writable range with "@ + number::decimal(self@.blocks)
                        + " consecutive good blocks"@
                },
            },
    {
        let ghost m = search@;
        proof {
            search.law_search_valid();
        }
        match search.result() {
            Ok(targets) => {
                proof {
                    search::law_earliest_run(m);
                    assert forall|j: int| 0 <= j < targets@.len() implies settled(
                        self@,
                        targets@,
                        j,
                    ) by {
                        search::law_run_layout(m, j);
                        search::law_run_layout(m, 0);
                        let first = m.next_block() - m.run().len();
                        let e = m.erase_size;
                        assert((first + j) * e == (first + 0) * e + j * e) by (nonlinear_arith);
                    }
                }
                Ok(Installation { prepared: self, targets, done: 0, readbacks: Ghost(Seq::empty()) })
            },
            Err(error) => Err(error.message),
        }
    }
}

// ---------------------------------------------------------------------------
// The writes
// ---------------------------------------------------------------------------

/// The `j`th eraseblock of the image has its place: behind the one before it on
/// the chip, not at its start, and wholly within a device whose eraseblocks have
/// the same size.
pub open spec fn settled(prepared: PreparedModel, targets: Seq<BlockTarget>, j: int) -> bool {
    let block = targets[j];
    let device = prepared.devices[block.device_index as int];
    let erase_size = prepared.geometry.erase_size as int;
    &&& block.device_index < prepared.devices.len()
    &&& block.physical_offset == targets[0].physical_offset + j * erase_size
    &&& erase_size <= block.physical_offset
    &&& block.physical_offset + erase_size <= u64::MAX
    &&& device.partition.offset is Some
    &&& device.partition.offset->0 + block.relative_offset == block.physical_offset
    &&& block.relative_offset + erase_size <= device.partition.size
    &&& device.erase_size == erase_size
}

/// The write of one eraseblock: through which device, where on it, and what.
pub struct WriteStep {
    pub device_index: int,
    pub offset: int,
    pub data: Seq<u8>,
}

/// An installation under way: what is written, where the image is written, how
/// many eraseblocks were written, and what was read back of each.
pub struct InstallModel {
    pub prepared: PreparedModel,
    pub targets: Seq<BlockTarget>,
    pub done: nat,
    pub readbacks: Seq<Seq<u8>>,
}

impl InstallModel {
    /// How many eraseblocks are written in all.
    pub open spec fn total(self) -> nat {
        1 + self.targets.len()
    }

    /// The `k`th write: the first eraseblock to the boot device, then those of the
    /// image to their places, in order.
    pub open spec fn step(self, k: int) -> WriteStep {
        let erase_size = self.prepared.geometry.erase_size as int;
        if k == 0 {
            WriteStep {
                device_index: self.prepared.boot_index,
                offset: 0,
                data: self.prepared.first_block,
            }
        } else {
            WriteStep {
                device_index: self.targets[k - 1].device_index as int,
                offset: self.targets[k - 1].relative_offset as int,
                data: self.prepared.image.subrange((k - 1) * erase_size, k * erase_size),
            }
        }
    }

    /// What holds of every installation: each eraseblock of the image has its
    /// place, and what was read back of those written is what was to be written.
    pub open spec fn valid(self) -> bool {
        &&& self.prepared.valid()
        &&& self.targets.len() == self.prepared.blocks
        &&& forall|j: int|
            0 <= j < self.targets.len() ==> #[trigger] settled(self.prepared, self.targets, j)
        &&& self.done <= self.total()
        &&& self.readbacks.len() == self.done
        &&& forall|k: int|
            0 <= k < self.done ==> #[trigger] self.readbacks[k] == self.step(k).data
    }
}

/// The write of one eraseblock.
#[derive(Debug)]
pub struct BlockWrite<'b> {
    pub device_index: usize,
    pub offset: u64,
    pub data: &'b [u8],
}

impl<'b> View for BlockWrite<'b> {
    type V = WriteStep;

    open spec fn view(&self) -> WriteStep {
        WriteStep {
            device_index: self.device_index as int,
            offset: self.offset as int,
            data: self.data@,
        }
    }
}

/// An installation: what is written where, and how far it has got.
pub struct Installation<'p> {
    prepared: &'p Prepared<'p>,
    targets: Vec<BlockTarget>,
    done: usize,
    readbacks: Ghost<Seq<Seq<u8>>>,
}

impl<'p> View for Installation<'p> {
    type V = InstallModel;

    closed spec fn view(&self) -> InstallModel {
        InstallModel {
            prepared: self.prepared@,
            targets: self.targets@,
            done: self.done as nat,
            readbacks: self.readbacks@,
        }
    }
}

/// What is said of the `k`th write where it fails.
pub open spec fn write_failure(m: InstallModel, k: int, error: Seq<char>) -> Seq<char> {
    if k == 0 {
        "Writing BL2 first block to "@ + mtd::block_path(
            m.prepared.devices[m.prepared.boot_index].partition.index as int,
        ) + " failed: "@ + error
    } else {
        "Writing bootstrap UBI at physical offset 0x"@ + number::hexadecimal(
            m.targets[k - 1].physical_offset as nat,
        ) + " failed: "@ + error
    }
}

/// What is said of an installation that has succeeded.
pub open spec fn success_report(m: InstallModel) -> Seq<char> {
    "BL2 written to "@ + mtd::block_path(
        m.prepared.devices[m.prepared.boot_index].partition.index as int,
    ) + "; bootstrap UBI at 0x"@ + number::hexadecimal(m.targets.first().physical_offset as nat)
        + "..0x"@ + number::hexadecimal(
        (m.targets.last().physical_offset + m.prepared.geometry.erase_size) as nat,
    ) + "; readback verified; rebooting"@
}

/// A place in an image of whole eraseblocks.
pub proof fn lemma_chunk_place(len: int, blocks: int, erase_size: int, k: int)
    requires
        len == blocks * erase_size,
        0 <= k < blocks,
        erase_size >= 0,
    ensures
        0 <= k * erase_size,
        (k + 1) * erase_size == k * erase_size + erase_size,
        (k + 1) * erase_size <= len,
{
    assert(0 <= k * erase_size && (k + 1) * erase_size == k * erase_size + erase_size && (k + 1)
        * erase_size <= blocks * erase_size) by (nonlinear_arith)
        requires
            0 <= k < blocks,
            erase_size >= 0,
    ;
}

impl<'p> Installation<'p> {
    /// The eraseblock to write next; nothing once all are written.
    pub fn pending(&self) -> (next: Option<BlockWrite<'p>>)
        requires
            self@.valid(),
        ensures
            match next {
                Some(write) => {
                    &&& self@.done < self@.total()
                    &&& write@ == self@.step(self@.done as int)
                },
                None => self@.done == self@.total(),
            },
    {
        let prepared: &'p Prepared<'p> = self.prepared;
        if self.done == 0 {
            return Some(
                BlockWrite {
                    device_index: prepared.boot.index,
                    offset: 0,
                    data: prepared.first_block.as_slice(),
                },
            );
        }
        if self.done > self.targets.len() {
            return None;
        }
        let k: usize = self.done - 1;
        let erase_size = prepared.boot.geometry.erase_size;
        let image = prepared.bootstrap.image.as_slice();
        let len: usize = image.len();
        proof {
            lemma_chunk_place(len as int, self@.prepared.blocks as int, erase_size as int, k as int);
        }
        let from: usize = k * erase_size;
        let block = self.targets[k];
        Some(
            BlockWrite {
                device_index: block.device_index,
                offset: block.relative_offset,
                data: slice_subrange(image, from, from + erase_size),
            },
        )
    }

    /// Takes the write of the eraseblock that was to be written next, all of which
    /// was read back, and goes on to the next eraseblock where what was read back is
    /// what was to be written.
    pub fn confirm(&mut self, write: EraseblockWrite) -> (result: Result<(), String>)
        requires
            old(self)@.valid(),
            old(self)@.done < old(self)@.total(),
            write.wf(),
            write@.complete(),
            write@.write.data == old(self)@.step(old(self)@.done as int).data,
            write@.write.offset == old(self)@.step(old(self)@.done as int).offset,
            write@.handle == old(self)@.prepared.devices[old(self)@.step(
                old(self)@.done as int,
            ).device_index].handle,
        ensures
            final(self)@.valid(),
            match result {
                Ok(()) => {
                    &&& write@.readback.data == old(self)@.step(old(self)@.done as int).data
                    &&& final(self)@ == (InstallModel {
                        done: old(self)@.done + 1,
                        readbacks: old(self)@.readbacks.push(write@.readback.data),
                        ..old(self)@
                    })
                },
                Err(message) => {
                    &&& write@.readback.data != old(self)@.step(old(self)@.done as int).data
                    &&& final(self)@ == old(self)@
                    &&& message@ == write_failure(
                        old(self)@,
                        old(self)@.done as int,
                        "MTD readback differs from the written data"@,
                    )
                },
            },
    {
        let ghost before = self@;
        let ghost read = write@.readback.data;
        match write.finish() {
            Ok(()) => {},
            Err(error) => {
                return Err(self.failure(error.message.as_str()));
            },
        }
        let len: usize = self.prepared.bootstrap.image.len();
        assert(self@.targets.len() < usize::MAX) by {
            let blocks = self@.prepared.blocks as int;
            let erase_size = self@.prepared.geometry.erase_size as int;
            assert(2 * blocks <= len) by (nonlinear_arith)
                requires
                    len == blocks * erase_size,
                    blocks > 0,
                    erase_size >= 2,
            ;
        }
        self.done = self.done + 1;
        self.readbacks = Ghost(self.readbacks@.push(read));
        proof {
            assert forall|k: int| 0 <= k < self@.done implies #[trigger] self@.readbacks[k]
                == self@.step(k).data by {
                assert(self@.step(k) == before.step(k));
                if k < before.done {
                    assert(before.readbacks[k] == before.step(k).data);
                }
            }
        }
        Ok(())
    }

    /// What is said where the eraseblock that is written next fails.
    pub fn failure(&self, error: &str) -> (message: String)
        requires
            self@.valid(),
            self@.done < self@.total(),
        ensures
            message@ == write_failure(self@, self@.done as int, error@),
    {
        let mut message: String;
        if self.done == 0 {
            message = "Writing BL2 first block to ".to_string();
            message.append(self.prepared.boot.devices[self.prepared.boot.index].write_target().as_str());
        } else {
            message = "Writing bootstrap UBI at physical offset 0x".to_string();
            push_hexadecimal(&mut message, self.targets[self.done - 1].physical_offset);
        }
        message.append(" failed: ");
        message.append(error);
        message
    }

    /// What is said once everything is written.
    pub fn report(&self) -> (message: String)
        requires
            self@.valid(),
            self@.done == self@.total(),
        ensures
            message@ == success_report(self@),
    {
        let last: usize = self.targets.len() - 1;
        proof {
            assert(settled(self@.prepared, self@.targets, last as int));
        }
        let mut message = "BL2 written to ".to_string();
        message.append(self.prepared.boot.devices[self.prepared.boot.index].write_target().as_str());
        message.append("; bootstrap UBI at 0x");
        push_hexadecimal(&mut message, self.targets[0].physical_offset);
        message.append("..0x");
        push_hexadecimal(
            &mut message,
            self.targets[last].physical_offset + self.prepared.boot.geometry.erase_size as u64,
        );
        message.append("; readback verified; rebooting");
        message
    }
}

} // verus!
