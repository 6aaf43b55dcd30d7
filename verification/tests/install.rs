use an758x_stock2ubi::fip::{
    validate_bl31_uboot, validate_preloader, TOC_ENTRY_SIZE, TOC_HEADER_NAME, TOC_HEADER_SIZE, UUID_BL31, UUID_BL33, UUID_TB_FW,
};
use an758x_stock2ubi::install::{
    first_block_failure, image_sequence, open_failure, BlockWrite, Boot, BootFailure,
    Installation, Prepared, Upload,
};
use an758x_stock2ubi::mtd::{MtdDevice, OpenedFiles, Partition};
use an758x_stock2ubi::transfer::{EraseblockStep, EraseblockWrite};
use an758x_stock2ubi::ubi::{build_bootstrap, fits_in_memory, Geometry};

const BLOCK: usize = 0x8000;
const PAGE: usize = 0x400;

fn package(uuids: &[[u8; 16]]) -> Vec<u8> {
    let payloads = TOC_HEADER_SIZE + TOC_ENTRY_SIZE * (uuids.len() + 1);
    let mut data = vec![0u8; payloads + uuids.len() * 16];
    data[0..4].copy_from_slice(&TOC_HEADER_NAME.to_le_bytes());
    for (index, uuid) in uuids.iter().enumerate() {
        let cursor = TOC_HEADER_SIZE + index * TOC_ENTRY_SIZE;
        let offset = (payloads + index * 16) as u64;
        data[cursor..cursor + 16].copy_from_slice(uuid);
        data[cursor + 16..cursor + 24].copy_from_slice(&offset.to_le_bytes());
        data[cursor + 24..cursor + 32].copy_from_slice(&16u64.to_le_bytes());
    }
    data
}

fn partition(index: u32, size: usize, offset: Option<u64>) -> Partition {
    Partition {
        index,
        name: format!("part{index}"),
        size: size as u64,
        erase_size: BLOCK as u64,
        offset,
        path: format!("/dev/mtd{index}"),
    }
}

fn device(index: u32, size: usize, offset: Option<u64>) -> MtdDevice {
    let files = OpenedFiles {
        handle: index as usize,
        write_size: PAGE as u32,
        erase_size: BLOCK as u32,
    };
    MtdDevice::open(partition(index, size, offset), files).unwrap()
}

fn devices() -> Vec<MtdDevice> {
    vec![
        device(0, 2 * BLOCK, Some(0)),
        device(1, 6 * BLOCK, Some(2 * BLOCK as u64)),
    ]
}

#[test]
fn accepts_sound_uploads_from_root() {
    let bl2 = package(&[UUID_TB_FW]);
    let boot = package(&[UUID_BL31, UUID_BL33]);
    assert!(Upload::accept(&bl2, &boot, true).is_ok());
    assert_eq!(
        Upload::accept(&bl2, &boot, false).unwrap_err(),
        "Flashing requires root privileges"
    );
    // What is wrong with the package comes first.
    assert_eq!(
        Upload::accept(&bl2, &bl2, false).unwrap_err(),
        "Boot FIP is missing the BL31 payload"
    );
}

#[test]
fn selects_the_device_to_boot_from() {
    let devices = devices();
    let boot = Boot::select(&[], &devices).unwrap();
    assert_eq!(boot.index, 0);
    assert_eq!(boot.geometry, Geometry { erase_size: BLOCK, page_size: PAGE });
    assert_eq!(boot.read_first_block().pending(), Some((BLOCK, 0)));

    let partitions = vec![partition(3, BLOCK, Some(0))];
    match Boot::select(&partitions, &devices[1..]) {
        Err(BootFailure::Unopened(found)) => {
            assert_eq!(found.index, 3);
            assert_eq!(
                open_failure(&found, "Permission denied"),
                "Opening /dev/mtdblock3 failed: Permission denied"
            );
        }
        other => panic!("{other:?}"),
    }
    match Boot::select(&[], &devices[1..]) {
        Err(BootFailure::Refused(message)) => {
            assert_eq!(message, "No MTD partition covers physical offset 0");
        }
        other => panic!("{other:?}"),
    }
    assert_eq!(
        first_block_failure("MTD read ended early"),
        "Reading the current first block failed: MTD read ended early"
    );
}

#[test]
fn never_numbers_an_image_zero() {
    assert_eq!(image_sequence(0), 1);
    assert_eq!(image_sequence(1), 1);
    assert_eq!(image_sequence(1_020_850_693), 1_020_850_693);
    assert_eq!(image_sequence(0x1_0000_0000), 1);
    assert_eq!(image_sequence(0x1_0000_0002), 2);
    assert_eq!(image_sequence(u64::MAX), u32::MAX);
}

#[test]
fn refuses_what_cannot_be_prepared() {
    let devices = devices();
    let bl2 = package(&[UUID_TB_FW]);
    let fip_image = package(&[UUID_BL31, UUID_BL33]);
    let current = vec![0x11u8; BLOCK];
    let upload = Upload::accept(&fip_image, &fip_image, true).unwrap();
    assert_eq!(
        Boot::select(&[], &devices).unwrap().prepare(&upload, &current, 5).unwrap_err(),
        "Preloader FIP is missing the TB_FW/BL2 payload"
    );
    let small = vec![{
        let files = OpenedFiles { handle: 0, write_size: PAGE as u32, erase_size: 0x2000 };
        MtdDevice::open(partition(0, 0x2000, Some(0)), files).unwrap()
    }];
    let upload = Upload::accept(&bl2, &fip_image, true).unwrap();
    assert_eq!(
        Boot::select(&[], &small).unwrap().prepare(&upload, &current[..0x2000], 5).unwrap_err(),
        "UBI volume table exceeds one LEB"
    );
}

fn prepare<'a>(
    devices: &'a [MtdDevice],
    upload: &Upload<'a>,
    fip_image: &[u8],
    current: &[u8],
) -> Prepared<'a> {
    let boot = Boot::select(&[], devices).unwrap();
    assert!(fits_in_memory(fip_image.len(), boot.geometry));
    boot.prepare(upload, current, 77).unwrap()
}

fn settle<'p>(
    prepared: &'p Prepared<'p>,
    bad: fn(u64) -> Option<bool>,
) -> Result<Installation<'p>, String> {
    let mut search = prepared.find_place()?;
    while let Some(block) = search.next_query() {
        search.answer(bad(block.physical_offset / BLOCK as u64));
    }
    prepared.settle(search)
}

/// Writes an eraseblock to a chip and reads all of it back.
fn write_step<'d>(
    devices: &[MtdDevice],
    chip: &mut [u8],
    step: &BlockWrite<'d>,
    spoil: bool,
) -> EraseblockWrite<'d> {
    let device = &devices[step.device_index];
    let base = device.partition.offset.unwrap();
    let mut write = device.write_eraseblock(step.offset, step.data).unwrap();
    loop {
        match write.step() {
            EraseblockStep::Write(rest, position) => {
                let at = (base + position) as usize;
                chip[at..at + rest.len()].copy_from_slice(rest);
                write.wrote(Ok(rest.len())).unwrap();
            }
            EraseblockStep::Flush => {
                if spoil {
                    chip[(base + step.offset) as usize] ^= 0xff;
                }
                write.flush_done(Ok(())).unwrap();
            }
            EraseblockStep::Read(count, position) => {
                let at = (base + position) as usize;
                write.read_back(Ok(&chip[at..at + count])).unwrap();
            }
            EraseblockStep::Finish => return write,
        }
    }
}

#[test]
fn installs_the_first_block_and_the_image() {
    let devices = devices();
    let bl2 = package(&[UUID_TB_FW]);
    let fip_image = package(&[UUID_BL31, UUID_BL33]);
    let current: Vec<u8> = (0..BLOCK).map(|i| i as u8).collect();
    let upload = Upload::accept(&bl2, &fip_image, true).unwrap();
    let prepared = prepare(&devices, &upload, &fip_image, &current);
    let mut installation = settle(&prepared, |block| Some(block == 1)).unwrap();

    let mut chip = vec![0xeeu8; 8 * BLOCK];
    chip[..BLOCK].copy_from_slice(&current);
    let before = chip.clone();
    let mut steps = 0;
    while let Some(step) = installation.pending() {
        let write = write_step(&devices, &mut chip, &step, false);
        if steps == 0 {
            assert_eq!(
                installation.failure("oops"),
                "Writing BL2 first block to /dev/mtdblock0 failed: oops"
            );
        } else {
            assert_eq!(
                installation.failure("oops"),
                format!(
                    "Writing bootstrap UBI at physical offset 0x{:x} failed: oops",
                    (steps + 1) * BLOCK
                )
            );
        }
        installation.confirm(write).unwrap();
        steps += 1;
    }
    assert_eq!(steps, 5);
    assert_eq!(
        installation.report(),
        "BL2 written to /dev/mtdblock0; bootstrap UBI at 0x10000..0x30000; readback verified; rebooting"
    );

    let geometry = Geometry { erase_size: BLOCK, page_size: PAGE };
    let bootstrap = build_bootstrap(&fip_image, geometry, 77).unwrap();
    assert_eq!(&chip[..0x800], &current[..0x800]);
    assert_eq!(&chip[0x800..0x800 + bl2.len()], &bl2[..]);
    assert!(chip[0x800 + bl2.len()..BLOCK].iter().all(|byte| *byte == 0xff));
    assert_eq!(&chip[BLOCK..2 * BLOCK], &before[BLOCK..2 * BLOCK]);
    assert_eq!(&chip[2 * BLOCK..6 * BLOCK], &bootstrap.image[..]);
    assert_eq!(&chip[6 * BLOCK..], &before[6 * BLOCK..]);
}

#[test]
fn says_where_no_place_is_left() {
    let devices = devices();
    let bl2 = package(&[UUID_TB_FW]);
    let fip_image = package(&[UUID_BL31, UUID_BL33]);
    let current = vec![0x11u8; BLOCK];
    let upload = Upload::accept(&bl2, &fip_image, true).unwrap();
    let prepared = prepare(&devices, &upload, &fip_image, &current);
    assert_eq!(
        settle(&prepared, |block| Some(block % 4 == 0)).err().unwrap(),
        "No writable range with 4 consecutive good blocks"
    );
    assert_eq!(
        settle(&prepared, |_| None).err().unwrap(),
        "No writable range with 4 consecutive good blocks"
    );
}

#[test]
fn goes_on_only_where_the_readback_agrees() {
    let devices = devices();
    let bl2 = package(&[UUID_TB_FW]);
    let fip_image = package(&[UUID_BL31, UUID_BL33]);
    let current = vec![0x11u8; BLOCK];
    let upload = Upload::accept(&bl2, &fip_image, true).unwrap();
    let prepared = prepare(&devices, &upload, &fip_image, &current);
    let mut installation = settle(&prepared, |_| Some(false)).unwrap();
    let mut chip = vec![0xeeu8; 8 * BLOCK];

    let first = installation.pending().unwrap();
    let spoiled = write_step(&devices, &mut chip, &first, true);
    assert_eq!(
        installation.confirm(spoiled).unwrap_err(),
        "Writing BL2 first block to /dev/mtdblock0 failed: MTD readback differs from the written data"
    );
    // The same eraseblock is still the next.
    let again = installation.pending().unwrap();
    assert_eq!((again.device_index, again.offset, again.data), (0, 0, first.data));
    let good = write_step(&devices, &mut chip, &again, false);
    installation.confirm(good).unwrap();

    let second = installation.pending().unwrap();
    assert_eq!((second.device_index, second.offset), (0, BLOCK as u64));
    let spoiled = write_step(&devices, &mut chip, &second, true);
    assert_eq!(
        installation.confirm(spoiled).unwrap_err(),
        "Writing bootstrap UBI at physical offset 0x8000 failed: MTD readback differs from the written data"
    );
}

#[test]
fn what_is_installed_reads_back_as_the_uploaded_package() {
    let devices = devices();
    let bl2 = package(&[UUID_TB_FW]);
    let fip_image = package(&[UUID_BL31, UUID_BL33]);
    let current = vec![0x11u8; BLOCK];
    let upload = Upload::accept(&bl2, &fip_image, true).unwrap();
    let prepared = prepare(&devices, &upload, &fip_image, &current);
    let mut installation = settle(&prepared, |_| Some(false)).unwrap();
    let mut chip = vec![0xeeu8; 8 * BLOCK];
    while let Some(step) = installation.pending() {
        let write = write_step(&devices, &mut chip, &step, false);
        installation.confirm(write).unwrap();
    }
    validate_preloader(&chip[0x800..BLOCK]).unwrap();
    // The third eraseblock of the image, which starts at the second of the chip.
    let block = &chip[3 * BLOCK..4 * BLOCK];
    let size = u32::from_be_bytes(block[PAGE + 20..PAGE + 24].try_into().unwrap()) as usize;
    let package = &block[2 * PAGE..2 * PAGE + size];
    assert_eq!(package, &fip_image[..]);
    validate_bl31_uboot(package).unwrap();
}

#[test]
fn a_bad_preloader_is_named_before_the_image_is_built() {
    let devices = devices();
    let fip_image = package(&[UUID_BL31, UUID_BL33]);
    let current = vec![0x11u8; BLOCK];
    let upload = Upload::accept(&[], &fip_image, true).unwrap();
    assert_eq!(
        Boot::select(&[], &devices).unwrap().prepare(&upload, &current, 5).unwrap_err(),
        "File is smaller than the minimum FIP directory"
    );
}
