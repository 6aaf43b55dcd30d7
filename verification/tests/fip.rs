use an758x_stock2ubi::fip::{
    parse, prepare_first_block, validate_bl31_uboot, validate_preloader, TOC_ENTRY_SIZE,
    TOC_HEADER_NAME, TOC_HEADER_SIZE, UUID_BL31, UUID_BL33, UUID_TB_FW,
};

fn synthetic_fip(uuids: &[[u8; 16]]) -> Vec<u8> {
    let table_size = TOC_HEADER_SIZE + TOC_ENTRY_SIZE * (uuids.len() + 1);
    let payload_offset = table_size.next_multiple_of(0x400);
    let mut data = vec![0u8; payload_offset + uuids.len() * 16];
    data[0..4].copy_from_slice(&TOC_HEADER_NAME.to_le_bytes());
    data[4..8].copy_from_slice(&0x1234_5678u32.to_le_bytes());

    for (index, uuid) in uuids.iter().enumerate() {
        let cursor = TOC_HEADER_SIZE + index * TOC_ENTRY_SIZE;
        data[cursor..cursor + 16].copy_from_slice(uuid);
        data[cursor + 16..cursor + 24]
            .copy_from_slice(&((payload_offset + index * 16) as u64).to_le_bytes());
        data[cursor + 24..cursor + 32].copy_from_slice(&16u64.to_le_bytes());
    }
    let terminator = TOC_HEADER_SIZE + uuids.len() * TOC_ENTRY_SIZE;
    let fip_end = data.len() as u64;
    data[terminator + 16..terminator + 24].copy_from_slice(&fip_end.to_le_bytes());
    data
}

fn put_u64(data: &mut [u8], at: usize, value: u64) {
    data[at..at + 8].copy_from_slice(&value.to_le_bytes());
}

#[test]
fn validates_required_fip_payloads() {
    validate_preloader(&synthetic_fip(&[UUID_TB_FW])).unwrap();
    validate_bl31_uboot(&synthetic_fip(&[UUID_BL31, UUID_BL33])).unwrap();
    assert!(validate_bl31_uboot(&synthetic_fip(&[UUID_BL31])).is_err());
}

#[test]
fn preserves_bl1_for_plain_preloader() {
    let preloader = synthetic_fip(&[UUID_TB_FW]);
    let mut current = vec![0xff; 0x20000];
    current[..0x800].fill(0x5a);
    let block = prepare_first_block(&preloader, &current, 0x20000).unwrap();
    assert_eq!(&block[..0x800], &current[..0x800]);
    assert_eq!(&block[0x800..0x800 + preloader.len()], &preloader);
}

#[test]
fn accepts_preloader_embedded_in_firstblock() {
    let preloader = synthetic_fip(&[UUID_TB_FW]);
    let mut firstblock = vec![0xff; 0x20000];
    firstblock[..0x800].fill(0x3c);
    firstblock[0x800..0x800 + preloader.len()].copy_from_slice(&preloader);
    let current = vec![0xff; 0x20000];
    let prepared = prepare_first_block(&firstblock, &current, 0x20000).unwrap();
    assert_eq!(prepared, firstblock);
}

#[test]
fn parses_the_entries_in_order() {
    let info = parse(&synthetic_fip(&[UUID_BL31, UUID_BL33])).unwrap();
    assert_eq!(info.entries.len(), 2);
    assert_eq!(info.entries[0].uuid, UUID_BL31);
    assert_eq!(info.entries[0].offset, 0x400);
    assert_eq!(info.entries[0].size, 16);
    assert_eq!(info.entries[1].uuid, UUID_BL33);
    assert_eq!(info.entries[1].offset, 0x410);
    assert_eq!(info.entries[1].size, 16);
}

#[test]
fn refuses_short_and_foreign_files() {
    assert_eq!(
        parse(&[0u8; 55]).unwrap_err(),
        "File is smaller than the minimum FIP directory"
    );
    assert_eq!(parse(&[0u8; 56]).unwrap_err(), "Missing FIP ToC magic 0xaa640001");
}

#[test]
fn refuses_a_directory_without_end() {
    let mut data = synthetic_fip(&[UUID_TB_FW]);
    data.truncate(0x400 + 16);
    // Every slot up to the end of the file holds a payload.
    let mut cursor = TOC_HEADER_SIZE;
    while cursor + TOC_ENTRY_SIZE <= data.len() {
        data[cursor..cursor + 16].copy_from_slice(&UUID_TB_FW);
        put_u64(&mut data, cursor + 16, 0x400);
        put_u64(&mut data, cursor + 24, 16);
        cursor += TOC_ENTRY_SIZE;
    }
    assert_eq!(parse(&data).unwrap_err(), "FIP directory terminator is missing");
}

#[test]
fn refuses_a_wrong_boundary() {
    let terminator = TOC_HEADER_SIZE + TOC_ENTRY_SIZE;
    let message = "FIP terminator boundary does not match file length";

    let mut sized = synthetic_fip(&[UUID_TB_FW]);
    put_u64(&mut sized, terminator + 24, 1);
    assert_eq!(parse(&sized).unwrap_err(), message);

    let mut inside = synthetic_fip(&[UUID_TB_FW]);
    put_u64(&mut inside, terminator + 16, (terminator + TOC_ENTRY_SIZE - 1) as u64);
    assert_eq!(parse(&inside).unwrap_err(), message);

    let mut beyond = synthetic_fip(&[UUID_TB_FW]);
    let past_end = beyond.len() as u64 + 1;
    put_u64(&mut beyond, terminator + 16, past_end);
    assert_eq!(parse(&beyond).unwrap_err(), message);

    let mut followed = synthetic_fip(&[UUID_TB_FW]);
    followed.push(0);
    assert_eq!(parse(&followed).unwrap_err(), message);
}

#[test]
fn accepts_padding_and_an_open_end() {
    let mut padded = synthetic_fip(&[UUID_TB_FW]);
    padded.extend_from_slice(&[0xff; 300]);
    assert_eq!(parse(&padded).unwrap(), parse(&synthetic_fip(&[UUID_TB_FW])).unwrap());

    let mut open = synthetic_fip(&[UUID_TB_FW]);
    put_u64(&mut open, TOC_HEADER_SIZE + TOC_ENTRY_SIZE + 16, 0);
    open.push(0x12);
    assert!(parse(&open).is_ok());
}

#[test]
fn refuses_payloads_outside_the_file() {
    let mut empty = synthetic_fip(&[UUID_TB_FW]);
    put_u64(&mut empty, TOC_HEADER_SIZE + 24, 0);
    assert_eq!(parse(&empty).unwrap_err(), "FIP payload extends beyond the file");

    let mut long = synthetic_fip(&[UUID_TB_FW]);
    put_u64(&mut long, TOC_HEADER_SIZE + 24, 17);
    assert_eq!(parse(&long).unwrap_err(), "FIP payload extends beyond the file");

    let mut wrapping = synthetic_fip(&[UUID_TB_FW]);
    put_u64(&mut wrapping, TOC_HEADER_SIZE + 16, usize::MAX as u64);
    put_u64(&mut wrapping, TOC_HEADER_SIZE + 24, 1);
    assert_eq!(parse(&wrapping).unwrap_err(), "FIP payload range overflows");
}

#[test]
fn refuses_empty_and_overlapping_directories() {
    assert_eq!(parse(&synthetic_fip(&[])).unwrap_err(), "FIP has no payloads");

    let mut overlapping = synthetic_fip(&[UUID_TB_FW]);
    put_u64(&mut overlapping, TOC_HEADER_SIZE + 16, 95);
    assert_eq!(parse(&overlapping).unwrap_err(), "FIP payload overlaps the directory");
    put_u64(&mut overlapping, TOC_HEADER_SIZE + 16, 96);
    assert!(parse(&overlapping).is_ok());
}

#[test]
fn names_the_payload_that_is_missing() {
    assert_eq!(
        validate_preloader(&synthetic_fip(&[UUID_BL31])).unwrap_err(),
        "Preloader FIP is missing the TB_FW/BL2 payload"
    );
    assert_eq!(
        validate_bl31_uboot(&synthetic_fip(&[UUID_BL33])).unwrap_err(),
        "Boot FIP is missing the BL31 payload"
    );
    assert_eq!(
        validate_bl31_uboot(&synthetic_fip(&[UUID_BL31])).unwrap_err(),
        "Boot FIP is missing the BL33/U-Boot payload"
    );
    assert_eq!(
        validate_bl31_uboot(&[]).unwrap_err(),
        "File is smaller than the minimum FIP directory"
    );
}

#[test]
fn erases_what_follows_the_preloader() {
    let preloader = synthetic_fip(&[UUID_TB_FW]);
    let current = vec![0x11; 0x2000];
    let block = prepare_first_block(&preloader, &current, 0x2000).unwrap();
    assert_eq!(block.len(), 0x2000);
    assert!(block[0x800 + preloader.len()..].iter().all(|byte| *byte == 0xff));
    // What was prepared is itself a first eraseblock.
    assert_eq!(prepare_first_block(&block, &current, 0x2000).unwrap(), block);
}

#[test]
fn refuses_preloaders_that_do_not_fit() {
    let preloader = synthetic_fip(&[UUID_TB_FW]);
    assert_eq!(
        prepare_first_block(&preloader, &[0xff; 0x1000], 0x2000).unwrap_err(),
        "Current first-block length does not match the NAND eraseblock"
    );
    assert_eq!(
        prepare_first_block(&preloader, &[0xff; 0x800], 0x800).unwrap_err(),
        "Current first-block length does not match the NAND eraseblock"
    );
    assert_eq!(
        prepare_first_block(&preloader, &[0xff; 0xc00], 0xc00).unwrap_err(),
        "Preloader FIP exceeds the first eraseblock"
    );
    assert_eq!(
        prepare_first_block(&[0u8; 100], &[0xff; 0x1000], 0x1000).unwrap_err(),
        "Missing FIP ToC magic 0xaa640001"
    );
    assert_eq!(
        prepare_first_block(&[0u8; 0x1000], &[0xff; 0x1000], 0x1000).unwrap_err(),
        "Missing FIP ToC magic 0xaa640001"
    );
}

#[test]
fn flags_have_no_influence() {
    let plain = synthetic_fip(&[UUID_BL31, UUID_BL33]);
    let mut flagged = plain.clone();
    flagged[4..16].fill(0xa5);
    for k in 0..3 {
        let at = TOC_HEADER_SIZE + k * TOC_ENTRY_SIZE;
        flagged[at + 32..at + 40].fill(0x77);
    }
    assert_eq!(parse(&flagged), parse(&plain));
    assert!(parse(&flagged).is_ok());

    let mut broken = flagged.clone();
    put_u64(&mut broken, TOC_HEADER_SIZE + 24, 0);
    assert_eq!(parse(&broken).unwrap_err(), "FIP payload extends beyond the file");
}
