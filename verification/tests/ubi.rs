use an758x_stock2ubi::bytes::{put_u16_be, put_u32_be, put_u64_be};
use an758x_stock2ubi::ubi::{
    build_bootstrap, crc32_ubi, fits_in_memory, Geometry, UBI_EC_HDR_MAGIC, UBI_LAYOUT_VOLUME_ID,
    UBI_MAX_VOLUMES, UBI_VID_HDR_MAGIC, UBI_VTBL_RECORD_SIZE,
};

fn read_be_u32(data: &[u8], offset: usize) -> u32 {
    u32::from_be_bytes(data[offset..offset + 4].try_into().unwrap())
}

fn read_be_u64(data: &[u8], offset: usize) -> u64 {
    u64::from_be_bytes(data[offset..offset + 8].try_into().unwrap())
}

#[test]
fn crc_matches_stock_ec_header() {
    // Reference CRC from the first EC header of the HG5382A stock apps UBI.
    let mut header = [0u8; 60];
    put_u32_be(&mut header, 0, UBI_EC_HDR_MAGIC);
    header[4] = 1;
    put_u64_be(&mut header, 8, 0);
    put_u32_be(&mut header, 16, 2048);
    put_u32_be(&mut header, 20, 4096);
    put_u32_be(&mut header, 24, 1_020_850_693);
    assert_eq!(crc32_ubi(&header), 0xb515_1e92);
}

#[test]
fn builds_layout_fip_and_eof_pebs() {
    let geometry = Geometry {
        erase_size: 0x20000,
        page_size: 0x800,
    };
    let fip = vec![0x5a; geometry.leb_size() + 17];
    let bootstrap = build_bootstrap(&fip, geometry, 0x1234_5678).unwrap();
    assert_eq!(bootstrap.fip_pebs, 2);
    assert_eq!(bootstrap.total_pebs, 5);
    assert_eq!(bootstrap.image.len(), geometry.erase_size * 5);

    let first = &bootstrap.image[..geometry.erase_size];
    assert_eq!(read_be_u32(first, 0), UBI_EC_HDR_MAGIC);
    assert_eq!(read_be_u32(first, geometry.page_size), UBI_VID_HDR_MAGIC);
    assert_eq!(
        read_be_u32(first, geometry.page_size + 8),
        UBI_LAYOUT_VOLUME_ID
    );

    let eof = &bootstrap.image[geometry.erase_size * 4..];
    assert_eq!(&eof[5..8], b"EOF");
    assert_eq!(read_be_u32(eof, 60), crc32_ubi(&eof[..60]));
}

#[test]
fn crc_of_short_inputs() {
    assert_eq!(crc32_ubi(&[]), 0xffff_ffff);
    // The usual check value, without the final inversion.
    assert_eq!(crc32_ubi(b"123456789"), !0xcbf4_3926u32);
}

#[test]
fn writes_numbers_high_byte_first() {
    let mut buffer = [0xffu8; 16];
    put_u16_be(&mut buffer, 1, 0x0102);
    put_u32_be(&mut buffer, 4, 0x0304_0506);
    put_u64_be(&mut buffer, 8, 0x0708_090a_0b0c_0d0e);
    assert_eq!(
        buffer,
        [0xff, 1, 2, 0xff, 3, 4, 5, 6, 7, 8, 9, 10, 11, 12, 13, 14]
    );
}

#[test]
fn names_what_is_wrong_with_a_geometry() {
    let geometry = |erase_size: usize, page_size: usize| Geometry { erase_size, page_size };
    let invalid = "Invalid NAND page or eraseblock geometry";
    assert_eq!(geometry(0x20000, 0).validate().unwrap_err(), invalid);
    assert_eq!(geometry(0x1000, 0x800).validate().unwrap_err(), invalid);
    assert_eq!(
        geometry(0x2001, 0x800).validate().unwrap_err(),
        "Eraseblock size must be a multiple of page size"
    );
    assert_eq!(
        geometry(320, 32).validate().unwrap_err(),
        "NAND page is too small for a UBI header"
    );
    assert!(geometry(192, 64).validate().is_ok());
    assert_eq!(geometry(0x20000, 0x800).data_offset(), 0x1000);
    assert_eq!(geometry(0x20000, 0x800).leb_size(), 0x1f000);
}

#[test]
fn refuses_images_that_cannot_be() {
    let geometry = Geometry { erase_size: 0x20000, page_size: 0x800 };
    assert_eq!(
        build_bootstrap(&[], geometry, 1).unwrap_err(),
        "FIP volume content is empty"
    );
    let small = Geometry { erase_size: 0x4000, page_size: 0x800 };
    assert_eq!(
        build_bootstrap(&[1], small, 1).unwrap_err(),
        "UBI volume table exceeds one LEB"
    );
    let wrong = Geometry { erase_size: 0x20000, page_size: 0 };
    assert_eq!(
        build_bootstrap(&[1], wrong, 1).unwrap_err(),
        "Invalid NAND page or eraseblock geometry"
    );
}

#[test]
fn an_image_too_large_for_memory_is_told() {
    let geometry = Geometry { erase_size: 0x20000, page_size: 0x800 };
    assert!(fits_in_memory(4 * 1024 * 1024, geometry));
    assert!(!fits_in_memory(usize::MAX, geometry));
    // Nothing is built for this one, so nothing has to fit.
    assert!(fits_in_memory(usize::MAX, Geometry { erase_size: 0x20000, page_size: 0 }));
}

#[test]
fn every_header_of_an_image_checks_out() {
    let geometry = Geometry { erase_size: 0x8000, page_size: 0x400 };
    let fip: Vec<u8> = (0..geometry.leb_size() * 2 + 5).map(|i| (i * 31 % 251) as u8).collect();
    let bootstrap = build_bootstrap(&fip, geometry, 0xdead_beef).unwrap();
    assert_eq!(bootstrap.fip_pebs, 3);
    assert_eq!(bootstrap.total_pebs, 6);
    let mut volume = Vec::new();
    for k in 0..bootstrap.total_pebs {
        let block = &bootstrap.image[k * geometry.erase_size..(k + 1) * geometry.erase_size];
        assert_eq!(read_be_u32(block, 0), UBI_EC_HDR_MAGIC);
        assert_eq!(block[4], 1);
        assert_eq!(read_be_u64(block, 8), 0);
        assert_eq!(read_be_u32(block, 16), 0x400);
        assert_eq!(read_be_u32(block, 20), 0x800);
        assert_eq!(read_be_u32(block, 24), 0xdead_beef);
        assert_eq!(read_be_u32(block, 60), crc32_ubi(&block[..60]));
        if k + 1 == bootstrap.total_pebs {
            assert_eq!(&block[5..8], b"EOF");
            assert!(block[64..].iter().all(|byte| *byte == 0xff));
            continue;
        }
        assert_eq!(&block[5..8], &[0xff, 0xff, 0xff]);
        let header = &block[geometry.page_size..geometry.page_size + 64];
        assert_eq!(read_be_u32(header, 0), UBI_VID_HDR_MAGIC);
        assert_eq!(read_be_u64(header, 40), k as u64 + 1);
        assert_eq!(read_be_u32(header, 60), crc32_ubi(&header[..60]));
        if k >= 2 {
            let size = read_be_u32(header, 20) as usize;
            let data = &block[2 * geometry.page_size..2 * geometry.page_size + size];
            assert_eq!(read_be_u32(header, 8), 0);
            assert_eq!(read_be_u32(header, 12), k as u32 - 2);
            assert_eq!(read_be_u32(header, 24), 3);
            assert_eq!(read_be_u32(header, 32), crc32_ubi(data));
            volume.extend_from_slice(data);
        }
    }
    assert_eq!(volume, fip);
}

#[test]
fn the_volume_table_names_the_volume() {
    let geometry = Geometry { erase_size: 0x20000, page_size: 0x800 };
    let bootstrap = build_bootstrap(&[7; 100], geometry, 1).unwrap();
    let table = &bootstrap.image[0x1000..0x1000 + UBI_MAX_VOLUMES * UBI_VTBL_RECORD_SIZE];
    let second = &bootstrap.image[0x21000..0x21000 + UBI_MAX_VOLUMES * UBI_VTBL_RECORD_SIZE];
    assert_eq!(table, second);
    for (k, record) in table.chunks_exact(UBI_VTBL_RECORD_SIZE).enumerate() {
        assert_eq!(read_be_u32(record, 168), crc32_ubi(&record[..168]));
        if k == 0 {
            assert_eq!(read_be_u32(record, 0), 1);
            assert_eq!(read_be_u32(record, 4), 1);
            assert_eq!(record[12], 2);
            assert_eq!(&record[14..16], &[0, 3]);
            assert_eq!(&record[16..20], b"fip\0");
        } else {
            assert!(record[..168].iter().all(|byte| *byte == 0));
        }
    }
}

#[test]
fn data_with_its_checksum_has_checksum_zero() {
    for sample in [&b""[..], b"123456789", &[0u8; 60], &[0xff; 7]] {
        let mut data = sample.to_vec();
        data.extend_from_slice(&crc32_ubi(sample).to_le_bytes());
        assert_eq!(crc32_ubi(&data), 0);
    }
}

#[test]
fn a_sequence_number_shows_only_in_its_place() {
    let geometry = Geometry { erase_size: 0x8000, page_size: 0x400 };
    let fip = vec![0x5a; geometry.leb_size() + 1];
    let one = build_bootstrap(&fip, geometry, 1).unwrap().image;
    let other = build_bootstrap(&fip, geometry, 0xfedc_ba98).unwrap().image;
    assert_eq!(one.len(), other.len());
    for (i, (a, b)) in one.iter().zip(&other).enumerate() {
        let at = i % geometry.erase_size;
        if !(24..28).contains(&at) && !(60..64).contains(&at) {
            assert_eq!(a, b, "{i}");
        }
    }
    assert_ne!(one[24..28], other[24..28]);
}
