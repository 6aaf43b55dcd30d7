use an758x_stock2ubi::mtd::{
    bad_block_request, block_device, discover_partitions, find_boot_device, find_boot_partition,
    geometry_request, ioctl_number, is_placed, list_partitions, offset_path, open_writable_devices,
    read_partition_offset, MtdDevice, MtdErrorKind, OpenedFiles, Partition, IOC_READ, IOC_WRITE,
};

const PROC_MTD: &str = "dev:    size   erasesize  name
mtd1: 03c00000 00020000 \"rootfs\"
mtd0: 00020000 00020000 \"boot loader\"
garbage
mtdx: 00020000 00020000 \"bad index\"
mtd7: zz 00020000 \"bad size\"
mtd8: 00020000
mtd10:  00100000   00020000   two  words
mtd3: 00040000 00020000
";

fn partition(index: u32, size: u64, erase_size: u64, offset: Option<u64>) -> Partition {
    Partition {
        index,
        name: format!("part{index}"),
        size,
        erase_size,
        offset,
        path: format!("/dev/mtd{index}"),
    }
}

fn device(index: u32, size: u64, erase_size: u32, offset: Option<u64>) -> MtdDevice {
    let files = OpenedFiles { handle: index as usize, write_size: 2048, erase_size };
    MtdDevice::open(partition(index, size, 0x20000, offset), files).unwrap()
}

#[test]
fn lists_the_partitions_of_the_table() {
    let listed = list_partitions(PROC_MTD);
    let seen: Vec<(u32, &str, u64, u64, &str)> = listed
        .iter()
        .map(|p| (p.index, p.name.as_str(), p.size, p.erase_size, p.path.as_str()))
        .collect();
    assert_eq!(
        seen,
        vec![
            (1, "rootfs", 0x3c00000, 0x20000, "/dev/mtd1"),
            (0, "boot loader", 0x20000, 0x20000, "/dev/mtd0"),
            (10, "two words", 0x100000, 0x20000, "/dev/mtd10"),
            (3, "", 0x40000, 0x20000, "/dev/mtd3"),
        ]
    );
    assert!(listed.iter().all(|p| p.offset.is_none()));
    assert!(list_partitions("").is_empty());
    // The first line is the heading, whatever it holds.
    assert!(list_partitions("mtd0: 00020000 00020000 \"boot\"\n").is_empty());
}

#[test]
fn puts_partitions_at_their_offsets_in_order() {
    let listed = list_partitions(PROC_MTD);
    let attributes = vec![
        Some("0x20000\n".to_string()),
        None,
        Some("not a number".to_string()),
        Some("131072\n".to_string()),
    ];
    let discovered = discover_partitions(listed, &attributes);
    let seen: Vec<(u32, Option<u64>)> = discovered.iter().map(|p| (p.index, p.offset)).collect();
    assert_eq!(
        seen,
        vec![(0, Some(0)), (1, Some(0x20000)), (3, Some(0x20000)), (10, None)]
    );
}

#[test]
fn keeps_the_order_of_equal_indices() {
    let table = "dev: size erasesize name
mtd2: 1 1 \"a\"
mtd1: 1 1 \"b\"
mtd2: 1 1 \"c\"
mtd1: 1 1 \"d\"
";
    let listed = list_partitions(table);
    let discovered = discover_partitions(listed, &vec![None, None, None, None]);
    let names: Vec<&str> = discovered.iter().map(|p| p.name.as_str()).collect();
    assert_eq!(names, vec!["b", "d", "a", "c"]);
}

#[test]
fn reads_offsets() {
    assert_eq!(read_partition_offset(0, None), Some(0));
    assert_eq!(read_partition_offset(0, Some("junk")), Some(0));
    assert_eq!(read_partition_offset(0, Some("4096")), Some(4096));
    assert_eq!(read_partition_offset(1, None), None);
    assert_eq!(read_partition_offset(1, Some("junk")), None);
    assert_eq!(read_partition_offset(1, Some("0xff")), Some(255));
}

#[test]
fn names_device_files() {
    assert_eq!(block_device(12), "/dev/mtdblock12");
    assert_eq!(offset_path(3), "/sys/class/mtd/mtd3/offset");
    assert_eq!(device(4, 0x20000, 0x20000, Some(0)).write_target(), "/dev/mtdblock4");
}

#[test]
fn refuses_devices_without_geometry() {
    for (write_size, erase_size) in [(0u32, 0x20000u32), (2048, 0), (0, 0)] {
        let files = OpenedFiles { handle: 0, write_size, erase_size };
        let error = MtdDevice::open(partition(0, 1, 1, None), files).unwrap_err();
        assert_eq!(error.kind, MtdErrorKind::InvalidData);
        assert_eq!(error.message, "MTD reported invalid page or eraseblock geometry");
    }
    let opened = device(9, 0x40000, 0x20000, Some(5));
    assert_eq!((opened.handle, opened.write_size, opened.erase_size), (9, 2048, 0x20000));
    assert_eq!(opened.partition.index, 9);
}

#[test]
fn collects_the_devices_that_can_be_written() {
    let partitions = vec![
        partition(0, 1, 1, Some(0)),
        partition(1, 1, 1, None),
        partition(2, 1, 1, Some(2)),
        partition(3, 1, 1, Some(3)),
        partition(4, 1, 1, Some(4)),
    ];
    let files = |handle: usize, erase_size: u32| Some(OpenedFiles { handle, write_size: 1, erase_size });
    let opened = vec![files(0, 1), files(1, 1), None, files(3, 0), files(4, 7)];
    let devices = open_writable_devices(&partitions, &opened);
    let seen: Vec<(u32, usize, u64)> =
        devices.iter().map(|d| (d.partition.index, d.handle, d.erase_size)).collect();
    assert_eq!(seen, vec![(0, 0, 1), (4, 4, 7)]);
    assert!(is_placed(&partitions[0]));
    assert!(!is_placed(&partitions[1]));
}

#[test]
fn finds_the_boot_partition() {
    assert!(find_boot_partition(&[]).is_none());
    let partitions = vec![
        partition(5, 0x20000, 0x20000, Some(0)),
        partition(2, 0x1000, 0x20000, Some(0)),
        partition(3, 0x40000, 0x20000, Some(0)),
        partition(1, 0x40000, 0x20000, Some(0x20000)),
        partition(0, 0x40000, 0x20000, None),
    ];
    assert_eq!(find_boot_partition(&partitions).unwrap().index, 3);
    assert!(find_boot_partition(&partitions[3..]).is_none());
}

#[test]
fn finds_the_boot_device() {
    assert_eq!(find_boot_device(&[]), None);
    let devices = vec![
        device(5, 0x20000, 0x20000, Some(0)),
        device(2, 0x20000, 0x40000, Some(0)),
        device(3, 0x40000, 0x40000, Some(0)),
        device(3, 0x80000, 0x20000, Some(0)),
        device(1, 0x40000, 0x20000, Some(0x20000)),
    ];
    assert_eq!(find_boot_device(&devices), Some(2));
    assert_eq!(find_boot_device(&devices[4..]), None);
}

#[test]
fn puts_requests_together() {
    // MEMGETINFO and MEMGETBADBLOCK, as the kernel headers define them.
    assert_eq!(geometry_request(32), 0x8020_4d01);
    assert_eq!(bad_block_request(8), 0x4008_4d0b);
    assert_eq!(ioctl_number(IOC_READ, 1, 32), 0x8020_4d01);
    assert_eq!(ioctl_number(IOC_WRITE, 11, 8), 0x4008_4d0b);
    assert_eq!(ioctl_number(0, 0, 0), 0x4d00);
}

#[test]
fn reads_the_bad_block_reply() {
    let device = device(0, 0x20000, 0x20000, Some(0));
    assert_eq!(device.is_bad(0), Ok(false));
    assert_eq!(device.is_bad(1), Ok(true));
    assert_eq!(device.is_bad(2), Ok(false));
    assert_eq!(device.is_bad(-1), Err(MtdErrorKind::Device));
}
