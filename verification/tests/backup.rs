use an758x_stock2ubi::backup::{
    backup_filename, download_headers, no_store, open_failure, select_backup,
};
use an758x_stock2ubi::mtd::Partition;
use an758x_stock2ubi::reply::Status;

fn partition(index: u32, name: &str, size: u64) -> Partition {
    Partition {
        index,
        name: name.to_string(),
        size,
        erase_size: 0x20000,
        offset: None,
        path: format!("/dev/mtd{index}"),
    }
}

#[test]
fn selects_the_partition_of_that_index() {
    let partitions = || vec![partition(0, "a", 1), partition(7, "b", 2), partition(7, "c", 3)];
    assert_eq!(select_backup(Ok(partitions()), 7).unwrap().name, "b");
    let missing = select_backup(Ok(partitions()), 1).unwrap_err();
    assert_eq!(missing.status, Status::NotFound);
    assert_eq!(missing.message, "MTD partition not found");
    let unread = select_backup(Err("No such file".to_string()), 7).unwrap_err();
    assert_eq!(unread.status, Status::InternalServerError);
    assert_eq!(unread.message, "Reading the MTD partition table failed: No such file");
}

#[test]
fn says_why_a_partition_was_not_opened() {
    let reply = open_failure(&partition(4, "x", 1), "Permission denied");
    assert_eq!(reply.status, Status::InternalServerError);
    assert_eq!(reply.message, "Opening /dev/mtd4 failed: Permission denied");
}

#[test]
fn names_files_without_special_characters() {
    assert_eq!(backup_filename(&partition(3, "rootfs", 1)), "mtd3-rootfs.bin");
    assert_eq!(
        backup_filename(&partition(12, "a b/\"c\"\u{e9}.D-9_", 1)),
        "mtd12-a_b__c__.D-9_.bin"
    );
    assert_eq!(backup_filename(&partition(0, "", 1)), "mtd0-.bin");
}

#[test]
fn makes_the_headers_of_a_download() {
    let headers = download_headers(&partition(3, "root\nfs\u{1f600}", 62_906_164));
    assert_eq!(headers.content_type.as_bytes(), b"application/octet-stream");
    assert_eq!(headers.content_length.as_bytes(), b"62906164");
    assert_eq!(
        headers.content_disposition.as_bytes(),
        b"attachment; filename=\"mtd3-root_fs_.bin\""
    );
    assert_eq!(no_store().as_bytes(), b"no-store");
}
