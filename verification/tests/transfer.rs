use an758x_stock2ubi::mtd::{MtdDevice, MtdError, MtdErrorKind, OpenedFiles, Partition};
use an758x_stock2ubi::transfer::{EraseblockStep, EraseblockWrite, ReadTransfer, WriteTransfer};

fn device(erase_size: u32) -> MtdDevice {
    let partition = Partition {
        index: 0,
        name: String::new(),
        size: 0x1000,
        erase_size: erase_size as u64,
        offset: Some(0),
        path: String::new(),
    };
    MtdDevice::open(partition, OpenedFiles { handle: 0, write_size: 1, erase_size }).unwrap()
}

fn broken() -> MtdError {
    MtdError { kind: MtdErrorKind::Device, message: "Input/output error".to_string() }
}

#[test]
fn a_read_takes_what_comes() {
    let content: Vec<u8> = (0..64).collect();
    let mut read = device(16).read_exact_at(10, 20);
    let mut counts = [7usize, 1, 100].iter();
    while let Some((count, position)) = read.pending() {
        let count = count.min(*counts.next().unwrap());
        let at = position as usize;
        read.accept(&content[at..at + count]).unwrap();
    }
    assert_eq!(read.finish(), content[10..30].to_vec());
    assert!(ReadTransfer::start(5, 0).pending().is_none());
}

#[test]
fn a_read_that_ends_early_fails() {
    let mut read = ReadTransfer::start(0, 4);
    read.accept(&[1, 2]).unwrap();
    assert_eq!(read.pending(), Some((2, 2)));
    let error = read.accept(&[]).unwrap_err();
    assert_eq!(error.kind, MtdErrorKind::UnexpectedEof);
    assert_eq!(error.message, "MTD read ended early");
}

#[test]
fn a_write_gives_what_is_left() {
    let data = [1u8, 2, 3, 4, 5];
    let mut stored = vec![0u8; 10];
    let mut write = WriteTransfer::start(3, &data);
    while let Some((rest, position)) = write.pending() {
        let count = rest.len().min(2);
        let at = position as usize;
        stored[at..at + count].copy_from_slice(&rest[..count]);
        write.accept(count).unwrap();
    }
    assert_eq!(stored, vec![0, 0, 0, 1, 2, 3, 4, 5, 0, 0]);
    let mut stuck = WriteTransfer::start(0, &data);
    let error = stuck.accept(0).unwrap_err();
    assert_eq!(error.kind, MtdErrorKind::WriteZero);
    assert_eq!(error.message, "MTD write returned zero bytes");
}

/// Runs the write of an eraseblock against a device that moves three bytes at a
/// time and reads back what `spoil` makes of what it holds.
fn run(mut write: EraseblockWrite, spoil: fn(&mut Vec<u8>)) -> Result<Vec<u8>, MtdError> {
    let mut stored = vec![0xffu8; 64];
    let mut flushes = 0;
    loop {
        match write.step() {
            EraseblockStep::Write(rest, position) => {
                let count = rest.len().min(3);
                let at = position as usize;
                stored[at..at + count].copy_from_slice(&rest[..count]);
                write.wrote(Ok(count))?;
            }
            EraseblockStep::Flush => {
                flushes += 1;
                spoil(&mut stored);
                write.flush_done(Ok(()))?;
            }
            EraseblockStep::Read(count, position) => {
                let at = position as usize;
                write.read_back(Ok(&stored[at..at + count.min(3)]))?;
            }
            EraseblockStep::Finish => {
                assert_eq!(flushes, 1);
                write.finish()?;
                return Ok(stored);
            }
        }
    }
}

#[test]
fn an_eraseblock_is_written_committed_and_read_back() {
    let data: Vec<u8> = (0..16).collect();
    let write = device(16).write_eraseblock(32, &data).unwrap();
    let stored = run(write, |_| {}).unwrap();
    assert_eq!(&stored[32..48], &data[..]);
    assert!(stored[..32].iter().chain(&stored[48..]).all(|byte| *byte == 0xff));
}

#[test]
fn a_readback_that_differs_fails() {
    let data: Vec<u8> = (0..16).collect();
    let write = device(16).write_eraseblock(32, &data).unwrap();
    let error = run(write, |stored| stored[47] = 0).unwrap_err();
    assert_eq!(error.kind, MtdErrorKind::InvalidData);
    assert_eq!(error.message, "MTD readback differs from the written data");
}

#[test]
fn an_eraseblock_of_another_length_is_refused() {
    let error = device(16).write_eraseblock(0, &[0; 15]).unwrap_err();
    assert_eq!(error.kind, MtdErrorKind::InvalidInput);
    assert_eq!(error.message, "Write length does not match the eraseblock size");
}

#[test]
fn each_step_names_its_failure() {
    let data = [7u8; 4];
    let mut write = device(4).write_eraseblock(0x20, &data).unwrap();
    let refused = write.wrote(Err(broken())).unwrap_err();
    assert_eq!(refused.kind, MtdErrorKind::Device);
    assert_eq!(refused.message, "mtdblock write at offset 0x20 failed: Input/output error");
    let nothing = write.wrote(Ok(0)).unwrap_err();
    assert_eq!(nothing.kind, MtdErrorKind::WriteZero);
    assert_eq!(
        nothing.message,
        "mtdblock write at offset 0x20 failed: MTD write returned zero bytes"
    );
    write.wrote(Ok(4)).unwrap();
    let unflushed = write.flush_done(Err(broken())).unwrap_err();
    assert_eq!(unflushed.message, "mtdblock flush at offset 0x20 failed: Input/output error");
    write.flush_done(Ok(())).unwrap();
    let unread = write.read_back(Err(broken())).unwrap_err();
    assert_eq!(
        unread.message,
        "Readback at partition offset 0x20 failed: Input/output error"
    );
    let short = write.read_back(Ok(&[])).unwrap_err();
    assert_eq!(short.kind, MtdErrorKind::UnexpectedEof);
    assert_eq!(
        short.message,
        "Readback at partition offset 0x20 failed: MTD read ended early"
    );
    write.read_back(Ok(&data)).unwrap();
    assert!(matches!(write.step(), EraseblockStep::Finish));
    write.finish().unwrap();
}
