use an758x_stock2ubi::mtd::{MtdDevice, MtdErrorKind, OpenedFiles, Partition};
use an758x_stock2ubi::search::{
    all_addressable, covering_device, find_earliest_good_run, RunSearch,
};

const BLOCK: u64 = 0x20000;

fn device(index: u32, size: u64, erase_size: u64, offset: Option<u64>) -> MtdDevice {
    let partition = Partition {
        index,
        name: String::new(),
        size,
        erase_size,
        offset,
        path: String::new(),
    };
    let files = OpenedFiles { handle: 0, write_size: 2048, erase_size: erase_size as u32 };
    MtdDevice::open(partition, files).unwrap()
}

/// The first eraseblocks of the chip, then one hole, then two overlapping parts.
fn chip() -> Vec<MtdDevice> {
    vec![
        device(0, 3 * BLOCK, BLOCK, Some(0)),
        device(1, 4 * BLOCK, BLOCK, Some(4 * BLOCK)),
        device(2, 2 * BLOCK, BLOCK, Some(4 * BLOCK)),
        device(3, 8 * BLOCK, BLOCK, None),
    ]
}

fn places(run: &[an758x_stock2ubi::mtd::BlockTarget]) -> Vec<(usize, u64, u64)> {
    run.iter()
        .map(|t| (t.device_index, t.relative_offset / BLOCK, t.physical_offset / BLOCK))
        .collect()
}

#[test]
fn the_largest_and_last_device_covers() {
    let devices = chip();
    assert_eq!(covering_device(&devices, 0, BLOCK), Some(0));
    assert_eq!(covering_device(&devices, 2 * BLOCK, BLOCK), Some(0));
    assert_eq!(covering_device(&devices, 3 * BLOCK, BLOCK), None);
    assert_eq!(covering_device(&devices, 4 * BLOCK, BLOCK), Some(1));
    assert_eq!(covering_device(&devices, 4 * BLOCK + 1, BLOCK), None);
    assert_eq!(covering_device(&devices, 8 * BLOCK, BLOCK), None);
    assert_eq!(covering_device(&devices, 0, 2 * BLOCK), None);
    let equal = vec![
        device(0, BLOCK, BLOCK, Some(0)),
        device(1, BLOCK, BLOCK, Some(0)),
        device(2, BLOCK / 2, BLOCK, Some(0)),
    ];
    assert_eq!(covering_device(&equal, 0, BLOCK), Some(1));
}

#[test]
fn the_earliest_run_wins() {
    let devices = chip();
    let good = vec![Some(false); 7];
    assert_eq!(
        places(&find_earliest_good_run(&devices, 2, BLOCK, &good).unwrap()),
        vec![(0, 1, 1), (0, 2, 2)]
    );
    // The hole at the fourth eraseblock breaks a run of three.
    assert_eq!(
        places(&find_earliest_good_run(&devices, 3, BLOCK, &good).unwrap()),
        vec![(1, 0, 4), (1, 1, 5), (1, 2, 6)]
    );
    assert_eq!(
        places(&find_earliest_good_run(&devices, 4, BLOCK, &good).unwrap()),
        vec![(1, 0, 4), (1, 1, 5), (1, 2, 6), (1, 3, 7)]
    );
}

#[test]
fn bad_and_silent_blocks_break_a_run() {
    let devices = chip();
    let mut answers = vec![Some(false); 7];
    answers[0] = Some(true);
    assert_eq!(
        places(&find_earliest_good_run(&devices, 1, BLOCK, &answers).unwrap()),
        vec![(0, 2, 2)]
    );
    answers[4] = None;
    assert_eq!(
        places(&find_earliest_good_run(&devices, 2, BLOCK, &answers).unwrap()),
        vec![(1, 2, 6), (1, 3, 7)]
    );
    // An eraseblock without an answer is not good either.
    let error = find_earliest_good_run(&devices, 2, BLOCK, &answers[..6]).unwrap_err();
    assert_eq!(error.kind, MtdErrorKind::NotFound);
    assert_eq!(error.message, "No writable range with 2 consecutive good blocks");
}

#[test]
fn says_why_there_is_no_run() {
    let good = vec![Some(false); 20];
    let zero = find_earliest_good_run(&chip(), 0, BLOCK, &good).unwrap_err();
    assert_eq!(zero.kind, MtdErrorKind::InvalidInput);
    assert_eq!(zero.message, "Required PEB count is zero");
    let nowhere = find_earliest_good_run(&chip()[3..], 1, BLOCK, &good).unwrap_err();
    assert_eq!(nowhere.kind, MtdErrorKind::NotFound);
    assert_eq!(nowhere.message, "No writable physical MTD range");
    let long = find_earliest_good_run(&chip(), 5, BLOCK, &good).unwrap_err();
    assert_eq!(long.kind, MtdErrorKind::NotFound);
    assert_eq!(long.message, "No writable range with 5 consecutive good blocks");
    // The first eraseblock of the chip is never used.
    let small = vec![device(0, BLOCK, BLOCK, Some(0))];
    assert!(find_earliest_good_run(&small, 1, BLOCK, &good).is_err());
}

#[test]
fn asks_only_as_far_as_needed() {
    let devices = chip();
    let mut search = RunSearch::start(&devices, 3, BLOCK).unwrap();
    let mut asked = Vec::new();
    while let Some(block) = search.next_query() {
        asked.push(block.physical_offset / BLOCK);
        search.answer(Some(false));
    }
    assert_eq!(asked, vec![1, 2, 4, 5, 6]);
    assert_eq!(
        places(&search.result().unwrap()),
        vec![(1, 0, 4), (1, 1, 5), (1, 2, 6)]
    );
}

#[test]
fn a_search_without_end_is_over_at_the_end_of_the_range() {
    let devices = chip();
    let mut search = RunSearch::start(&devices, 2, BLOCK).unwrap();
    let mut asked = 0;
    while search.next_query().is_some() {
        search.answer(Some(asked % 2 == 0));
        asked += 1;
    }
    assert_eq!(asked, 6);
    assert_eq!(
        search.result().unwrap_err().message,
        "No writable range with 2 consecutive good blocks"
    );
}

#[test]
fn addresses_beyond_64_bits_are_told() {
    assert!(all_addressable(&chip()));
    assert!(all_addressable(&[device(0, u64::MAX, BLOCK, None)]));
    assert!(all_addressable(&[device(0, u64::MAX - 5, BLOCK, Some(5))]));
    assert!(!all_addressable(&[device(0, u64::MAX - 4, BLOCK, Some(5))]));
}
