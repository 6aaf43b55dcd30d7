//! MTD partitions and devices: reading the partition table, opening what can be
//! written, and choosing the boot device.
use vstd::prelude::*;
use vstd::slice::slice_subrange;

use crate::number;
use crate::number::{parse_number, parse_unsigned, push_decimal};
use crate::text;
use crate::text::{find, split_field, split_line, strip_prefix, to_chars, to_text, trim_matches};

verus! {

// ---------------------------------------------------------------------------
// Partitions
// ---------------------------------------------------------------------------

#[derive(Debug)]
pub struct Partition {
    pub index: u32,
    pub name: String,
    pub size: u64,
    pub erase_size: u64,
    pub offset: Option<u64>,
    pub path: String,
}

/// What a partition is: its texts as sequences of characters.
pub struct PartitionModel {
    pub index: u32,
    pub name: Seq<char>,
    pub size: u64,
    pub erase_size: u64,
    pub offset: Option<u64>,
    pub path: Seq<char>,
}

impl View for Partition {
    type V = PartitionModel;

    open spec fn view(&self) -> PartitionModel {
        PartitionModel {
            index: self.index,
            name: self.name@,
            size: self.size,
            erase_size: self.erase_size,
            offset: self.offset,
            path: self.path@,
        }
    }
}

impl Clone for Partition {
    fn clone(&self) -> (copy: Self)
        ensures
            copy == *self,
    {
        Partition {
            index: self.index,
            name: self.name.clone(),
            size: self.size,
            erase_size: self.erase_size,
            offset: self.offset,
            path: self.path.clone(),
        }
    }
}

/// The models of a row of partitions.
pub open spec fn models(partitions: Seq<Partition>) -> Seq<PartitionModel> {
    partitions.map_values(|partition: Partition| partition@)
}

/// The character device of an MTD.
pub open spec fn raw_path(index: int) -> Seq<char> {
    "/dev/mtd"@ + number::decimal(index as nat)
}

/// The block device of an MTD.
pub open spec fn block_path(index: int) -> Seq<char> {
    "/dev/mtdblock"@ + number::decimal(index as nat)
}

/// The sysfs attribute that holds the physical offset of an MTD.
pub open spec fn offset_attribute(index: int) -> Seq<char> {
    "/sys/class/mtd/mtd"@ + number::decimal(index as nat) + "/offset"@
}

fn raw_device(index: u32) -> (path: String)
    ensures
        path@ == raw_path(index as int),
{
    let mut path = "/dev/mtd".to_string();
    push_decimal(&mut path, index as u64);
    path
}

/// Names the block device of an MTD.
pub fn block_device(index: u32) -> (path: String)
    ensures
        path@ == block_path(index as int),
{
    let mut path = "/dev/mtdblock".to_string();
    push_decimal(&mut path, index as u64);
    path
}

/// Names the sysfs attribute that holds the physical offset of an MTD.
pub fn offset_path(index: u32) -> (path: String)
    ensures
        path@ == offset_attribute(index as int),
{
    let mut path = "/sys/class/mtd/mtd".to_string();
    push_decimal(&mut path, index as u64);
    path.append("/offset");
    path
}

// ---------------------------------------------------------------------------
// The partition table
// ---------------------------------------------------------------------------

/// Fields with one blank between each two.
pub open spec fn joined(fields: Seq<Seq<char>>) -> Seq<char>
    decreases fields.len(),
{
    if fields.len() == 0 {
        Seq::empty()
    } else if fields.len() == 1 {
        fields[0]
    } else {
        joined(fields.drop_last()).push(' ') + fields.last()
    }
}

/// The partition that a line of `/proc/mtd` describes: `mtd`, its index, a
/// colon, its size and its eraseblock size in hexadecimal, and its name in
/// quotes.
pub open spec fn line_partition(line: Seq<char>) -> Option<PartitionModel> {
    let colon = text::position(line, ':');
    let fields = text::fields(line.skip(colon as int + 1));
    if colon >= line.len() {
        None
    } else {
        match text::without_prefix(line.take(colon as int), "mtd"@) {
            None => None,
            Some(digits) => match number::number_value(digits, 10, u32::MAX as nat) {
                None => None,
                Some(index) => if fields.len() < 2 {
                    None
                } else {
                    match (
                        number::number_value(fields[0], 16, u64::MAX as nat),
                        number::number_value(fields[1], 16, u64::MAX as nat),
                    ) {
                        (Some(size), Some(erase_size)) => Some(
                            PartitionModel {
                                index: index as u32,
                                name: text::unquoted(joined(fields.skip(2)), '"'),
                                size: size as u64,
                                erase_size: erase_size as u64,
                                offset: None,
                                path: raw_path(index as int),
                            },
                        ),
                        _ => None,
                    }
                },
            },
        }
    }
}

/// The partitions that lines describe; a line that describes none is left out.
pub open spec fn line_partitions(lines: Seq<Seq<char>>) -> Seq<PartitionModel>
    decreases lines.len(),
{
    if lines.len() == 0 {
        Seq::empty()
    } else {
        (match line_partition(lines[0]) {
            Some(partition) => seq![partition],
            None => Seq::empty(),
        }) + line_partitions(lines.drop_first())
    }
}

/// The partitions that `/proc/mtd` lists below its heading.
pub open spec fn listed_partitions(proc_mtd: Seq<char>) -> Seq<PartitionModel> {
    let lines = text::lines(proc_mtd);
    if lines.len() == 0 {
        Seq::empty()
    } else {
        line_partitions(lines.drop_first())
    }
}

/// Joins the fields of `rest` with one blank between each two.
fn join_fields(rest: &[char]) -> (name: Vec<char>)
    ensures
        name@ == joined(text::fields(rest@)),
{
    let ghost all = text::fields(rest@);
    let mut name: Vec<char> = Vec::new();
    let mut left = rest;
    let mut first = true;
    let ghost mut done: int = 0;
    assert(all.take(0) =~= Seq::<Seq<char>>::empty());
    assert(all.skip(0) =~= all);
    loop
        invariant
            0 <= done <= all.len(),
            text::fields(left@) == all.skip(done),
            name@ == joined(all.take(done)),
            first == (done == 0),
        ensures
            name@ == joined(all),
        decreases left@.len(),
    {
        match split_field(left) {
            None => {
                assert(all.skip(done).len() == 0);
                assert(all.take(done) =~= all);
                break;
            },
            Some((field, rest_fields)) => {
                let ghost upto = all.take(done + 1);
                proof {
                    assert(all.skip(done) == seq![field@] + text::fields(rest_fields@));
                    assert(all.skip(done).len() > 0);
                    assert(all[done] == all.skip(done)[0]);
                    assert(all.skip(done).drop_first() =~= all.skip(done + 1));
                    assert(text::fields(rest_fields@) =~= all.skip(done).drop_first());
                    assert(upto.drop_last() =~= all.take(done));
                    assert(upto.last() == field@);
                }
                if !first {
                    name.push(' ');
                }
                let ghost before = name@;
                name.extend_from_slice(field);
                assert(name@ =~= before + field@);
                assert(name@ =~= joined(upto));
                first = false;
                left = rest_fields;
                proof {
                    done = done + 1;
                }
            },
        }
    }
    name
}

/// Reads a line of `/proc/mtd`.
fn parse_line(line: &[char]) -> (partition: Option<Partition>)
    ensures
        match partition {
            Some(p) => line_partition(line@) == Some(p@),
            None => line_partition(line@) is None,
        },
{
    let colon = find(line, ':');
    if colon >= line.len() {
        return None;
    }
    let device = slice_subrange(line, 0, colon);
    let rest = slice_subrange(line, colon + 1, line.len());
    assert(device@ =~= line@.take(colon as int));
    assert(rest@ =~= line@.skip(colon + 1));
    let ghost all = text::fields(rest@);
    let digits = match strip_prefix(device, "mtd") {
        Some(digits) => digits,
        None => {
            return None;
        },
    };
    let index: u32 = match parse_unsigned(digits, 10, u32::MAX as u64) {
        Some(index) => index as u32,
        None => {
            return None;
        },
    };
    let (size_field, after_size) = match split_field(rest) {
        Some(parts) => parts,
        None => {
            return None;
        },
    };
    let (erase_field, after_erase) = match split_field(after_size) {
        Some(parts) => parts,
        None => {
            assert(all.len() == 1);
            return None;
        },
    };
    assert(all.len() >= 2 && all[0] == size_field@ && all[1] == erase_field@);
    assert(all.skip(2) =~= text::fields(after_erase@));
    let size = match parse_unsigned(size_field, 16, u64::MAX) {
        Some(size) => size,
        None => {
            return None;
        },
    };
    let erase_size = match parse_unsigned(erase_field, 16, u64::MAX) {
        Some(erase_size) => erase_size,
        None => {
            return None;
        },
    };
    let quoted = join_fields(after_erase);
    let name = to_text(trim_matches(&quoted, '"'));
    Some(Partition { index, name, size, erase_size, offset: None, path: raw_device(index) })
}

/// Reads the partitions that `/proc/mtd` lists, whose offsets are not known yet.
pub fn list_partitions(proc_mtd: &str) -> (partitions: Vec<Partition>)
    ensures
        models(partitions@) == listed_partitions(proc_mtd@),
{
    let chars = to_chars(proc_mtd);
    let mut partitions: Vec<Partition> = Vec::new();
    assert(models(partitions@) =~= Seq::<PartitionModel>::empty());
    if chars.len() == 0 {
        return partitions;
    }
    let (heading, body) = split_line(&chars);
    let mut left = body;
    assert(text::lines(chars@).drop_first() =~= text::lines(left@));
    while left.len() > 0
        invariant
            models(partitions@) + line_partitions(text::lines(left@)) == listed_partitions(
                proc_mtd@,
            ),
        decreases left@.len(),
    {
        let ghost all = text::lines(left@);
        let ghost before = models(partitions@);
        let (line, rest) = split_line(left);
        assert(all.drop_first() =~= text::lines(rest@));
        match parse_line(line) {
            Some(partition) => {
                partitions.push(partition);
                assert(models(partitions@) =~= before + seq![partition@]);
            },
            None => {},
        }
        assert(models(partitions@) + line_partitions(text::lines(rest@)) =~= before
            + line_partitions(all));
        left = rest;
    }
    assert(models(partitions@) + line_partitions(text::lines(left@)) =~= models(partitions@));
    partitions
}

// ---------------------------------------------------------------------------
// Offsets and order
// ---------------------------------------------------------------------------

/// The physical offset of an MTD, from what its sysfs attribute holds, if it
/// could be read. The first MTD starts at zero where nothing else is known.
pub open spec fn known_offset(index: int, attribute: Option<Seq<char>>) -> Option<nat> {
    let read = match attribute {
        Some(value) => number::attribute_value(value),
        None => None,
    };
    match read {
        Some(offset) => Some(offset),
        None => if index == 0 {
            Some(0)
        } else {
            None
        },
    }
}

/// Finds the physical offset of an MTD from what its sysfs attribute holds.
pub fn read_partition_offset(index: u32, attribute: Option<&str>) -> (offset: Option<u64>)
    ensures
        match offset {
            Some(value) => known_offset(
                index as int,
                match attribute {
                    Some(s) => Some(s@),
                    None => None,
                },
            ) == Some(value as nat),
            None => known_offset(
                index as int,
                match attribute {
                    Some(s) => Some(s@),
                    None => None,
                },
            ) is None,
        },
{
    let read = match attribute {
        Some(value) => parse_number(value),
        None => None,
    };
    match read {
        Some(offset) => Some(offset),
        None => if index == 0 {
            Some(0)
        } else {
            None
        },
    }
}

/// What the attribute of the partition at `i` holds, if it could be read.
pub open spec fn attribute_at(attributes: Seq<Option<String>>, i: int) -> Option<Seq<char>> {
    match attributes[i] {
        Some(value) => Some(value@),
        None => None,
    }
}

/// A partition at its physical offset.
pub open spec fn located(partition: PartitionModel, attribute: Option<Seq<char>>) -> PartitionModel {
    PartitionModel {
        offset: match known_offset(partition.index as int, attribute) {
            Some(offset) => Some(offset as u64),
            None => None,
        },
        ..partition
    }
}

/// `list` with `item` behind every item whose index is no larger than its own
/// and before the others, for a `list` in the order of the indices.
pub open spec fn inserted(list: Seq<PartitionModel>, item: PartitionModel) -> Seq<PartitionModel>
    decreases list.len(),
{
    if list.len() > 0 && list.last().index > item.index {
        inserted(list.drop_last(), item).push(list.last())
    } else {
        list.push(item)
    }
}

/// Partitions in the order of their indices; equal indices keep their order.
pub open spec fn ordered(list: Seq<PartitionModel>) -> Seq<PartitionModel>
    decreases list.len(),
{
    if list.len() == 0 {
        list
    } else {
        inserted(ordered(list.drop_last()), list.last())
    }
}

/// Listed partitions at their offsets.
pub open spec fn all_located(list: Seq<PartitionModel>, attributes: Seq<Option<String>>) -> Seq<
    PartitionModel,
> {
    Seq::new(list.len(), |i: int| located(list[i], attribute_at(attributes, i)))
}

proof fn lemma_inserted_at(list: Seq<PartitionModel>, item: PartitionModel, at: int)
    requires
        0 <= at <= list.len(),
        at == 0 || list[at - 1].index <= item.index,
        forall|j: int| at <= j < list.len() ==> (#[trigger] list[j]).index > item.index,
    ensures
        inserted(list, item) == list.insert(at, item),
    decreases list.len() - at,
{
    if at == list.len() {
        assert(list.push(item) =~= list.insert(at, item));
    } else {
        lemma_inserted_at(list.drop_last(), item, at);
        assert(list.drop_last().insert(at, item).push(list.last()) =~= list.insert(at, item));
    }
}

/// Puts a partition in its place among ordered ones.
fn insert_by_index(partitions: &mut Vec<Partition>, item: Partition)
    ensures
        models(final(partitions)@) == inserted(models(old(partitions)@), item@),
{
    let ghost before = partitions@;
    let mut at: usize = partitions.len();
    while at > 0 && partitions[at - 1].index > item.index
        invariant
            at <= partitions.len(),
            partitions@ == before,
            forall|j: int| at <= j < before.len() ==> (#[trigger] before[j]).index > item.index,
        decreases at,
    {
        at -= 1;
    }
    proof {
        assert forall|j: int| at <= j < models(before).len() implies (#[trigger] models(
            before,
        )[j]).index > item@.index by {
            assert(before[j].index > item.index);
        }
        lemma_inserted_at(models(before), item@, at as int);
        assert(models(before.insert(at as int, item)) =~= models(before).insert(at as int, item@));
    }
    partitions.insert(at, item);
}

/// Combine `/proc/mtd` geometry with sysfs offsets on a shared NAND address
/// axis. What could be read of each partition's offset attribute stands in
/// `attributes`, in the order of the list.
pub fn discover_partitions(listed: Vec<Partition>, attributes: &Vec<Option<String>>) -> (partitions:
    Vec<Partition>)
    requires
        attributes@.len() == listed@.len(),
    ensures
        models(partitions@) == ordered(all_located(models(listed@), attributes@)),
{
    let mut partitions: Vec<Partition> = Vec::new();
    let ghost all = all_located(models(listed@), attributes@);
    assert(all.take(0) =~= Seq::<PartitionModel>::empty());
    assert(models(partitions@) =~= all.take(0));
    for i in 0..listed.len()
        invariant
            attributes@.len() == listed@.len(),
            all == all_located(models(listed@), attributes@),
            models(partitions@) == ordered(all.take(i as int)),
    {
        let mut partition = listed[i].clone();
        let attribute = match &attributes[i] {
            Some(value) => Some(value.as_str()),
            None => None,
        };
        partition.offset = read_partition_offset(partition.index, attribute);
        assert(partition@ == all[i as int]);
        assert(all.take(i + 1).drop_last() =~= all.take(i as int));
        insert_by_index(&mut partitions, partition);
    }
    assert(all.take(listed@.len() as int) =~= all);
    partitions
}

// ---------------------------------------------------------------------------
// Devices
// ---------------------------------------------------------------------------

/// The kind of a failure, as the standard library sorts input and output errors.
#[derive(Debug, Clone, Copy, PartialEq, Eq, Structural)]
pub enum MtdErrorKind {
    InvalidData,
    InvalidInput,
    NotFound,
    UnexpectedEof,
    WriteZero,
    /// The kind of the device's own failure.
    Device,
}

/// A failure: its kind and what there is to say of it.
#[derive(Debug)]
pub struct MtdError {
    pub kind: MtdErrorKind,
    pub message: String,
}

/// What an error is: its text as a sequence of characters.
pub struct Failure {
    pub kind: MtdErrorKind,
    pub message: Seq<char>,
}

impl View for MtdError {
    type V = Failure;

    open spec fn view(&self) -> Failure {
        Failure { kind: self.kind, message: self.message@ }
    }
}

/// A device that was opened: its partition, where its open files are to be
/// found, and the page and eraseblock sizes that it reported.
#[derive(Debug)]
pub struct MtdDevice {
    pub partition: Partition,
    pub handle: usize,
    pub write_size: u64,
    pub erase_size: u64,
}

/// What opening a partition's device files gave: where they are to be found, and
/// the sizes that the device reported.
#[derive(Debug, Clone, Copy)]
pub struct OpenedFiles {
    pub handle: usize,
    pub write_size: u32,
    pub erase_size: u32,
}

/// The device of a partition whose files were opened.
pub open spec fn device_of(partition: Partition, files: OpenedFiles) -> MtdDevice {
    MtdDevice {
        partition,
        handle: files.handle,
        write_size: files.write_size as u64,
        erase_size: files.erase_size as u64,
    }
}

/// The sizes that the device reported can be worked with.
pub open spec fn sizes_valid(files: OpenedFiles) -> bool {
    files.erase_size != 0 && files.write_size != 0
}

impl MtdDevice {
    pub fn open(partition: Partition, files: OpenedFiles) -> (result: Result<Self, MtdError>)
        ensures
            match result {
                Ok(device) => sizes_valid(files) && device == device_of(partition, files),
                Err(error) => {
                    &&& !sizes_valid(files)
                    &&& error@.kind == MtdErrorKind::InvalidData
                    &&& error@.message == "MTD reported invalid page or eraseblock geometry"@
                },
            },
    {
        if files.erase_size == 0 || files.write_size == 0 {
            return Err(
                MtdError {
                    kind: MtdErrorKind::InvalidData,
                    message: "MTD reported invalid page or eraseblock geometry".to_string(),
                },
            );
        }
        Ok(
            MtdDevice {
                partition,
                handle: files.handle,
                write_size: files.write_size as u64,
                erase_size: files.erase_size as u64,
            },
        )
    }

    pub fn write_target(&self) -> (path: String)
        ensures
            path@ == block_path(self.partition.index as int),
    {
        block_device(self.partition.index)
    }
}

/// Whether a partition's device can be written: its physical place is known.
pub fn is_placed(partition: &Partition) -> (placed: bool)
    ensures
        placed == (partition.offset is Some),
{
    partition.offset.is_some()
}

/// The devices among the first `n` partitions that can be written: those whose
/// place is known, whose files could be opened and whose sizes are valid.
pub open spec fn writable_devices(
    partitions: Seq<Partition>,
    opened: Seq<Option<OpenedFiles>>,
    n: nat,
) -> Seq<MtdDevice>
    decreases n,
{
    if n == 0 {
        Seq::empty()
    } else {
        let before = writable_devices(partitions, opened, (n - 1) as nat);
        let partition = partitions[n - 1];
        match opened[n - 1] {
            Some(files) => if partition.offset is Some && sizes_valid(files) {
                before.push(device_of(partition, files))
            } else {
                before
            },
            None => before,
        }
    }
}

/// Collects the devices that can be written. What opening each partition's files
/// gave, if they could be opened, stands in `opened`.
pub fn open_writable_devices(partitions: &[Partition], opened: &[Option<OpenedFiles>]) -> (devices:
    Vec<MtdDevice>)
    requires
        opened@.len() == partitions@.len(),
    ensures
        devices@ == writable_devices(partitions@, opened@, partitions@.len()),
{
    let mut devices: Vec<MtdDevice> = Vec::new();
    for i in 0..partitions.len()
        invariant
            opened@.len() == partitions@.len(),
            devices@ == writable_devices(partitions@, opened@, i as nat),
    {
        if is_placed(&partitions[i]) {
            if let Some(files) = opened[i] {
                if let Ok(device) = MtdDevice::open(partitions[i].clone(), files) {
                    devices.push(device);
                }
            }
        }
    }
    devices
}

// ---------------------------------------------------------------------------
// The boot device
// ---------------------------------------------------------------------------

/// A partition that holds the first eraseblock.
pub open spec fn holds_first_block(partition: Partition) -> bool {
    partition.offset == Some(0u64) && partition.size >= partition.erase_size
}

/// The partition at `i` is the one to boot from: of those that hold the first
/// eraseblock it has the lowest index, and is the first with that index.
pub open spec fn is_boot_partition(partitions: Seq<Partition>, i: int) -> bool {
    &&& 0 <= i < partitions.len()
    &&& holds_first_block(partitions[i])
    &&& forall|j: int|
        0 <= j < partitions.len() && holds_first_block(#[trigger] partitions[j]) ==> {
            ||| partitions[i].index < partitions[j].index
            ||| partitions[i].index == partitions[j].index && i <= j
        }
}

pub fn find_boot_partition(partitions: &[Partition]) -> (found: Option<&Partition>)
    ensures
        match found {
            Some(partition) => exists|i: int|
                #[trigger] is_boot_partition(partitions@, i) && partitions@[i] == *partition,
            None => forall|i: int|
                0 <= i < partitions@.len() ==> !holds_first_block(#[trigger] partitions@[i]),
        },
{
    let mut best: Option<usize> = None;
    for i in 0..partitions.len()
        invariant
            match best {
                Some(b) => {
                    &&& b < i
                    &&& holds_first_block(partitions@[b as int])
                    &&& forall|j: int|
                        0 <= j < i && holds_first_block(#[trigger] partitions@[j]) ==> {
                            ||| partitions@[b as int].index < partitions@[j].index
                            ||| partitions@[b as int].index == partitions@[j].index && b <= j
                        }
                },
                None => forall|j: int|
                    0 <= j < i ==> !holds_first_block(#[trigger] partitions@[j]),
            },
    {
        let partition = &partitions[i];
        let starts_at_zero = match partition.offset {
            Some(offset) => offset == 0,
            None => false,
        };
        if starts_at_zero && partition.size >= partition.erase_size {
            let better = match best {
                Some(b) => partition.index < partitions[b].index,
                None => true,
            };
            if better {
                best = Some(i);
            }
        }
    }
    match best {
        Some(b) => {
            assert(is_boot_partition(partitions@, b as int));
            Some(&partitions[b])
        },
        None => None,
    }
}

/// A device that can write the first eraseblock.
pub open spec fn writes_first_block(device: MtdDevice) -> bool {
    device.partition.offset == Some(0u64) && device.partition.size >= device.erase_size
}

/// The device at `i` is the one to boot from: of those that can write the first
/// eraseblock its partition has the lowest index, and is the first with that index.
pub open spec fn is_boot_device(devices: Seq<MtdDevice>, i: int) -> bool {
    &&& 0 <= i < devices.len()
    &&& writes_first_block(devices[i])
    &&& forall|j: int|
        0 <= j < devices.len() && writes_first_block(#[trigger] devices[j]) ==> {
            ||| devices[i].partition.index < devices[j].partition.index
            ||| devices[i].partition.index == devices[j].partition.index && i <= j
        }
}

/// Prefer the lowest-index partition when multiple devices cover the first PEB.
pub fn find_boot_device(devices: &[MtdDevice]) -> (found: Option<usize>)
    ensures
        match found {
            Some(i) => is_boot_device(devices@, i as int),
            None => forall|i: int|
                0 <= i < devices@.len() ==> !writes_first_block(#[trigger] devices@[i]),
        },
{
    let mut best: Option<usize> = None;
    for i in 0..devices.len()
        invariant
            match best {
                Some(b) => {
                    &&& b < i
                    &&& writes_first_block(devices@[b as int])
                    &&& forall|j: int|
                        0 <= j < i && writes_first_block(#[trigger] devices@[j]) ==> {
                            ||| devices@[b as int].partition.index < devices@[j].partition.index
                            ||| devices@[b as int].partition.index == devices@[j].partition.index
                                && b <= j
                        }
                },
                None => forall|j: int| 0 <= j < i ==> !writes_first_block(#[trigger] devices@[j]),
            },
    {
        let device = &devices[i];
        let starts_at_zero = match device.partition.offset {
            Some(offset) => offset == 0,
            None => false,
        };
        if starts_at_zero && device.partition.size >= device.erase_size {
            let better = match best {
                Some(b) => device.partition.index < devices[b].partition.index,
                None => true,
            };
            if better {
                best = Some(i);
            }
        }
    }
    best
}

/// An eraseblock to write: its device, and where it lies there and on the chip.
#[derive(Debug, Clone, Copy)]
pub struct BlockTarget {
    pub device_index: usize,
    pub relative_offset: u64,
    pub physical_offset: u64,
}

// ---------------------------------------------------------------------------
// Requests to the kernel
// ---------------------------------------------------------------------------

/// The bit at which an ioctl number's type starts.
pub const IOC_TYPESHIFT: u64 = 8;

/// The bit at which an ioctl number's argument size starts.
pub const IOC_SIZESHIFT: u64 = 16;

/// The bit at which an ioctl number's direction starts.
pub const IOC_DIRSHIFT: u64 = 30;

/// The argument is handed to the kernel.
pub const IOC_WRITE: u64 = 1;

/// The argument is filled by the kernel.
pub const IOC_READ: u64 = 2;

/// The type of the MTD requests, the letter M.
pub const MTD_IOC_TYPE: u64 = 0x4d;

/// The number of an MTD request.
pub open spec fn request_number(direction: u64, command: u8, size: usize) -> u64 {
    (direction << IOC_DIRSHIFT) | (MTD_IOC_TYPE << IOC_TYPESHIFT) | (command as u64) | ((
    size as u64) << IOC_SIZESHIFT)
}

/// Puts an MTD ioctl number together. A direction of two bits and a size of
/// fourteen bits do not reach into the other fields.
pub fn ioctl_number(direction: u64, command: u8, size: usize) -> (number: u64)
    ensures
        number == request_number(direction, command, size),
        direction < 4 && size < 0x4000 ==> number == direction * 0x4000_0000 + size * 0x1_0000
            + MTD_IOC_TYPE * 0x100 + command,
{
    let command = command as u64;
    let size = size as u64;
    proof {
        assert(direction < 4 && size < 0x4000 && command < 0x100 ==> (direction << 30u64) | (
        0x4du64 << 8u64) | command | (size << 16u64) == direction * 0x4000_0000 + size * 0x1_0000
            + 0x4du64 * 0x100 + command) by (bit_vector);
    }
    (direction << IOC_DIRSHIFT) | (MTD_IOC_TYPE << IOC_TYPESHIFT) | command | (size
        << IOC_SIZESHIFT)
}

/// The request for a device's geometry; `size` is that of the structure that the
/// kernel fills.
pub fn geometry_request(size: usize) -> (number: u64)
    ensures
        number == request_number(IOC_READ, 1, size),
        size < 0x4000 ==> number == 0x8000_4d01 + size * 0x1_0000,
{
    ioctl_number(IOC_READ, 1, size)
}

/// The request whether an eraseblock is bad; `size` is that of an offset.
pub fn bad_block_request(size: usize) -> (number: u64)
    ensures
        number == request_number(IOC_WRITE, 11, size),
        size < 0x4000 ==> number == 0x4000_4d0b + size * 0x1_0000,
{
    ioctl_number(IOC_WRITE, 11, size)
}

impl MtdDevice {
    /// What the kernel's reply to the bad block request says: a negative one is
    /// the device's failure, and one is a bad eraseblock.
    pub fn is_bad(&self, reply: i32) -> (result: Result<bool, MtdErrorKind>)
        ensures
            match result {
                Ok(bad) => reply >= 0 && bad == (reply == 1),
                Err(kind) => reply < 0 && kind == MtdErrorKind::Device,
            },
    {
        if reply < 0 {
            Err(MtdErrorKind::Device)
        } else {
            Ok(reply == 1)
        }
    }
}

} // verus!
