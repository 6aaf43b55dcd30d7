//! What holds of every partition list and of every device that is written to.
use vstd::prelude::*;

use crate::mtd;
use crate::mtd::{MtdDevice, MtdError, OpenedFiles, Partition, PartitionModel};
use crate::number;
use crate::text;
use crate::text_laws;

verus! {

/// The partitions of a list that have that index, in their order.
pub open spec fn with_index(list: Seq<PartitionModel>, index: u32) -> Seq<PartitionModel>
    decreases list.len(),
{
    if list.len() == 0 {
        list
    } else if list.last().index == index {
        with_index(list.drop_last(), index).push(list.last())
    } else {
        with_index(list.drop_last(), index)
    }
}

/// The indices never go down.
pub open spec fn ascending(list: Seq<PartitionModel>) -> bool {
    forall|i: int, j: int|
        0 <= i < j < list.len() ==> (#[trigger] list[i]).index <= (#[trigger] list[j]).index
}

/// An item put in its place keeps the order, and comes behind its equals.
proof fn lemma_inserted(list: Seq<PartitionModel>, item: PartitionModel, index: u32)
    requires
        ascending(list),
    ensures
        ascending(mtd::inserted(list, item)),
        mtd::inserted(list, item).len() == list.len() + 1,
        mtd::inserted(list, item).to_multiset() == list.to_multiset().insert(item),
        forall|i: int|
            0 <= i <= list.len() ==> {
                ||| (#[trigger] mtd::inserted(list, item)[i]).index <= item.index
                ||| list.len() > 0 && mtd::inserted(list, item)[i].index <= list.last().index
            },
        with_index(mtd::inserted(list, item), index) == if item.index == index {
            with_index(list, index).push(item)
        } else {
            with_index(list, index)
        },
    decreases list.len(),
{
    broadcast use vstd::seq_lib::group_to_multiset_ensures;

    if list.len() > 0 && list.last().index > item.index {
        let before = list.drop_last();
        let last = list.last();
        let placed = mtd::inserted(before, item);
        assert(list =~= before.push(last));
        lemma_inserted(before, item, index);
        assert(placed.push(last).drop_last() =~= placed);
        assert(placed.to_multiset().insert(last) =~= before.to_multiset().insert(last).insert(
            item,
        ));
        if item.index == index {
            assert(last.index != index);
        }
    } else {
        assert(list.push(item).drop_last() =~= list);
    }
}

/// Putting partitions in order loses none and adds none, leaves their indices
/// ascending, and keeps the order of those with the same index.
pub proof fn law_ordered(list: Seq<PartitionModel>, index: u32)
    ensures
        ascending(mtd::ordered(list)),
        mtd::ordered(list).to_multiset() == list.to_multiset(),
        with_index(mtd::ordered(list), index) == with_index(list, index),
    decreases list.len(),
{
    broadcast use vstd::seq_lib::group_to_multiset_ensures;

    if list.len() > 0 {
        law_ordered(list.drop_last(), index);
        lemma_inserted(mtd::ordered(list.drop_last()), list.last(), index);
        assert(list =~= list.drop_last().push(list.last()));
    }
}

/// Every device that is written to has a place on the chip, and sizes that are
/// not zero.
pub proof fn law_writable_devices(
    partitions: Seq<Partition>,
    opened: Seq<Option<OpenedFiles>>,
    n: nat,
    i: int,
)
    requires
        0 <= i < mtd::writable_devices(partitions, opened, n).len(),
    ensures
        ({
            let device = mtd::writable_devices(partitions, opened, n)[i];
            &&& device.partition.offset is Some
            &&& device.erase_size > 0
            &&& device.write_size > 0
        }),
    decreases n,
{
    if n > 0 {
        let before = mtd::writable_devices(partitions, opened, (n - 1) as nat);
        if i < before.len() {
            law_writable_devices(partitions, opened, (n - 1) as nat, i);
        }
    }
}

/// The boot device is settled: no other one is as good.
pub proof fn law_boot_device_unique(devices: Seq<MtdDevice>, i: int, j: int)
    requires
        mtd::is_boot_device(devices, i),
        mtd::is_boot_device(devices, j),
    ensures
        i == j,
{
}

/// The boot partition is settled: no other one is as good.
pub proof fn law_boot_partition_unique(partitions: Seq<Partition>, i: int, j: int)
    requires
        mtd::is_boot_partition(partitions, i),
        mtd::is_boot_partition(partitions, j),
    ensures
        i == j,
{
}

// ---------------------------------------------------------------------------
// Devices that are written to
// ---------------------------------------------------------------------------

/// The partition at `i` has a place, its files could be opened, and both sizes
/// that its device reported are not zero.
pub open spec fn can_be_written(
    partitions: Seq<Partition>,
    opened: Seq<Option<OpenedFiles>>,
    i: int,
) -> bool {
    &&& partitions[i].offset is Some
    &&& opened[i] is Some
    &&& opened[i]->0.write_size > 0
    &&& opened[i]->0.erase_size > 0
}

/// How many of the first `n` partitions can be written.
pub open spec fn written_before(
    partitions: Seq<Partition>,
    opened: Seq<Option<OpenedFiles>>,
    n: int,
) -> int
    decreases n,
{
    if n <= 0 {
        0
    } else {
        written_before(partitions, opened, n - 1) + if can_be_written(partitions, opened, n - 1) {
            1int
        } else {
            0
        }
    }
}

proof fn lemma_written_grows(
    partitions: Seq<Partition>,
    opened: Seq<Option<OpenedFiles>>,
    a: int,
    b: int,
)
    requires
        0 <= a <= b,
    ensures
        0 <= written_before(partitions, opened, a) <= written_before(partitions, opened, b),
        written_before(partitions, opened, b) <= b,
    decreases b,
{
    if a < b {
        lemma_written_grows(partitions, opened, a, b - 1);
    } else if b > 0 {
        lemma_written_grows(partitions, opened, b - 1, b - 1);
    }
}

/// Every partition that can be written gives one device, in the order of the
/// partitions: that partition, with its files and with the page and eraseblock
/// sizes that the device itself reported.
pub proof fn law_device_of_each(
    partitions: Seq<Partition>,
    opened: Seq<Option<OpenedFiles>>,
    n: nat,
    i: int,
)
    requires
        0 <= i < n,
        can_be_written(partitions, opened, i),
    ensures
        ({
            let devices = mtd::writable_devices(partitions, opened, n);
            let d = written_before(partitions, opened, i);
            &&& 0 <= d < devices.len()
            &&& devices.len() == written_before(partitions, opened, n as int)
            &&& devices[d].partition == partitions[i]
            &&& devices[d].handle == opened[i]->0.handle
            &&& devices[d].write_size == opened[i]->0.write_size
            &&& devices[d].erase_size == opened[i]->0.erase_size
        }),
    decreases n,
{
    lemma_devices_counted(partitions, opened, n);
    lemma_devices_counted(partitions, opened, (n - 1) as nat);
    lemma_written_grows(partitions, opened, i, n - 1);
    if i < n - 1 {
        lemma_written_grows(partitions, opened, i + 1, n - 1);
        law_device_of_each(partitions, opened, (n - 1) as nat, i);
    }
}

proof fn lemma_devices_counted(
    partitions: Seq<Partition>,
    opened: Seq<Option<OpenedFiles>>,
    n: nat,
)
    ensures
        mtd::writable_devices(partitions, opened, n).len() == written_before(
            partitions,
            opened,
            n as int,
        ),
    decreases n,
{
    if n > 0 {
        lemma_devices_counted(partitions, opened, (n - 1) as nat);
    }
}

/// Every device comes from a partition that can be written, the one in its place.
pub proof fn law_device_from_partition(
    partitions: Seq<Partition>,
    opened: Seq<Option<OpenedFiles>>,
    n: nat,
    d: int,
) -> (i: int)
    requires
        0 <= d < mtd::writable_devices(partitions, opened, n).len(),
    ensures
        0 <= i < n,
        can_be_written(partitions, opened, i),
        written_before(partitions, opened, i) == d,
    decreases n,
{
    lemma_devices_counted(partitions, opened, (n - 1) as nat);
    lemma_devices_counted(partitions, opened, n);
    if d < mtd::writable_devices(partitions, opened, (n - 1) as nat).len() {
        law_device_from_partition(partitions, opened, (n - 1) as nat, d)
    } else {
        n - 1
    }
}

// ---------------------------------------------------------------------------
// The boot device
// ---------------------------------------------------------------------------

/// Where some partition starts at offset zero and has room for an eraseblock, the
/// one to boot from does so too, and has no larger index, and stands no later
/// among those of its index.
pub proof fn law_boot_partition(partitions: Seq<Partition>, i: int)
    requires
        0 <= i < partitions.len(),
        partitions[i].offset == Some(0u64),
        partitions[i].size >= partitions[i].erase_size,
    ensures
        exists|b: int|
            {
                &&& #[trigger] mtd::is_boot_partition(partitions, b)
                &&& 0 <= b < partitions.len()
                &&& partitions[b].offset == Some(0u64)
                &&& partitions[b].size >= partitions[b].erase_size
                &&& partitions[b].index <= partitions[i].index
                &&& partitions[b].index == partitions[i].index ==> b <= i
            },
{
    let b = lemma_boot_partition(partitions, partitions.len() as int, i);
    assert(mtd::holds_first_block(partitions[i]));
    assert(mtd::is_boot_partition(partitions, b));
}

proof fn lemma_boot_partition(partitions: Seq<Partition>, n: int, i: int) -> (b: int)
    requires
        0 <= i < n <= partitions.len(),
        mtd::holds_first_block(partitions[i]),
    ensures
        0 <= b < n,
        mtd::holds_first_block(partitions[b]),
        forall|j: int|
            0 <= j < n && mtd::holds_first_block(#[trigger] partitions[j]) ==> {
                ||| partitions[b].index < partitions[j].index
                ||| partitions[b].index == partitions[j].index && b <= j
            },
    decreases n,
{
    let last = n - 1;
    if exists|j: int| 0 <= j < last && mtd::holds_first_block(#[trigger] partitions[j]) {
        let j = choose|j: int| 0 <= j < last && mtd::holds_first_block(#[trigger] partitions[j]);
        let b = lemma_boot_partition(partitions, last, j);
        if mtd::holds_first_block(partitions[last]) && partitions[last].index
            < partitions[b].index {
            last
        } else {
            b
        }
    } else {
        assert(i == last);
        last
    }
}

/// Where no partition starts at offset zero with room for an eraseblock, there is
/// none to boot from; and none is taken that does not.
pub proof fn law_no_boot_partition(partitions: Seq<Partition>, b: int)
    requires
        mtd::is_boot_partition(partitions, b),
    ensures
        0 <= b < partitions.len(),
        partitions[b].offset == Some(0u64),
        partitions[b].size >= partitions[b].erase_size,
        mtd::holds_first_block(partitions[b]),
        forall|i: int|
            0 <= i < partitions.len() ==> (mtd::holds_first_block(#[trigger] partitions[i]) <==> {
                &&& partitions[i].offset == Some(0u64)
                &&& partitions[i].size >= partitions[i].erase_size
            }),
{
}

/// Where some device starts at offset zero and its partition has room for one of
/// the device's eraseblocks, the one to boot from does so too, and has no larger
/// index, and stands no later among those of its index.
pub proof fn law_boot_device(devices: Seq<MtdDevice>, i: int)
    requires
        0 <= i < devices.len(),
        devices[i].partition.offset == Some(0u64),
        devices[i].partition.size >= devices[i].erase_size,
    ensures
        exists|b: int|
            {
                &&& #[trigger] mtd::is_boot_device(devices, b)
                &&& 0 <= b < devices.len()
                &&& devices[b].partition.offset == Some(0u64)
                &&& devices[b].partition.size >= devices[b].erase_size
                &&& devices[b].partition.index <= devices[i].partition.index
                &&& devices[b].partition.index == devices[i].partition.index ==> b <= i
            },
{
    let b = lemma_boot_device(devices, devices.len() as int, i);
    assert(mtd::writes_first_block(devices[i]));
    assert(mtd::is_boot_device(devices, b));
}

proof fn lemma_boot_device(devices: Seq<MtdDevice>, n: int, i: int) -> (b: int)
    requires
        0 <= i < n <= devices.len(),
        mtd::writes_first_block(devices[i]),
    ensures
        0 <= b < n,
        mtd::writes_first_block(devices[b]),
        forall|j: int|
            0 <= j < n && mtd::writes_first_block(#[trigger] devices[j]) ==> {
                ||| devices[b].partition.index < devices[j].partition.index
                ||| devices[b].partition.index == devices[j].partition.index && b <= j
            },
    decreases n,
{
    let last = n - 1;
    if exists|j: int| 0 <= j < last && mtd::writes_first_block(#[trigger] devices[j]) {
        let j = choose|j: int| 0 <= j < last && mtd::writes_first_block(#[trigger] devices[j]);
        let b = lemma_boot_device(devices, last, j);
        if mtd::writes_first_block(devices[last]) && devices[last].partition.index
            < devices[b].partition.index {
            last
        } else {
            b
        }
    } else {
        assert(i == last);
        last
    }
}

/// What writes the first eraseblock is told by the device's own eraseblock size,
/// and none is taken to boot from that does not write it.
pub proof fn law_no_boot_device(devices: Seq<MtdDevice>, b: int)
    ensures
        mtd::is_boot_device(devices, b) ==> {
            &&& 0 <= b < devices.len()
            &&& devices[b].partition.offset == Some(0u64)
            &&& devices[b].partition.size >= devices[b].erase_size
        },
        forall|i: int|
            0 <= i < devices.len() ==> (mtd::writes_first_block(#[trigger] devices[i]) <==> {
                &&& devices[i].partition.offset == Some(0u64)
                &&& devices[i].partition.size >= devices[i].erase_size
            }),
{
}

// ---------------------------------------------------------------------------
// The partition table
// ---------------------------------------------------------------------------

/// Device files are named by the index in decimal.
pub proof fn law_paths(index: int)
    requires
        index >= 0,
    ensures
        mtd::raw_path(index) == "/dev/mtd"@ + number::digits(index as nat, 10),
        mtd::block_path(index) == "/dev/mtdblock"@ + number::digits(index as nat, 10),
        mtd::offset_attribute(index) == "/sys/class/mtd/mtd"@ + number::digits(index as nat, 10)
            + "/offset"@,
{
}

/// Fields are joined with one blank between each two.
pub proof fn law_joined(fields: Seq<Seq<char>>, field: Seq<char>)
    ensures
        mtd::joined(Seq::empty()) == Seq::<char>::empty(),
        mtd::joined(seq![field]) == field,
        fields.len() > 0 ==> mtd::joined(fields.push(field)) == mtd::joined(fields) + seq![' ']
            + field,
{
    let longer = fields.push(field);
    assert(longer.drop_last() =~= fields);
    if fields.len() > 0 {
        assert(mtd::joined(fields).push(' ') =~= mtd::joined(fields) + seq![' ']);
    }
}

/// A line that starts with `mtd`, an index in decimal and a colon, and goes on with
/// two hexadecimal numbers, describes a partition: of that index and of these sizes,
/// named by the rest of the line without the quotes around it, at a place that is
/// not known yet.
pub proof fn law_partition_line(digits: Seq<char>, rest: Seq<char>)
    requires
        !digits.contains(':'),
        number::number_value(digits, 10, 0xffff_ffff) is Some,
        text::fields(rest).len() >= 2,
        number::number_value(text::fields(rest)[0], 16, 0xffff_ffff_ffff_ffff) is Some,
        number::number_value(text::fields(rest)[1], 16, 0xffff_ffff_ffff_ffff) is Some,
    ensures
        mtd::line_partition("mtd"@ + digits + seq![':'] + rest) matches Some(partition) && {
            &&& number::number_value(digits, 10, 0xffff_ffff) == Some(partition.index as nat)
            &&& number::number_value(text::fields(rest)[0], 16, 0xffff_ffff_ffff_ffff) == Some(
                partition.size as nat,
            )
            &&& number::number_value(text::fields(rest)[1], 16, 0xffff_ffff_ffff_ffff) == Some(
                partition.erase_size as nat,
            )
            &&& partition.name == text::unquoted(mtd::joined(text::fields(rest).skip(2)), '"')
            &&& partition.offset is None
            &&& partition.path == "/dev/mtd"@ + number::digits(partition.index as nat, 10)
        },
{
    lemma_line_parts(digits, rest);
}

proof fn lemma_line_parts(digits: Seq<char>, rest: Seq<char>)
    requires
        !digits.contains(':'),
    ensures
        ({
            let line = "mtd"@ + digits + seq![':'] + rest;
            let colon = text::position(line, ':');
            &&& colon == 3 + digits.len()
            &&& colon < line.len()
            &&& line.take(colon as int) == "mtd"@ + digits
            &&& line.skip(colon as int + 1) == rest
            &&& text::without_prefix(line.take(colon as int), "mtd"@) == Some(digits)
        }),
{
    reveal_strlit("mtd");
    let device = "mtd"@ + digits;
    let line = device + seq![':'] + rest;
    assert(!device.contains(':')) by {
        if device.contains(':') {
            let i = choose|i: int| 0 <= i < device.len() && device[i] == ':';
            assert(i >= 3);
            assert(digits[i - 3] == ':');
        }
    }
    text_laws::law_position(device, ':', rest);
    assert(line.take(device.len() as int) =~= device);
    assert(line.skip(device.len() as int + 1) =~= rest);
    text_laws::law_prefix("mtd"@, digits, device);
}

/// Only such a line describes a partition.
pub proof fn law_no_partition_line(line: Seq<char>)
    requires
        mtd::line_partition(line) is Some,
    ensures
        exists|digits: Seq<char>, rest: Seq<char>|
            {
                &&& line == #[trigger] ("mtd"@ + digits + seq![':'] + rest)
                &&& !digits.contains(':')
                &&& number::number_value(digits, 10, 0xffff_ffff) is Some
                &&& text::fields(rest).len() >= 2
                &&& number::number_value(text::fields(rest)[0], 16, 0xffff_ffff_ffff_ffff) is Some
                &&& number::number_value(text::fields(rest)[1], 16, 0xffff_ffff_ffff_ffff) is Some
            },
{
    let colon = text::position(line, ':') as int;
    let device = line.take(colon);
    let rest = line.skip(colon + 1);
    let digits = text::without_prefix(device, "mtd"@)->0;
    text::lemma_position(line, ':');
    text_laws::law_prefix("mtd"@, digits, device);
    assert(!digits.contains(':')) by {
        if digits.contains(':') {
            let i = choose|i: int| 0 <= i < digits.len() && digits[i] == ':';
            let n = "mtd"@.len() as int;
            assert(device[n + i] == ':');
            assert(line[n + i] == ':');
        }
    }
    assert(line =~= "mtd"@ + digits + seq![':'] + rest);
}

/// The first line of the table is its heading. Every other line that describes a
/// partition adds it at the end of the list, and the others add none.
pub proof fn law_table_lines(lines: Seq<Seq<char>>, line: Seq<char>, table: Seq<char>)
    ensures
        mtd::line_partitions(Seq::empty()) == Seq::<PartitionModel>::empty(),
        mtd::line_partitions(lines.push(line)) == (match mtd::line_partition(line) {
            Some(partition) => mtd::line_partitions(lines).push(partition),
            None => mtd::line_partitions(lines),
        }),
        text::lines(table).len() == 0 ==> mtd::listed_partitions(table) == Seq::<
            PartitionModel,
        >::empty(),
        text::lines(table).len() > 0 ==> mtd::listed_partitions(table) == mtd::line_partitions(
            text::lines(table).skip(1),
        ),
    decreases lines.len(),
{
    if text::lines(table).len() > 0 {
        assert(text::lines(table).skip(1) =~= text::lines(table).drop_first());
    }
    let longer = lines.push(line);
    if lines.len() == 0 {
        assert(longer.drop_first() =~= lines);
        assert(mtd::line_partitions(lines) =~= Seq::<PartitionModel>::empty());
        assert(mtd::line_partitions(longer.drop_first()) =~= Seq::<PartitionModel>::empty());
        match mtd::line_partition(line) {
            Some(partition) => {
                assert(mtd::line_partitions(longer) =~= mtd::line_partitions(lines).push(
                    partition,
                ));
            },
            None => {
                assert(mtd::line_partitions(longer) =~= mtd::line_partitions(lines));
            },
        }
    } else {
        law_table_lines(lines.drop_first(), line, table);
        assert(longer.drop_first() =~= lines.drop_first().push(line));
        match mtd::line_partition(line) {
            Some(partition) => {
                assert(mtd::line_partitions(longer) =~= mtd::line_partitions(lines).push(
                    partition,
                ));
            },
            None => {
                assert(mtd::line_partitions(longer) =~= mtd::line_partitions(lines));
            },
        }
    }
}

/// A partition is put where its attribute says, where that is a number; the first
/// of all is put at zero where it is not, and no other is put anywhere. Nothing
/// else of it changes.
pub proof fn law_located(list: Seq<PartitionModel>, attributes: Seq<Option<String>>, i: int)
    requires
        0 <= i < list.len(),
    ensures
        ({
            let all = mtd::all_located(list, attributes);
            &&& all.len() == list.len()
            &&& all[i].index == list[i].index
            &&& all[i].name == list[i].name
            &&& all[i].size == list[i].size
            &&& all[i].erase_size == list[i].erase_size
            &&& all[i].path == list[i].path
            &&& match attributes[i] {
                Some(value) => match number::attribute_value(value@) {
                    Some(offset) => all[i].offset == Some(offset as u64) && mtd::known_offset(
                        list[i].index as int,
                        Some(value@),
                    ) == Some(offset),
                    None => all[i].offset == if list[i].index == 0 {
                        Some(0u64)
                    } else {
                        None
                    },
                },
                None => all[i].offset == if list[i].index == 0 {
                    Some(0u64)
                } else {
                    None
                },
            }
        }),
{
}

/// A device is opened exactly where neither of its sizes is zero, with the sizes that
/// it reported.
pub proof fn law_opened_device(partition: Partition, files: OpenedFiles)
    ensures
        mtd::sizes_valid(files) <==> files.write_size > 0 && files.erase_size > 0,
        mtd::device_of(partition, files).partition == partition,
        mtd::device_of(partition, files).handle == files.handle,
        mtd::device_of(partition, files).write_size == files.write_size,
        mtd::device_of(partition, files).erase_size == files.erase_size,
{
}

/// The model of a partition tells all of it, that of a list all of its partitions,
/// and that of an error all of the error.
pub proof fn law_models(partition: Partition, partitions: Seq<Partition>, i: int, error: MtdError)
    ensures
        partition@.index == partition.index,
        partition@.name == partition.name@,
        partition@.size == partition.size,
        partition@.erase_size == partition.erase_size,
        partition@.offset == partition.offset,
        partition@.path == partition.path@,
        mtd::models(partitions).len() == partitions.len(),
        0 <= i < partitions.len() ==> mtd::models(partitions)[i] == partitions[i]@,
        error@.kind == error.kind,
        error@.message == error.message@,
{
}

/// An offset is what the attribute says, where that is a number; else that of the
/// first MTD is zero, and that of another is not known.
pub proof fn law_known_offset(index: int, attribute: Seq<char>)
    ensures
        number::attribute_value(attribute) is Some ==> mtd::known_offset(index, Some(attribute))
            == number::attribute_value(attribute),
        number::attribute_value(attribute) is None && index == 0 ==> mtd::known_offset(
            index,
            Some(attribute),
        ) == Some(0nat),
        number::attribute_value(attribute) is None && index != 0 ==> mtd::known_offset(
            index,
            Some(attribute),
        ) is None,
        index == 0 ==> mtd::known_offset(index, None) == Some(0nat),
        index != 0 ==> mtd::known_offset(index, None) is None,
{
}

/// Of two partitions that can be written, both give a device, and the earlier one the
/// earlier device: with the partition, the files, and the page and eraseblock sizes
/// that belong to it.
pub proof fn law_devices_in_order(
    partitions: Seq<Partition>,
    opened: Seq<Option<OpenedFiles>>,
    devices: Seq<MtdDevice>,
    i: int,
    j: int,
) -> (places: (int, int))
    requires
        opened.len() == partitions.len(),
        devices == mtd::writable_devices(partitions, opened, partitions.len()),
        0 <= i <= j < partitions.len(),
        partitions[i].offset is Some,
        opened[i] is Some,
        opened[i]->0.write_size != 0,
        opened[i]->0.erase_size != 0,
        partitions[j].offset is Some,
        opened[j] is Some,
        opened[j]->0.write_size != 0,
        opened[j]->0.erase_size != 0,
    ensures
        0 <= places.0 <= places.1 < devices.len(),
        i < j ==> places.0 < places.1,
        devices[places.0].partition == partitions[i],
        devices[places.0].handle == opened[i]->0.handle,
        devices[places.0].write_size == opened[i]->0.write_size,
        devices[places.0].erase_size == opened[i]->0.erase_size,
        devices[places.1].partition == partitions[j],
        devices[places.1].handle == opened[j]->0.handle,
        devices[places.1].write_size == opened[j]->0.write_size,
        devices[places.1].erase_size == opened[j]->0.erase_size,
{
    let n = partitions.len();
    law_device_of_each(partitions, opened, n, i);
    law_device_of_each(partitions, opened, n, j);
    if i < j {
        lemma_written_grows(partitions, opened, i + 1, j);
    }
    (written_before(partitions, opened, i), written_before(partitions, opened, j))
}

/// Every device comes from a partition that can be written, with what belongs to that
/// partition, and of two devices the later one from a later partition.
pub proof fn law_devices_from_partitions(
    partitions: Seq<Partition>,
    opened: Seq<Option<OpenedFiles>>,
    devices: Seq<MtdDevice>,
    c: int,
    d: int,
) -> (places: (int, int))
    requires
        opened.len() == partitions.len(),
        devices == mtd::writable_devices(partitions, opened, partitions.len()),
        0 <= c <= d < devices.len(),
    ensures
        0 <= places.0 <= places.1 < partitions.len(),
        c < d ==> places.0 < places.1,
        partitions[places.0].offset is Some,
        opened[places.0] is Some,
        opened[places.0]->0.write_size != 0,
        opened[places.0]->0.erase_size != 0,
        devices[c].partition == partitions[places.0],
        devices[c].handle == opened[places.0]->0.handle,
        devices[c].write_size == opened[places.0]->0.write_size,
        devices[c].erase_size == opened[places.0]->0.erase_size,
        devices[d].partition == partitions[places.1],
{
    let n = partitions.len();
    let a = law_device_from_partition(partitions, opened, n, c);
    let b = law_device_from_partition(partitions, opened, n, d);
    law_device_of_each(partitions, opened, n, a);
    law_device_of_each(partitions, opened, n, b);
    if c == d {
        (a, a)
    } else {
        if b <= a {
            lemma_written_grows(partitions, opened, b, a);
        }
        (a, b)
    }
}

/// A request's number is made of its direction, its argument's size, the letter M and
/// the command, each moved to its place.
pub proof fn law_request_number(direction: u64, command: u8, size: usize)
    ensures
        mtd::request_number(direction, command, size) == (direction << 30u64) | (0x4du64 << 8u64)
            | (command as u64) | ((size as u64) << 16u64),
{
}

} // verus!
