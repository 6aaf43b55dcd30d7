//! What a search finds, in the offsets and sizes of the devices it is given.
use vstd::prelude::*;

use crate::mtd::{BlockTarget, MtdDevice};
use crate::search;
use crate::search::SearchModel;

verus! {

/// The whole eraseblock at `physical` lies on the device, a whole number of
/// eraseblocks behind its start, whatever is left of the device behind it.
pub open spec fn lies_on(device: MtdDevice, physical: int, erase_size: int) -> bool {
    &&& device.partition.offset is Some
    &&& device.partition.offset->0 <= physical
    &&& (physical - device.partition.offset->0) % erase_size == 0
    &&& physical - device.partition.offset->0 + erase_size <= device.partition.size
    &&& device.erase_size == erase_size
}

/// Of the first `n` devices that the eraseblock lies on, the largest, and the last
/// of that size.
proof fn lemma_best(devices: Seq<MtdDevice>, n: int, physical: int, erase_size: int, i: int) -> (b:
    int)
    requires
        0 <= i < n <= devices.len(),
        lies_on(devices[i], physical, erase_size),
    ensures
        0 <= b < n,
        lies_on(devices[b], physical, erase_size),
        forall|j: int|
            0 <= j < n && lies_on(#[trigger] devices[j], physical, erase_size) ==> {
                ||| devices[j].partition.size < devices[b].partition.size
                ||| devices[j].partition.size == devices[b].partition.size && j <= b
            },
    decreases n,
{
    let last = n - 1;
    if exists|j: int| 0 <= j < last && lies_on(#[trigger] devices[j], physical, erase_size) {
        let j = choose|j: int|
            0 <= j < last && lies_on(#[trigger] devices[j], physical, erase_size);
        let b = lemma_best(devices, last, physical, erase_size, j);
        if lies_on(devices[last], physical, erase_size) && devices[last].partition.size
            >= devices[b].partition.size {
            last
        } else {
            b
        }
    } else {
        assert(i == last);
        last
    }
}

/// An eraseblock that lies on some device is written, at its own place, through a
/// device that it lies on: no smaller one than any other, and the last of those
/// that are as large.
pub proof fn law_block_has_target(devices: Seq<MtdDevice>, k: int, erase_size: int, i: int)
    requires
        erase_size > 0,
        devices.len() <= usize::MAX,
        0 <= k * erase_size <= u64::MAX,
        0 <= i < devices.len(),
        devices[i].partition.offset is Some,
        devices[i].partition.offset->0 <= k * erase_size,
        (k * erase_size - devices[i].partition.offset->0) % erase_size == 0,
        k * erase_size - devices[i].partition.offset->0 + erase_size <= devices[i].partition.size,
        devices[i].erase_size == erase_size,
    ensures
        search::target(devices, k, erase_size) matches Some(block) && {
            let device = devices[block.device_index as int];
            &&& block.device_index < devices.len()
            &&& block.physical_offset == k * erase_size
            &&& device.partition.offset is Some
            &&& device.partition.offset->0 + block.relative_offset == k * erase_size
            &&& block.relative_offset as int % erase_size == 0
            &&& block.relative_offset + erase_size <= device.partition.size
            &&& device.erase_size == erase_size
            &&& devices[i].partition.size <= device.partition.size
            &&& devices[i].partition.size == device.partition.size ==> i <= block.device_index
        },
{
    let physical = k * erase_size;
    assert(lies_on(devices[i], physical, erase_size));
    let b = lemma_best(devices, devices.len() as int, physical, erase_size, i);
    assert forall|j: int| 0 <= j < devices.len() implies search::covers(
        #[trigger] devices[j],
        physical,
        erase_size,
    ) == lies_on(devices[j], physical, erase_size) by {}
    assert(search::is_covering(devices, b, physical, erase_size));
    let c = search::covering(devices, physical, erase_size)->0;
    assert(search::is_covering(devices, c, physical, erase_size));
    assert(search::covers(devices[i], physical, erase_size));
}

/// An eraseblock that lies on no device is not written.
pub proof fn law_block_without_target(devices: Seq<MtdDevice>, k: int, erase_size: int)
    requires
        forall|i: int|
            0 <= i < devices.len() ==> !lies_on(#[trigger] devices[i], k * erase_size, erase_size),
    ensures
        search::target(devices, k, erase_size) is None,
{
    let physical = k * erase_size;
    assert forall|i: int| !#[trigger] search::is_covering(devices, i, physical, erase_size) by {
        if 0 <= i < devices.len() {
            assert(!lies_on(devices[i], physical, erase_size));
        }
    }
}

/// The range ends where the device that reaches furthest does, and there is one
/// where any device has a place.
pub proof fn law_range_end(devices: Seq<MtdDevice>)
    ensures
        match search::range_end(devices) {
            Some(end) => {
                &&& forall|i: int|
                    0 <= i < devices.len() && (#[trigger] devices[i]).partition.offset is Some
                        ==> devices[i].partition.offset->0 + devices[i].partition.size <= end
                &&& exists|i: int|
                    {
                        &&& 0 <= i < devices.len()
                        &&& (#[trigger] devices[i]).partition.offset is Some
                        &&& devices[i].partition.offset->0 + devices[i].partition.size == end
                    }
            },
            None => forall|i: int|
                0 <= i < devices.len() ==> (#[trigger] devices[i]).partition.offset is None,
        },
    decreases devices.len(),
{
    if devices.len() > 0 {
        let before = devices.drop_last();
        law_range_end(before);
        assert(devices.last() == devices[devices.len() - 1]);
        assert forall|i: int| 0 <= i < before.len() implies #[trigger] devices[i]
            == before[i] by {}
        if search::range_end(before) is Some {
            let i = choose|i: int|
                {
                    &&& 0 <= i < before.len()
                    &&& (#[trigger] before[i]).partition.offset is Some
                    &&& before[i].partition.offset->0 + before[i].partition.size
                        == search::range_end(before)->0
                };
            assert(devices[i] == before[i]);
        }
    }
}

/// An eraseblock counts where it lies on some device and is said not to be bad;
/// the answers start with that of the second eraseblock of the chip.
pub open spec fn counts(
    devices: Seq<MtdDevice>,
    answers: Seq<Option<bool>>,
    k: int,
    erase_size: int,
) -> bool {
    &&& 1 <= k <= answers.len()
    &&& answers[k - 1] == Some(false)
    &&& exists|i: int|
        0 <= i < devices.len() && lies_on(#[trigger] devices[i], k * erase_size, erase_size)
}

proof fn lemma_counts(
    devices: Seq<MtdDevice>,
    answers: Seq<Option<bool>>,
    k: int,
    erase_size: int,
)
    requires
        erase_size > 0,
    ensures
        search::usable(devices, answers, k, erase_size) == counts(devices, answers, k, erase_size),
{
    let physical = k * erase_size;
    if exists|i: int| 0 <= i < devices.len() && lies_on(#[trigger] devices[i], physical, erase_size) {
        let i = choose|i: int|
            0 <= i < devices.len() && lies_on(#[trigger] devices[i], physical, erase_size);
        let b = lemma_best(devices, devices.len() as int, physical, erase_size, i);
        assert(search::is_covering(devices, b, physical, erase_size));
    } else {
        law_block_without_target(devices, k, erase_size);
    }
}

/// The runs that a search may find are just these: eraseblocks one behind the
/// other, none of them the first of the chip, that all count and end within the
/// range.
pub proof fn law_runs(
    devices: Seq<MtdDevice>,
    answers: Seq<Option<bool>>,
    k: int,
    n: int,
    erase_size: int,
)
    requires
        erase_size > 0,
    ensures
        search::usable_run(devices, answers, k, n, erase_size) <==> {
            &&& 1 <= k
            &&& (k + n) * erase_size <= search::range_end(devices)->0
            &&& forall|i: int| k <= i < k + n ==> #[trigger] counts(devices, answers, i, erase_size)
        },
{
    assert forall|i: int| k <= i < k + n implies (#[trigger] search::usable(
        devices,
        answers,
        i,
        erase_size,
    ) == counts(devices, answers, i, erase_size)) by {
        lemma_counts(devices, answers, i, erase_size);
    }
    assert forall|i: int| k <= i < k + n implies (search::usable(devices, answers, i, erase_size)
        == #[trigger] counts(devices, answers, i, erase_size)) by {
        lemma_counts(devices, answers, i, erase_size);
    }
}

/// A search looks at one eraseblock after the other, from the second of the chip
/// on, within the range; it has found its run when the last eraseblocks looked at,
/// as many as it needs and no more, are good.
pub proof fn law_search_progress(m: SearchModel, good: bool)
    requires
        m.valid(),
    ensures
        m.next_block() == m.verdicts.len() + 1,
        m.in_range() <==> (m.verdicts.len() + 1) * m.erase_size + m.erase_size <= m.end,
        m.found() <==> {
            &&& m.required <= m.verdicts.len()
            &&& forall|i: int|
                m.verdicts.len() - m.required <= i < m.verdicts.len() ==> #[trigger] m.verdicts[i]
        },
        m.judged(good).verdicts == m.verdicts.push(good),
        m.judged(good).devices == m.devices,
        m.judged(good).required == m.required,
        m.judged(good).erase_size == m.erase_size,
        m.judged(good).end == m.end,
        m.awaits() <==> {
            &&& !m.found()
            &&& m.in_range()
            &&& exists|i: int|
                0 <= i < m.devices.len() && lies_on(
                    #[trigger] m.devices[i],
                    (m.verdicts.len() + 1) * m.erase_size,
                    m.erase_size,
                )
        },
{
    let required = m.required as int;
    search::lemma_trailing(m.verdicts);
    if required <= m.verdicts.len() && forall|i: int|
        m.verdicts.len() - required <= i < m.verdicts.len() ==> #[trigger] m.verdicts[i] {
        let k = m.verdicts.len() - required + 1;
        assert(search::good_run(m.verdicts, k, required));
        search::lemma_trailing_longest(m.verdicts, k, required);
    }
    let physical = (m.verdicts.len() + 1) * m.erase_size;
    if exists|i: int|
        0 <= i < m.devices.len() && lies_on(#[trigger] m.devices[i], physical, m.erase_size) {
        let i = choose|i: int|
            0 <= i < m.devices.len() && lies_on(#[trigger] m.devices[i], physical, m.erase_size);
        let b = lemma_best(m.devices, m.devices.len() as int, physical, m.erase_size, i);
        assert(search::is_covering(m.devices, b, physical, m.erase_size));
    } else {
        law_block_without_target(m.devices, m.next_block(), m.erase_size);
    }
}

/// Going on to the next eraseblock to ask about passes over just those that lie on
/// no device: each is judged not good, and the search stops at the first that lies
/// on one, at the end of the range, or where the run is complete.
pub proof fn law_only_holes_skipped(m: SearchModel, k: int)
    requires
        m.valid(),
    ensures
        m.advanced().found() || !m.advanced().in_range() || m.advanced().awaits(),
        m.found() || !m.in_range() || m.awaits() ==> m.advanced() == m,
        m.verdicts.len() <= k < m.advanced().verdicts.len() ==> {
            &&& !m.advanced().verdicts[k]
            &&& forall|i: int|
                0 <= i < m.devices.len() ==> !lies_on(
                    #[trigger] m.devices[i],
                    (k + 1) * m.erase_size,
                    m.erase_size,
                )
        },
    decreases m.end - m.next_block(),
{
    if m.found() || !m.in_range() || m.awaits() {
    } else {
        let next = m.judged(false);
        search::lemma_block_below(m.next_block(), m.erase_size, m.end);
        search::lemma_judged(m, false);
        law_only_holes_skipped(next, k);
        law_search_progress(m, false);
        search::law_advanced_goes_on(next);
        if k == m.verdicts.len() && k < m.advanced().verdicts.len() {
            assert(next.verdicts[k] == false);
            assert(m.advanced().verdicts[k] == next.verdicts[k]);
        }
    }
}

/// The run of a search that has found it: as many eraseblocks as are needed, the
/// last that were looked at, in order.
pub proof fn law_found_run(m: SearchModel, j: int)
    requires
        m.valid(),
        m.found(),
        0 <= j < m.required,
    ensures
        m.run().len() == m.required,
        m.run()[j].physical_offset == (m.verdicts.len() - m.required + 1 + j) * m.erase_size,
        search::target(
            m.devices,
            m.verdicts.len() - m.required + 1 + j,
            m.erase_size,
        ) == Some(m.run()[j]),
{
    search::law_earliest_run(m);
    search::law_run_layout(m, j);
    let first = m.next_block() - m.run().len();
    assert(m.verdicts[first - 1 + j]);
    let run: Seq<BlockTarget> = m.run();
    assert(search::target(m.devices, (first - 1 + j) + 1, m.erase_size) is Some);
}

/// Devices are addressable exactly where none with a place ends behind the last
/// address of 64 bits.
pub proof fn law_addressable(devices: Seq<MtdDevice>)
    ensures
        search::addressable(devices) <==> forall|i: int|
            0 <= i < devices.len() && (#[trigger] devices[i]).partition.offset is Some
                ==> devices[i].partition.offset->0 + devices[i].partition.size
                <= 0xffff_ffff_ffff_ffff,
{
}

} // verus!
