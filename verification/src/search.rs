//! The search for the eraseblocks that the image is written to.
//!
//! The boot loader scans forward from the second eraseblock, so the first
//! continuous good run wins. Whether an eraseblock is bad is asked of its device,
//! one block at a time: the search names the block, and takes the answer.
use vstd::prelude::*;

use crate::mtd::{BlockTarget, MtdDevice, MtdError, MtdErrorKind};
use crate::number;
use crate::number::push_decimal;

verus! {

// ---------------------------------------------------------------------------
// Covering devices
// ---------------------------------------------------------------------------

/// A device holds the whole eraseblock at `physical`, at a multiple of the
/// eraseblock size from its start.
pub open spec fn covers(device: MtdDevice, physical: int, erase_size: int) -> bool {
    match device.partition.offset {
        Some(start) => {
            &&& start <= physical
            &&& (physical - start) % erase_size == 0
            &&& physical - start + erase_size <= device.partition.size
            &&& device.erase_size == erase_size
        },
        None => false,
    }
}

/// Of the devices that hold the eraseblock, the one at `i` has the largest
/// partition, and is the last of that size.
pub open spec fn is_covering(
    devices: Seq<MtdDevice>,
    i: int,
    physical: int,
    erase_size: int,
) -> bool {
    &&& 0 <= i < devices.len()
    &&& covers(devices[i], physical, erase_size)
    &&& forall|j: int|
        0 <= j < devices.len() && covers(#[trigger] devices[j], physical, erase_size) ==> {
            ||| devices[j].partition.size < devices[i].partition.size
            ||| devices[j].partition.size == devices[i].partition.size && j <= i
        }
}

/// The device that the eraseblock at `physical` is written through, if any.
pub open spec fn covering(devices: Seq<MtdDevice>, physical: int, erase_size: int) -> Option<int> {
    if exists|i: int| is_covering(devices, i, physical, erase_size) {
        Some(choose|i: int| is_covering(devices, i, physical, erase_size))
    } else {
        None
    }
}

/// Finds the device that the eraseblock at `physical_offset` is written through.
pub fn covering_device(devices: &[MtdDevice], physical_offset: u64, erase_size: u64) -> (found:
    Option<usize>)
    requires
        erase_size > 0,
    ensures
        match found {
            Some(i) => {
                &&& is_covering(devices@, i as int, physical_offset as int, erase_size as int)
                &&& covering(devices@, physical_offset as int, erase_size as int) == Some(i as int)
            },
            None => {
                &&& covering(devices@, physical_offset as int, erase_size as int) is None
                &&& forall|i: int|
                    0 <= i < devices@.len() ==> !covers(
                        #[trigger] devices@[i],
                        physical_offset as int,
                        erase_size as int,
                    )
            },
        },
{
    let ghost physical = physical_offset as int;
    let ghost e = erase_size as int;
    let mut best: Option<usize> = None;
    for i in 0..devices.len()
        invariant
            erase_size > 0,
            physical == physical_offset,
            e == erase_size,
            match best {
                Some(b) => {
                    &&& b < i
                    &&& covers(devices@[b as int], physical, e)
                    &&& forall|j: int|
                        0 <= j < i && covers(#[trigger] devices@[j], physical, e) ==> {
                            ||| devices@[j].partition.size < devices@[b as int].partition.size
                            ||| devices@[j].partition.size == devices@[b as int].partition.size
                                && j <= b
                        }
                },
                None => forall|j: int|
                    0 <= j < i ==> !covers(#[trigger] devices@[j], physical, e),
            },
    {
        let device = &devices[i];
        let holds = match device.partition.offset {
            Some(start) => if start <= physical_offset {
                let relative: u64 = physical_offset - start;
                let size = device.partition.size;
                relative % erase_size == 0 && size >= erase_size && relative <= size - erase_size
                    && device.erase_size == erase_size
            } else {
                false
            },
            None => false,
        };
        assert(holds == covers(devices@[i as int], physical, e));
        if holds {
            let better = match best {
                Some(b) => device.partition.size >= devices[b].partition.size,
                None => true,
            };
            if better {
                best = Some(i);
            }
        }
    }
    proof {
        match best {
            Some(b) => {
                assert(is_covering(devices@, b as int, physical, e));
            },
            None => {
                assert forall|i: int| !is_covering(devices@, i, physical, e) by {
                    if 0 <= i < devices@.len() {
                        assert(!covers(devices@[i], physical, e));
                    }
                }
            },
        }
    }
    best
}

// ---------------------------------------------------------------------------
// The range
// ---------------------------------------------------------------------------

/// No device reaches past the addresses that 64 bits can hold.
pub open spec fn addressable(devices: Seq<MtdDevice>) -> bool {
    forall|i: int|
        0 <= i < devices.len() && (#[trigger] devices[i]).partition.offset is Some
            ==> devices[i].partition.offset->0 + devices[i].partition.size <= u64::MAX
}

/// Tells whether every device ends within the addresses that 64 bits can hold.
pub fn all_addressable(devices: &[MtdDevice]) -> (all: bool)
    ensures
        all == addressable(devices@),
{
    for i in 0..devices.len()
        invariant
            addressable(devices@.take(i as int)),
    {
        if let Some(start) = devices[i].partition.offset {
            if devices[i].partition.size > u64::MAX - start {
                return false;
            }
        }
        proof {
            let n = i as int + 1;
            assert forall|j: int|
                0 <= j < n && (#[trigger] devices@.take(n)[j]).partition.offset is Some implies
            devices@.take(n)[j].partition.offset->0 + devices@.take(n)[j].partition.size
                <= u64::MAX by {
                if j < i {
                    assert(devices@.take(i as int)[j] == devices@[j]);
                }
            }
        }
    }
    assert(devices@.take(devices@.len() as int) =~= devices@);
    true
}

/// Where the range of the devices with a known place ends, if there are any.
pub open spec fn range_end(devices: Seq<MtdDevice>) -> Option<int>
    decreases devices.len(),
{
    if devices.len() == 0 {
        None
    } else {
        let before = range_end(devices.drop_last());
        match devices.last().partition.offset {
            Some(start) => {
                let end = start + devices.last().partition.size;
                match before {
                    Some(other) if other >= end => Some(other),
                    _ => Some(end),
                }
            },
            None => before,
        }
    }
}

/// Finds where the range of the devices with a known place ends.
fn find_range_end(devices: &[MtdDevice]) -> (end: Option<u64>)
    requires
        addressable(devices@),
    ensures
        match end {
            Some(value) => range_end(devices@) == Some(value as int),
            None => range_end(devices@) is None,
        },
{
    let mut end: Option<u64> = None;
    for i in 0..devices.len()
        invariant
            addressable(devices@),
            match end {
                Some(value) => range_end(devices@.take(i as int)) == Some(value as int),
                None => range_end(devices@.take(i as int)) is None,
            },
    {
        proof {
            assert(devices@.take(i + 1).drop_last() =~= devices@.take(i as int));
            assert(devices@.take(i + 1).last() == devices@[i as int]);
        }
        if let Some(start) = devices[i].partition.offset {
            let this: u64 = start + devices[i].partition.size;
            end = match end {
                Some(other) => Some(
                    if other >= this {
                        other
                    } else {
                        this
                    },
                ),
                None => Some(this),
            };
        }
    }
    assert(devices@.take(devices@.len() as int) =~= devices@);
    end
}

// ---------------------------------------------------------------------------
// Blocks and runs
// ---------------------------------------------------------------------------

/// How the `k`th eraseblock of the chip is written, if a device holds it.
pub open spec fn target(devices: Seq<MtdDevice>, k: int, erase_size: int) -> Option<BlockTarget> {
    match covering(devices, k * erase_size, erase_size) {
        Some(i) => Some(
            BlockTarget {
                device_index: i as usize,
                relative_offset: (k * erase_size - devices[i].partition.offset->0) as u64,
                physical_offset: (k * erase_size) as u64,
            },
        ),
        None => None,
    }
}

/// How many verdicts at the end of the row are good.
pub open spec fn trailing(verdicts: Seq<bool>) -> nat
    decreases verdicts.len(),
{
    if verdicts.len() == 0 || !verdicts.last() {
        0
    } else {
        1 + trailing(verdicts.drop_last())
    }
}

/// A search under way: what it looks for, and its verdict on each eraseblock
/// that it has looked at, from the second eraseblock of the chip on.
pub struct SearchModel {
    pub devices: Seq<MtdDevice>,
    pub required: nat,
    pub erase_size: int,
    pub end: int,
    pub verdicts: Seq<bool>,
}

impl SearchModel {
    /// The eraseblock to look at next.
    pub open spec fn next_block(self) -> int {
        self.verdicts.len() as int + 1
    }

    /// The next eraseblock lies within the range of the devices.
    pub open spec fn in_range(self) -> bool {
        self.next_block() * self.erase_size + self.erase_size <= self.end
    }

    /// The last eraseblocks looked at are the run that is looked for.
    pub open spec fn found(self) -> bool {
        trailing(self.verdicts) == self.required
    }

    /// The next eraseblock's device has to be asked.
    pub open spec fn awaits(self) -> bool {
        &&& !self.found()
        &&& self.in_range()
        &&& target(self.devices, self.next_block(), self.erase_size) is Some
    }

    /// The search with one more verdict.
    pub open spec fn judged(self, good: bool) -> SearchModel {
        SearchModel { verdicts: self.verdicts.push(good), ..self }
    }

    /// The search at the next eraseblock that some device holds; those before it
    /// are judged not good.
    pub open spec fn advanced(self) -> SearchModel
        decreases self.end - self.next_block(),
    {
        if self.erase_size <= 0 || self.found() || !self.in_range() || self.awaits() {
            self
        } else {
            proof {
                lemma_block_below(self.next_block(), self.erase_size, self.end);
            }
            self.judged(false).advanced()
        }
    }

    /// The good run that ends at the last eraseblock looked at.
    pub open spec fn run(self) -> Seq<BlockTarget> {
        let n = trailing(self.verdicts);
        Seq::new(
            n,
            |j: int| target(self.devices, self.next_block() - n + j, self.erase_size)->0,
        )
    }

    /// What holds of every search: it stays in range, a good eraseblock has a
    /// device, and no run that is long enough was passed over.
    pub open spec fn valid(self) -> bool {
        &&& self.required > 0
        &&& 0 < self.erase_size <= u64::MAX
        &&& self.end <= u64::MAX
        &&& self.devices.len() <= usize::MAX
        &&& addressable(self.devices)
        &&& range_end(self.devices) == Some(self.end)
        &&& self.verdicts.len() == 0 || self.next_block() * self.erase_size <= self.end
        &&& forall|i: int|
            0 <= i < self.verdicts.len() && #[trigger] self.verdicts[i] ==> target(
                self.devices,
                i + 1,
                self.erase_size,
            ) is Some
        &&& trailing(self.verdicts) <= self.required
        &&& forall|n: int|
            0 <= n < self.verdicts.len() ==> trailing(#[trigger] self.verdicts.take(n))
                < self.required
    }
}

pub proof fn lemma_block_below(k: int, erase_size: int, end: int)
    requires
        erase_size > 0,
        k >= 0,
        k * erase_size + erase_size <= end,
    ensures
        k < end,
{
    assert(k <= k * erase_size) by (nonlinear_arith)
        requires
            erase_size > 0,
            k >= 0,
    ;
}

/// One more verdict keeps a search valid.
pub proof fn lemma_judged(m: SearchModel, good: bool)
    requires
        m.valid(),
        !m.found(),
        m.in_range(),
        good ==> target(m.devices, m.next_block(), m.erase_size) is Some,
    ensures
        m.judged(good).valid(),
        trailing(m.judged(good).verdicts) == if good {
            trailing(m.verdicts) + 1
        } else {
            0
        },
{
    let after = m.judged(good);
    assert(after.verdicts.drop_last() =~= m.verdicts);
    assert(after.next_block() * m.erase_size == m.next_block() * m.erase_size + m.erase_size)
        by (nonlinear_arith)
        requires
            after.next_block() == m.next_block() + 1,
    ;
    assert forall|n: int| 0 <= n < after.verdicts.len() implies trailing(
        #[trigger] after.verdicts.take(n),
    ) < m.required by {
        if n < m.verdicts.len() {
            assert(after.verdicts.take(n) =~= m.verdicts.take(n));
        } else {
            assert(after.verdicts.take(n) =~= m.verdicts);
        }
    }
}

/// Two searches look for the same thing.
pub open spec fn same_goal(a: SearchModel, b: SearchModel) -> bool {
    &&& a.devices == b.devices
    &&& a.required == b.required
    &&& a.erase_size == b.erase_size
    &&& a.end == b.end
}

/// Going on to the next eraseblock to ask about changes nothing but the
/// verdicts, of which there are no fewer.
pub proof fn law_advanced_goes_on(m: SearchModel)
    requires
        m.valid(),
    ensures
        same_goal(m.advanced(), m),
        m.verdicts.is_prefix_of(m.advanced().verdicts),
    decreases m.end - m.next_block(),
{
    if m.found() || !m.in_range() || m.awaits() {
    } else {
        lemma_block_below(m.next_block(), m.erase_size, m.end);
        lemma_judged(m, false);
        law_advanced_goes_on(m.judged(false));
        assert(m.judged(false).verdicts.take(m.verdicts.len() as int) =~= m.verdicts);
    }
}

// ---------------------------------------------------------------------------
// The search
// ---------------------------------------------------------------------------

/// The search for the earliest run of good eraseblocks.
pub struct RunSearch<'a> {
    devices: &'a [MtdDevice],
    required: usize,
    erase_size: u64,
    end: u64,
    physical: u64,
    run: Vec<BlockTarget>,
    verdicts: Ghost<Seq<bool>>,
}

impl<'a> View for RunSearch<'a> {
    type V = SearchModel;

    closed spec fn view(&self) -> SearchModel {
        SearchModel {
            devices: self.devices@,
            required: self.required as nat,
            erase_size: self.erase_size as int,
            end: self.end as int,
            verdicts: self.verdicts@,
        }
    }
}

impl<'a> RunSearch<'a> {
    /// The search is valid, and its fields hold what the verdicts say.
    pub closed spec fn wf(&self) -> bool {
        &&& self@.valid()
        &&& self.physical == self@.next_block() * self@.erase_size
        &&& self.run@ == self@.run()
    }

    /// What holds of every search holds of this one.
    pub proof fn law_search_valid(&self)
        requires
            self.wf(),
        ensures
            self@.valid(),
    {
    }

    /// Starts a search for `required_blocks` good eraseblocks in a row.
    pub fn start(devices: &'a [MtdDevice], required_blocks: usize, erase_size: u64) -> (result:
        Result<RunSearch<'a>, MtdError>)
        requires
            erase_size > 0,
            addressable(devices@),
        ensures
            match result {
                Ok(search) => {
                    &&& required_blocks > 0
                    &&& range_end(devices@) is Some
                    &&& search.wf()
                    &&& search@ == SearchModel {
                        devices: devices@,
                        required: required_blocks as nat,
                        erase_size: erase_size as int,
                        end: range_end(devices@)->0,
                        verdicts: Seq::empty(),
                    }
                },
                Err(error) => if required_blocks == 0 {
                    &&& error@.kind == MtdErrorKind::InvalidInput
                    &&& error@.message == "Required PEB count is zero"@
                } else {
                    &&& range_end(devices@) is None
                    &&& error@.kind == MtdErrorKind::NotFound
                    &&& error@.message == "No writable physical MTD range"@
                },
            },
    {
        if required_blocks == 0 {
            return Err(
                MtdError {
                    kind: MtdErrorKind::InvalidInput,
                    message: "Required PEB count is zero".to_string(),
                },
            );
        }
        match find_range_end(devices) {
            Some(end) => {
                assert(devices.len() == devices@.len());
                let search = RunSearch {
                    devices,
                    required: required_blocks,
                    erase_size,
                    end,
                    physical: erase_size,
                    run: Vec::new(),
                    verdicts: Ghost(Seq::empty()),
                };
                assert(search.run@ =~= search@.run());
                Ok(search)
            },
            None => Err(
                MtdError {
                    kind: MtdErrorKind::NotFound,
                    message: "No writable physical MTD range".to_string(),
                },
            ),
        }
    }

    /// The next eraseblock lies within the range.
    fn within(&self) -> (within: bool)
        requires
            self.wf(),
        ensures
            within == self@.in_range(),
    {
        self.end >= self.erase_size && self.physical <= self.end - self.erase_size
    }

    /// How the next eraseblock is written.
    fn target_block(&self) -> (block: Option<BlockTarget>)
        requires
            self.wf(),
        ensures
            block == target(self@.devices, self@.next_block(), self@.erase_size),
    {
        match covering_device(self.devices, self.physical, self.erase_size) {
            Some(device_index) => match self.devices[device_index].partition.offset {
                Some(start) => Some(
                    BlockTarget {
                        device_index,
                        relative_offset: self.physical - start,
                        physical_offset: self.physical,
                    },
                ),
                None => None,
            },
            None => None,
        }
    }

    /// Moves past the next eraseblock, which is not good.
    fn reject(&mut self)
        requires
            old(self).wf(),
            !old(self)@.found(),
            old(self)@.in_range(),
        ensures
            final(self).wf(),
            final(self)@ == old(self)@.judged(false),
    {
        proof {
            lemma_judged(self@, false);
            assert((self@.next_block() + 1) * self@.erase_size == self@.next_block()
                * self@.erase_size + self@.erase_size) by (nonlinear_arith);
        }
        self.run.clear();
        self.physical = self.physical + self.erase_size;
        self.verdicts = Ghost(self.verdicts@.push(false));
        assert(self.run@ =~= self@.run());
    }

    /// Moves past the next eraseblock, which is good.
    fn accept(&mut self, block: BlockTarget)
        requires
            old(self).wf(),
            old(self)@.awaits(),
            target(old(self)@.devices, old(self)@.next_block(), old(self)@.erase_size) == Some(
                block,
            ),
        ensures
            final(self).wf(),
            final(self)@ == old(self)@.judged(true),
    {
        proof {
            lemma_judged(self@, true);
            assert((self@.next_block() + 1) * self@.erase_size == self@.next_block()
                * self@.erase_size + self@.erase_size) by (nonlinear_arith);
        }
        self.run.push(block);
        self.physical = self.physical + self.erase_size;
        self.verdicts = Ghost(self.verdicts@.push(true));
        assert(self.run@ =~= self@.run());
    }

    /// Names the eraseblock whose device is to be asked next. There is none once
    /// the run is complete or the range is at its end.
    pub fn next_query(&mut self) -> (query: Option<BlockTarget>)
        requires
            old(self).wf(),
        ensures
            final(self).wf(),
            final(self)@ == old(self)@.advanced(),
            same_goal(final(self)@, old(self)@),
            match query {
                Some(block) => {
                    &&& final(self)@.awaits()
                    &&& target(
                        final(self)@.devices,
                        final(self)@.next_block(),
                        final(self)@.erase_size,
                    ) == Some(block)
                },
                None => final(self)@.found() || !final(self)@.in_range(),
            },
    {
        loop
            invariant
                self.wf(),
                self@.advanced() == old(self)@.advanced(),
                same_goal(self@, old(self)@),
            decreases self@.end - self@.next_block(),
        {
            if self.run.len() == self.required || !self.within() {
                return None;
            }
            match self.target_block() {
                Some(block) => {
                    return Some(block);
                },
                None => {
                    proof {
                        lemma_block_below(self@.next_block(), self@.erase_size, self@.end);
                    }
                    self.reject();
                },
            }
        }
    }

    /// Takes the answer about the eraseblock that was named: whether it is bad, or
    /// nothing where its device could not say.
    pub fn answer(&mut self, bad: Option<bool>)
        requires
            old(self).wf(),
            old(self)@.awaits(),
        ensures
            final(self).wf(),
            final(self)@ == old(self)@.judged(bad == Some(false)),
    {
        match bad {
            Some(false) => {
                if let Some(block) = self.target_block() {
                    self.accept(block);
                }
            },
            _ => {
                self.reject();
            },
        }
    }

    /// What the search came to, once no device is to be asked any more.
    pub fn result(self) -> (result: Result<Vec<BlockTarget>, MtdError>)
        requires
            self.wf(),
            self@.found() || !self@.in_range(),
        ensures
            match result {
                Ok(run) => self@.found() && run@ == self@.run(),
                Err(error) => {
                    &&& !self@.found()
                    &&& error@.kind == MtdErrorKind::NotFound
                    &&& error@.message == "No writable range with "@ + number::decimal(
                        self@.required,
                    ) + " consecutive good blocks"@
                },
            },
    {
        if self.run.len() == self.required {
            return Ok(self.run);
        }
        let mut message = "No writable range with ".to_string();
        push_decimal(&mut message, self.required as u64);
        message.append(" consecutive good blocks");
        Err(MtdError { kind: MtdErrorKind::NotFound, message })
    }
}

// ---------------------------------------------------------------------------
// What a search comes to
// ---------------------------------------------------------------------------

/// The `n` eraseblocks from the `k`th on were all judged good.
pub open spec fn good_run(verdicts: Seq<bool>, k: int, n: int) -> bool {
    &&& 1 <= k
    &&& k - 1 + n <= verdicts.len()
    &&& forall|i: int| k - 1 <= i < k - 1 + n ==> #[trigger] verdicts[i]
}

pub proof fn lemma_trailing(verdicts: Seq<bool>)
    ensures
        trailing(verdicts) <= verdicts.len(),
        forall|i: int|
            verdicts.len() - trailing(verdicts) <= i < verdicts.len() ==> #[trigger] verdicts[i],
        trailing(verdicts) < verdicts.len() ==> !verdicts[verdicts.len() - trailing(verdicts) - 1],
    decreases verdicts.len(),
{
    if verdicts.len() > 0 && verdicts.last() {
        let before = verdicts.drop_last();
        lemma_trailing(before);
        assert forall|i: int|
            verdicts.len() - trailing(verdicts) <= i < verdicts.len() implies #[trigger] verdicts[i] by {
            if i < before.len() {
                assert(before[i]);
            }
        }
    }
}

/// A run that ends at the last verdict is no longer than the trailing one.
pub proof fn lemma_trailing_longest(verdicts: Seq<bool>, k: int, n: int)
    requires
        good_run(verdicts, k, n),
        k - 1 + n == verdicts.len(),
    ensures
        n <= trailing(verdicts),
{
    lemma_trailing(verdicts);
    if n > trailing(verdicts) {
        assert(verdicts[verdicts.len() - trailing(verdicts) - 1]);
    }
}

/// A search that has found its run has found the earliest: the run's eraseblocks
/// were judged good, and no run of that length starts before it.
pub proof fn law_earliest_run(m: SearchModel)
    requires
        m.valid(),
        m.found(),
    ensures
        m.run().len() == m.required,
        good_run(m.verdicts, m.next_block() - m.required, m.required as int),
        forall|k: int|
            k < m.next_block() - m.required ==> !#[trigger] good_run(
                m.verdicts,
                k,
                m.required as int,
            ),
{
    lemma_trailing(m.verdicts);
    assert forall|k: int| k < m.next_block() - m.required implies !#[trigger] good_run(
        m.verdicts,
        k,
        m.required as int,
    ) by {
        if good_run(m.verdicts, k, m.required as int) {
            let n = k - 1 + m.required;
            let part = m.verdicts.take(n);
            assert(good_run(part, k, m.required as int));
            lemma_trailing_longest(part, k, m.required as int);
        }
    }
}

/// A search that has not found its run has passed over none.
pub proof fn law_no_run_passed_over(m: SearchModel)
    requires
        m.valid(),
        !m.found(),
    ensures
        forall|k: int| !#[trigger] good_run(m.verdicts, k, m.required as int),
{
    assert forall|k: int| !#[trigger] good_run(m.verdicts, k, m.required as int) by {
        if good_run(m.verdicts, k, m.required as int) {
            let n = k - 1 + m.required;
            let part = m.verdicts.take(n);
            assert(good_run(part, k, m.required as int));
            lemma_trailing_longest(part, k, m.required as int);
            if n == m.verdicts.len() {
                assert(part =~= m.verdicts);
            }
        }
    }
}

/// The eraseblocks of a run lie one behind the other, none of them is the first
/// of the chip, and each lies wholly within its device, whose eraseblocks have
/// the size that was asked for.
pub proof fn law_run_layout(m: SearchModel, j: int)
    requires
        m.valid(),
        0 <= j < m.run().len(),
    ensures
        ({
            let block = m.run()[j];
            let device = m.devices[block.device_index as int];
            let first = m.next_block() - m.run().len();
            &&& block.physical_offset == (first + j) * m.erase_size
            &&& m.erase_size <= block.physical_offset
            &&& block.physical_offset + m.erase_size <= m.end
            &&& block.device_index < m.devices.len()
            &&& device.partition.offset is Some
            &&& device.partition.offset->0 + block.relative_offset == block.physical_offset
            &&& block.relative_offset + m.erase_size <= device.partition.size
            &&& device.erase_size == m.erase_size
        }),
{
    lemma_trailing(m.verdicts);
    let k = m.next_block() - m.run().len() + j;
    let e = m.erase_size;
    let physical = k * e;
    assert(m.verdicts[k - 1]);
    assert(target(m.devices, (k - 1) + 1, e) is Some);
    assert(physical + e <= m.next_block() * e) by (nonlinear_arith)
        requires
            physical == k * e,
            k + 1 <= m.next_block(),
            e > 0,
    ;
    assert(e <= physical) by (nonlinear_arith)
        requires
            physical == k * e,
            1 <= k,
            e > 0,
    ;
    let i = covering(m.devices, physical, e)->0;
    assert(is_covering(m.devices, i, physical, e));
}

// ---------------------------------------------------------------------------
// The search over known answers
// ---------------------------------------------------------------------------

/// The `k`th eraseblock can be written: a device holds it and has said that it is
/// not bad. The answers start at the second eraseblock.
pub open spec fn usable(
    devices: Seq<MtdDevice>,
    answers: Seq<Option<bool>>,
    k: int,
    erase_size: int,
) -> bool {
    &&& target(devices, k, erase_size) is Some
    &&& 1 <= k <= answers.len()
    &&& answers[k - 1] == Some(false)
}

/// The `n` eraseblocks from the `k`th on lie within the range and can be written.
pub open spec fn usable_run(
    devices: Seq<MtdDevice>,
    answers: Seq<Option<bool>>,
    k: int,
    n: int,
    erase_size: int,
) -> bool {
    &&& 1 <= k
    &&& (k + n) * erase_size <= range_end(devices)->0
    &&& forall|i: int| k <= i < k + n ==> #[trigger] usable(devices, answers, i, erase_size)
}

/// The verdicts of a search agree with the answers.
spec fn agrees(m: SearchModel, answers: Seq<Option<bool>>) -> bool {
    forall|i: int|
        0 <= i < m.verdicts.len() ==> (#[trigger] m.verdicts[i]) == usable(
            m.devices,
            answers,
            i + 1,
            m.erase_size,
        )
}

proof fn lemma_advanced_agrees(m: SearchModel, answers: Seq<Option<bool>>)
    requires
        m.valid(),
        agrees(m, answers),
    ensures
        agrees(m.advanced(), answers),
    decreases m.end - m.next_block(),
{
    if m.found() || !m.in_range() || m.awaits() {
    } else {
        lemma_block_below(m.next_block(), m.erase_size, m.end);
        lemma_judged(m, false);
        lemma_advanced_agrees(m.judged(false), answers);
    }
}

proof fn lemma_usable_is_good(m: SearchModel, answers: Seq<Option<bool>>, k: int)
    requires
        m.valid(),
        agrees(m, answers),
        k - 1 + m.required <= m.verdicts.len(),
        usable_run(m.devices, answers, k, m.required as int, m.erase_size),
    ensures
        good_run(m.verdicts, k, m.required as int),
{
    assert forall|i: int| k - 1 <= i < k - 1 + m.required implies #[trigger] m.verdicts[i] by {
        assert(usable(m.devices, answers, i + 1, m.erase_size));
    }
}

proof fn lemma_good_is_usable(m: SearchModel, answers: Seq<Option<bool>>, k: int)
    requires
        m.valid(),
        agrees(m, answers),
        good_run(m.verdicts, k, m.required as int),
    ensures
        usable_run(m.devices, answers, k, m.required as int, m.erase_size),
{
    assert forall|i: int| k <= i < k + m.required implies #[trigger] usable(
        m.devices,
        answers,
        i,
        m.erase_size,
    ) by {
        assert(m.verdicts[i - 1]);
    }
    assert((k + m.required) * m.erase_size <= m.next_block() * m.erase_size) by (nonlinear_arith)
        requires
            k + m.required <= m.next_block(),
            m.erase_size > 0,
    ;
}

/// Within the range there are no eraseblocks that a search at the end of the
/// range has not looked at.
proof fn lemma_range_exhausted(m: SearchModel, answers: Seq<Option<bool>>, k: int)
    requires
        m.valid(),
        !m.in_range(),
        usable_run(m.devices, answers, k, m.required as int, m.erase_size),
    ensures
        k - 1 + m.required <= m.verdicts.len(),
{
    let past = k + m.required;
    if past > m.next_block() {
        assert(past * m.erase_size >= m.next_block() * m.erase_size + m.erase_size)
            by (nonlinear_arith)
            requires
                past >= m.next_block() + 1,
                m.erase_size > 0,
        ;
    }
}

/// BL2 scans forward from 0x20000, so the first continuous good run wins. What
/// the device of each eraseblock says of it, whether it is bad or nothing,
/// stands in `answers`, from the second eraseblock of the chip on.
pub fn find_earliest_good_run(
    devices: &[MtdDevice],
    required_blocks: usize,
    erase_size: u64,
    answers: &[Option<bool>],
) -> (result: Result<Vec<BlockTarget>, MtdError>)
    requires
        erase_size > 0,
        addressable(devices@),
    ensures
        match result {
            Ok(run) => {
                &&& required_blocks > 0
                &&& range_end(devices@) is Some
                &&& exists|k: int|
                    {
                        &&& #[trigger] usable_run(
                            devices@,
                            answers@,
                            k,
                            required_blocks as int,
                            erase_size as int,
                        )
                        &&& run@ == Seq::new(
                            required_blocks as nat,
                            |j: int| target(devices@, k + j, erase_size as int)->0,
                        )
                        &&& forall|other: int|
                            other < k ==> !#[trigger] usable_run(
                                devices@,
                                answers@,
                                other,
                                required_blocks as int,
                                erase_size as int,
                            )
                    }
            },
            Err(error) => if required_blocks == 0 {
                &&& error@.kind == MtdErrorKind::InvalidInput
                &&& error@.message == "Required PEB count is zero"@
            } else if range_end(devices@) is None {
                &&& error@.kind == MtdErrorKind::NotFound
                &&& error@.message == "No writable physical MTD range"@
            } else {
                &&& error@.kind == MtdErrorKind::NotFound
                &&& error@.message == "No writable range with "@ + number::decimal(
                    required_blocks as nat,
                ) + " consecutive good blocks"@
                &&& forall|k: int|
                    !#[trigger] usable_run(
                        devices@,
                        answers@,
                        k,
                        required_blocks as int,
                        erase_size as int,
                    )
            },
        },
{
    let mut search = match RunSearch::start(devices, required_blocks, erase_size) {
        Ok(search) => search,
        Err(error) => {
            return Err(error);
        },
    };
    loop
        invariant
            search.wf(),
            search@.devices == devices@,
            search@.required == required_blocks,
            search@.erase_size == erase_size,
            range_end(devices@) == Some(search@.end),
            agrees(search@, answers@),
        ensures
            search@.found() || !search@.in_range(),
        decreases search@.end - search@.next_block(),
    {
        let ghost before = search@;
        proof {
            lemma_advanced_agrees(before, answers@);
            law_advanced_goes_on(before);
        }
        match search.next_query() {
            Some(block) => {
                let k: u64 = block.physical_offset / erase_size;
                let ghost m = search@;
                proof {
                    lemma_block_below(m.next_block(), m.erase_size, m.end);
                    lemma_quotient(m.next_block(), m.erase_size);
                }
                let bad = if k as u128 <= answers.len() as u128 {
                    answers[k as usize - 1]
                } else {
                    None
                };
                assert((bad == Some(false)) == usable(m.devices, answers@, k as int, m.erase_size));
                search.answer(bad);
            },
            None => {
                break;
            },
        }
    }
    proof {
        let m = search@;
        let e = erase_size as int;
        let n = required_blocks as int;
        if m.found() {
            law_earliest_run(m);
            let first = m.next_block() - n;
            lemma_good_is_usable(m, answers@, first);
            assert forall|other: int| other < first implies !#[trigger] usable_run(
                devices@,
                answers@,
                other,
                n,
                e,
            ) by {
                if usable_run(devices@, answers@, other, n, e) {
                    lemma_usable_is_good(m, answers@, other);
                }
            }
            assert(m.run() =~= Seq::new(
                required_blocks as nat,
                |j: int| target(devices@, first + j, e)->0,
            ));
        } else {
            law_no_run_passed_over(m);
            assert forall|k: int| !#[trigger] usable_run(devices@, answers@, k, n, e) by {
                if usable_run(devices@, answers@, k, n, e) {
                    lemma_range_exhausted(m, answers@, k);
                    lemma_usable_is_good(m, answers@, k);
                }
            }
        }
    }
    search.result()
}

proof fn lemma_quotient(k: int, erase_size: int)
    requires
        erase_size > 0,
    ensures
        (k * erase_size) / erase_size == k,
{
    vstd::arithmetic::div_mod::lemma_div_multiples_vanish(k, erase_size);
    assert(k * erase_size == erase_size * k) by (nonlinear_arith);
}

} // verus!
