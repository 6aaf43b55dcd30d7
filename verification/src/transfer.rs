//! Reads, writes and verified eraseblock writes.
//!
//! A device moves as many bytes at a time as it likes. A transfer says what to
//! ask for next, and takes what came of it.
use vstd::prelude::*;

use crate::bytes;
use crate::mtd;
use crate::mtd::{MtdDevice, MtdError, MtdErrorKind};
use crate::number;
use crate::number::push_hexadecimal;

verus! {

/// A transfer of `len` bytes at `offset` stays within the addresses that 64 bits
/// can hold.
pub open spec fn within_addresses(offset: int, len: int) -> bool {
    0 <= offset && offset + len <= u64::MAX + 1
}

// ---------------------------------------------------------------------------
// Reading
// ---------------------------------------------------------------------------

/// A read under way: where it starts, how many bytes it is to read, and those
/// that it has read.
pub struct ReadModel {
    pub offset: int,
    pub len: nat,
    pub data: Seq<u8>,
}

impl ReadModel {
    /// Where the next byte is read.
    pub open spec fn position(self) -> int {
        self.offset + self.data.len()
    }

    /// How many bytes are still to be read.
    pub open spec fn left(self) -> int {
        self.len - self.data.len()
    }

    /// The read with the bytes that came next.
    pub open spec fn with(self, bytes: Seq<u8>) -> ReadModel {
        ReadModel { data: self.data + bytes, ..self }
    }

    pub open spec fn valid(self) -> bool {
        &&& self.data.len() <= self.len
        &&& within_addresses(self.offset, self.len as int)
    }
}

/// What the device said where it had no more to give.
pub open spec fn ended_early() -> mtd::Failure {
    mtd::Failure { kind: MtdErrorKind::UnexpectedEof, message: "MTD read ended early"@ }
}

/// A read of a number of bytes, however many come at a time.
#[derive(Debug)]
pub struct ReadTransfer {
    offset: u64,
    len: usize,
    data: Vec<u8>,
}

impl View for ReadTransfer {
    type V = ReadModel;

    closed spec fn view(&self) -> ReadModel {
        ReadModel { offset: self.offset as int, len: self.len as nat, data: self.data@ }
    }
}

impl ReadTransfer {
    /// Starts a read of `len` bytes at `offset`.
    pub fn start(offset: u64, len: usize) -> (transfer: Self)
        requires
            within_addresses(offset as int, len as int),
        ensures
            transfer@.valid(),
            transfer@ == (ReadModel { offset: offset as int, len: len as nat, data: Seq::empty() }),
    {
        ReadTransfer { offset, len, data: Vec::new() }
    }

    /// How many bytes to read next, and where; nothing once all are there.
    pub fn pending(&self) -> (next: Option<(usize, u64)>)
        requires
            self@.valid(),
        ensures
            match next {
                Some((count, position)) => {
                    &&& self@.left() > 0
                    &&& count == self@.left()
                    &&& position == self@.position()
                },
                None => self@.left() == 0,
            },
    {
        if self.data.len() == self.len {
            None
        } else {
            Some((self.len - self.data.len(), self.offset + self.data.len() as u64))
        }
    }

    /// Takes the bytes that the device gave.
    pub fn accept(&mut self, bytes: &[u8]) -> (result: Result<(), MtdError>)
        requires
            old(self)@.valid(),
            bytes@.len() <= old(self)@.left(),
        ensures
            final(self)@.valid(),
            final(self)@ == old(self)@.with(bytes@),
            match result {
                Ok(()) => bytes@.len() > 0,
                Err(error) => bytes@.len() == 0 && error@ == ended_early(),
            },
    {
        let ghost before = self@;
        self.data.extend_from_slice(bytes);
        assert(self.data@ =~= before.data + bytes@);
        if bytes.len() == 0 {
            Err(
                MtdError {
                    kind: MtdErrorKind::UnexpectedEof,
                    message: "MTD read ended early".to_string(),
                },
            )
        } else {
            Ok(())
        }
    }

    /// The bytes that were read.
    pub fn finish(self) -> (data: Vec<u8>)
        requires
            self@.valid(),
            self@.left() == 0,
        ensures
            data@ == self@.data,
            data@.len() == self@.len,
    {
        self.data
    }
}

/// A read has taken what `content` holds from its start on.
pub open spec fn reads(m: ReadModel, content: Seq<u8>) -> bool {
    &&& m.offset + m.len <= content.len()
    &&& m.data == content.subrange(m.offset, m.position())
}

/// Where every reply holds the bytes that the device has at the place asked for,
/// the read holds them one behind the other.
pub proof fn law_read_follows_content(m: ReadModel, content: Seq<u8>, bytes: Seq<u8>)
    requires
        m.valid(),
        reads(m, content),
        bytes.len() <= m.left(),
        bytes == content.subrange(m.position(), m.position() + bytes.len()),
    ensures
        reads(m.with(bytes), content),
{
    assert(m.with(bytes).data =~= content.subrange(m.offset, m.with(bytes).position()));
}

/// A read that is complete holds exactly the bytes that were asked for.
pub proof fn law_read_exact(m: ReadModel, content: Seq<u8>)
    requires
        m.valid(),
        reads(m, content),
        m.left() == 0,
    ensures
        m.data == content.subrange(m.offset, m.offset + m.len),
{
}

// ---------------------------------------------------------------------------
// Writing
// ---------------------------------------------------------------------------

/// A write under way: where it starts, what it is to write, and how many bytes
/// of it were written.
pub struct WriteModel {
    pub offset: int,
    pub data: Seq<u8>,
    pub done: nat,
}

impl WriteModel {
    /// Where the next byte is written.
    pub open spec fn position(self) -> int {
        self.offset + self.done
    }

    /// What is still to be written.
    pub open spec fn rest(self) -> Seq<u8> {
        self.data.skip(self.done as int)
    }

    /// The write with `count` more bytes written.
    pub open spec fn with(self, count: nat) -> WriteModel {
        WriteModel { done: self.done + count, ..self }
    }

    pub open spec fn valid(self) -> bool {
        &&& self.done <= self.data.len()
        &&& within_addresses(self.offset, self.data.len() as int)
    }
}

/// What is said of a device that takes nothing.
pub open spec fn wrote_nothing() -> mtd::Failure {
    mtd::Failure { kind: MtdErrorKind::WriteZero, message: "MTD write returned zero bytes"@ }
}

/// A write of some bytes, however many go at a time.
#[derive(Debug)]
pub struct WriteTransfer<'a> {
    offset: u64,
    data: &'a [u8],
    done: usize,
}

impl<'a> View for WriteTransfer<'a> {
    type V = WriteModel;

    closed spec fn view(&self) -> WriteModel {
        WriteModel { offset: self.offset as int, data: self.data@, done: self.done as nat }
    }
}

impl<'a> WriteTransfer<'a> {
    /// Starts a write of `data` at `offset`.
    pub fn start(offset: u64, data: &'a [u8]) -> (transfer: Self)
        requires
            within_addresses(offset as int, data@.len() as int),
        ensures
            transfer@.valid(),
            transfer@ == (WriteModel { offset: offset as int, data: data@, done: 0 }),
    {
        WriteTransfer { offset, data, done: 0 }
    }

    /// What to write next, and where; nothing once all is written.
    pub fn pending(&self) -> (next: Option<(&'a [u8], u64)>)
        requires
            self@.valid(),
        ensures
            match next {
                Some((rest, position)) => {
                    &&& rest@.len() > 0
                    &&& rest@ == self@.rest()
                    &&& position == self@.position()
                },
                None => self@.rest().len() == 0,
            },
    {
        if self.done == self.data.len() {
            None
        } else {
            let rest = vstd::slice::slice_subrange(self.data, self.done, self.data.len());
            assert(rest@ =~= self@.rest());
            Some((rest, self.offset + self.done as u64))
        }
    }

    /// Takes how many bytes the device took.
    pub fn accept(&mut self, count: usize) -> (result: Result<(), MtdError>)
        requires
            old(self)@.valid(),
            count <= old(self)@.rest().len(),
        ensures
            final(self)@.valid(),
            final(self)@ == old(self)@.with(count as nat),
            match result {
                Ok(()) => count > 0,
                Err(error) => count == 0 && error@ == wrote_nothing(),
            },
    {
        assert(self.data.len() == self.data@.len());
        self.done = self.done + count;
        if count == 0 {
            Err(
                MtdError {
                    kind: MtdErrorKind::WriteZero,
                    message: "MTD write returned zero bytes".to_string(),
                },
            )
        } else {
            Ok(())
        }
    }
}

/// A device that held `before` now holds what a write has written to it.
pub open spec fn stored(m: WriteModel, before: Seq<u8>, now: Seq<u8>) -> bool {
    &&& m.offset + m.data.len() <= before.len()
    &&& now == bytes::overwritten(before, m.offset, m.data.take(m.done as int))
}

/// Where the device takes the first `count` bytes of what it is given, at the
/// place it is given, it holds what was written one behind the other.
pub proof fn law_write_follows_data(m: WriteModel, before: Seq<u8>, now: Seq<u8>, count: nat)
    requires
        m.valid(),
        stored(m, before, now),
        count <= m.rest().len(),
    ensures
        stored(
            m.with(count),
            before,
            bytes::overwritten(now, m.position(), m.rest().take(count as int)),
        ),
{
    assert(bytes::overwritten(now, m.position(), m.rest().take(count as int))
        =~= bytes::overwritten(before, m.offset, m.data.take(m.done as int + count)));
}

/// A device that a write is complete on holds exactly what was written, in its
/// place, and what it held elsewhere.
pub proof fn law_write_complete(m: WriteModel, before: Seq<u8>, now: Seq<u8>)
    requires
        m.valid(),
        stored(m, before, now),
        m.rest().len() == 0,
    ensures
        now == bytes::overwritten(before, m.offset, m.data),
        now.subrange(m.offset, m.offset + m.data.len()) == m.data,
{
    assert(m.data.take(m.done as int) =~= m.data);
    assert(now.subrange(m.offset, m.offset + m.data.len()) =~= m.data);
}

// ---------------------------------------------------------------------------
// Eraseblocks
// ---------------------------------------------------------------------------

/// The write of an eraseblock under way: through which device's files, the write,
/// whether the device has committed it, and the readback.
pub struct EraseblockModel {
    pub handle: usize,
    pub write: WriteModel,
    pub flushed: bool,
    pub readback: ReadModel,
}

impl EraseblockModel {
    /// The write of `expected` at `offset`, of which nothing was done yet.
    pub open spec fn begun(handle: usize, offset: int, expected: Seq<u8>) -> EraseblockModel {
        EraseblockModel {
            handle,
            write: WriteModel { offset, data: expected, done: 0 },
            flushed: false,
            readback: ReadModel { offset, len: expected.len(), data: Seq::empty() },
        }
    }

    /// Something is still to be written.
    pub open spec fn writing(self) -> bool {
        self.write.rest().len() > 0
    }

    /// All is written, and to be committed.
    pub open spec fn flushing(self) -> bool {
        !self.writing() && !self.flushed
    }

    /// All is committed, and something is still to be read back.
    pub open spec fn reading(self) -> bool {
        self.flushed && self.readback.left() > 0
    }

    /// All is read back.
    pub open spec fn complete(self) -> bool {
        self.flushed && self.readback.left() == 0
    }

    /// What holds of every write of an eraseblock: nothing is committed before it
    /// is written, and nothing read back before it is committed.
    pub open spec fn valid(self) -> bool {
        &&& self.write.valid()
        &&& self.readback.valid()
        &&& self.readback.offset == self.write.offset
        &&& self.readback.len == self.write.data.len()
        &&& self.flushed ==> !self.writing()
        &&& !self.flushed ==> self.readback.data.len() == 0
    }
}

/// A failure with the step that it came in, and the place.
pub open spec fn failed_at(step: Seq<char>, offset: int, failure: mtd::Failure) -> mtd::Failure {
    mtd::Failure {
        kind: failure.kind,
        message: step + " offset 0x"@ + number::hexadecimal(offset as nat) + " failed: "@
            + failure.message,
    }
}

/// What is to be done next to write an eraseblock.
#[derive(Debug)]
pub enum EraseblockStep<'a> {
    /// Write these bytes to the block device, at this place.
    Write(&'a [u8], u64),
    /// Have the block device commit what it holds.
    Flush,
    /// Read this many bytes from the character device, at this place.
    Read(usize, u64),
    /// Nothing.
    Finish,
}

/// The write of an eraseblock: it is written, committed and read back.
#[derive(Debug)]
pub struct EraseblockWrite<'a> {
    handle: usize,
    offset: u64,
    expected: &'a [u8],
    write: WriteTransfer<'a>,
    flushed: bool,
    readback: ReadTransfer,
}

impl<'a> View for EraseblockWrite<'a> {
    type V = EraseblockModel;

    closed spec fn view(&self) -> EraseblockModel {
        EraseblockModel {
            handle: self.handle,
            write: self.write@,
            flushed: self.flushed,
            readback: self.readback@,
        }
    }
}

fn fail_at(step: &str, offset: u64, error: MtdError) -> (failed: MtdError)
    ensures
        failed@ == failed_at(step@, offset as int, error@),
{
    let mut message = step.to_string();
    message.append(" offset 0x");
    push_hexadecimal(&mut message, offset);
    message.append(" failed: ");
    message.append(error.message.as_str());
    MtdError { kind: error.kind, message }
}

impl<'a> EraseblockWrite<'a> {
    /// The write is valid, and its fields agree.
    pub closed spec fn wf(&self) -> bool {
        &&& self@.valid()
        &&& self.offset == self@.write.offset
        &&& self.expected@ == self@.write.data
    }

    /// What holds of every write of an eraseblock holds of this one.
    pub proof fn law_eraseblock_valid(&self)
        requires
            self.wf(),
        ensures
            self@.valid(),
    {
    }

    /// What to do next.
    pub fn step(&self) -> (step: EraseblockStep<'a>)
        requires
            self.wf(),
        ensures
            match step {
                EraseblockStep::Write(rest, position) => {
                    &&& self@.writing()
                    &&& rest@ == self@.write.rest()
                    &&& position == self@.write.position()
                },
                EraseblockStep::Flush => self@.flushing(),
                EraseblockStep::Read(count, position) => {
                    &&& self@.reading()
                    &&& count == self@.readback.left()
                    &&& position == self@.readback.position()
                },
                EraseblockStep::Finish => self@.complete(),
            },
    {
        if let Some((rest, position)) = self.write.pending() {
            return EraseblockStep::Write(rest, position);
        }
        if !self.flushed {
            return EraseblockStep::Flush;
        }
        if let Some((count, position)) = self.readback.pending() {
            return EraseblockStep::Read(count, position);
        }
        EraseblockStep::Finish
    }

    /// Takes how many bytes the block device took, or why it took none.
    pub fn wrote(&mut self, outcome: Result<usize, MtdError>) -> (result: Result<(), MtdError>)
        requires
            old(self).wf(),
            old(self)@.writing(),
            outcome matches Ok(count) ==> count <= old(self)@.write.rest().len(),
        ensures
            final(self).wf(),
            match outcome {
                Ok(count) => {
                    &&& final(self)@ == (EraseblockModel {
                        write: old(self)@.write.with(count as nat),
                        ..old(self)@
                    })
                    &&& match result {
                        Ok(()) => count > 0,
                        Err(error) => count == 0 && error@ == failed_at(
                            "mtdblock write at"@,
                            old(self)@.write.offset,
                            wrote_nothing(),
                        ),
                    }
                },
                Err(failure) => {
                    &&& final(self)@ == old(self)@
                    &&& result matches Err(error) && error@ == failed_at(
                        "mtdblock write at"@,
                        old(self)@.write.offset,
                        failure@,
                    )
                },
            },
    {
        match outcome {
            Ok(count) => match self.write.accept(count) {
                Ok(()) => Ok(()),
                Err(error) => Err(fail_at("mtdblock write at", self.offset, error)),
            },
            Err(failure) => Err(fail_at("mtdblock write at", self.offset, failure)),
        }
    }

    /// Takes whether the block device has committed what was written, or why not.
    pub fn flush_done(&mut self, outcome: Result<(), MtdError>) -> (result: Result<(), MtdError>)
        requires
            old(self).wf(),
            old(self)@.flushing(),
        ensures
            final(self).wf(),
            match outcome {
                Ok(()) => {
                    &&& result is Ok
                    &&& final(self)@ == (EraseblockModel { flushed: true, ..old(self)@ })
                },
                Err(failure) => {
                    &&& final(self)@ == old(self)@
                    &&& result matches Err(error) && error@ == failed_at(
                        "mtdblock flush at"@,
                        old(self)@.write.offset,
                        failure@,
                    )
                },
            },
    {
        match outcome {
            Ok(()) => {
                self.flushed = true;
                Ok(())
            },
            Err(failure) => Err(fail_at("mtdblock flush at", self.offset, failure)),
        }
    }

    /// Takes the bytes that the character device gave, or why it gave none.
    pub fn read_back(&mut self, outcome: Result<&[u8], MtdError>) -> (result: Result<(), MtdError>)
        requires
            old(self).wf(),
            old(self)@.reading(),
            outcome matches Ok(data) ==> data@.len() <= old(self)@.readback.left(),
        ensures
            final(self).wf(),
            match outcome {
                Ok(data) => {
                    &&& final(self)@ == (EraseblockModel {
                        readback: old(self)@.readback.with(data@),
                        ..old(self)@
                    })
                    &&& match result {
                        Ok(()) => data@.len() > 0,
                        Err(error) => data@.len() == 0 && error@ == failed_at(
                            "Readback at partition"@,
                            old(self)@.write.offset,
                            ended_early(),
                        ),
                    }
                },
                Err(failure) => {
                    &&& final(self)@ == old(self)@
                    &&& result matches Err(error) && error@ == failed_at(
                        "Readback at partition"@,
                        old(self)@.write.offset,
                        failure@,
                    )
                },
            },
    {
        match outcome {
            Ok(data) => match self.readback.accept(data) {
                Ok(()) => Ok(()),
                Err(error) => Err(fail_at("Readback at partition", self.offset, error)),
            },
            Err(failure) => Err(fail_at("Readback at partition", self.offset, failure)),
        }
    }

    /// Compares what was read back with what was to be written.
    pub fn finish(self) -> (result: Result<(), MtdError>)
        requires
            self.wf(),
            self@.complete(),
        ensures
            match result {
                Ok(()) => self@.readback.data == self@.write.data,
                Err(error) => {
                    &&& self@.readback.data != self@.write.data
                    &&& error@.kind == MtdErrorKind::InvalidData
                    &&& error@.message == "MTD readback differs from the written data"@
                },
            },
    {
        let expected = self.expected;
        let actual = self.readback.finish();
        for i in 0..actual.len()
            invariant
                expected@.len() == actual@.len(),
                self@.readback.data == actual@,
                self@.write.data == expected@,
                forall|j: int| 0 <= j < i ==> actual@[j] == expected@[j],
        {
            if actual[i] != expected[i] {
                return Err(
                    MtdError {
                        kind: MtdErrorKind::InvalidData,
                        message: "MTD readback differs from the written data".to_string(),
                    },
                );
            }
        }
        assert(actual@ =~= expected@);
        Ok(())
    }
}

impl MtdDevice {
    /// Starts a read of `len` bytes at `offset`.
    pub fn read_exact_at(&self, offset: u64, len: usize) -> (transfer: ReadTransfer)
        requires
            within_addresses(offset as int, len as int),
        ensures
            transfer@.valid(),
            transfer@ == (ReadModel { offset: offset as int, len: len as nat, data: Seq::empty() }),
    {
        ReadTransfer::start(offset, len)
    }

    /// Starts the write of an eraseblock.
    pub fn write_eraseblock<'a>(&self, offset: u64, expected: &'a [u8]) -> (result: Result<
        EraseblockWrite<'a>,
        MtdError,
    >)
        requires
            within_addresses(offset as int, expected@.len() as int),
        ensures
            match result {
                Ok(write) => {
                    &&& expected@.len() == self.erase_size
                    &&& write.wf()
                    &&& write@ == EraseblockModel::begun(self.handle, offset as int, expected@)
                },
                Err(error) => {
                    &&& expected@.len() != self.erase_size
                    &&& error@.kind == MtdErrorKind::InvalidInput
                    &&& error@.message == "Write length does not match the eraseblock size"@
                },
            },
    {
        if expected.len() as u64 != self.erase_size {
            return Err(
                MtdError {
                    kind: MtdErrorKind::InvalidInput,
                    message: "Write length does not match the eraseblock size".to_string(),
                },
            );
        }
        Ok(
            EraseblockWrite {
                handle: self.handle,
                offset,
                expected,
                write: WriteTransfer::start(offset, expected),
                flushed: false,
                readback: ReadTransfer::start(offset, expected.len()),
            },
        )
    }
}

/// An eraseblock whose write has succeeded is on the device: where the readback
/// took what the device holds and agrees with what was to be written, the device
/// holds it in its place.
pub proof fn law_verified_write(m: EraseblockModel, content: Seq<u8>)
    requires
        m.valid(),
        m.complete(),
        reads(m.readback, content),
        m.readback.data == m.write.data,
    ensures
        content.subrange(m.write.offset, m.write.offset + m.write.data.len()) == m.write.data,
        m.write.done == m.write.data.len(),
{
}

// ---------------------------------------------------------------------------
// What the steps are
// ---------------------------------------------------------------------------

/// A read asks for all that is missing, at the place behind what it has, and adds
/// what comes at the end.
pub proof fn law_read_steps(m: ReadModel, bytes: Seq<u8>)
    ensures
        m.position() == m.offset + m.data.len(),
        m.left() == m.len - m.data.len(),
        m.with(bytes).offset == m.offset,
        m.with(bytes).len == m.len,
        m.with(bytes).data == m.data + bytes,
        m.valid() <==> m.data.len() <= m.len && 0 <= m.offset && m.offset + m.len
            <= 0x1_0000_0000_0000_0000,
        within_addresses(m.offset, m.len as int) <==> 0 <= m.offset && m.offset + m.len
            <= 0x1_0000_0000_0000_0000,
{
}

/// A write gives all that is left, at the place behind what is written.
pub proof fn law_write_steps(m: WriteModel, count: nat)
    requires
        m.valid(),
    ensures
        m.position() == m.offset + m.done,
        m.rest() == m.data.subrange(m.done as int, m.data.len() as int),
        m.with(count).offset == m.offset,
        m.with(count).data == m.data,
        m.with(count).done == m.done + count,
{
}

/// An eraseblock is written until nothing is left, then committed once, then read
/// back until nothing is missing, and then it is complete: at any time exactly one
/// of these is due.
pub proof fn law_eraseblock_steps(m: EraseblockModel)
    requires
        m.valid(),
    ensures
        m.writing() <==> m.write.done < m.write.data.len(),
        m.flushing() <==> m.write.done == m.write.data.len() && !m.flushed,
        m.reading() <==> m.flushed && m.readback.data.len() < m.write.data.len(),
        m.complete() <==> m.flushed && m.readback.data.len() == m.write.data.len(),
        m.writing() || m.flushing() || m.reading() || m.complete(),
        m.writing() ==> !m.flushed && m.readback.data.len() == 0,
        m.flushing() ==> m.readback.data.len() == 0,
{
}

/// The write of an eraseblock begins with nothing done, and reads back as many bytes
/// from where it writes them.
pub proof fn law_eraseblock_begun(handle: usize, offset: int, expected: Seq<u8>)
    ensures
        ({
            let m = EraseblockModel::begun(handle, offset, expected);
            &&& m.handle == handle
            &&& m.write.offset == offset
            &&& m.write.data == expected
            &&& m.write.done == 0
            &&& !m.flushed
            &&& m.readback.offset == offset
            &&& m.readback.len == expected.len()
            &&& m.readback.data == Seq::<u8>::empty()
        }),
{
}

/// A failure keeps its kind and its words; the step and the place, in hexadecimal,
/// come before them.
pub proof fn law_failure_named(step: Seq<char>, offset: nat, failure: mtd::Failure)
    ensures
        failed_at(step, offset as int, failure).kind == failure.kind,
        failed_at(step, offset as int, failure).message == step + " offset 0x"@ + number::digits(
            offset,
            16,
        ) + " failed: "@ + failure.message,
        ended_early().kind == MtdErrorKind::UnexpectedEof,
        ended_early().message == "MTD read ended early"@,
        wrote_nothing().kind == MtdErrorKind::WriteZero,
        wrote_nothing().message == "MTD write returned zero bytes"@,
{
}

} // verus!
