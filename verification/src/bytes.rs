//! Numbers as bytes, and writing bytes into a buffer.
use vstd::prelude::*;

verus! {

/// The number that `bytes` stand for, least significant byte first.
pub open spec fn le_value(bytes: Seq<u8>) -> nat
    decreases bytes.len(),
{
    if bytes.len() == 0 {
        0
    } else {
        bytes[0] as nat + 256 * le_value(bytes.drop_first())
    }
}

/// The number that `bytes` stand for, most significant byte first.
pub open spec fn be_value(bytes: Seq<u8>) -> nat
    decreases bytes.len(),
{
    if bytes.len() == 0 {
        0
    } else {
        256 * be_value(bytes.drop_last()) + bytes.last() as nat
    }
}

/// The `n` low bytes of `value`, most significant byte first.
pub open spec fn be_bytes(value: nat, n: nat) -> Seq<u8>
    decreases n,
{
    if n == 0 {
        Seq::empty()
    } else {
        be_bytes(value / 256, (n - 1) as nat).push((value % 256) as u8)
    }
}

/// `n` bytes of value `byte`.
pub open spec fn filled(byte: u8, n: nat) -> Seq<u8> {
    Seq::new(n, |i: int| byte)
}

/// `buffer` with `bytes` in place of what stood at `at`.
pub open spec fn overwritten(buffer: Seq<u8>, at: int, bytes: Seq<u8>) -> Seq<u8> {
    buffer.take(at) + bytes + buffer.skip(at + bytes.len())
}

/// `be_bytes` gives as many bytes as were asked for.
pub proof fn lemma_be_bytes_len(value: nat, n: nat)
    ensures
        be_bytes(value, n).len() == n,
    decreases n,
{
    if n > 0 {
        lemma_be_bytes_len(value / 256, (n - 1) as nat);
    }
}

/// The bytes of a number that fits in them stand for that number.
pub proof fn law_be_round_trip(value: nat, n: nat)
    requires
        value < vstd::arithmetic::power::pow(256, n),
    ensures
        be_value(be_bytes(value, n)) == value,
    decreases n,
{
    vstd::arithmetic::power::lemma_pow0(256);
    if n > 0 {
        let high = (n - 1) as nat;
        let limit = vstd::arithmetic::power::pow(256, high);
        assert(vstd::arithmetic::power::pow(256, n) == 256 * limit) by {
            reveal(vstd::arithmetic::power::pow);
        }
        assert(value / 256 < limit) by (nonlinear_arith)
            requires
                value < 256 * limit,
        ;
        law_be_round_trip(value / 256, high);
        assert(be_bytes(value, n).drop_last() =~= be_bytes(value / 256, high));
    }
}

/// Copies `bytes` into `dst` at `offset`.
pub fn copy_into(dst: &mut [u8], offset: usize, bytes: &[u8])
    requires
        offset + bytes@.len() <= old(dst)@.len(),
    ensures
        final(dst)@ == overwritten(old(dst)@, offset as int, bytes@),
{
    let ghost before = dst@;
    let len: usize = bytes.len();
    let total: usize = dst.len();
    assert(overwritten(before, offset as int, bytes@.take(0)) =~= before);
    for i in 0..len
        invariant
            len == bytes@.len(),
            offset + len <= total,
            total == before.len(),
            dst@.len() == before.len(),
            dst@ == overwritten(before, offset as int, bytes@.take(i as int)),
    {
        dst[offset + i] = bytes[i];
        assert(dst@ =~= overwritten(before, offset as int, bytes@.take(i + 1)));
    }
    assert(bytes@.take(len as int) =~= bytes@);
}

/// The `n` low bytes of `value`, most significant first.
pub fn to_be_bytes(value: u64, n: usize) -> (bytes: Vec<u8>)
    ensures
        bytes@ == be_bytes(value as nat, n as nat),
    decreases n,
{
    if n == 0 {
        let bytes: Vec<u8> = Vec::new();
        assert(bytes@ =~= be_bytes(value as nat, 0));
        bytes
    } else {
        let mut bytes = to_be_bytes(value / 256, n - 1);
        bytes.push((value % 256) as u8);
        bytes
    }
}

/// Writes `value` at `offset`, most significant byte first.
pub fn put_u16_be(dst: &mut [u8], offset: usize, value: u16)
    requires
        offset + 2 <= old(dst)@.len(),
    ensures
        final(dst)@ == overwritten(old(dst)@, offset as int, be_bytes(value as nat, 2)),
{
    proof {
        lemma_be_bytes_len(value as nat, 2);
    }
    copy_into(dst, offset, &to_be_bytes(value as u64, 2));
}

/// Writes `value` at `offset`, most significant byte first.
pub fn put_u32_be(dst: &mut [u8], offset: usize, value: u32)
    requires
        offset + 4 <= old(dst)@.len(),
    ensures
        final(dst)@ == overwritten(old(dst)@, offset as int, be_bytes(value as nat, 4)),
{
    proof {
        lemma_be_bytes_len(value as nat, 4);
    }
    copy_into(dst, offset, &to_be_bytes(value as u64, 4));
}

/// Writes `value` at `offset`, most significant byte first.
pub fn put_u64_be(dst: &mut [u8], offset: usize, value: u64)
    requires
        offset + 8 <= old(dst)@.len(),
    ensures
        final(dst)@ == overwritten(old(dst)@, offset as int, be_bytes(value as nat, 8)),
{
    proof {
        lemma_be_bytes_len(value as nat, 8);
    }
    copy_into(dst, offset, &to_be_bytes(value, 8));
}

/// The low byte of a number stands last, and what is left of the number before it.
pub proof fn law_be_bytes(value: nat, n: nat)
    requires
        n > 0,
    ensures
        be_bytes(value, n).len() == n,
        be_bytes(value, n)[n - 1] == value % 256,
        be_bytes(value, n).take(n - 1) == be_bytes(value / 256, (n - 1) as nat),
{
    lemma_be_bytes_len(value, n);
    lemma_be_bytes_len(value / 256, (n - 1) as nat);
    assert(be_bytes(value, n).take(n - 1) =~= be_bytes(value / 256, (n - 1) as nat));
}

/// Bytes that are written into a buffer stand where they were written, and the rest of
/// the buffer stays as it was.
pub proof fn law_overwritten(buffer: Seq<u8>, at: int, bytes: Seq<u8>, i: int)
    requires
        0 <= at,
        at + bytes.len() <= buffer.len(),
        0 <= i < buffer.len(),
    ensures
        overwritten(buffer, at, bytes).len() == buffer.len(),
        overwritten(buffer, at, bytes)[i] == if at <= i < at + bytes.len() {
            bytes[i - at]
        } else {
            buffer[i]
        },
{
}

} // verus!
