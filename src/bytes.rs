//! Little-endian field access and byte-run helpers shared by the codecs.
use byteorder::{ByteOrder, LittleEndian};
use vstd::bytes::{
    spec_u16_from_le_bytes, spec_u16_to_le_bytes, spec_u32_from_le_bytes, spec_u32_to_le_bytes,
    spec_u64_from_le_bytes, spec_u64_to_le_bytes,
};
use vstd::prelude::*;

verus! {

/// Relies on byteorder's `LittleEndian::read_u16`: the value of two little-endian bytes.
#[verifier::external_body]
pub(crate) fn read_u16_le(b: &[u8]) -> (r: u16)
    requires
        b@.len() == 2,
    ensures
        r == spec_u16_from_le_bytes(b@),
{
    LittleEndian::read_u16(b)
}

/// Relies on byteorder's `LittleEndian::read_u32`: the value of four little-endian bytes.
#[verifier::external_body]
pub(crate) fn read_u32_le(b: &[u8]) -> (r: u32)
    requires
        b@.len() == 4,
    ensures
        r == spec_u32_from_le_bytes(b@),
{
    LittleEndian::read_u32(b)
}

/// Relies on byteorder's `LittleEndian::read_u64`: the value of eight little-endian bytes.
#[verifier::external_body]
pub(crate) fn read_u64_le(b: &[u8]) -> (r: u64)
    requires
        b@.len() == 8,
    ensures
        r == spec_u64_from_le_bytes(b@),
{
    LittleEndian::read_u64(b)
}

/// Relies on byteorder's `LittleEndian::write_u16`: the two little-endian bytes of `n`.
#[verifier::external_body]
pub(crate) fn u16_le(n: u16) -> (r: [u8; 2])
    ensures
        r@ == spec_u16_to_le_bytes(n),
{
    let mut b = [0u8; 2];
    LittleEndian::write_u16(&mut b, n);
    b
}

/// Relies on byteorder's `LittleEndian::write_u32`: the four little-endian bytes of `n`.
#[verifier::external_body]
pub(crate) fn u32_le(n: u32) -> (r: [u8; 4])
    ensures
        r@ == spec_u32_to_le_bytes(n),
{
    let mut b = [0u8; 4];
    LittleEndian::write_u32(&mut b, n);
    b
}

/// Relies on byteorder's `LittleEndian::write_u64`: the eight little-endian bytes of `n`.
#[verifier::external_body]
pub(crate) fn u64_le(n: u64) -> (r: [u8; 8])
    ensures
        r@ == spec_u64_to_le_bytes(n),
{
    let mut b = [0u8; 8];
    LittleEndian::write_u64(&mut b, n);
    b
}

/// Appends a run of bytes to the end of `out`.
pub fn append_bytes(out: &mut Vec<u8>, src: &[u8])
    ensures
        final(out)@ == old(out)@ + src@,
{
    let n = src.len();
    let mut i: usize = 0;
    while i < n
        invariant
            n == src@.len(),
            i <= n,
            out@ == old(out)@ + src@.take(i as int),
        decreases n - i,
    {
        out.push(src[i]);
        i += 1;
        assert(src@.take(i as int) =~= src@.take(i - 1) + seq![src@[i - 1]]);
    }
    assert(src@.take(n as int) =~= src@);
}

/// Copies the `N` bytes of `src` that begin at `start` into a fixed-size block.
pub fn to_block<const N: usize>(src: &[u8], start: usize) -> (r: [u8; N])
    requires
        start + N <= src@.len(),
    ensures
        r@ == src@.subrange(start as int, start + N),
{
    let len = src.len();
    let mut block = [0u8; N];
    let mut i: usize = 0;
    while i < N
        invariant
            len == src@.len(),
            start + N <= len,
            i <= N,
            block@.len() == N,
            forall|j: int| 0 <= j < i ==> block@[j] == src@[start + j],
        decreases N - i,
    {
        block[i] = src[start + i];
        i += 1;
    }
    assert(block@ =~= src@.subrange(start as int, start + N));
    block
}

} // verus!
