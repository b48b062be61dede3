//! Little-endian access to byte buffers, through the `byteorder` crate.
use byteorder::{ByteOrder, LittleEndian};
use vstd::bytes::*;
use vstd::prelude::*;

verus! {

/// Calls `byteorder::LittleEndian::read_u16` on the bytes of `bytes` that
/// start at `pos`. Claims: the result is the little-endian value of the two
/// bytes at `pos` (byteorder reads them with `u16::from_le_bytes`).
#[verifier::external_body]
pub(crate) fn read_u16_at(bytes: &[u8], pos: usize) -> (r: u16)
    requires
        pos + 2 <= bytes@.len(),
    ensures
        r == spec_u16_from_le_bytes(bytes@.subrange(pos as int, pos + 2)),
{
    LittleEndian::read_u16(&bytes[pos..])
}

/// Calls `byteorder::LittleEndian::read_u32` on the bytes of `bytes` that
/// start at `pos`. Claims: the result is the little-endian value of the four
/// bytes at `pos`.
#[verifier::external_body]
pub(crate) fn read_u32_at(bytes: &[u8], pos: usize) -> (r: u32)
    requires
        pos + 4 <= bytes@.len(),
    ensures
        r == spec_u32_from_le_bytes(bytes@.subrange(pos as int, pos + 4)),
{
    LittleEndian::read_u32(&bytes[pos..])
}

/// Calls `byteorder::LittleEndian::read_u64` on the bytes of `bytes` that
/// start at `pos`. Claims: the result is the little-endian value of the eight
/// bytes at `pos`.
#[verifier::external_body]
pub(crate) fn read_u64_at(bytes: &[u8], pos: usize) -> (r: u64)
    requires
        pos + 8 <= bytes@.len(),
    ensures
        r == spec_u64_from_le_bytes(bytes@.subrange(pos as int, pos + 8)),
{
    LittleEndian::read_u64(&bytes[pos..])
}

/// Calls `byteorder::LittleEndian::write_u16` on the part of `out` that starts
/// at `pos`. Claims: the two bytes at `pos` become the little-endian bytes of
/// `n` and every other byte is left as it was (byteorder copies
/// `n.to_le_bytes()` into the first two bytes of the slice it is given).
#[verifier::external_body]
pub(crate) fn write_u16_at(out: &mut [u8], pos: usize, n: u16)
    requires
        pos + 2 <= old(out)@.len(),
    ensures
        final(out)@ == old(out)@.subrange(0, pos as int) + spec_u16_to_le_bytes(n)
            + old(out)@.subrange(pos + 2, old(out)@.len() as int),
{
    LittleEndian::write_u16(&mut out[pos..], n)
}

/// Calls `byteorder::LittleEndian::write_u32` on the part of `out` that starts
/// at `pos`. Claims: the four bytes at `pos` become the little-endian bytes of
/// `n` and every other byte is left as it was.
#[verifier::external_body]
pub(crate) fn write_u32_at(out: &mut [u8], pos: usize, n: u32)
    requires
        pos + 4 <= old(out)@.len(),
    ensures
        final(out)@ == old(out)@.subrange(0, pos as int) + spec_u32_to_le_bytes(n)
            + old(out)@.subrange(pos + 4, old(out)@.len() as int),
{
    LittleEndian::write_u32(&mut out[pos..], n)
}

/// Calls `byteorder::LittleEndian::write_u64` on the part of `out` that starts
/// at `pos`. Claims: the eight bytes at `pos` become the little-endian bytes of
/// `n` and every other byte is left as it was.
#[verifier::external_body]
pub(crate) fn write_u64_at(out: &mut [u8], pos: usize, n: u64)
    requires
        pos + 8 <= old(out)@.len(),
    ensures
        final(out)@ == old(out)@.subrange(0, pos as int) + spec_u64_to_le_bytes(n)
            + old(out)@.subrange(pos + 8, old(out)@.len() as int),
{
    LittleEndian::write_u64(&mut out[pos..], n)
}

/// The lengths of the little-endian encodings.
pub(crate) proof fn lemma_le_lengths()
    ensures
        forall|x: u16| #[trigger] spec_u16_to_le_bytes(x).len() == 2,
        forall|x: u32| #[trigger] spec_u32_to_le_bytes(x).len() == 4,
        forall|x: u64| #[trigger] spec_u64_to_le_bytes(x).len() == 8,
{
    lemma_auto_spec_u16_to_from_le_bytes();
    lemma_auto_spec_u32_to_from_le_bytes();
    lemma_auto_spec_u64_to_from_le_bytes();
}

} // verus!
