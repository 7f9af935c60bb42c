//! Fixed-width integers as they lie in a byte buffer.
//!
//! The container mixes byte orders: structural fields are little-endian,
//! packed colours are big-endian so that their bytes land in R, G, B, A
//! order. The two spec functions below say what each order means; the
//! executable readers hand the work to the `byteorder` crate.

use byteorder::{BigEndian, ByteOrder, LittleEndian};
use vstd::prelude::*;

verus! {

/// The four bytes of `data` starting at `at`, read low byte first.
pub open spec fn u32_le_at(data: Seq<u8>, at: int) -> u32 {
    (data[at] as int + data[at + 1] as int * 0x100 + data[at + 2] as int * 0x1_0000 + data[at
        + 3] as int * 0x100_0000) as u32
}

/// The four bytes of `data` starting at `at`, read high byte first.
pub open spec fn u32_be_at(data: Seq<u8>, at: int) -> u32 {
    (data[at] as int * 0x100_0000 + data[at + 1] as int * 0x1_0000 + data[at + 2] as int * 0x100
        + data[at + 3] as int) as u32
}

/// `byteorder::LittleEndian::read_u32` (the `ByteOrder` method).
///
/// Trusted: the call returns the first four bytes of `buf` combined low byte
/// first, and panics only when `buf` holds fewer than four bytes.
#[verifier::external_body]
pub(crate) fn read_u32_le(buf: &[u8]) -> (value: u32)
    requires
        buf@.len() >= 4,
    ensures
        value == u32_le_at(buf@, 0),
{
    LittleEndian::read_u32(buf)
}

/// `byteorder::BigEndian::read_u32` (the `ByteOrder` method).
///
/// Trusted: the call returns the first four bytes of `buf` combined high byte
/// first, and panics only when `buf` holds fewer than four bytes.
#[verifier::external_body]
pub(crate) fn read_u32_be(buf: &[u8]) -> (value: u32)
    requires
        buf@.len() >= 4,
    ensures
        value == u32_be_at(buf@, 0),
{
    BigEndian::read_u32(buf)
}

/// Reading a window of a buffer is reading the buffer at the window's start.
pub proof fn lemma_u32_at_subrange(data: Seq<u8>, at: int)
    requires
        0 <= at,
        at + 4 <= data.len(),
    ensures
        u32_le_at(data.subrange(at, at + 4), 0) == u32_le_at(data, at),
        u32_be_at(data.subrange(at, at + 4), 0) == u32_be_at(data, at),
{
}

} // verus!
