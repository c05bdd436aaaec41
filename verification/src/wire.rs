//! Fixed-width integers as they stand in a packet.

use vstd::prelude::*;

verus! {

/// The value of two bytes, most significant first.
pub open spec fn be16(hi: u8, lo: u8) -> u16 {
    (hi * 256 + lo) as u16
}

/// The value of four bytes, most significant first.
pub open spec fn be32(b0: u8, b1: u8, b2: u8, b3: u8) -> u32 {
    (b0 * 0x100_0000 + b1 * 0x1_0000 + b2 * 0x100 + b3) as u32
}

/// The value of four bytes, least significant first.
pub open spec fn le32(b0: u8, b1: u8, b2: u8, b3: u8) -> u32 {
    be32(b3, b2, b1, b0)
}

/// The four bytes at `at`, read in the given byte order.
pub open spec fn u32_at(bytes: Seq<u8>, at: int, little_endian: bool) -> u32 {
    if little_endian {
        le32(bytes[at], bytes[at + 1], bytes[at + 2], bytes[at + 3])
    } else {
        be32(bytes[at], bytes[at + 1], bytes[at + 2], bytes[at + 3])
    }
}

/// The sixteen bytes at `at`.
pub open spec fn bytes16_at(bytes: Seq<u8>, at: int) -> [u8; 16] {
    [
        bytes[at],
        bytes[at + 1],
        bytes[at + 2],
        bytes[at + 3],
        bytes[at + 4],
        bytes[at + 5],
        bytes[at + 6],
        bytes[at + 7],
        bytes[at + 8],
        bytes[at + 9],
        bytes[at + 10],
        bytes[at + 11],
        bytes[at + 12],
        bytes[at + 13],
        bytes[at + 14],
        bytes[at + 15],
    ]
}

/// Reads two bytes, most significant first.
pub fn read_be16(hi: u8, lo: u8) -> (r: u16)
    ensures
        r == be16(hi, lo),
        r == hi * 256 + lo,
{
    hi as u16 * 256 + lo as u16
}

/// Reads four bytes, most significant first.
pub fn read_be32(b0: u8, b1: u8, b2: u8, b3: u8) -> (r: u32)
    ensures
        r == be32(b0, b1, b2, b3),
        r == b0 * 0x100_0000 + b1 * 0x1_0000 + b2 * 0x100 + b3,
{
    b0 as u32 * 0x100_0000 + b1 as u32 * 0x1_0000 + b2 as u32 * 0x100 + b3 as u32
}

/// Reads the four bytes at `at` in the given byte order.
pub fn read_u32_at(bytes: &[u8], at: usize, little_endian: bool) -> (r: u32)
    requires
        at + 4 <= bytes@.len(),
    ensures
        r == u32_at(bytes@, at as int, little_endian),
{
    assert(bytes@.len() == bytes.len());
    if little_endian {
        read_be32(bytes[at + 3], bytes[at + 2], bytes[at + 1], bytes[at])
    } else {
        read_be32(bytes[at], bytes[at + 1], bytes[at + 2], bytes[at + 3])
    }
}

/// Reads the sixteen bytes at `at`.
pub fn array16(bytes: &[u8], at: usize) -> (r: [u8; 16])
    requires
        at + 16 <= bytes@.len(),
    ensures
        r == bytes16_at(bytes@, at as int),
{
    assert(bytes@.len() == bytes.len());
    let r: [u8; 16] = [
        bytes[at],
        bytes[at + 1],
        bytes[at + 2],
        bytes[at + 3],
        bytes[at + 4],
        bytes[at + 5],
        bytes[at + 6],
        bytes[at + 7],
        bytes[at + 8],
        bytes[at + 9],
        bytes[at + 10],
        bytes[at + 11],
        bytes[at + 12],
        bytes[at + 13],
        bytes[at + 14],
        bytes[at + 15],
    ];
    assert(r =~= bytes16_at(bytes@, at as int));
    r
}

} // verus!
