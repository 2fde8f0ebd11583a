//! Fixed-width integer views over byte sequences, little and big endian.
//!
//! Every binary format in this crate (indices, encoding pages, BLTE chunk
//! tables, DB2 headers) is specified in terms of these spec functions, and
//! the exec readers below are proved exact against them.

use vstd::prelude::*;

verus! {

/// The unsigned 16-bit little-endian value at byte offset `i`.
pub open spec fn le16_at(s: Seq<u8>, i: int) -> u16 {
    (s[i] + s[i + 1] * 0x100) as u16
}

/// The unsigned 32-bit little-endian value at byte offset `i`.
pub open spec fn le32_at(s: Seq<u8>, i: int) -> u32 {
    (s[i] + s[i + 1] * 0x100 + s[i + 2] * 0x1_0000 + s[i + 3] * 0x100_0000) as u32
}

/// The unsigned 64-bit little-endian value at byte offset `i`.
pub open spec fn le64_at(s: Seq<u8>, i: int) -> u64 {
    (s[i] + s[i + 1] * 0x100 + s[i + 2] * 0x1_0000 + s[i + 3] * 0x100_0000
        + s[i + 4] * 0x1_0000_0000 + s[i + 5] * 0x100_0000_0000
        + s[i + 6] * 0x1_0000_0000_0000 + s[i + 7] * 0x100_0000_0000_0000) as u64
}

/// The unsigned 16-bit big-endian value at byte offset `i`.
pub open spec fn be16_at(s: Seq<u8>, i: int) -> u16 {
    (s[i] * 0x100 + s[i + 1]) as u16
}

/// The unsigned 32-bit big-endian value at byte offset `i`.
pub open spec fn be32_at(s: Seq<u8>, i: int) -> u32 {
    (s[i] * 0x100_0000 + s[i + 1] * 0x1_0000 + s[i + 2] * 0x100 + s[i + 3]) as u32
}

/// The unsigned 40-bit big-endian value at byte offset `i`.
pub open spec fn be40_at(s: Seq<u8>, i: int) -> u64 {
    (s[i] * 0x1_0000_0000 + s[i + 1] * 0x100_0000 + s[i + 2] * 0x1_0000 + s[i + 3] * 0x100
        + s[i + 4]) as u64
}

/// A run of zero bytes.
pub open spec fn zeros(n: nat) -> Seq<u8> {
    Seq::new(n, |i: int| 0u8)
}

/// The two's-complement reading of an unsigned 32-bit value.
pub open spec fn as_signed32(v: u32) -> i32 {
    v as i32
}

/// The unsigned 16-bit little-endian value at `offset`, if it lies within
/// `input`; `None` exactly when the two bytes do not fit.
pub fn read_u16_le(input: &[u8], offset: usize) -> (r: Option<u16>)
    ensures
        offset + 2 <= input@.len() ==> r == Some(le16_at(input@, offset as int)),
        offset + 2 > input@.len() ==> r is None,
{
    if offset < input.len() && input.len() - offset >= 2 {
        let b0 = input[offset];
        let b1 = input[offset + 1];
        Some(b0 as u16 + b1 as u16 * 0x100)
    } else {
        None
    }
}

/// The unsigned 32-bit little-endian value at `offset`, if it lies within
/// `input`; `None` exactly when the four bytes do not fit.
pub fn read_u32_le(input: &[u8], offset: usize) -> (r: Option<u32>)
    ensures
        offset + 4 <= input@.len() ==> r == Some(le32_at(input@, offset as int)),
        offset + 4 > input@.len() ==> r is None,
{
    if offset < input.len() && input.len() - offset >= 4 {
        let b0 = input[offset];
        let b1 = input[offset + 1];
        let b2 = input[offset + 2];
        let b3 = input[offset + 3];
        Some(b0 as u32 + b1 as u32 * 0x100 + b2 as u32 * 0x1_0000 + b3 as u32 * 0x100_0000)
    } else {
        None
    }
}

/// The unsigned 32-bit big-endian value at `offset`, if it lies within
/// `input`; `None` exactly when the four bytes do not fit.
pub fn read_u32_be(input: &[u8], offset: usize) -> (r: Option<u32>)
    ensures
        offset + 4 <= input@.len() ==> r == Some(be32_at(input@, offset as int)),
        offset + 4 > input@.len() ==> r is None,
{
    if offset < input.len() && input.len() - offset >= 4 {
        let b0 = input[offset];
        let b1 = input[offset + 1];
        let b2 = input[offset + 2];
        let b3 = input[offset + 3];
        Some(b0 as u32 * 0x100_0000 + b1 as u32 * 0x1_0000 + b2 as u32 * 0x100 + b3 as u32)
    } else {
        None
    }
}

/// The signed 32-bit little-endian value at `offset` (two's complement view
/// of the unsigned reading); `None` exactly when the four bytes do not fit.
pub fn read_i32_le(input: &[u8], offset: usize) -> (r: Option<i32>)
    ensures
        offset + 4 <= input@.len() ==> r == Some(as_signed32(le32_at(input@, offset as int))),
        offset + 4 > input@.len() ==> r is None,
{
    match read_u32_le(input, offset) {
        Some(v) => Some(v as i32),
        None => None,
    }
}

/// The unsigned 64-bit little-endian value at `offset`, if it lies within
/// `input`; `None` exactly when the eight bytes do not fit.
pub fn read_u64_le(input: &[u8], offset: usize) -> (r: Option<u64>)
    ensures
        offset + 8 <= input@.len() ==> r == Some(le64_at(input@, offset as int)),
        offset + 8 > input@.len() ==> r is None,
{
    if offset < input.len() && input.len() - offset >= 8 {
        let b0 = input[offset];
        let b1 = input[offset + 1];
        let b2 = input[offset + 2];
        let b3 = input[offset + 3];
        let b4 = input[offset + 4];
        let b5 = input[offset + 5];
        let b6 = input[offset + 6];
        let b7 = input[offset + 7];
        Some(
            b0 as u64 + b1 as u64 * 0x100 + b2 as u64 * 0x1_0000 + b3 as u64 * 0x100_0000
                + b4 as u64 * 0x1_0000_0000 + b5 as u64 * 0x100_0000_0000
                + b6 as u64 * 0x1_0000_0000_0000 + b7 as u64 * 0x100_0000_0000_0000,
        )
    } else {
        None
    }
}

} // verus!
