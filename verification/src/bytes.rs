//! Big-endian and little-endian integer readers over an immutable byte
//! buffer, with spec-level definitions of the decoded values.
//!
//! Every multi-byte field of the container is big-endian; only raw 16-bit PCM
//! waveform samples are little-endian.

use vstd::prelude::*;

verus! {

/// The big-endian 16-bit unsigned value at offset `i` of `b`.
pub open spec fn be_u16(b: Seq<u8>, i: int) -> u16 {
    (b[i] as int * 0x100 + b[i + 1] as int) as u16
}

/// The big-endian 32-bit unsigned value at offset `i` of `b`.
pub open spec fn be_u32(b: Seq<u8>, i: int) -> u32 {
    (b[i] as int * 0x100_0000 + b[i + 1] as int * 0x1_0000 + b[i + 2] as int * 0x100
        + b[i + 3] as int) as u32
}

/// The big-endian 32-bit two's-complement value at offset `i` of `b`.
pub open spec fn be_i32(b: Seq<u8>, i: int) -> i32 {
    let u = be_u32(b, i) as int;
    if u >= 0x8000_0000 {
        (u - 0x1_0000_0000) as i32
    } else {
        u as i32
    }
}

/// The big-endian 16-bit two's-complement value at offset `i` of `b`.
pub open spec fn be_i16(b: Seq<u8>, i: int) -> i16 {
    let u = be_u16(b, i) as int;
    if u >= 0x8000 {
        (u - 0x1_0000) as i16
    } else {
        u as i16
    }
}

/// The little-endian 16-bit two's-complement value at offset `i` of `b`.
pub open spec fn le_i16(b: Seq<u8>, i: int) -> i16 {
    let u = b[i] as int + b[i + 1] as int * 0x100;
    if u >= 0x8000 {
        (u - 0x1_0000) as i16
    } else {
        u as i16
    }
}

/// Reads the big-endian `u16` at offset `i`.
pub fn read_u16_be(b: &[u8], i: usize) -> (r: u16)
    requires
        i + 2 <= b@.len(),
    ensures
        r == be_u16(b@, i as int),
{
    b[i] as u16 * 0x100 + b[i + 1] as u16
}

/// Reads the big-endian `u32` at offset `i`.
pub fn read_u32_be(b: &[u8], i: usize) -> (r: u32)
    requires
        i + 4 <= b@.len(),
    ensures
        r == be_u32(b@, i as int),
{
    b[i] as u32 * 0x100_0000 + b[i + 1] as u32 * 0x1_0000 + b[i + 2] as u32 * 0x100
        + b[i + 3] as u32
}

/// Reads the big-endian `i32` at offset `i`.
pub fn read_i32_be(b: &[u8], i: usize) -> (r: i32)
    requires
        i + 4 <= b@.len(),
    ensures
        r == be_i32(b@, i as int),
{
    let u = read_u32_be(b, i);
    if u >= 0x8000_0000u32 {
        ((u as i64) - 0x1_0000_0000i64) as i32
    } else {
        u as i32
    }
}

/// Reads the big-endian `i16` at offset `i`.
pub fn read_i16_be(b: &[u8], i: usize) -> (r: i16)
    requires
        i + 2 <= b@.len(),
    ensures
        r == be_i16(b@, i as int),
{
    let u = read_u16_be(b, i);
    if u >= 0x8000u16 {
        ((u as i32) - 0x1_0000i32) as i16
    } else {
        u as i16
    }
}

/// Reads the little-endian `i16` at offset `i`.
pub fn read_i16_le(b: &[u8], i: usize) -> (r: i16)
    requires
        i + 2 <= b@.len(),
    ensures
        r == le_i16(b@, i as int),
{
    let u = b[i] as u32 + b[i + 1] as u32 * 0x100;
    if u >= 0x8000u32 {
        ((u as i32) - 0x1_0000i32) as i16
    } else {
        u as i16
    }
}

} // verus!
