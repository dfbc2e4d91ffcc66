//! Little-endian integers in a byte sequence.

use vstd::prelude::*;

verus! {

/// The value of the two bytes of `s` starting at `at`, least significant first.
pub open spec fn le_u16(s: Seq<u8>, at: int) -> int
    recommends
        0 <= at,
        at + 2 <= s.len(),
{
    s[at] as int + 256 * (s[at + 1] as int)
}

/// The value of the four bytes of `s` starting at `at`, least significant first.
pub open spec fn le_u32(s: Seq<u8>, at: int) -> int
    recommends
        0 <= at,
        at + 4 <= s.len(),
{
    s[at] as int + 256 * (s[at + 1] as int) + 65536 * (s[at + 2] as int) + 16777216 * (s[at
        + 3] as int)
}

/// The four bytes of `s` starting at `at`, read as a two's complement number.
pub open spec fn le_i32(s: Seq<u8>, at: int) -> int
    recommends
        0 <= at,
        at + 4 <= s.len(),
{
    let unsigned = le_u32(s, at);
    if unsigned >= 0x8000_0000 {
        unsigned - 0x1_0000_0000
    } else {
        unsigned
    }
}

/// Decodes the `u16` stored at `at`.
pub fn read_le_u16(buf: &[u8], at: usize) -> (value: u16)
    requires
        at + 2 <= buf@.len(),
    ensures
        value == le_u16(buf@, at as int),
{
    let b0: u16 = buf[at] as u16;
    let b1: u16 = buf[at + 1] as u16;
    b0 + 256 * b1
}

/// Decodes the `u32` stored at `at`.
pub fn read_le_u32(buf: &[u8], at: usize) -> (value: u32)
    requires
        at + 4 <= buf@.len(),
    ensures
        value == le_u32(buf@, at as int),
{
    let b0: u32 = buf[at] as u32;
    let b1: u32 = buf[at + 1] as u32;
    let b2: u32 = buf[at + 2] as u32;
    let b3: u32 = buf[at + 3] as u32;
    b0 + 256 * b1 + 65536 * b2 + 16777216 * b3
}

/// Decodes the `i32` stored at `at`.
pub fn read_le_i32(buf: &[u8], at: usize) -> (value: i32)
    requires
        at + 4 <= buf@.len(),
    ensures
        value == le_i32(buf@, at as int),
{
    let unsigned: u32 = read_le_u32(buf, at);
    if unsigned >= 0x8000_0000 {
        let low: i32 = (unsigned - 0x8000_0000) as i32;
        low + i32::MIN
    } else {
        unsigned as i32
    }
}

} // verus!
