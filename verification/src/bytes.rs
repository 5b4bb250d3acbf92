//! Little-endian integers read from a byte buffer at a checked position.

use vstd::prelude::*;

verus! {

/// The unsigned 32-bit value of the four bytes at `at`, least significant
/// byte first.
pub open spec fn le_u32(buf: Seq<u8>, at: int) -> u32
    recommends
        0 <= at,
        at + 4 <= buf.len(),
{
    (buf[at] as int + 256 * (buf[at + 1] as int) + 65536 * (buf[at + 2] as int) + 16777216 * (
    buf[at + 3] as int)) as u32
}

/// The unsigned 64-bit value of the eight bytes at `at`, least significant
/// byte first.
pub open spec fn le_u64(buf: Seq<u8>, at: int) -> u64
    recommends
        0 <= at,
        at + 8 <= buf.len(),
{
    (le_u32(buf, at) as int + 4294967296 * (le_u32(buf, at + 4) as int)) as u64
}

/// The four bytes at `at` as a signed value in two's complement.
pub open spec fn le_i32(buf: Seq<u8>, at: int) -> i32
    recommends
        0 <= at,
        at + 4 <= buf.len(),
{
    let raw = le_u32(buf, at) as int;
    if raw < 2147483648 {
        raw as i32
    } else {
        (raw - 4294967296) as i32
    }
}

/// The eight bytes at `at` as a signed value in two's complement.
pub open spec fn le_i64(buf: Seq<u8>, at: int) -> i64
    recommends
        0 <= at,
        at + 8 <= buf.len(),
{
    let raw = le_u64(buf, at) as int;
    if raw < 9223372036854775808 {
        raw as i64
    } else {
        (raw - 18446744073709551616) as i64
    }
}

/// Reads an unsigned 32-bit integer.
pub fn read_u32(buf: &[u8], at: usize) -> (value: u32)
    requires
        at + 4 <= buf@.len(),
    ensures
        value == le_u32(buf@, at as int),
{
    let b0: u32 = buf[at] as u32;
    let b1: u32 = buf[at + 1] as u32;
    let b2: u32 = buf[at + 2] as u32;
    let b3: u32 = buf[at + 3] as u32;
    b0 + 256 * b1 + 65536 * b2 + 16777216 * b3
}

/// Reads an unsigned 64-bit integer.
pub fn read_u64(buf: &[u8], at: usize) -> (value: u64)
    requires
        at + 8 <= buf@.len(),
    ensures
        value == le_u64(buf@, at as int),
{
    let size: usize = buf.len();
    assert(at + 8 <= size);
    let low: u64 = read_u32(buf, at) as u64;
    let high: u64 = read_u32(buf, at + 4) as u64;
    low + 4294967296 * high
}

/// Reads a signed 32-bit integer.
pub fn read_i32(buf: &[u8], at: usize) -> (value: i32)
    requires
        at + 4 <= buf@.len(),
    ensures
        value == le_i32(buf@, at as int),
{
    let raw: u32 = read_u32(buf, at);
    if raw < 2147483648 {
        raw as i32
    } else {
        let low: i32 = (raw - 2147483648) as i32;
        low + i32::MIN
    }
}

/// Reads a signed 64-bit integer.
pub fn read_i64(buf: &[u8], at: usize) -> (value: i64)
    requires
        at + 8 <= buf@.len(),
    ensures
        value == le_i64(buf@, at as int),
{
    let raw: u64 = read_u64(buf, at);
    if raw < 9223372036854775808 {
        raw as i64
    } else {
        let low: i64 = (raw - 9223372036854775808) as i64;
        low + i64::MIN
    }
}

} // verus!
