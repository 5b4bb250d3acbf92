//! The accounting unit: blocks of 512 bytes.

use vstd::prelude::*;

verus! {

/// Bytes in one block.
pub const BLOCK_SIZE: i64 = 512;

/// What a symbolic link is charged, whatever it points to.
pub const SYMLINK_BLOCKS: i64 = 1;

/// The blocks charged for an allocation of `bytes` bytes: the quotient of
/// `bytes + 511` by 512, rounded toward zero.
pub open spec fn blocks_for(bytes: int) -> int {
    if bytes + 511 >= 0 {
        (bytes + 511) / 512
    } else {
        -((-(bytes + 511)) / 512)
    }
}

/// Converts an allocation size in bytes to blocks. Defined on every `i64`:
/// the sum `bytes + 511` is never formed in machine arithmetic.
pub fn blocks_from_bytes(bytes: i64) -> (blocks: i64)
    ensures
        blocks == blocks_for(bytes as int),
        bytes >= 0 ==> blocks == (bytes + 511) / 512,
{
    if bytes >= 0 {
        let whole: i64 = bytes / 512;
        if bytes % 512 == 0 {
            whole
        } else {
            whole + 1
        }
    } else if bytes >= -511 {
        0
    } else {
        let deficit: i64 = -(bytes + 511);
        -(deficit / 512)
    }
}

/// For a non-negative size the charge is the least number of blocks that
/// holds it: the blocks cover the bytes, and one block fewer would not.
pub proof fn lemma_blocks_are_ceiling(bytes: int)
    requires
        bytes >= 0,
    ensures
        blocks_for(bytes) == (bytes + 511) / 512,
        blocks_for(bytes) * 512 >= bytes,
        (blocks_for(bytes) - 1) * 512 < bytes,
        blocks_for(bytes) >= 0,
{
}

/// More bytes never cost fewer blocks.
pub proof fn lemma_blocks_monotone(a: int, b: int)
    requires
        a <= b,
    ensures
        blocks_for(a) <= blocks_for(b),
{
}

} // verus!
