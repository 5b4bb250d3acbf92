//! How many workers may list directories at once.

use vstd::prelude::*;

verus! {

/// The most directories that are held open at one time. Every worker holds
/// one, and the limit stays well below what a process may open.
pub const MAX_FILE_HANDLES: usize = 224;

/// The stack of a worker, in bytes: the walk goes as deep as the tree.
pub const WORKER_STACK_SIZE: usize = 16777216;

/// The number of workers for a machine that can run `available` threads in
/// parallel, or one where that is not known: as many as the machine runs,
/// and no more than [`MAX_FILE_HANDLES`].
pub open spec fn workers_for(available: Option<usize>) -> usize {
    match available {
        Some(threads) => if threads <= 224 {
            threads
        } else {
            224
        },
        None => 1,
    }
}

/// Sizes the pool of workers.
pub fn worker_count(available: Option<usize>) -> (workers: usize)
    ensures
        workers == workers_for(available),
        workers <= MAX_FILE_HANDLES,
{
    match available {
        Some(threads) => if threads <= MAX_FILE_HANDLES {
            threads
        } else {
            MAX_FILE_HANDLES
        },
        None => 1,
    }
}

} // verus!
