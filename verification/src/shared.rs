//! The set of counted inodes for walks that run in parallel: each shard
//! behind a lock of its own, so that workers on different shards do not
//! wait for each other.

use std::collections::HashSet;
use vstd::prelude::*;
use crate::entry::FileInfo;
use crate::inodes::blocks_to_count;
use crate::inodes::shard_for_inode;
use crate::inodes::shard_of;
use crate::inodes::SHARD_COUNT;
use crate::fanout::answered_total;
use crate::fanout::lemma_answered_within_blocks;
use crate::fanout::sum_answered;
use crate::walk::blocks_magnitude;
use crate::walk::files_magnitude;

verus! {

/// `parking_lot::RawMutex`, the lock itself; nothing is said of what it
/// holds.
#[verifier::external_type_specification]
#[verifier::external_body]
pub struct ExRawMutex(parking_lot::RawMutex);

/// `lock_api::Mutex`, of which `parking_lot::Mutex` is an instance; nothing
/// is said of what it holds.
#[verifier::external_type_specification]
#[verifier::external_body]
#[verifier::reject_recursive_types(R)]
#[verifier::reject_recursive_types(T)]
pub struct ExMutex<R, T: ?Sized>(parking_lot::lock_api::Mutex<R, T>);

/// `parking_lot::Mutex::new` around an empty `HashSet`. Nothing is claimed
/// of the result.
#[verifier::external_body]
fn new_shard() -> (shard: parking_lot::Mutex<HashSet<u64>>) {
    parking_lot::Mutex::new(HashSet::new())
}

/// One shard: its place among the shards and, behind its lock, the inodes
/// that are routed to it.
struct Shard {
    index: usize,
    inodes: parking_lot::Mutex<HashSet<u64>>,
}

/// `parking_lot::Mutex::lock`, then `HashSet::insert` on what the lock
/// guards; the lock is released before the function returns. The answer
/// depends on what other workers have inserted, so nothing is claimed of
/// it. The caller shows that the shard is the one that the inode is routed
/// to: looked up in another shard, an inode would be counted again. No
/// guard leaves this module, so the caller never holds the lock that it
/// asks for.
#[verifier::external_body]
fn insert_under_lock(shard: &Shard, inode: u64) -> (fresh: bool)
    requires
        shard.index == shard_of(inode),
{
    shard.inodes.lock().insert(inode)
}

/// The inodes counted so far, for use by several workers at once. What it
/// holds changes under the hands of a worker, so its contracts speak of
/// each answer alone; [`crate::inodes::InodeSet`] is the set whose contents
/// the contracts follow.
pub struct SharedInodeSet {
    shards: Vec<Shard>,
}

impl SharedInodeSet {
    /// There are [`SHARD_COUNT`] shards, each at the place that its index
    /// names.
    #[verifier::type_invariant]
    closed spec fn well_formed(&self) -> bool {
        &&& self.shards@.len() == 128
        &&& forall|place: int| 0 <= place < 128 ==> (#[trigger] self.shards@[place]).index == place
    }

    /// A set in which no inode has been counted.
    pub fn new() -> (set: SharedInodeSet) {
        let mut shards: Vec<Shard> = Vec::new();
        let mut made: usize = 0;
        while made < SHARD_COUNT
            invariant
                made <= SHARD_COUNT,
                shards@.len() == made,
                forall|place: int| 0 <= place < made ==> (#[trigger] shards@[place]).index == place,
            decreases SHARD_COUNT - made,
        {
            shards.push(Shard { index: made, inodes: new_shard() });
            made = made + 1;
        }
        SharedInodeSet { shards }
    }

    /// Offers an inode to the shard that it is routed to, under the lock of
    /// that shard, and tells whether it was new there.
    fn offer(&self, inode: u64) -> (fresh: bool) {
        proof {
            use_type_invariant(self);
        }
        let shard: usize = shard_for_inode(inode);
        insert_under_lock(&self.shards[shard], inode)
    }

    /// Counts an inode under the lock of its shard: returns `blocks` if no
    /// worker has counted the inode before, and zero otherwise.
    pub fn check_and_add_inode(&self, inode: u64, blocks: i64) -> (counted: i64)
        ensures
            counted == blocks || counted == 0,
    {
        let fresh: bool = self.offer(inode);
        blocks_to_count(fresh, blocks)
    }

    /// Counts the files of one directory: offers the inode of each to the
    /// set, in order, and returns the blocks of those that were new, added
    /// up by [`sum_answered`]. Which inodes are new depends on what the
    /// other workers have counted, so the total is that of some answers, one
    /// for each file; it lies within the sizes of the blocks whatever the
    /// answers. Where those sizes add up to more than the largest `i64`,
    /// nothing is counted and there is no result.
    pub fn charge_files(&self, files: &Vec<FileInfo>) -> (total: Option<i64>)
        ensures
            total is Some <==> blocks_magnitude(files@) <= i64::MAX,
            total is Some ==> exists|answers: Seq<bool>|
                answers.len() == files@.len() && total->0 == #[trigger] answered_total(
                    files@,
                    answers,
                ),
            total is Some ==> -blocks_magnitude(files@) <= total->0 <= blocks_magnitude(files@),
    {
        if files_magnitude(files, 0).is_none() {
            return None;
        }
        let mut answers: Vec<bool> = Vec::new();
        let mut i: usize = 0;
        while i < files.len()
            invariant
                i <= files.len(),
                answers@.len() == i,
            decreases files.len() - i,
        {
            let fresh: bool = self.offer(files[i].inode);
            answers.push(fresh);
            i = i + 1;
        }
        proof {
            lemma_answered_within_blocks(files@, answers@);
        }
        sum_answered(files, &answers)
    }

    /// Forgets every inode: the shards are replaced by empty ones. The
    /// exclusive borrow shows that no worker is counting meanwhile.
    pub fn clear(&mut self) {
        let fresh: SharedInodeSet = SharedInodeSet::new();
        *self = fresh;
    }
}

} // verus!
