//! The set of inodes already counted, by which every inode is charged once
//! however many names it has.

use std::collections::HashSet;
use vstd::prelude::*;

verus! {

broadcast use vstd::std_specs::hash::group_hash_axioms;

/// The number of shards that the inodes are spread over.
pub const SHARD_COUNT: usize = 128;

/// The shard that an inode belongs to: a function of its number alone.
pub open spec fn shard_of(inode: u64) -> int {
    (inode as int / 256) % 128
}

/// Routes an inode to its shard.
pub fn shard_for_inode(inode: u64) -> (shard: usize)
    ensures
        shard == shard_of(inode),
        shard < SHARD_COUNT,
{
    assert(inode >> 8 == inode / 256) by (bit_vector);
    let high: u64 = inode >> 8;
    (high % 128) as usize
}

/// What an inode of `blocks` blocks adds to the total: its blocks when it
/// is seen for the first time, nothing when it was counted before.
pub open spec fn counted_blocks(seen: Set<u64>, inode: u64, blocks: i64) -> i64 {
    if seen.contains(inode) {
        0
    } else {
        blocks
    }
}

/// Decides what an inode adds from whether it was new to the set.
pub fn blocks_to_count(fresh: bool, blocks: i64) -> (counted: i64)
    ensures
        counted == if fresh {
            blocks
        } else {
            0
        },
{
    if fresh {
        blocks
    } else {
        0
    }
}

/// The inodes counted so far, spread over [`SHARD_COUNT`] shards. Its value
/// is the set of those inodes. An inode is kept in the shard that it is
/// routed to and in no other.
pub struct InodeSet {
    shards: Vec<HashSet<u64>>,
}

impl View for InodeSet {
    type V = Set<u64>;

    open spec fn view(&self) -> Set<u64> {
        Set::new(|inode: u64| self.shard(shard_of(inode)).contains(inode))
    }
}

impl InodeSet {
    /// The inodes that shard number `place` holds.
    pub closed spec fn shard(&self, place: int) -> Set<u64> {
        self.shards@[place]@
    }

    /// Every inode is kept in the shard that it is routed to, and in no
    /// other.
    pub open spec fn routed(&self) -> bool {
        forall|place: int, inode: u64|
            0 <= place < 128 && #[trigger] self.shard(place).contains(inode) ==> place == shard_of(
                inode,
            )
    }

    /// What holds of every set that this module makes or leaves: there are
    /// [`SHARD_COUNT`] shards, and they are routed.
    pub closed spec fn well_formed(&self) -> bool {
        &&& self.shards@.len() == 128
        &&& self.routed()
    }

    /// A well-formed set keeps every inode in its own shard.
    pub proof fn lemma_well_formed_is_routed(self)
        requires
            self.well_formed(),
        ensures
            self.routed(),
    {
    }

    /// A set in which no inode has been counted.
    pub fn new() -> (set: InodeSet)
        ensures
            set.well_formed(),
            set@ == Set::<u64>::empty(),
            forall|place: int| 0 <= place < 128 ==> #[trigger] set.shard(place) == Set::<u64>::empty(),
    {
        let mut shards: Vec<HashSet<u64>> = Vec::new();
        let mut made: usize = 0;
        while made < SHARD_COUNT
            invariant
                made <= SHARD_COUNT,
                shards@.len() == made,
                forall|place: int| 0 <= place < made ==> #[trigger] shards@[place]@ == Set::<u64>::empty(),
            decreases SHARD_COUNT - made,
        {
            shards.push(HashSet::new());
            made = made + 1;
        }
        let set = InodeSet { shards };
        assert(set@ =~= Set::<u64>::empty());
        set
    }

    /// Whether the inode has been counted. It is looked up in the shard that
    /// it is routed to, the only one that can hold it.
    pub fn contains(&self, inode: u64) -> (seen: bool)
        requires
            self.well_formed(),
        ensures
            seen == self@.contains(inode),
            seen == self.shard(shard_of(inode)).contains(inode),
    {
        let place: usize = shard_for_inode(inode);
        self.shards[place].contains(&inode)
    }
}

/// Counts an inode: returns the blocks to add to the total, which are
/// `blocks` when the inode is new to the set and zero when it was counted
/// before. Afterwards the inode is in the set: in the shard that it is
/// routed to, and no other shard has changed.
pub fn check_and_add_inode(seen: &mut InodeSet, inode: u64, blocks: i64) -> (counted: i64)
    requires
        old(seen).well_formed(),
    ensures
        final(seen).well_formed(),
        counted == counted_blocks(old(seen)@, inode, blocks),
        final(seen)@ == old(seen)@.insert(inode),
        final(seen).shard(shard_of(inode)) == old(seen).shard(shard_of(inode)).insert(inode),
        forall|place: int|
            0 <= place < 128 && place != shard_of(inode) ==> final(seen).shard(place) == old(
                seen,
            ).shard(place),
{
    let place: usize = shard_for_inode(inode);
    let ghost before = seen.shards@;
    let fresh: bool = seen.shards[place].insert(inode);
    proof {
        assert(seen.shards@.len() == 128);
        assert(forall|other: int|
            0 <= other < 128 && other != place ==> seen.shards@[other] == before[other]);
        assert(seen.shards@[place as int]@ == before[place as int]@.insert(inode));
        assert forall|other: int, member: u64|
            0 <= other < 128 && #[trigger] seen.shard(other).contains(member) implies other
            == shard_of(member) by {
            if other != place {
                assert(old(seen).shard(other).contains(member));
            } else if member != inode {
                assert(old(seen).shard(other).contains(member));
            }
        }
        assert(seen@ =~= old(seen)@.insert(inode));
    }
    blocks_to_count(fresh, blocks)
}

/// Forgets every inode, so that the next traversal counts afresh.
pub fn clear_seen_inodes(seen: &mut InodeSet)
    requires
        old(seen).well_formed(),
    ensures
        final(seen).well_formed(),
        final(seen)@ == Set::<u64>::empty(),
        forall|place: int|
            0 <= place < 128 ==> #[trigger] final(seen).shard(place) == Set::<u64>::empty(),
{
    let mut place: usize = 0;
    while place < SHARD_COUNT
        invariant
            place <= SHARD_COUNT,
            seen.shards@.len() == 128,
            forall|done: int| 0 <= done < place ==> #[trigger] seen.shards@[done]@ == Set::<u64>::empty(),
            forall|other: int|
                place <= other < 128 ==> #[trigger] seen.shards@[other] == old(seen).shards@[other],
        decreases SHARD_COUNT - place,
    {
        seen.shards[place].clear();
        place = place + 1;
    }
    assert(seen@ =~= Set::<u64>::empty());
}

} // verus!
