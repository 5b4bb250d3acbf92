//! What the total does not depend on: further names of an inode that was
//! counted, and the order in which the files are met.

use vstd::prelude::*;
use vstd::seq_lib::to_multiset_build;
use vstd::seq_lib::to_multiset_contains;
use vstd::seq_lib::to_multiset_len;
use vstd::seq_lib::to_multiset_remove;
use crate::entry::FileInfo;
use crate::fanout::answered;
use crate::fanout::answered_total;
use crate::fanout::lemma_answered_prefix;
use crate::inodes::counted_blocks;
use crate::walk::files_total;
use crate::walk::flat_files;
use crate::walk::forest_files;
use crate::walk::inodes_of;
use crate::walk::lemma_forest_of_concat;
use crate::walk::lemma_inodes_of_concat;
use crate::walk::lemma_total_of_concat;
use crate::walk::size_of_tree;
use crate::walk::DirTree;

verus! {

/// Every name of `inode` among the files carries the same blocks.
pub open spec fn same_charge_for(files: Seq<FileInfo>, inode: u64, blocks: i64) -> bool {
    forall|i: int|
        0 <= i < files.len() && (#[trigger] files[i]).inode == inode ==> files[i].blocks == blocks
}

/// All names of one inode carry the same blocks, for every inode among the
/// files.
pub open spec fn consistent(files: Seq<FileInfo>) -> bool {
    forall|i: int, j: int|
        0 <= i < files.len() && 0 <= j < files.len() && (#[trigger] files[i]).inode == (
        #[trigger] files[j]).inode ==> files[i].blocks == files[j].blocks
}

/// The total of the subtrees of a directory, walked in order, each charged
/// against what the subtrees before it have counted.
pub open spec fn children_total(seen: Set<u64>, children: Seq<DirTree>) -> int
    decreases children.len(),
{
    if children.len() == 0 {
        0
    } else {
        let before = children.drop_last();
        children_total(seen, before) + files_total(
            seen.union(inodes_of(forest_files(before))),
            flat_files(children.last()),
        )
    }
}

/// An inode is among the inodes of a sequence exactly if a file of the
/// sequence has it.
pub proof fn lemma_inodes_of_members(files: Seq<FileInfo>, inode: u64)
    ensures
        inodes_of(files).contains(inode) <==> exists|i: int|
            0 <= i < files.len() && (#[trigger] files[i]).inode == inode,
    decreases files.len(),
{
    if files.len() > 0 {
        let before = files.drop_last();
        lemma_inodes_of_members(before, inode);
        if inodes_of(files).contains(inode) {
            if files.last().inode == inode {
                assert(files[files.len() - 1].inode == inode);
            } else {
                let i = choose|i: int| 0 <= i < before.len() && (#[trigger] before[i]).inode == inode;
                assert(files[i].inode == inode);
            }
        }
        if exists|i: int| 0 <= i < files.len() && (#[trigger] files[i]).inode == inode {
            let i = choose|i: int| 0 <= i < files.len() && (#[trigger] files[i]).inode == inode;
            if i < files.len() - 1 {
                assert(before[i].inode == inode);
            }
        }
    }
}

/// What a walk charges to one inode: the charges of the files that name
/// it, added up.
pub open spec fn charged_to(seen: Set<u64>, files: Seq<FileInfo>, inode: u64) -> int
    decreases files.len(),
{
    if files.len() == 0 {
        0
    } else {
        let before = files.drop_last();
        let last = files.last();
        charged_to(seen, before, inode) + if last.inode == inode {
            counted_blocks(seen.union(inodes_of(before)), inode, last.blocks) as int
        } else {
            0
        }
    }
}

/// An inode that was counted before, or that no file names, is charged
/// nothing.
pub proof fn lemma_known_inode_is_charged_nothing(seen: Set<u64>, files: Seq<FileInfo>, inode: u64)
    requires
        seen.contains(inode) || !inodes_of(files).contains(inode),
    ensures
        charged_to(seen, files, inode) == 0,
    decreases files.len(),
{
    if files.len() > 0 {
        lemma_known_inode_is_charged_nothing(seen, files.drop_last(), inode);
    }
}

/// Every inode is charged exactly once: an inode that was not counted
/// before is charged the blocks of its first name, however many names
/// follow.
pub proof fn lemma_inode_is_charged_once(
    seen: Set<u64>,
    files: Seq<FileInfo>,
    inode: u64,
    first: int,
)
    requires
        !seen.contains(inode),
        0 <= first < files.len(),
        files[first].inode == inode,
        forall|earlier: int| 0 <= earlier < first ==> (#[trigger] files[earlier]).inode != inode,
    ensures
        charged_to(seen, files, inode) == files[first].blocks,
    decreases files.len(),
{
    let before = files.drop_last();
    let last = files.last();
    if first == files.len() - 1 {
        lemma_inodes_of_members(before, inode);
        assert(!inodes_of(before).contains(inode)) by {
            if inodes_of(before).contains(inode) {
                let i = choose|i: int| 0 <= i < before.len() && (#[trigger] before[i]).inode == inode;
                assert(files[i].inode == inode);
            }
        }
        lemma_known_inode_is_charged_nothing(seen, before, inode);
    } else {
        assert(before[first] == files[first]);
        assert forall|earlier: int| 0 <= earlier < first implies (#[trigger] before[earlier]).inode
            != inode by {
            assert(files[earlier].inode != inode);
        }
        lemma_inode_is_charged_once(seen, before, inode, first);
        lemma_inodes_of_members(before, inode);
        assert(inodes_of(before).contains(inode));
    }
}

/// A file whose inode was counted before adds nothing: the total is what it
/// would be without that name.
pub proof fn lemma_later_name_counts_nothing(
    seen: Set<u64>,
    before: Seq<FileInfo>,
    name: FileInfo,
    after: Seq<FileInfo>,
)
    requires
        seen.contains(name.inode) || inodes_of(before).contains(name.inode),
    ensures
        files_total(seen, before.push(name) + after) == files_total(seen, before + after),
{
    let reached = seen.union(inodes_of(before));
    assert(before.push(name).drop_last() =~= before);
    assert(before.push(name).last() == name);
    assert(files_total(seen, before.push(name)) == files_total(seen, before));
    assert(seen.union(inodes_of(before.push(name))) =~= reached);
    lemma_total_of_concat(seen, before.push(name), after);
    lemma_total_of_concat(seen, before, after);
}

/// Two files met one after the other may change places, if they carry the
/// same blocks where they name the same inode.
pub proof fn lemma_neighbours_may_swap(seen: Set<u64>, before: Seq<FileInfo>, x: FileInfo, y: FileInfo)
    requires
        x.inode == y.inode ==> x.blocks == y.blocks,
    ensures
        files_total(seen, before.push(x).push(y)) == files_total(seen, before.push(y).push(x)),
        inodes_of(before.push(x).push(y)) == inodes_of(before.push(y).push(x)),
{
    let reached = seen.union(inodes_of(before));
    assert(before.push(x).drop_last() =~= before);
    assert(before.push(y).drop_last() =~= before);
    assert(before.push(x).push(y).drop_last() =~= before.push(x));
    assert(before.push(y).push(x).drop_last() =~= before.push(y));
    assert(before.push(x).last() == x);
    assert(before.push(y).last() == y);
    assert(before.push(x).push(y).last() == y);
    assert(before.push(y).push(x).last() == x);
    assert(seen.union(inodes_of(before.push(x))) =~= reached.insert(x.inode));
    assert(seen.union(inodes_of(before.push(y))) =~= reached.insert(y.inode));
    assert(files_total(seen, before.push(x)) == files_total(seen, before) + counted_blocks(
        reached,
        x.inode,
        x.blocks,
    ));
    assert(files_total(seen, before.push(y)) == files_total(seen, before) + counted_blocks(
        reached,
        y.inode,
        y.blocks,
    ));
    assert(files_total(seen, before.push(x).push(y)) == files_total(seen, before) + counted_blocks(
        reached,
        x.inode,
        x.blocks,
    ) + counted_blocks(reached.insert(x.inode), y.inode, y.blocks));
    assert(files_total(seen, before.push(y).push(x)) == files_total(seen, before) + counted_blocks(
        reached,
        y.inode,
        y.blocks,
    ) + counted_blocks(reached.insert(y.inode), x.inode, x.blocks));
    assert(inodes_of(before.push(x).push(y)) =~= inodes_of(before.push(y).push(x)));
}

/// A file may be moved behind the files that follow it, if those of them
/// that name its inode carry its blocks.
pub proof fn lemma_file_may_move_to_end(
    seen: Set<u64>,
    before: Seq<FileInfo>,
    x: FileInfo,
    after: Seq<FileInfo>,
)
    requires
        same_charge_for(after, x.inode, x.blocks),
    ensures
        files_total(seen, before.push(x) + after) == files_total(seen, (before + after).push(x)),
        inodes_of(before.push(x) + after) == inodes_of((before + after).push(x)),
    decreases after.len(),
{
    if after.len() == 0 {
        assert(before.push(x) + after =~= before.push(x));
        assert((before + after).push(x) =~= before.push(x));
    } else {
        let init = after.drop_last();
        let y = after.last();
        assert(same_charge_for(init, x.inode, x.blocks)) by {
            assert forall|i: int| 0 <= i < init.len() && (#[trigger] init[i]).inode
                == x.inode implies init[i].blocks == x.blocks by {
                assert(after[i].inode == x.inode);
            }
        }
        lemma_file_may_move_to_end(seen, before, x, init);
        assert(after[after.len() - 1].inode == x.inode ==> y.blocks == x.blocks);
        // The last file is charged after the others either way.
        assert(before.push(x) + after =~= (before.push(x) + init).push(y));
        assert((before.push(x) + init).push(y).drop_last() =~= before.push(x) + init);
        assert((before + init).push(x).push(y).drop_last() =~= (before + init).push(x));
        assert(files_total(seen, before.push(x) + after) == files_total(
            seen,
            (before + init).push(x).push(y),
        ));
        lemma_neighbours_may_swap(seen, before + init, x, y);
        assert((before + init).push(y) =~= before + after);
        assert(inodes_of(before.push(x) + after) =~= inodes_of((before + init).push(x).push(y)));
    }
}

/// The files of two sequences with the same members have the same inodes.
pub proof fn lemma_same_files_same_inodes(a: Seq<FileInfo>, b: Seq<FileInfo>)
    requires
        a.to_multiset() == b.to_multiset(),
    ensures
        inodes_of(a) == inodes_of(b),
{
    assert forall|inode: u64| inodes_of(a).contains(inode) == inodes_of(b).contains(inode) by {
        lemma_inodes_of_members(a, inode);
        lemma_inodes_of_members(b, inode);
        if inodes_of(a).contains(inode) {
            let i = choose|i: int| 0 <= i < a.len() && (#[trigger] a[i]).inode == inode;
            assert(a.contains(a[i]));
            to_multiset_contains(a, a[i]);
            to_multiset_contains(b, a[i]);
            let j = choose|j: int| 0 <= j < b.len() && b[j] == a[i];
            assert(b[j].inode == inode);
        }
        if inodes_of(b).contains(inode) {
            let i = choose|i: int| 0 <= i < b.len() && (#[trigger] b[i]).inode == inode;
            assert(b.contains(b[i]));
            to_multiset_contains(b, b[i]);
            to_multiset_contains(a, b[i]);
            let j = choose|j: int| 0 <= j < a.len() && a[j] == b[i];
            assert(a[j].inode == inode);
        }
    }
    assert(inodes_of(a) =~= inodes_of(b));
}

/// The total does not depend on the order in which the files are met:
/// where all names of an inode carry the same blocks, two walks that meet
/// the same files, in whatever order, count the same total.
pub proof fn lemma_total_ignores_order(seen: Set<u64>, a: Seq<FileInfo>, b: Seq<FileInfo>)
    requires
        a.to_multiset() == b.to_multiset(),
        consistent(a),
    ensures
        files_total(seen, a) == files_total(seen, b),
    decreases a.len(),
{
    to_multiset_len(a);
    to_multiset_len(b);
    if a.len() > 0 {
        let x = a.last();
        let init = a.drop_last();
        assert(a.contains(x)) by {
            assert(a[a.len() - 1] == x);
        }
        to_multiset_contains(a, x);
        to_multiset_contains(b, x);
        let k = choose|k: int| 0 <= k < b.len() && b[k] == x;
        let front = b.subrange(0, k);
        let back = b.subrange(k + 1, b.len() as int);
        assert(b =~= front.push(x) + back);
        assert(b.remove(k) =~= front + back);
        // Every file of `b` is a file of `a`, so `b` is consistent with `x`.
        assert(same_charge_for(back, x.inode, x.blocks)) by {
            assert forall|i: int| 0 <= i < back.len() && (#[trigger] back[i]).inode
                == x.inode implies back[i].blocks == x.blocks by {
                let y = back[i];
                assert(b[k + 1 + i] == y);
                assert(b.contains(y));
                to_multiset_contains(b, y);
                to_multiset_contains(a, y);
                let j = choose|j: int| 0 <= j < a.len() && a[j] == y;
                assert(a[j].inode == a[a.len() - 1].inode);
            }
        }
        lemma_file_may_move_to_end(seen, front, x, back);
        // Without `x` the two sequences still have the same members.
        assert(a.remove(a.len() - 1) =~= init);
        to_multiset_remove(a, a.len() - 1);
        to_multiset_remove(b, k);
        assert(init.to_multiset() == (front + back).to_multiset());
        assert(consistent(init)) by {
            assert forall|i: int, j: int|
                0 <= i < init.len() && 0 <= j < init.len() && (#[trigger] init[i]).inode == (
                #[trigger] init[j]).inode implies init[i].blocks == init[j].blocks by {
                assert(a[i].inode == a[j].inode);
            }
        }
        lemma_total_ignores_order(seen, init, front + back);
        lemma_same_files_same_inodes(init, front + back);
        assert((front + back).push(x).drop_last() =~= front + back);
    } else {
        assert(b =~= Seq::<FileInfo>::empty());
        assert(a =~= Seq::<FileInfo>::empty());
    }
}

/// The answers that the set of counted inodes gives to a worker whom no
/// other disturbs, when it holds `seen` and the files are offered in order:
/// an inode is new unless it is in `seen` or was offered before.
pub open spec fn answers_alone(seen: Set<u64>, files: Seq<FileInfo>) -> Seq<bool> {
    Seq::new(
        files.len(),
        |i: int| !seen.union(inodes_of(files.subrange(0, i))).contains(files[i].inode),
    )
}

/// A worker whom no other disturbs counts what the walk of a listed tree
/// counts: with the answers that it gets, the files add up to their total.
pub proof fn lemma_alone_as_listed(seen: Set<u64>, files: Seq<FileInfo>)
    ensures
        answered_total(files, answers_alone(seen, files)) == files_total(seen, files),
    decreases files.len(),
{
    if files.len() > 0 {
        let before = files.drop_last();
        lemma_alone_as_listed(seen, before);
        assert forall|i: int| 0 <= i < before.len() implies answered(answers_alone(seen, files), i)
            == answered(answers_alone(seen, before), i) by {
            assert(files.subrange(0, i) =~= before.subrange(0, i));
        }
        lemma_answered_prefix(before, answers_alone(seen, files), answers_alone(seen, before));
        assert(files.subrange(0, files.len() - 1) =~= before);
    }
}

/// Two walks of one tree count the same total, whatever the order in which
/// each meets the directories and their files: where the two trees hold the
/// same files, listed or nested in whatever way, and all names of an inode
/// carry the same blocks, the totals are equal.
pub proof fn lemma_walk_order_is_immaterial(seen: Set<u64>, one: DirTree, other: DirTree)
    requires
        one is Listed,
        other is Listed,
        flat_files(one).to_multiset() == flat_files(other).to_multiset(),
        consistent(flat_files(one)),
    ensures
        size_of_tree(seen, one) == size_of_tree(seen, other),
{
    lemma_total_ignores_order(seen, flat_files(one), flat_files(other));
}

/// Of two names of one inode either may be left out: where every name of
/// that inode carries the same blocks, the total with both names is the
/// total with the first alone and the total with the second alone.
pub proof fn lemma_hard_link_counts_once(seen: Set<u64>, files: Seq<FileInfo>, i: int, j: int)
    requires
        0 <= i < j < files.len(),
        files[i].inode == files[j].inode,
        same_charge_for(files, files[i].inode, files[i].blocks),
    ensures
        files_total(seen, files) == files_total(seen, files.remove(j)),
        files_total(seen, files) == files_total(seen, files.remove(i)),
{
    let first = files[i];
    let second = files[j];
    assert(second.blocks == first.blocks);
    assert(second == first);
    // Without the second name.
    let before = files.subrange(0, j);
    let after = files.subrange(j + 1, files.len() as int);
    assert(files =~= before.push(second) + after);
    assert(files.remove(j) =~= before + after);
    lemma_inodes_of_members(before, second.inode);
    assert(before[i].inode == second.inode);
    lemma_later_name_counts_nothing(seen, before, second, after);
    // Without the first name: move it behind the second, where it adds
    // nothing, and take it away there.
    let head = files.subrange(0, i);
    let middle = files.subrange(i + 1, j);
    let tail = files.subrange(j + 1, files.len() as int);
    assert(files =~= head.push(first) + (middle.push(second) + tail));
    assert(files.remove(i) =~= head + middle.push(second) + tail);
    assert(same_charge_for(middle.push(second), first.inode, first.blocks)) by {
        assert forall|k: int| 0 <= k < middle.push(second).len() && (#[trigger] middle.push(
            second,
        )[k]).inode == first.inode implies middle.push(second)[k].blocks == first.blocks by {
            if k < middle.len() {
                assert(files[i + 1 + k].inode == first.inode);
            }
        }
    }
    lemma_file_may_move_to_end(seen, head, first, middle.push(second));
    let moved = (head + middle.push(second)).push(first);
    assert(head.push(first) + middle.push(second) + tail =~= files);
    lemma_total_of_concat(seen, head.push(first) + middle.push(second), tail);
    lemma_total_of_concat(seen, moved, tail);
    assert(files_total(seen, files) == files_total(seen, moved + tail));
    lemma_inodes_of_members(head + middle.push(second), first.inode);
    assert((head + middle.push(second))[j - 1].inode == first.inode);
    lemma_later_name_counts_nothing(seen, head + middle.push(second), first, tail);
}

/// The total of a directory is the total of its own files plus the totals
/// of its subtrees, all charged against one set of counted inodes that is
/// handed on through the walk.
pub proof fn lemma_total_is_additive(seen: Set<u64>, files: Vec<FileInfo>, children: Vec<DirTree>)
    ensures
        files_total(seen, flat_files(DirTree::Listed { files, children })) == files_total(
            seen,
            files@,
        ) + children_total(seen.union(inodes_of(files@)), children@),
{
    lemma_total_of_concat(seen, files@, forest_files(children@));
    lemma_forest_total(seen.union(inodes_of(files@)), children@);
}

/// The total of the files of a sequence of trees is the sum of the totals
/// of the trees, each charged against what the trees before it counted.
pub proof fn lemma_forest_total(seen: Set<u64>, children: Seq<DirTree>)
    ensures
        files_total(seen, forest_files(children)) == children_total(seen, children),
    decreases children.len(),
{
    if children.len() > 0 {
        let before = children.drop_last();
        lemma_forest_total(seen, before);
        lemma_total_of_concat(seen, forest_files(before), flat_files(children.last()));
    }
}

/// A directory that could not be listed adds nothing to the total, whatever
/// has been counted before.
pub proof fn lemma_unreadable_adds_nothing(seen: Set<u64>, message: String)
    ensures
        files_total(seen, flat_files(DirTree::Unreadable { message })) == 0,
        inodes_of(flat_files(DirTree::Unreadable { message })) == Set::<u64>::empty(),
{
}

} // verus!
