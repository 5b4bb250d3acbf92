//! Folding the listings of a directory tree into one total.
//!
//! The files of a tree are taken in the order of a walk that lists a
//! directory before it descends, and descends into the subdirectories in
//! their order. Each file is charged against the set of inodes counted so
//! far, so that an inode with several names is counted under the first.

use vstd::prelude::*;
use crate::entry::FileInfo;
use crate::inodes::check_and_add_inode;
use crate::inodes::counted_blocks;
use crate::inodes::InodeSet;
use crate::listing::texts;

verus! {

/// A directory tree as its enumeration left it: a directory that was
/// listed, with its files and its subdirectories, or one that could not
/// be listed, with the error.
#[derive(Debug)]
pub enum DirTree {
    Unreadable { message: String },
    Listed { files: Vec<FileInfo>, children: Vec<DirTree> },
}

/// The inodes of a sequence of files.
pub open spec fn inodes_of(files: Seq<FileInfo>) -> Set<u64>
    decreases files.len(),
{
    if files.len() == 0 {
        Set::empty()
    } else {
        inodes_of(files.drop_last()).insert(files.last().inode)
    }
}

/// The blocks that a sequence of files adds to the total when the inodes
/// of `seen` have been counted before: each file is charged unless its
/// inode is in `seen` or belongs to a file earlier in the sequence.
pub open spec fn files_total(seen: Set<u64>, files: Seq<FileInfo>) -> int
    decreases files.len(),
{
    if files.len() == 0 {
        0
    } else {
        let before = files.drop_last();
        let last = files.last();
        files_total(seen, before) + counted_blocks(
            seen.union(inodes_of(before)),
            last.inode,
            last.blocks,
        )
    }
}

/// The size of a number.
pub open spec fn magnitude(n: int) -> int {
    if n < 0 {
        -n
    } else {
        n
    }
}

/// The sum of the sizes of the charges that make up [`files_total`]. While
/// it fits the machine's integers, no sum of some of those charges
/// overflows.
pub open spec fn charged_magnitude(seen: Set<u64>, files: Seq<FileInfo>) -> int
    decreases files.len(),
{
    if files.len() == 0 {
        0
    } else {
        let before = files.drop_last();
        let last = files.last();
        charged_magnitude(seen, before) + magnitude(
            counted_blocks(seen.union(inodes_of(before)), last.inode, last.blocks) as int,
        )
    }
}

/// The files of a tree in the order of the walk: those of the directory,
/// then those of each subtree in turn. A directory that could not be
/// listed has none.
pub open spec fn flat_files(tree: DirTree) -> Seq<FileInfo>
    decreases tree,
{
    match tree {
        DirTree::Unreadable { message } => Seq::empty(),
        DirTree::Listed { files, children } => files@ + forest_files(children@),
    }
}

/// The files of a sequence of trees, tree after tree.
pub open spec fn forest_files(trees: Seq<DirTree>) -> Seq<FileInfo>
    decreases trees,
{
    if trees.len() == 0 {
        Seq::empty()
    } else {
        forest_files(trees.drop_last()) + flat_files(trees.last())
    }
}

/// The line that reports a directory that could not be listed.
pub open spec fn skipped_line(message: Seq<char>) -> Seq<char> {
    "dumac: "@ + message
}

/// The reports of a tree in the order of the walk: one line for each
/// directory that could not be listed.
pub open spec fn tree_warnings(tree: DirTree) -> Seq<Seq<char>>
    decreases tree,
{
    match tree {
        DirTree::Unreadable { message } => seq![skipped_line(message@)],
        DirTree::Listed { files, children } => forest_warnings(children@),
    }
}

/// The reports of a sequence of trees, tree after tree.
pub open spec fn forest_warnings(trees: Seq<DirTree>) -> Seq<Seq<char>>
    decreases trees,
{
    if trees.len() == 0 {
        Seq::empty()
    } else {
        forest_warnings(trees.drop_last()) + tree_warnings(trees.last())
    }
}

/// The inodes of a concatenation are those of its parts.
pub proof fn lemma_inodes_of_concat(a: Seq<FileInfo>, b: Seq<FileInfo>)
    ensures
        inodes_of(a + b) == inodes_of(a).union(inodes_of(b)),
    decreases b.len(),
{
    if b.len() == 0 {
        assert(a + b =~= a);
        assert(inodes_of(a).union(inodes_of(b)) =~= inodes_of(a));
    } else {
        assert((a + b).drop_last() =~= a + b.drop_last());
        assert((a + b).last() == b.last());
        lemma_inodes_of_concat(a, b.drop_last());
        assert(inodes_of(a + b) =~= inodes_of(a).union(inodes_of(b)));
    }
}

/// The total of a concatenation is the total of the first part plus the
/// total of the second, charged against what the first has counted. The
/// same holds of the sizes of the charges.
pub proof fn lemma_total_of_concat(seen: Set<u64>, a: Seq<FileInfo>, b: Seq<FileInfo>)
    ensures
        files_total(seen, a + b) == files_total(seen, a) + files_total(
            seen.union(inodes_of(a)),
            b,
        ),
        charged_magnitude(seen, a + b) == charged_magnitude(seen, a) + charged_magnitude(
            seen.union(inodes_of(a)),
            b,
        ),
    decreases b.len(),
{
    if b.len() == 0 {
        assert(a + b =~= a);
    } else {
        let init = b.drop_last();
        assert((a + b).drop_last() =~= a + init);
        assert((a + b).last() == b.last());
        lemma_total_of_concat(seen, a, init);
        lemma_inodes_of_concat(a, init);
        assert(seen.union(inodes_of(a + init)) =~= seen.union(inodes_of(a)).union(
            inodes_of(init),
        ));
    }
}

/// The total is no larger in size than the sum of the sizes of its charges.
pub proof fn lemma_total_within_magnitude(seen: Set<u64>, files: Seq<FileInfo>)
    ensures
        0 <= charged_magnitude(seen, files),
        -charged_magnitude(seen, files) <= files_total(seen, files) <= charged_magnitude(
            seen,
            files,
        ),
    decreases files.len(),
{
    if files.len() > 0 {
        lemma_total_within_magnitude(seen, files.drop_last());
    }
}

/// Charges the files of one directory, in order, against the inodes counted
/// so far, and returns what they add to the total.
pub fn charge_files(files: &Vec<FileInfo>, seen: &mut InodeSet) -> (total: i64)
    requires
        old(seen).well_formed(),
        charged_magnitude(old(seen)@, files@) <= i64::MAX,
    ensures
        final(seen).well_formed(),
        total == files_total(old(seen)@, files@),
        final(seen)@ == old(seen)@.union(inodes_of(files@)),
{
    let ghost seen0 = seen@;
    let mut total: i64 = 0;
    let mut i: usize = 0;
    proof {
        assert(files@.subrange(0, 0) =~= Seq::<FileInfo>::empty());
        assert(seen@ =~= seen0.union(inodes_of(files@.subrange(0, 0))));
    }
    while i < files.len()
        invariant
            i <= files.len(),
            seen.well_formed(),
            charged_magnitude(seen0, files@) <= i64::MAX,
            total == files_total(seen0, files@.subrange(0, i as int)),
            seen@ == seen0.union(inodes_of(files@.subrange(0, i as int))),
        decreases files.len() - i,
    {
        let file: FileInfo = files[i];
        proof {
            let done = files@.subrange(0, i as int);
            let next = files@.subrange(0, i + 1);
            let rest = files@.subrange(i + 1, files@.len() as int);
            assert(next.drop_last() =~= done);
            assert(next.last() == file);
            assert(next + rest =~= files@);
            lemma_total_of_concat(seen0, next, rest);
            lemma_total_within_magnitude(seen0.union(inodes_of(next)), rest);
            lemma_total_within_magnitude(seen0, next);
            lemma_total_within_magnitude(seen0, done);
        }
        let counted: i64 = check_and_add_inode(seen, file.inode, file.blocks);
        total = total + counted;
        i = i + 1;
        proof {
            assert(seen@ =~= seen0.union(inodes_of(files@.subrange(0, i as int))));
        }
    }
    proof {
        assert(files@.subrange(0, i as int) =~= files@);
    }
    total
}

/// The report of a directory that could not be listed.
pub fn skipped_warning(message: &str) -> (line: String)
    ensures
        line@ == skipped_line(message@),
{
    let mut line: String = String::from_str("dumac: ");
    line.append(message);
    line
}

/// Walks a tree and returns what it adds to the total. A directory that
/// could not be listed adds nothing and is reported in `warnings`.
pub fn subtree_size(tree: &DirTree, seen: &mut InodeSet, warnings: &mut Vec<String>) -> (total: i64)
    requires
        old(seen).well_formed(),
        charged_magnitude(old(seen)@, flat_files(*tree)) <= i64::MAX,
    ensures
        final(seen).well_formed(),
        total == files_total(old(seen)@, flat_files(*tree)),
        final(seen)@ == old(seen)@.union(inodes_of(flat_files(*tree))),
        texts(final(warnings)@) == texts(old(warnings)@) + tree_warnings(*tree),
    decreases tree,
{
    let ghost seen0 = seen@;
    let ghost warnings0 = texts(warnings@);
    match tree {
        DirTree::Unreadable { message } => {
            let line: String = skipped_warning(message.as_str());
            warnings.push(line);
            proof {
                assert(texts(warnings@) =~= warnings0 + tree_warnings(*tree));
                assert(seen@ =~= seen0.union(inodes_of(flat_files(*tree))));
            }
            0
        },
        DirTree::Listed { files, children } => {
            proof {
                lemma_total_of_concat(seen0, files@, forest_files(children@));
                lemma_total_within_magnitude(
                    seen0.union(inodes_of(files@)),
                    forest_files(children@),
                );
            }
            let mut total: i64 = charge_files(files, seen);
            let mut i: usize = 0;
            proof {
                assert(children@.subrange(0, 0) =~= Seq::<DirTree>::empty());
                assert(files@ + forest_files(children@.subrange(0, 0)) =~= files@);
                assert(texts(warnings@) =~= warnings0 + forest_warnings(
                    children@.subrange(0, 0),
                ));
            }
            while i < children.len()
                invariant
                    i <= children.len(),
                    *tree == (DirTree::Listed { files: *files, children: *children }),
                    seen.well_formed(),
                    charged_magnitude(seen0, flat_files(*tree)) <= i64::MAX,
                    total == files_total(
                        seen0,
                        files@ + forest_files(children@.subrange(0, i as int)),
                    ),
                    seen@ == seen0.union(
                        inodes_of(files@ + forest_files(children@.subrange(0, i as int))),
                    ),
                    texts(warnings@) == warnings0 + forest_warnings(
                        children@.subrange(0, i as int),
                    ),
                decreases children.len() - i,
            {
                let child: &DirTree = &children[i];
                let ghost warnings1 = texts(warnings@);
                proof {
                    let rest = children@.subrange(i + 1, children@.len() as int);
                    let walked = files@ + forest_files(children@.subrange(0, i as int));
                    let through = files@ + forest_files(children@.subrange(0, i + 1));
                    lemma_walk_step(files@, children@, i as int);
                    lemma_total_of_concat(seen0, through, forest_files(rest));
                    lemma_total_within_magnitude(
                        seen0.union(inodes_of(through)),
                        forest_files(rest),
                    );
                    lemma_total_of_concat(seen0, walked, flat_files(*child));
                    lemma_total_within_magnitude(seen0, walked);
                    lemma_total_within_magnitude(seen0, through);
                    lemma_total_within_magnitude(
                        seen0.union(inodes_of(walked)),
                        flat_files(*child),
                    );
                    lemma_inodes_of_concat(walked, flat_files(*child));
                }
                assert(tree->children == *children);
                assert(decreases_to!(*children => children[i as int]));
                let below: i64 = subtree_size(child, seen, warnings);
                total = total + below;
                i = i + 1;
                proof {
                    assert(seen@ =~= seen0.union(
                        inodes_of(files@ + forest_files(children@.subrange(0, i as int))),
                    ));
                    assert(texts(warnings@) =~= warnings0 + forest_warnings(
                        children@.subrange(0, i as int),
                    ));
                }
            }
            proof {
                assert(children@.subrange(0, i as int) =~= children@);
            }
            total
        },
    }
}

/// The files and the reports of a concatenation of trees are the
/// concatenations of theirs.
pub proof fn lemma_forest_of_concat(a: Seq<DirTree>, b: Seq<DirTree>)
    ensures
        forest_files(a + b) == forest_files(a) + forest_files(b),
        forest_warnings(a + b) == forest_warnings(a) + forest_warnings(b),
    decreases b.len(),
{
    if b.len() == 0 {
        assert(a + b =~= a);
        assert(forest_files(a) + forest_files(b) =~= forest_files(a));
        assert(forest_warnings(a) + forest_warnings(b) =~= forest_warnings(a));
    } else {
        assert((a + b).drop_last() =~= a + b.drop_last());
        assert((a + b).last() == b.last());
        lemma_forest_of_concat(a, b.drop_last());
        assert(forest_files(a + b) =~= forest_files(a) + forest_files(b));
        assert(forest_warnings(a + b) =~= forest_warnings(a) + forest_warnings(b));
    }
}

/// One step of the walk through the subtrees of a directory: the files met
/// up to and with subtree `i` are those met before it and then its own,
/// and the files of the whole directory are those and then the files of the
/// subtrees behind it.
pub proof fn lemma_walk_step(files: Seq<FileInfo>, children: Seq<DirTree>, i: int)
    requires
        0 <= i < children.len(),
    ensures
        files + forest_files(children.subrange(0, i + 1)) == (files + forest_files(
            children.subrange(0, i),
        )) + flat_files(children[i]),
        files + forest_files(children) == (files + forest_files(children.subrange(0, i + 1)))
            + forest_files(children.subrange(i + 1, children.len() as int)),
        forest_warnings(children.subrange(0, i + 1)) == forest_warnings(children.subrange(0, i))
            + tree_warnings(children[i]),
{
    let done = children.subrange(0, i);
    let next = children.subrange(0, i + 1);
    let rest = children.subrange(i + 1, children.len() as int);
    assert(next.drop_last() =~= done);
    assert(next.last() == children[i]);
    assert(next + rest =~= children);
    lemma_forest_of_concat(next, rest);
    assert(files + forest_files(next) =~= (files + forest_files(done)) + flat_files(children[i]));
    assert(files + forest_files(children) =~= (files + forest_files(next)) + forest_files(rest));
}

/// The sum of the sizes of the blocks of a sequence of files, counted or
/// not.
pub open spec fn blocks_magnitude(files: Seq<FileInfo>) -> int
    decreases files.len(),
{
    if files.len() == 0 {
        0
    } else {
        blocks_magnitude(files.drop_last()) + magnitude(files.last().blocks as int)
    }
}

/// The sizes of the blocks of a concatenation add up.
pub proof fn lemma_magnitude_of_concat(a: Seq<FileInfo>, b: Seq<FileInfo>)
    ensures
        blocks_magnitude(a + b) == blocks_magnitude(a) + blocks_magnitude(b),
        0 <= blocks_magnitude(b),
    decreases b.len(),
{
    if b.len() == 0 {
        assert(a + b =~= a);
    } else {
        assert((a + b).drop_last() =~= a + b.drop_last());
        assert((a + b).last() == b.last());
        lemma_magnitude_of_concat(a, b.drop_last());
    }
}

/// What is charged is no more than what the files hold: whatever has been
/// counted before, the sizes of the charges sum to no more than the sizes
/// of the blocks.
pub proof fn lemma_charges_within_blocks(seen: Set<u64>, files: Seq<FileInfo>)
    ensures
        charged_magnitude(seen, files) <= blocks_magnitude(files),
    decreases files.len(),
{
    if files.len() > 0 {
        lemma_charges_within_blocks(seen, files.drop_last());
    }
}

/// Adds up the sizes of the blocks of the files of one directory, on top of
/// `start`. There is no sum where it would pass the largest `i64`.
pub fn files_magnitude(files: &Vec<FileInfo>, start: i64) -> (sum: Option<i64>)
    requires
        0 <= start,
    ensures
        match sum {
            Some(total) => total == start + blocks_magnitude(files@),
            None => start + blocks_magnitude(files@) > i64::MAX,
        },
{
    let mut total: i64 = start;
    let mut i: usize = 0;
    proof {
        assert(files@.subrange(0, 0) =~= Seq::<FileInfo>::empty());
    }
    while i < files.len()
        invariant
            i <= files.len(),
            0 <= start,
            total == start + blocks_magnitude(files@.subrange(0, i as int)),
        decreases files.len() - i,
    {
        let blocks: i64 = files[i].blocks;
        proof {
            let next = files@.subrange(0, i + 1);
            let rest = files@.subrange(i + 1, files@.len() as int);
            assert(next.drop_last() =~= files@.subrange(0, i as int));
            assert(next.last() == files@[i as int]);
            assert(next + rest =~= files@);
            lemma_magnitude_of_concat(next, rest);
            lemma_magnitude_of_concat(Seq::empty(), files@.subrange(0, i as int));
        }
        if blocks == i64::MIN {
            return None;
        }
        let size: i64 = if blocks < 0 {
            -blocks
        } else {
            blocks
        };
        if size > i64::MAX - total {
            return None;
        }
        total = total + size;
        i = i + 1;
    }
    proof {
        assert(files@.subrange(0, i as int) =~= files@);
    }
    Some(total)
}

/// Adds up the sizes of the blocks of all files of a tree, on top of
/// `start`. Where there is a sum, every walk of the tree stays within the
/// machine's integers, whatever has been counted before.
pub fn tree_magnitude(tree: &DirTree, start: i64) -> (sum: Option<i64>)
    requires
        0 <= start,
    ensures
        match sum {
            Some(total) => total == start + blocks_magnitude(flat_files(*tree)),
            None => start + blocks_magnitude(flat_files(*tree)) > i64::MAX,
        },
    decreases tree,
{
    match tree {
        DirTree::Unreadable { message: _ } => Some(start),
        DirTree::Listed { files, children } => {
            proof {
                lemma_magnitude_of_concat(files@, forest_files(children@));
            }
            let mut total: i64 = match files_magnitude(files, start) {
                Some(own) => own,
                None => {
                    return None;
                },
            };
            let mut i: usize = 0;
            proof {
                assert(children@.subrange(0, 0) =~= Seq::<DirTree>::empty());
                assert(files@ + forest_files(children@.subrange(0, 0)) =~= files@);
                lemma_magnitude_of_concat(Seq::empty(), files@);
            }
            while i < children.len()
                invariant
                    i <= children.len(),
                    0 <= start <= total,
                    *tree == (DirTree::Listed { files: *files, children: *children }),
                    total == start + blocks_magnitude(
                        files@ + forest_files(children@.subrange(0, i as int)),
                    ),
                decreases children.len() - i,
            {
                let child: &DirTree = &children[i];
                proof {
                    let rest = children@.subrange(i + 1, children@.len() as int);
                    let walked = files@ + forest_files(children@.subrange(0, i as int));
                    let through = files@ + forest_files(children@.subrange(0, i + 1));
                    lemma_walk_step(files@, children@, i as int);
                    lemma_magnitude_of_concat(through, forest_files(rest));
                    lemma_magnitude_of_concat(walked, flat_files(*child));
                }
                assert(tree->children == *children);
                assert(decreases_to!(*children => children[i as int]));
                total = match tree_magnitude(child, total) {
                    Some(with_child) => with_child,
                    None => {
                        return None;
                    },
                };
                i = i + 1;
            }
            proof {
                assert(children@.subrange(0, i as int) =~= children@);
            }
            Some(total)
        },
    }
}

/// The value of a result of [`calculate_size`].
pub open spec fn size_view(result: Result<i64, String>) -> Result<int, Seq<char>> {
    match result {
        Ok(total) => Ok(total as int),
        Err(message) => Err(message@),
    }
}

/// What [`calculate_size`] returns for a tree: the error of a root that
/// could not be listed, or else the total of the files of the tree, each
/// inode counted once.
pub open spec fn size_of_tree(seen: Set<u64>, root: DirTree) -> Result<int, Seq<char>> {
    match root {
        DirTree::Unreadable { message } => Err(message@),
        DirTree::Listed { files, children } => Ok(files_total(seen, flat_files(root))),
    }
}

/// Computes the blocks allocated to a directory tree, against a set of
/// counted inodes as [`InodeSet::new`] makes it and the functions of
/// [`crate::inodes`] leave it. The root must have been listed: its error is
/// returned, and nothing is counted. Below the root a directory that could
/// not be listed adds nothing to the total and one line to `warnings`, and
/// the walk goes on.
pub fn calculate_size(root: &DirTree, seen: &mut InodeSet, warnings: &mut Vec<String>) -> (result:
    Result<i64, String>)
    requires
        old(seen).well_formed(),
        charged_magnitude(old(seen)@, flat_files(*root)) <= i64::MAX,
    ensures
        final(seen).well_formed(),
        size_view(result) == size_of_tree(old(seen)@, *root),
        result is Ok ==> final(seen)@ == old(seen)@.union(inodes_of(flat_files(*root))),
        result is Ok ==> texts(final(warnings)@) == texts(old(warnings)@) + tree_warnings(*root),
        result is Err ==> final(seen)@ == old(seen)@,
        result is Err ==> final(warnings)@ == old(warnings)@,
{
    match root {
        DirTree::Unreadable { message } => Err(message.clone()),
        DirTree::Listed { files: _, children: _ } => Ok(subtree_size(root, seen, warnings)),
    }
}

/// Computes the blocks allocated to a directory tree, as
/// [`calculate_size`] does, where its sums are sure to stay within the
/// machine's integers: where the sizes of the blocks of all files of the
/// tree add up to no more than the largest `i64`. Otherwise nothing is
/// counted and there is no result.
pub fn try_calculate_size(root: &DirTree, seen: &mut InodeSet, warnings: &mut Vec<String>) -> (result:
    Option<Result<i64, String>>)
    requires
        old(seen).well_formed(),
    ensures
        final(seen).well_formed(),
        result is Some <==> blocks_magnitude(flat_files(*root)) <= i64::MAX,
        result is Some ==> size_view(result->0) == size_of_tree(old(seen)@, *root),
        result is Some && result->0 is Ok ==> final(seen)@ == old(seen)@.union(
            inodes_of(flat_files(*root)),
        ),
        result is Some && result->0 is Ok ==> texts(final(warnings)@) == texts(old(warnings)@)
            + tree_warnings(*root),
        !(result is Some && result->0 is Ok) ==> final(seen)@ == old(seen)@,
        !(result is Some && result->0 is Ok) ==> final(warnings)@ == old(warnings)@,
{
    match tree_magnitude(root, 0) {
        Some(_) => {
            proof {
                lemma_charges_within_blocks(seen@, flat_files(*root));
            }
            Some(calculate_size(root, seen, warnings))
        },
        None => None,
    }
}

} // verus!
