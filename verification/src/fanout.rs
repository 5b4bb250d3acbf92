//! The steps of a walk that counts while it lists. The files of a
//! directory are offered to the shared set of counted inodes, and the
//! directory adds up those that the set answers for; its subdirectories
//! are handed out to workers, and the directory adds up what they bring
//! back.

use vstd::prelude::*;
use crate::entry::FileInfo;
use crate::listing::texts;
use crate::walk::blocks_magnitude;
use crate::walk::magnitude;
use crate::walk::skipped_line;
use crate::walk::skipped_warning;

verus! {

/// Whether answer number `i` says that the inode was new to the set. Where
/// there are fewer answers than files, the files beyond them were not
/// answered for.
pub open spec fn answered(answers: Seq<bool>, i: int) -> bool {
    0 <= i < answers.len() && answers[i]
}

/// What the files of a directory add to the total, given the answer of the
/// set of counted inodes for each: the blocks of the files whose inode was
/// new.
pub open spec fn answered_total(files: Seq<FileInfo>, answers: Seq<bool>) -> int
    decreases files.len(),
{
    if files.len() == 0 {
        0
    } else {
        answered_total(files.drop_last(), answers) + if answered(answers, files.len() - 1) {
            files.last().blocks as int
        } else {
            0
        }
    }
}

/// The sum of the sizes of the blocks of the files whose inode was new.
pub open spec fn answered_magnitude(files: Seq<FileInfo>, answers: Seq<bool>) -> int
    decreases files.len(),
{
    if files.len() == 0 {
        0
    } else {
        answered_magnitude(files.drop_last(), answers) + if answered(answers, files.len() - 1) {
            magnitude(files.last().blocks as int)
        } else {
            0
        }
    }
}

/// Whatever the answers, what the files add lies within the sizes of the
/// blocks of the files that were answered for, and those within the sizes
/// of the blocks of all files.
pub proof fn lemma_answered_within_blocks(files: Seq<FileInfo>, answers: Seq<bool>)
    ensures
        -answered_magnitude(files, answers) <= answered_total(files, answers)
            <= answered_magnitude(files, answers),
        0 <= answered_magnitude(files, answers) <= blocks_magnitude(files),
    decreases files.len(),
{
    if files.len() > 0 {
        lemma_answered_within_blocks(files.drop_last(), answers);
    }
}

/// Answers beyond the files do not count: the files add the same with two
/// sequences of answers that agree on the files.
pub proof fn lemma_answered_prefix(files: Seq<FileInfo>, one: Seq<bool>, other: Seq<bool>)
    requires
        forall|i: int| 0 <= i < files.len() ==> answered(one, i) == answered(other, i),
    ensures
        answered_total(files, one) == answered_total(files, other),
        answered_magnitude(files, one) == answered_magnitude(files, other),
    decreases files.len(),
{
    if files.len() > 0 {
        lemma_answered_prefix(files.drop_last(), one, other);
    }
}

/// Adds up the blocks of the files of a directory whose inode was new to
/// the set of counted inodes, from the answers that the set gave, file by
/// file. There is no total where the sizes of those blocks add up to more
/// than the largest `i64`.
pub fn sum_answered(files: &Vec<FileInfo>, answers: &Vec<bool>) -> (sum: Option<i64>)
    ensures
        sum is Some <==> answered_magnitude(files@, answers@) <= i64::MAX,
        sum is Some ==> sum->0 == answered_total(files@, answers@),
{
    let mut total: i64 = 0;
    let mut size: i64 = 0;
    let mut i: usize = 0;
    proof {
        assert(files@.subrange(0, 0) =~= Seq::<FileInfo>::empty());
    }
    while i < files.len()
        invariant
            i <= files.len(),
            0 <= size,
            size == answered_magnitude(files@.subrange(0, i as int), answers@),
            total == answered_total(files@.subrange(0, i as int), answers@),
            -size <= total <= size,
        decreases files.len() - i,
    {
        proof {
            let next = files@.subrange(0, i + 1);
            let rest = files@.subrange(i + 1, files@.len() as int);
            assert(next.drop_last() =~= files@.subrange(0, i as int));
            assert(next.last() == files@[i as int]);
            assert(next + rest =~= files@);
            lemma_answered_grows(next, rest, answers@);
        }
        if i < answers.len() && answers[i] {
            let blocks: i64 = files[i].blocks;
            if blocks == i64::MIN {
                return None;
            }
            let more: i64 = if blocks < 0 {
                -blocks
            } else {
                blocks
            };
            if more > i64::MAX - size {
                return None;
            }
            size = size + more;
            total = total + blocks;
        }
        i = i + 1;
    }
    proof {
        assert(files@.subrange(0, i as int) =~= files@);
    }
    Some(total)
}

/// The sizes of the blocks answered for never shrink as files are added.
pub proof fn lemma_answered_grows(first: Seq<FileInfo>, rest: Seq<FileInfo>, answers: Seq<bool>)
    ensures
        answered_magnitude(first, answers) <= answered_magnitude(first + rest, answers),
    decreases rest.len(),
{
    if rest.len() == 0 {
        assert(first + rest =~= first);
    } else {
        assert((first + rest).drop_last() =~= first + rest.drop_last());
        lemma_answered_grows(first, rest.drop_last(), answers);
    }
}

/// What the subtrees of a directory add to its total, given how the walk
/// of each ended: the sum of the totals of those that were walked.
pub open spec fn outcomes_total(outcomes: Seq<Result<i64, String>>) -> int
    decreases outcomes.len(),
{
    if outcomes.len() == 0 {
        0
    } else {
        outcomes_total(outcomes.drop_last()) + match outcomes.last() {
            Ok(total) => total as int,
            Err(message) => 0,
        }
    }
}

/// The sum of the sizes of the totals of the subtrees that were walked.
pub open spec fn outcomes_magnitude(outcomes: Seq<Result<i64, String>>) -> int
    decreases outcomes.len(),
{
    if outcomes.len() == 0 {
        0
    } else {
        outcomes_magnitude(outcomes.drop_last()) + match outcomes.last() {
            Ok(total) => magnitude(total as int),
            Err(message) => 0,
        }
    }
}

/// The reports of the subtrees that could not be walked, in order.
pub open spec fn outcomes_warnings(outcomes: Seq<Result<i64, String>>) -> Seq<Seq<char>>
    decreases outcomes.len(),
{
    if outcomes.len() == 0 {
        Seq::empty()
    } else {
        let before = outcomes_warnings(outcomes.drop_last());
        match outcomes.last() {
            Ok(total) => before,
            Err(message) => before.push(skipped_line(message@)),
        }
    }
}

/// The total of a directory from the total of its own files and the ends
/// of the walks of its subdirectories, for a walk that hands the
/// subdirectories out to workers. A subdirectory whose walk failed adds
/// nothing and is reported in `warnings`. There is no total where the sizes
/// of the parts add up to more than the largest `i64`; the reports are made
/// either way.
pub fn sum_subtrees(own: i64, outcomes: &Vec<Result<i64, String>>, warnings: &mut Vec<String>) -> (sum:
    Option<i64>)
    ensures
        sum is Some <==> magnitude(own as int) + outcomes_magnitude(outcomes@) <= i64::MAX,
        sum is Some ==> sum->0 == own + outcomes_total(outcomes@),
        texts(final(warnings)@) == texts(old(warnings)@) + outcomes_warnings(outcomes@),
{
    let ghost warnings0 = texts(warnings@);
    let mut total: i64 = own;
    // The sizes added up so far; none once they have passed the limit.
    let mut size: Option<i64> = if own == i64::MIN {
        None
    } else if own < 0 {
        Some(-own)
    } else {
        Some(own)
    };
    let mut i: usize = 0;
    proof {
        assert(outcomes@.subrange(0, 0) =~= Seq::<Result<i64, String>>::empty());
        assert(texts(warnings@) =~= warnings0 + outcomes_warnings(outcomes@.subrange(0, 0)));
    }
    while i < outcomes.len()
        invariant
            i <= outcomes.len(),
            0 <= outcomes_magnitude(outcomes@.subrange(0, i as int)),
            match size {
                Some(sizes) => {
                    &&& sizes == magnitude(own as int) + outcomes_magnitude(
                        outcomes@.subrange(0, i as int),
                    )
                    &&& total == own + outcomes_total(outcomes@.subrange(0, i as int))
                    &&& -sizes <= total <= sizes
                },
                None => magnitude(own as int) + outcomes_magnitude(
                    outcomes@.subrange(0, i as int),
                ) > i64::MAX,
            },
            texts(warnings@) == warnings0 + outcomes_warnings(outcomes@.subrange(0, i as int)),
        decreases outcomes.len() - i,
    {
        proof {
            let next = outcomes@.subrange(0, i + 1);
            assert(next.drop_last() =~= outcomes@.subrange(0, i as int));
            assert(next.last() == outcomes@[i as int]);
        }
        let ghost warnings1 = warnings@;
        match &outcomes[i] {
            Ok(below) => {
                let part: i64 = *below;
                size = match size {
                    Some(sizes) => {
                        if part == i64::MIN {
                            None
                        } else {
                            let more: i64 = if part < 0 {
                                -part
                            } else {
                                part
                            };
                            if more > i64::MAX - sizes {
                                None
                            } else {
                                total = total + part;
                                Some(sizes + more)
                            }
                        }
                    },
                    None => None,
                };
            },
            Err(message) => {
                let line: String = skipped_warning(message.as_str());
                warnings.push(line);
                proof {
                    assert(texts(warnings@) =~= texts(warnings1).push(line@));
                }
            },
        }
        i = i + 1;
        proof {
            assert(texts(warnings@) =~= warnings0 + outcomes_warnings(
                outcomes@.subrange(0, i as int),
            ));
        }
    }
    proof {
        assert(outcomes@.subrange(0, i as int) =~= outcomes@);
    }
    match size {
        Some(_) => Some(total),
        None => None,
    }
}

} // verus!
