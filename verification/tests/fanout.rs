use dumac::entry::FileInfo;
use dumac::fanout::sum_answered;
use dumac::fanout::sum_subtrees;
use dumac::inodes::InodeSet;
use dumac::shared::SharedInodeSet;
use dumac::walk::calculate_size;
use dumac::walk::DirTree;
use rayon::iter::IntoParallelRefIterator;
use rayon::iter::ParallelIterator;

fn file(blocks: i64, inode: u64) -> FileInfo {
    FileInfo { blocks, inode }
}

fn failed(message: &str) -> Result<i64, String> {
    Err(message.to_string())
}

/// A tree of `depth` levels in which every directory has three
/// subdirectories, files of its own and links to files elsewhere.
fn grown(depth: u32, id: u64) -> DirTree {
    let files = vec![
        file((id % 7 + 1) as i64, id * 10),
        file((id % 5 + 1) as i64, id * 10 + 1),
        // A link to a file of the parent, with the blocks of that file.
        file(((id / 3) % 7 + 1) as i64, (id / 3) * 10),
        // A link to a file of the root.
        file(2, 10),
        file(1, id * 10 + 2),
    ];
    let mut children = Vec::new();
    if depth > 0 {
        for k in 1..=3u64 {
            children.push(grown(depth - 1, id * 3 + k));
        }
        children.push(DirTree::Unreadable { message: format!("dir{}: Permission denied", id) });
    }
    DirTree::Listed { files, children }
}

/// Walks a tree as a worker does: counts the files of the directory, hands
/// the subdirectories out, and adds up what comes back.
fn walked(tree: &DirTree, seen: &SharedInodeSet) -> Result<i64, String> {
    match tree {
        DirTree::Unreadable { message } => Err(message.clone()),
        DirTree::Listed { files, children } => {
            let own = seen.charge_files(files).unwrap();
            let outcomes: Vec<Result<i64, String>> =
                children.par_iter().map(|child| walked(child, seen)).collect();
            let mut warnings = Vec::new();
            Ok(sum_subtrees(own, &outcomes, &mut warnings).unwrap())
        }
    }
}

fn with_workers(tree: &DirTree, workers: usize) -> i64 {
    let pool = rayon::ThreadPoolBuilder::new().num_threads(workers).build().unwrap();
    let seen = SharedInodeSet::new();
    pool.install(|| walked(tree, &seen)).unwrap()
}

#[test]
fn the_parts_of_a_directory_are_added_up() {
    let mut warnings = Vec::new();
    assert_eq!(sum_subtrees(5, &vec![Ok(7), Ok(0), Ok(30)], &mut warnings), Some(42));
    assert_eq!(sum_subtrees(0, &vec![], &mut warnings), Some(0));
    assert_eq!(sum_subtrees(-3, &vec![Ok(-4), Ok(10)], &mut warnings), Some(3));
    assert!(warnings.is_empty());
}

#[test]
fn a_subtree_that_failed_adds_nothing_and_is_reported() {
    let mut warnings = vec!["kept".to_string()];
    let outcomes = vec![Ok(7), failed("a/b: Permission denied"), Ok(1), failed("a/c: Not a directory")];
    assert_eq!(sum_subtrees(2, &outcomes, &mut warnings), Some(10));
    assert_eq!(
        warnings,
        vec![
            "kept".to_string(),
            "dumac: a/b: Permission denied".to_string(),
            "dumac: a/c: Not a directory".to_string(),
        ]
    );
}

#[test]
fn parts_that_do_not_fit_give_no_total() {
    let mut warnings = Vec::new();
    assert_eq!(sum_subtrees(i64::MAX - 3, &vec![Ok(1), Ok(2)], &mut warnings), Some(i64::MAX));
    assert_eq!(sum_subtrees(i64::MAX - 3, &vec![Ok(1), Ok(3)], &mut warnings), None);
    assert_eq!(sum_subtrees(i64::MAX, &vec![Ok(-1)], &mut warnings), None);
    assert_eq!(sum_subtrees(i64::MIN, &vec![], &mut warnings), None);
    assert_eq!(sum_subtrees(0, &vec![Ok(i64::MIN)], &mut warnings), None);
    assert_eq!(sum_subtrees(-i64::MAX, &vec![], &mut warnings), Some(-i64::MAX));
    // The reports are made all the same.
    assert_eq!(sum_subtrees(i64::MAX, &vec![Ok(5), failed("x")], &mut warnings), None);
    assert_eq!(warnings, vec!["dumac: x".to_string()]);
}

#[test]
fn the_files_of_a_directory_are_counted_against_the_shared_set() {
    let seen = SharedInodeSet::new();
    let files = vec![file(4, 1), file(4, 1), file(6, 2), file(1, 3)];
    assert_eq!(seen.charge_files(&files), Some(11));
    assert_eq!(seen.charge_files(&files), Some(0));
    assert_eq!(seen.charge_files(&vec![file(9, 3), file(9, 4)]), Some(9));
    assert_eq!(seen.charge_files(&vec![]), Some(0));
}

#[test]
fn files_whose_blocks_do_not_fit_are_not_counted() {
    let seen = SharedInodeSet::new();
    let files = vec![file(i64::MAX, 1), file(1, 2)];
    assert_eq!(seen.charge_files(&files), None);
    // Nothing was counted: both inodes are still new.
    assert_eq!(seen.check_and_add_inode(1, 5), 5);
    assert_eq!(seen.check_and_add_inode(2, 5), 5);
    assert_eq!(seen.charge_files(&vec![file(i64::MIN, 7)]), None);
    assert_eq!(seen.charge_files(&vec![file(i64::MAX, 8)]), Some(i64::MAX));
}

#[test]
fn one_worker_and_many_count_the_same_total() {
    let tree = grown(5, 1);
    let mut seen = InodeSet::new();
    let mut warnings = Vec::new();
    let listed_first = calculate_size(&tree, &mut seen, &mut warnings).unwrap();
    let alone = with_workers(&tree, 1);
    assert_eq!(alone, listed_first);
    for workers in [2usize, 3, 8] {
        for _ in 0..5 {
            assert_eq!(with_workers(&tree, workers), alone);
        }
    }
}

#[test]
fn a_failed_root_fails_the_walk_with_workers_too() {
    let seen = SharedInodeSet::new();
    let root = DirTree::Unreadable { message: "r: No such file or directory".to_string() };
    assert_eq!(walked(&root, &seen), Err("r: No such file or directory".to_string()));
}

#[test]
fn the_blocks_of_the_new_inodes_are_added_up() {
    let files = vec![file(4, 1), file(6, 2), file(1, 3), file(-2, 4)];
    assert_eq!(sum_answered(&files, &vec![true, true, true, true]), Some(9));
    assert_eq!(sum_answered(&files, &vec![false, false, false, false]), Some(0));
    assert_eq!(sum_answered(&files, &vec![true, false, true, false]), Some(5));
    assert_eq!(sum_answered(&files, &vec![false, true, false, true]), Some(4));
    assert_eq!(sum_answered(&vec![], &vec![]), Some(0));
}

#[test]
fn a_file_without_an_answer_adds_nothing() {
    let files = vec![file(4, 1), file(6, 2), file(1, 3)];
    assert_eq!(sum_answered(&files, &vec![true]), Some(4));
    assert_eq!(sum_answered(&files, &vec![]), Some(0));
    // Answers beyond the files are not looked at.
    assert_eq!(sum_answered(&files, &vec![false, true, true, true, true]), Some(7));
    assert_eq!(sum_answered(&vec![], &vec![true]), Some(0));
}

#[test]
fn new_inodes_whose_blocks_do_not_fit_give_no_total() {
    let files = vec![file(i64::MAX, 1), file(1, 2), file(i64::MIN, 3)];
    assert_eq!(sum_answered(&files, &vec![true, false, false]), Some(i64::MAX));
    assert_eq!(sum_answered(&files, &vec![true, true, false]), None);
    assert_eq!(sum_answered(&files, &vec![false, false, true]), None);
    assert_eq!(sum_answered(&files, &vec![false, true, false]), Some(1));
    let mixed = vec![file(i64::MAX, 1), file(-1, 2)];
    assert_eq!(sum_answered(&mixed, &vec![true, true]), None);
    assert_eq!(sum_answered(&mixed, &vec![false, true]), Some(-1));
}

#[test]
fn a_worker_alone_counts_as_the_listed_walk_does() {
    let files = vec![file(3, 1), file(8, 7), file(5, 2), file(8, 7), file(1, 3), file(3, 1)];
    let mut listed = InodeSet::new();
    dumac::inodes::check_and_add_inode(&mut listed, 2, 5);
    let expected = dumac::walk::charge_files(&files, &mut listed);
    let shared = SharedInodeSet::new();
    assert_eq!(shared.check_and_add_inode(2, 5), 5);
    assert_eq!(shared.charge_files(&files), Some(expected));
    assert_eq!(expected, 12);
    assert_eq!(sum_answered(&files, &vec![true, true, false, false, true, false]), Some(expected));
}
