use dumac::entry::FileInfo;
use dumac::inodes::clear_seen_inodes;
use dumac::inodes::InodeSet;
use dumac::listing::get_dir_info;
use dumac::listing::Batch;
use dumac::listing::ErrnoKind;
use dumac::listing::Outcome;
use dumac::walk::calculate_size;
use dumac::walk::charge_files;
use dumac::walk::files_magnitude;
use dumac::walk::skipped_warning;
use dumac::walk::subtree_size;
use dumac::walk::tree_magnitude;
use dumac::walk::try_calculate_size;
use dumac::walk::DirTree;

/// The record of a regular file with its allocated size, or of a
/// directory.
fn record(name: &str, directory: bool, inode: u64, bytes: i64) -> Vec<u8> {
    let common: u32 = 0x8000_0000 | 0x1 | 0x8 | 0x0200_0000;
    let obj_type: u32 = if directory { 2 } else { 1 };
    let mut body: Vec<u8> = vec![0u8; 8];
    body.extend_from_slice(&obj_type.to_le_bytes());
    body.extend_from_slice(&inode.to_le_bytes());
    let mut file: u32 = 0;
    if !directory {
        file = 0x4;
        body.extend_from_slice(&bytes.to_le_bytes());
    }
    let offset = body.len() as i32;
    let length = (name.len() + 1) as u32;
    body[0..4].copy_from_slice(&offset.to_le_bytes());
    body[4..8].copy_from_slice(&length.to_le_bytes());
    body.extend_from_slice(name.as_bytes());
    body.push(0);
    let total = (24 + body.len()) as u32;
    let mut out: Vec<u8> = Vec::new();
    out.extend_from_slice(&total.to_le_bytes());
    out.extend_from_slice(&common.to_le_bytes());
    out.extend_from_slice(&[0u8; 8]);
    out.extend_from_slice(&file.to_le_bytes());
    out.extend_from_slice(&[0u8; 4]);
    out.extend_from_slice(&body);
    out
}

/// A directory as the enumeration answers for it, with the two
/// pseudo-entries in front.
fn directory(records: &[Vec<u8>]) -> Outcome {
    let mut all = vec![record(".", true, 1, 0), record("..", true, 2, 0)];
    all.extend_from_slice(records);
    Outcome::Read { batches: vec![Batch { bytes: all.concat(), count: all.len() }], failure: None }
}

/// The tree of a directory whose subdirectories are given in the order of
/// their names in the listing.
fn tree(path: &str, outcome: &Outcome, children: Vec<DirTree>) -> DirTree {
    let mut warnings = Vec::new();
    match get_dir_info(path, outcome, &mut warnings) {
        Ok(info) => {
            assert_eq!(info.subdirs.len(), children.len());
            DirTree::Listed { files: info.files, children }
        }
        Err(message) => DirTree::Unreadable { message },
    }
}

fn file(blocks: i64, inode: u64) -> FileInfo {
    FileInfo { blocks, inode }
}

fn listed(files: Vec<FileInfo>, children: Vec<DirTree>) -> DirTree {
    DirTree::Listed { files, children }
}

fn unreadable(message: &str) -> DirTree {
    DirTree::Unreadable { message: message.to_string() }
}

fn total_of(root: &DirTree) -> i64 {
    let mut seen = InodeSet::new();
    let mut warnings = Vec::new();
    calculate_size(root, &mut seen, &mut warnings).unwrap()
}

fn total_of_files(files: &[FileInfo]) -> i64 {
    let mut seen = InodeSet::new();
    charge_files(&files.to_vec(), &mut seen)
}

#[test]
fn test_basic_file_size_calculation() {
    let mut seen = InodeSet::new();
    clear_seen_inodes(&mut seen);

    // A directory with one file of 1000 bytes.
    let root = tree("/tmp/basic", &directory(&[record("test_file.txt", false, 100, 1000)]), vec![]);

    let mut warnings = Vec::new();
    let result = calculate_size(&root, &mut seen, &mut warnings);
    assert!(result.is_ok(), "calculate_size should succeed");

    let total_blocks = result.unwrap();
    assert!(total_blocks >= 2, "Should have at least 2 blocks for 1000 bytes, got {}", total_blocks);
    assert_eq!(total_blocks, 2);
    assert!(warnings.is_empty());
}

#[test]
fn test_nested_directories() {
    let mut seen = InodeSet::new();
    clear_seen_inodes(&mut seen);

    // A file in the root and a file in a subdirectory, five bytes each.
    let subdir = tree("/tmp/nested/subdir", &directory(&[record("sub.txt", false, 201, 5)]), vec![]);
    let root = tree(
        "/tmp/nested",
        &directory(&[record("subdir", true, 200, 0), record("root.txt", false, 202, 5)]),
        vec![subdir],
    );

    let mut warnings = Vec::new();
    let result = calculate_size(&root, &mut seen, &mut warnings);
    assert!(result.is_ok(), "calculate_size should succeed for nested dirs");

    let total_blocks = result.unwrap();
    assert!(total_blocks >= 2, "Should have at least 2 blocks for two files, got {}", total_blocks);
    assert_eq!(total_blocks, 2);
}

#[test]
fn test_hardlink_deduplication() {
    let mut seen = InodeSet::new();
    clear_seen_inodes(&mut seen);

    // One file of 2048 bytes.
    let original = record("original.txt", false, 300, 2048);
    let alone = tree("/tmp/links", &directory(&[original.clone()]), vec![]);
    let mut warnings = Vec::new();
    let size_original =
        calculate_size(&alone, &mut seen, &mut warnings).expect("Failed to calculate size for original");

    // A second name for the same inode.
    let hardlink = record("hardlink.txt", false, 300, 2048);
    let both = tree("/tmp/links", &directory(&[original, hardlink]), vec![]);
    match &both {
        DirTree::Listed { files, .. } => {
            assert_eq!(files[0].inode, files[1].inode, "Hardlink should have same inode")
        }
        DirTree::Unreadable { .. } => panic!("Failed to get original metadata"),
    }

    clear_seen_inodes(&mut seen);

    let size_with_hardlink =
        calculate_size(&both, &mut seen, &mut warnings).expect("Failed to calculate size with hardlink");

    assert_eq!(
        size_original, size_with_hardlink,
        "Hardlinked files should not double-count blocks. Original: {}, With hardlink: {}",
        size_original, size_with_hardlink
    );
    assert!(size_original >= 4, "Should have at least 4 blocks for 2048 bytes, got {}", size_original);
    assert_eq!(size_original, 4);
}

#[test]
fn either_name_of_a_hard_link_may_be_missing() {
    let with_both = [file(3, 1), file(8, 7), file(5, 2), file(8, 7), file(1, 3)];
    let without_second = [file(3, 1), file(8, 7), file(5, 2), file(1, 3)];
    let without_first = [file(3, 1), file(5, 2), file(8, 7), file(1, 3)];
    assert_eq!(total_of_files(&with_both), 17);
    assert_eq!(total_of_files(&without_second), 17);
    assert_eq!(total_of_files(&without_first), 17);
}

#[test]
fn the_same_tree_gives_the_same_total_again() {
    let root = listed(
        vec![file(4, 1), file(4, 1), file(2, 2)],
        vec![listed(vec![file(2, 2), file(9, 3)], vec![]), unreadable("x: Permission denied")],
    );
    let first = total_of(&root);
    let second = total_of(&root);
    assert_eq!(first, 15);
    assert_eq!(first, second);
    // Against the set that the first walk has filled, nothing is new.
    let mut seen = InodeSet::new();
    let mut warnings = Vec::new();
    assert_eq!(calculate_size(&root, &mut seen, &mut warnings), Ok(15));
    assert_eq!(calculate_size(&root, &mut seen, &mut warnings), Ok(0));
    clear_seen_inodes(&mut seen);
    assert_eq!(calculate_size(&root, &mut seen, &mut warnings), Ok(15));
}

#[test]
fn a_total_is_its_files_plus_its_subtrees() {
    let left = listed(vec![file(10, 1), file(20, 2)], vec![listed(vec![file(40, 3)], vec![])]);
    let right = listed(vec![file(20, 2), file(80, 4), file(7, 5)], vec![]);
    let own = vec![file(7, 5), file(100, 6)];
    let root = listed(own.clone(), vec![left, right]);

    let mut seen = InodeSet::new();
    let mut warnings = Vec::new();
    let whole = calculate_size(&root, &mut seen, &mut warnings).unwrap();

    // The same walk in steps, on one set.
    let mut shared = InodeSet::new();
    let files_part = charge_files(&own, &mut shared);
    let mut children_part = 0;
    if let DirTree::Listed { children, .. } = &root {
        for child in children {
            children_part += subtree_size(child, &mut shared, &mut warnings);
        }
    }
    assert_eq!(files_part, 107);
    assert_eq!(children_part, 10 + 20 + 40 + 80);
    assert_eq!(whole, files_part + children_part);
    assert_eq!(whole, 257);
}

#[test]
fn a_subdirectory_that_cannot_be_listed_adds_nothing() {
    let denied = Outcome::Read { batches: Vec::new(), failure: Some(ErrnoKind::PermissionDenied) };
    let locked = tree("/r/locked", &denied, vec![]);
    let open = tree("/r/open", &directory(&[record("f", false, 9, 4096)]), vec![]);
    let root = tree(
        "/r",
        &directory(&[
            record("locked", true, 5, 0),
            record("own", false, 6, 512),
            record("open", true, 7, 0),
        ]),
        vec![locked, open],
    );
    let mut seen = InodeSet::new();
    let mut warnings = Vec::new();
    let result = calculate_size(&root, &mut seen, &mut warnings);
    assert_eq!(result, Ok(9));
    assert_eq!(warnings, vec!["dumac: /r/locked: Permission denied".to_string()]);
    assert!(seen.contains(6));
    assert!(seen.contains(9));
}

#[test]
fn every_unreadable_directory_is_reported_in_the_order_of_the_walk() {
    let root = listed(
        vec![file(1, 1)],
        vec![
            unreadable("a: Permission denied"),
            listed(vec![file(2, 2)], vec![unreadable("b/c: No such file or directory")]),
            unreadable("d: Cannot read directory contents"),
        ],
    );
    let mut seen = InodeSet::new();
    let mut warnings = vec!["kept".to_string()];
    assert_eq!(calculate_size(&root, &mut seen, &mut warnings), Ok(3));
    assert_eq!(
        warnings,
        vec![
            "kept".to_string(),
            "dumac: a: Permission denied".to_string(),
            "dumac: b/c: No such file or directory".to_string(),
            "dumac: d: Cannot read directory contents".to_string(),
        ]
    );
    assert_eq!(skipped_warning("x: y"), "dumac: x: y");
}

#[test]
fn a_root_that_cannot_be_listed_is_an_error() {
    let missing = tree("/nowhere", &Outcome::OpenFailed(ErrnoKind::NotFound), vec![]);
    let mut seen = InodeSet::new();
    let mut warnings = Vec::new();
    assert!(dumac::inodes::check_and_add_inode(&mut seen, 1, 1) == 1);
    let result = calculate_size(&missing, &mut seen, &mut warnings);
    assert_eq!(result, Err("/nowhere: No such file or directory".to_string()));
    assert!(warnings.is_empty());
    assert!(seen.contains(1));
    let file_root = tree("/etc/passwd", &Outcome::OpenFailed(ErrnoKind::NotADirectory), vec![]);
    assert_eq!(
        calculate_size(&file_root, &mut seen, &mut warnings),
        Err("/etc/passwd: Not a directory".to_string())
    );
    let invalid = tree("a\0b", &Outcome::InvalidPath, vec![]);
    assert_eq!(calculate_size(&invalid, &mut seen, &mut warnings), Err("a\0b: Invalid path".to_string()));
}

#[test]
fn an_empty_tree_has_no_blocks() {
    assert_eq!(total_of(&listed(vec![], vec![])), 0);
    assert_eq!(total_of(&listed(vec![], vec![listed(vec![], vec![]), listed(vec![], vec![])])), 0);
}

#[test]
fn links_across_directories_are_counted_once() {
    let root = listed(
        vec![file(16, 50)],
        vec![
            listed(vec![file(16, 50), file(1, 51)], vec![listed(vec![file(16, 50)], vec![])]),
            listed(vec![file(1, 51), file(16, 50)], vec![]),
        ],
    );
    assert_eq!(total_of(&root), 17);
}

#[test]
fn the_first_name_decides_what_an_inode_is_charged() {
    assert_eq!(total_of_files(&[file(4, 1), file(9, 1)]), 4);
    assert_eq!(total_of_files(&[file(9, 1), file(4, 1)]), 9);
    let mut seen = InodeSet::new();
    assert_eq!(charge_files(&vec![file(4, 1)], &mut seen), 4);
    assert_eq!(charge_files(&vec![file(4, 1), file(5, 2)], &mut seen), 5);
}

#[test]
fn the_order_of_the_walk_does_not_change_the_total() {
    let files = [file(3, 1), file(8, 7), file(5, 2), file(8, 7), file(1, 3), file(3, 1), file(6, 9)];
    let expected = 3 + 8 + 5 + 1 + 6;
    assert_eq!(total_of_files(&files), expected);
    let mut reversed = files.to_vec();
    reversed.reverse();
    assert_eq!(total_of_files(&reversed), expected);
    let mut rotated = files.to_vec();
    for _ in 0..files.len() {
        rotated.rotate_left(1);
        assert_eq!(total_of_files(&rotated), expected);
    }
    // The subdirectories in another order, and files moved between levels.
    let a = listed(vec![file(3, 1), file(8, 7)], vec![listed(vec![file(5, 2), file(8, 7)], vec![])]);
    let b = listed(vec![file(1, 3), file(3, 1)], vec![]);
    let c = listed(vec![file(5, 2), file(8, 7)], vec![listed(vec![file(3, 1), file(8, 7)], vec![])]);
    let d = listed(vec![file(1, 3), file(3, 1)], vec![]);
    let one = listed(vec![file(6, 9)], vec![a, b]);
    let other = listed(vec![], vec![d, listed(vec![file(6, 9)], vec![]), c]);
    assert_eq!(total_of(&one), expected);
    assert_eq!(total_of(&other), expected);
}

#[test]
fn the_set_of_counted_inodes_grows_by_the_files_of_the_tree() {
    let root = listed(vec![file(1, 10)], vec![listed(vec![file(1, 11)], vec![]), unreadable("u")]);
    let mut seen = InodeSet::new();
    let mut warnings = Vec::new();
    dumac::inodes::check_and_add_inode(&mut seen, 99, 0);
    calculate_size(&root, &mut seen, &mut warnings).unwrap();
    for inode in [10u64, 11, 99] {
        assert!(seen.contains(inode));
    }
    assert!(!seen.contains(12));
}

#[test]
fn sums_that_would_overflow_are_found_out() {
    let fits = listed(vec![file(i64::MAX - 5, 1)], vec![listed(vec![file(5, 2)], vec![])]);
    assert_eq!(tree_magnitude(&fits, 0), Some(i64::MAX));
    assert_eq!(tree_magnitude(&fits, 1), None);
    let over = listed(vec![file(i64::MAX - 5, 1)], vec![listed(vec![file(6, 2)], vec![])]);
    assert_eq!(tree_magnitude(&over, 0), None);
    let negative = listed(vec![file(-7, 1), file(7, 2)], vec![unreadable("u")]);
    assert_eq!(tree_magnitude(&negative, 0), Some(14));
    assert_eq!(tree_magnitude(&listed(vec![file(i64::MIN, 1)], vec![]), 0), None);
    assert_eq!(tree_magnitude(&unreadable("u"), 3), Some(3));
    assert_eq!(files_magnitude(&vec![file(-1, 1), file(2, 1)], 10), Some(13));
    assert_eq!(files_magnitude(&vec![file(i64::MAX, 1), file(1, 1)], 0), None);
    assert_eq!(files_magnitude(&vec![], 0), Some(0));

    let mut seen = InodeSet::new();
    let mut warnings = Vec::new();
    assert_eq!(try_calculate_size(&fits, &mut seen, &mut warnings), Some(Ok(i64::MAX)));
    let mut seen = InodeSet::new();
    assert_eq!(try_calculate_size(&over, &mut seen, &mut warnings), None);
    assert!(!seen.contains(1));
    assert_eq!(try_calculate_size(&negative, &mut seen, &mut warnings), Some(Ok(0)));
    assert_eq!(warnings, vec!["dumac: u".to_string()]);
    assert_eq!(
        try_calculate_size(&unreadable("gone"), &mut seen, &mut warnings),
        Some(Err("gone".to_string()))
    );
}
