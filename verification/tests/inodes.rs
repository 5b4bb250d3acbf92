use dumac::inodes::blocks_to_count;
use dumac::inodes::check_and_add_inode;
use dumac::inodes::clear_seen_inodes;
use dumac::inodes::shard_for_inode;
use dumac::inodes::InodeSet;
use dumac::inodes::SHARD_COUNT;
use dumac::shared::SharedInodeSet;
use rayon::iter::IntoParallelIterator;
use rayon::iter::ParallelIterator;

#[test]
fn an_inode_is_routed_by_its_number_alone() {
    assert_eq!(SHARD_COUNT, 128);
    assert_eq!(shard_for_inode(0), 0);
    assert_eq!(shard_for_inode(255), 0);
    assert_eq!(shard_for_inode(256), 1);
    assert_eq!(shard_for_inode(257), 1);
    assert_eq!(shard_for_inode(127 * 256), 127);
    assert_eq!(shard_for_inode(128 * 256), 0);
    assert_eq!(shard_for_inode(128 * 256 + 300), 1);
    assert_eq!(shard_for_inode(u64::MAX), 127);
    for inode in [3u64, 70_000, 1 << 40, u64::MAX - 5] {
        assert_eq!(shard_for_inode(inode), ((inode >> 8) % 128) as usize);
        assert_eq!(shard_for_inode(inode), shard_for_inode(inode));
        assert!(shard_for_inode(inode) < SHARD_COUNT);
    }
}

#[test]
fn the_first_sighting_counts_and_later_ones_do_not() {
    let mut seen = InodeSet::new();
    assert!(!seen.contains(42));
    assert_eq!(check_and_add_inode(&mut seen, 42, 8), 8);
    assert!(seen.contains(42));
    assert_eq!(check_and_add_inode(&mut seen, 42, 8), 0);
    assert_eq!(check_and_add_inode(&mut seen, 42, 1000), 0);
    assert_eq!(check_and_add_inode(&mut seen, 43, 3), 3);
    // Inodes of one shard are told apart.
    assert_eq!(check_and_add_inode(&mut seen, 42 + 128 * 256, 5), 5);
    assert_eq!(check_and_add_inode(&mut seen, 42 + 128 * 256, 5), 0);
    assert!(!seen.contains(44));
}

#[test]
fn an_inode_without_blocks_is_remembered_too() {
    let mut seen = InodeSet::new();
    assert_eq!(check_and_add_inode(&mut seen, 7, 0), 0);
    assert!(seen.contains(7));
    assert_eq!(check_and_add_inode(&mut seen, 7, 9), 0);
    assert_eq!(check_and_add_inode(&mut seen, 8, -4), -4);
    assert_eq!(check_and_add_inode(&mut seen, 8, -4), 0);
}

#[test]
fn clearing_forgets_every_inode() {
    let mut seen = InodeSet::new();
    for inode in 0..1000u64 {
        assert_eq!(check_and_add_inode(&mut seen, inode * 37, 2), 2);
    }
    clear_seen_inodes(&mut seen);
    for inode in 0..1000u64 {
        assert!(!seen.contains(inode * 37));
        assert_eq!(check_and_add_inode(&mut seen, inode * 37, 2), 2);
    }
    clear_seen_inodes(&mut seen);
    clear_seen_inodes(&mut seen);
    assert!(!seen.contains(0));
}

#[test]
fn what_a_sighting_adds() {
    assert_eq!(blocks_to_count(true, 12), 12);
    assert_eq!(blocks_to_count(false, 12), 0);
    assert_eq!(blocks_to_count(true, i64::MIN), i64::MIN);
    assert_eq!(blocks_to_count(false, i64::MAX), 0);
}

#[test]
fn the_shared_set_counts_an_inode_once() {
    let seen = SharedInodeSet::new();
    assert_eq!(seen.check_and_add_inode(42, 8), 8);
    assert_eq!(seen.check_and_add_inode(42, 8), 0);
    assert_eq!(seen.check_and_add_inode(42 + 128 * 256, 8), 8);
    assert_eq!(seen.check_and_add_inode(43, 1), 1);
    assert_eq!(seen.check_and_add_inode(43, 1), 0);
}

#[test]
fn the_shared_set_can_be_cleared() {
    let mut seen = SharedInodeSet::new();
    assert_eq!(seen.check_and_add_inode(5, 2), 2);
    seen.clear();
    assert_eq!(seen.check_and_add_inode(5, 2), 2);
    assert_eq!(seen.check_and_add_inode(5, 2), 0);
}

#[test]
fn workers_in_parallel_count_every_inode_once() {
    let seen = SharedInodeSet::new();
    // Every inode below 5000 is offered eight times, by whichever worker.
    let total: i64 = (0..40_000u64)
        .into_par_iter()
        .map(|name| seen.check_and_add_inode(name % 5000, 3))
        .sum();
    assert_eq!(total, 5000 * 3);
    let again: i64 = (0..5000u64).into_par_iter().map(|inode| seen.check_and_add_inode(inode, 3)).sum();
    assert_eq!(again, 0);
}
