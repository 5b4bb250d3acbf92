//! Disk-usage accounting for directory trees, in 512-byte blocks.
//!
//! The crate decodes the packed records of a bulk directory enumeration
//! ([`records`], [`listing`]), counts every inode once however many names
//! it has ([`inodes`]), and folds the listings of a tree into one total.
//!
//! A tree can be counted in two ways. [`walk::calculate_size`] counts a
//! tree that has been listed before; its contract gives the total as a
//! function of the tree, and [`invariance`] proves what that total does not
//! depend on. A walk that counts while it lists, with many workers, takes
//! its steps from [`shared`] and [`fanout`]: there the lock decides which
//! worker counts an inode, and the contracts say what holds of every
//! outcome.

pub mod blocks;
pub mod bytes;
pub mod entry;
pub mod fanout;
pub mod format;
pub mod inodes;
pub mod invariance;
pub mod listing;
pub mod paths;
pub mod pool;
pub mod records;
pub mod shared;
pub mod text;
pub mod walk;
