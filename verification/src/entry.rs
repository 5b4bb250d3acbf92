//! The entries that a directory enumeration yields.

use vstd::prelude::*;
use crate::blocks::SYMLINK_BLOCKS;

verus! {

/// One regular file or symbolic link: what it is charged and the inode
/// that the charge belongs to.
#[derive(Clone, Copy, Debug, PartialEq, Eq, Structural)]
pub struct FileInfo {
    /// Allocation in blocks of 512 bytes.
    pub blocks: i64,
    /// The file identifier shared by all hard links to the object.
    pub inode: u64,
}

/// What kind of object an entry names, with what the accounting needs of it.
#[derive(Clone, Copy, Debug, PartialEq, Eq, Structural)]
pub enum EntryKind {
    /// A regular file with its allocation.
    File { blocks: i64, inode: u64 },
    /// A directory, to be listed in its turn.
    Directory,
    /// A symbolic link; it is measured, never followed.
    Symlink { inode: u64 },
    /// The attributes of the entry could not be collected.
    Failed { code: u32 },
}

/// A decoded entry: its name, where one could be decoded, and its kind.
#[derive(Clone, Debug)]
pub struct Entry {
    pub name: Option<String>,
    pub kind: EntryKind,
}

/// The mathematical value of an [`Entry`].
pub struct EntryView {
    pub name: Option<Seq<char>>,
    pub kind: EntryKind,
}

/// A name as a sequence of characters, if there is one.
pub open spec fn name_view(name: Option<String>) -> Option<Seq<char>> {
    match name {
        Some(text) => Some(text@),
        None => None,
    }
}

impl View for Entry {
    type V = EntryView;

    open spec fn view(&self) -> EntryView {
        EntryView { name: name_view(self.name), kind: self.kind }
    }
}

/// The views of a sequence of entries, in order.
pub open spec fn entries_view(entries: Seq<Entry>) -> Seq<EntryView> {
    Seq::new(entries.len(), |i: int| entries[i]@)
}

/// The name `.` or `..`: the directory itself or its parent.
pub open spec fn is_pseudo_name(name: Seq<char>) -> bool {
    name == seq!['.'] || name == seq!['.', '.']
}

/// What a kind of entry adds to the file list of its directory: a regular
/// file its allocation, a symbolic link one block, anything else nothing.
pub open spec fn charge_of(kind: EntryKind) -> Option<FileInfo> {
    match kind {
        EntryKind::File { blocks, inode } => Some(FileInfo { blocks, inode }),
        EntryKind::Symlink { inode } => Some(FileInfo { blocks: 1, inode }),
        EntryKind::Directory => None,
        EntryKind::Failed { code } => None,
    }
}

/// Tells whether `filename` is one of the two pseudo-entries that every
/// directory holds.
pub fn is_dot_or_dotdot(filename: &str) -> (pseudo: bool)
    ensures
        pseudo == is_pseudo_name(filename@),
{
    let length: usize = filename.unicode_len();
    if length == 1 {
        let only: char = filename.get_char(0);
        proof {
            assert(only == '.' ==> filename@ =~= seq!['.']);
        }
        only == '.'
    } else if length == 2 {
        let first: char = filename.get_char(0);
        let second: char = filename.get_char(1);
        proof {
            assert(first == '.' && second == '.' ==> filename@ =~= seq!['.', '.']);
        }
        first == '.' && second == '.'
    } else {
        false
    }
}

impl EntryKind {
    /// The file-list record that this kind of entry gives rise to, if any.
    pub fn charge(&self) -> (info: Option<FileInfo>)
        ensures
            info == charge_of(*self),
    {
        match self {
            EntryKind::File { blocks, inode } => Some(FileInfo { blocks: *blocks, inode: *inode }),
            EntryKind::Symlink { inode } => Some(FileInfo { blocks: SYMLINK_BLOCKS, inode: *inode }),
            EntryKind::Directory => None,
            EntryKind::Failed { code: _ } => None,
        }
    }
}

/// A symbolic link is charged exactly one block, whatever it points to.
pub proof fn lemma_symlink_costs_one_block(inode: u64)
    ensures
        charge_of(EntryKind::Symlink { inode }) == Some(FileInfo { blocks: 1, inode }),
{
}

} // verus!
