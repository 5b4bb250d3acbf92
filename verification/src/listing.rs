//! The listing of one directory: its files, with what each is charged, and
//! the names of its subdirectories.

use vstd::prelude::*;
use crate::entry::charge_of;
use crate::entry::entries_view;
use crate::entry::Entry;
use crate::entry::EntryKind;
use crate::entry::EntryView;
use crate::entry::FileInfo;
use crate::records::decode_records;
use crate::entry::is_pseudo_name;
use crate::records::entries_from;
use crate::records::lemma_no_pseudo_entries;
use crate::records::properly_named;
use crate::text::decimal;
use crate::text::decimal_text;

verus! {

/// What one directory holds, the directory itself and its parent left out.
#[derive(Debug)]
pub struct DirInfo {
    /// The regular files and symbolic links, in the order of enumeration.
    pub files: Vec<FileInfo>,
    /// The names of the subdirectories, in the order of enumeration.
    pub subdirs: Vec<String>,
}

/// The mathematical value of a [`DirInfo`].
pub struct DirInfoView {
    pub files: Seq<FileInfo>,
    pub subdirs: Seq<Seq<char>>,
}

/// The texts of a sequence of strings, in order.
pub open spec fn texts(strings: Seq<String>) -> Seq<Seq<char>> {
    Seq::new(strings.len(), |i: int| strings[i]@)
}

impl View for DirInfo {
    type V = DirInfoView;

    open spec fn view(&self) -> DirInfoView {
        DirInfoView { files: self.files@, subdirs: texts(self.subdirs@) }
    }
}

/// Why a directory could not be listed.
#[derive(Clone, Copy, Debug, PartialEq, Eq, Structural)]
pub enum ScanFailure {
    /// The path cannot be handed to the system as it is.
    InvalidPath,
    /// Nothing exists at the path.
    NotFound,
    /// Access to the directory was refused.
    PermissionDenied,
    /// The path names something that is no directory.
    NotADirectory,
    /// The directory could not be opened, for another reason.
    CannotAccess,
    /// The directory was opened and could not be read, for another reason.
    CannotRead,
}

/// The system's error, as far as the accounting tells errors apart.
#[derive(Clone, Copy, Debug, PartialEq, Eq, Structural)]
pub enum ErrnoKind {
    /// No such file or directory.
    NotFound,
    /// Permission denied.
    PermissionDenied,
    /// Not a directory.
    NotADirectory,
    /// Any other error.
    Other,
}

/// The failure that an error on opening a directory amounts to.
pub open spec fn open_failure_of(kind: ErrnoKind) -> ScanFailure {
    match kind {
        ErrnoKind::NotFound => ScanFailure::NotFound,
        ErrnoKind::PermissionDenied => ScanFailure::PermissionDenied,
        ErrnoKind::NotADirectory => ScanFailure::NotADirectory,
        ErrnoKind::Other => ScanFailure::CannotAccess,
    }
}

/// The failure that an error on reading an open directory amounts to.
pub open spec fn read_failure_of(kind: ErrnoKind) -> ScanFailure {
    match kind {
        ErrnoKind::NotFound => ScanFailure::NotFound,
        ErrnoKind::PermissionDenied => ScanFailure::PermissionDenied,
        ErrnoKind::NotADirectory => ScanFailure::CannotRead,
        ErrnoKind::Other => ScanFailure::CannotRead,
    }
}

/// What is said of a failure.
pub open spec fn failure_text(failure: ScanFailure) -> Seq<char> {
    match failure {
        ScanFailure::InvalidPath => "Invalid path"@,
        ScanFailure::NotFound => "No such file or directory"@,
        ScanFailure::PermissionDenied => "Permission denied"@,
        ScanFailure::NotADirectory => "Not a directory"@,
        ScanFailure::CannotAccess => "Cannot access directory"@,
        ScanFailure::CannotRead => "Cannot read directory contents"@,
    }
}

/// The error of a directory that could not be listed: its path, a colon
/// and a space, and what is said of the failure.
pub open spec fn failure_message(path: Seq<char>, failure: ScanFailure) -> Seq<char> {
    path + ": "@ + failure_text(failure)
}

/// The warning about an entry whose attributes could not be collected.
pub open spec fn warning_text(path: Seq<char>, name: Seq<char>, code: u32) -> Seq<char> {
    "cannot access '"@ + path + "/"@ + name + "': error "@ + decimal_text(code as nat)
}

/// The file list that a sequence of entries gives: the charge of each
/// regular file and symbolic link, in order.
pub open spec fn files_of(entries: Seq<EntryView>) -> Seq<FileInfo>
    decreases entries.len(),
{
    if entries.len() == 0 {
        Seq::empty()
    } else {
        let before = files_of(entries.drop_last());
        match charge_of(entries.last().kind) {
            Some(info) => before.push(info),
            None => before,
        }
    }
}

/// The names of the directories among a sequence of entries, in order.
pub open spec fn subdirs_of(entries: Seq<EntryView>) -> Seq<Seq<char>>
    decreases entries.len(),
{
    if entries.len() == 0 {
        Seq::empty()
    } else {
        let before = subdirs_of(entries.drop_last());
        let entry = entries.last();
        if entry.kind == EntryKind::Directory && entry.name is Some {
            before.push(entry.name->0)
        } else {
            before
        }
    }
}

/// The warnings that a sequence of entries gives: one for each failed
/// entry that has a name, in order.
pub open spec fn warnings_of(path: Seq<char>, entries: Seq<EntryView>) -> Seq<Seq<char>>
    decreases entries.len(),
{
    if entries.len() == 0 {
        Seq::empty()
    } else {
        let before = warnings_of(path, entries.drop_last());
        let entry = entries.last();
        match entry.kind {
            EntryKind::Failed { code } => if entry.name is Some {
                before.push(warning_text(path, entry.name->0, code))
            } else {
                before
            },
            _ => before,
        }
    }
}

/// One answer of the enumeration: a buffer and the number of records that
/// it was said to hold.
#[derive(Debug)]
pub struct Batch {
    pub bytes: Vec<u8>,
    pub count: usize,
}

/// The entries of a sequence of batches, in order.
pub open spec fn batch_entries(batches: Seq<Batch>) -> Seq<EntryView>
    decreases batches.len(),
{
    if batches.len() == 0 {
        Seq::empty()
    } else {
        batch_entries(batches.drop_last()) + entries_from(
            batches.last().bytes@,
            0,
            batches.last().count as nat,
        )
    }
}

/// How the enumeration of one directory went.
#[derive(Debug)]
pub enum Outcome {
    /// The path could not be handed to the system.
    InvalidPath,
    /// The directory could not be opened.
    OpenFailed(ErrnoKind),
    /// The directory was opened and answered with `batches`; then it was
    /// exhausted, or reading it failed.
    Read { batches: Vec<Batch>, failure: Option<ErrnoKind> },
}

/// The listing that an enumeration amounts to, or the error. When reading
/// fails, what was decoded before goes with it.
pub open spec fn listing_of(path: Seq<char>, outcome: Outcome) -> Result<DirInfoView, Seq<char>> {
    match outcome {
        Outcome::InvalidPath => Err(failure_message(path, ScanFailure::InvalidPath)),
        Outcome::OpenFailed(kind) => Err(failure_message(path, open_failure_of(kind))),
        Outcome::Read { batches, failure } => match failure {
            Some(kind) => Err(failure_message(path, read_failure_of(kind))),
            None => Ok(
                DirInfoView {
                    files: files_of(batch_entries(batches@)),
                    subdirs: subdirs_of(batch_entries(batches@)),
                },
            ),
        },
    }
}

/// The warnings that an enumeration gives: those of all its batches,
/// whether reading failed in the end or not.
pub open spec fn outcome_warnings(path: Seq<char>, outcome: Outcome) -> Seq<Seq<char>> {
    match outcome {
        Outcome::Read { batches, failure } => warnings_of(path, batch_entries(batches@)),
        _ => Seq::empty(),
    }
}

/// The value of a result of [`get_dir_info`].
pub open spec fn listing_view(result: Result<DirInfo, String>) -> Result<DirInfoView, Seq<char>> {
    match result {
        Ok(info) => Ok(info@),
        Err(message) => Err(message@),
    }
}

/// The three lists of a concatenation are the concatenations of the lists.
pub proof fn lemma_lists_of_concat(path: Seq<char>, a: Seq<EntryView>, b: Seq<EntryView>)
    ensures
        files_of(a + b) == files_of(a) + files_of(b),
        subdirs_of(a + b) == subdirs_of(a) + subdirs_of(b),
        warnings_of(path, a + b) == warnings_of(path, a) + warnings_of(path, b),
    decreases b.len(),
{
    if b.len() == 0 {
        assert(a + b =~= a);
        assert(files_of(a) + files_of(b) =~= files_of(a));
        assert(subdirs_of(a) + subdirs_of(b) =~= subdirs_of(a));
        assert(warnings_of(path, a) + warnings_of(path, b) =~= warnings_of(path, a));
    } else {
        assert((a + b).drop_last() =~= a + b.drop_last());
        assert((a + b).last() == b.last());
        lemma_lists_of_concat(path, a, b.drop_last());
        assert(files_of(a + b) =~= files_of(a) + files_of(b));
        assert(subdirs_of(a + b) =~= subdirs_of(a) + subdirs_of(b));
        assert(warnings_of(path, a + b) =~= warnings_of(path, a) + warnings_of(path, b));
    }
}

/// Every subdirectory of a listing is the name of a directory among the
/// entries that it was made from.
pub proof fn lemma_subdirs_are_directory_names(entries: Seq<EntryView>)
    ensures
        forall|i: int|
            0 <= i < subdirs_of(entries).len() ==> exists|j: int|
                0 <= j < entries.len() && (#[trigger] entries[j]).kind == EntryKind::Directory
                    && entries[j].name == Some(#[trigger] subdirs_of(entries)[i]),
    decreases entries.len(),
{
    if entries.len() > 0 {
        let before = entries.drop_last();
        lemma_subdirs_are_directory_names(before);
        assert forall|i: int| 0 <= i < subdirs_of(entries).len() implies exists|j: int|
            0 <= j < entries.len() && (#[trigger] entries[j]).kind == EntryKind::Directory
                && entries[j].name == Some(#[trigger] subdirs_of(entries)[i]) by {
            if i < subdirs_of(before).len() {
                let j = choose|j: int|
                    0 <= j < before.len() && (#[trigger] before[j]).kind == EntryKind::Directory
                        && before[j].name == Some(subdirs_of(before)[i]);
                assert(entries[j] == before[j]);
            } else {
                assert(entries[entries.len() - 1] == entries.last());
            }
        }
    }
}

/// The entries of any number of batches are named as those of one batch
/// are: none is named `.` or `..`.
pub proof fn lemma_batches_are_properly_named(batches: Seq<Batch>)
    ensures
        properly_named(batch_entries(batches)),
    decreases batches.len(),
{
    if batches.len() > 0 {
        lemma_batches_are_properly_named(batches.drop_last());
        lemma_no_pseudo_entries(batches.last().bytes@, 0, batches.last().count as nat);
    }
}

/// No listing holds a subdirectory named `.` or `..`: a directory never
/// lists itself or its parent.
pub proof fn lemma_listing_has_no_pseudo_names(path: Seq<char>, outcome: Outcome)
    ensures
        match listing_of(path, outcome) {
            Ok(info) => forall|i: int|
                0 <= i < info.subdirs.len() ==> !is_pseudo_name(#[trigger] info.subdirs[i]),
            Err(message) => true,
        },
{
    match outcome {
        Outcome::Read { batches, failure } => {
            let entries = batch_entries(batches@);
            lemma_batches_are_properly_named(batches@);
            lemma_subdirs_are_directory_names(entries);
            assert forall|i: int| 0 <= i < subdirs_of(entries).len() implies !is_pseudo_name(
                #[trigger] subdirs_of(entries)[i],
            ) by {
                let j = choose|j: int|
                    0 <= j < entries.len() && (#[trigger] entries[j]).kind == EntryKind::Directory
                        && entries[j].name == Some(subdirs_of(entries)[i]);
                assert(entries[j].name is Some);
            }
        },
        _ => {},
    }
}

impl ScanFailure {
    /// What is said of the failure.
    pub fn message(&self) -> (text: &'static str)
        ensures
            text@ == failure_text(*self),
    {
        match self {
            ScanFailure::InvalidPath => "Invalid path",
            ScanFailure::NotFound => "No such file or directory",
            ScanFailure::PermissionDenied => "Permission denied",
            ScanFailure::NotADirectory => "Not a directory",
            ScanFailure::CannotAccess => "Cannot access directory",
            ScanFailure::CannotRead => "Cannot read directory contents",
        }
    }
}

/// Classifies an error met on opening a directory.
pub fn open_failure(kind: ErrnoKind) -> (failure: ScanFailure)
    ensures
        failure == open_failure_of(kind),
{
    match kind {
        ErrnoKind::NotFound => ScanFailure::NotFound,
        ErrnoKind::PermissionDenied => ScanFailure::PermissionDenied,
        ErrnoKind::NotADirectory => ScanFailure::NotADirectory,
        ErrnoKind::Other => ScanFailure::CannotAccess,
    }
}

/// Classifies an error met on reading an open directory.
pub fn read_failure(kind: ErrnoKind) -> (failure: ScanFailure)
    ensures
        failure == read_failure_of(kind),
{
    match kind {
        ErrnoKind::NotFound => ScanFailure::NotFound,
        ErrnoKind::PermissionDenied => ScanFailure::PermissionDenied,
        ErrnoKind::NotADirectory => ScanFailure::CannotRead,
        ErrnoKind::Other => ScanFailure::CannotRead,
    }
}

/// The error to report for a directory that could not be listed.
pub fn describe_failure(path: &str, failure: ScanFailure) -> (message: String)
    ensures
        message@ == failure_message(path@, failure),
{
    let mut message: String = String::from_str(path);
    message.append(": ");
    message.append(failure.message());
    message
}

/// The warning to give about an entry whose attributes could not be
/// collected.
pub fn entry_warning(path: &str, name: &str, code: u32) -> (warning: String)
    ensures
        warning@ == warning_text(path@, name@, code),
{
    let mut warning: String = String::from_str("cannot access '");
    warning.append(path);
    warning.append("/");
    warning.append(name);
    warning.append("': error ");
    let number: String = decimal(code as u64);
    warning.append(number.as_str());
    warning
}

impl DirInfo {
    /// A listing without entries.
    pub fn new() -> (info: DirInfo)
        ensures
            info@.files == Seq::<FileInfo>::empty(),
            info@.subdirs == Seq::<Seq<char>>::empty(),
    {
        let info = DirInfo { files: Vec::new(), subdirs: Vec::new() };
        assert(texts(info.subdirs@) =~= Seq::<Seq<char>>::empty());
        info
    }

    /// Adds decoded entries to the listing: files and symbolic links to the
    /// file list, directories to the list of subdirectories. A failed entry
    /// adds nothing; if it has a name, a warning about it is added to
    /// `warnings`.
    pub fn absorb_entries(&mut self, warnings: &mut Vec<String>, path: &str, entries: &Vec<Entry>)
        ensures
            final(self)@.files == old(self)@.files + files_of(entries_view(entries@)),
            final(self)@.subdirs == old(self)@.subdirs + subdirs_of(entries_view(entries@)),
            texts(final(warnings)@) == texts(old(warnings)@) + warnings_of(
                path@,
                entries_view(entries@),
            ),
    {
        let ghost all = entries_view(entries@);
        let ghost files0 = self@.files;
        let ghost subdirs0 = self@.subdirs;
        let ghost warnings0 = texts(warnings@);
        let mut i: usize = 0;
        assert(all.subrange(0, 0) =~= Seq::<EntryView>::empty());
        assert(self@.files =~= files0 + files_of(all.subrange(0, 0)));
        assert(self@.subdirs =~= subdirs0 + subdirs_of(all.subrange(0, 0)));
        assert(texts(warnings@) =~= warnings0 + warnings_of(path@, all.subrange(0, 0)));
        while i < entries.len()
            invariant
                i <= entries.len(),
                all == entries_view(entries@),
                self@.files == files0 + files_of(all.subrange(0, i as int)),
                self@.subdirs == subdirs0 + subdirs_of(all.subrange(0, i as int)),
                texts(warnings@) == warnings0 + warnings_of(path@, all.subrange(0, i as int)),
            decreases entries.len() - i,
        {
            let entry: &Entry = &entries[i];
            proof {
                assert(all.subrange(0, i + 1).drop_last() =~= all.subrange(0, i as int));
                assert(all.subrange(0, i + 1).last() == entry@);
            }
            let ghost subdirs1 = self.subdirs@;
            let ghost warnings1 = warnings@;
            match entry.kind {
                EntryKind::File { blocks, inode } => {
                    self.files.push(FileInfo { blocks, inode });
                },
                EntryKind::Symlink { inode } => {
                    self.files.push(FileInfo { blocks: 1, inode });
                },
                EntryKind::Directory => {
                    match &entry.name {
                        Some(name) => {
                            let copy: String = name.clone();
                            self.subdirs.push(copy);
                            assert(texts(self.subdirs@) =~= texts(subdirs1).push(name@));
                        },
                        None => {},
                    }
                },
                EntryKind::Failed { code } => {
                    match &entry.name {
                        Some(name) => {
                            let warning: String = entry_warning(path, name.as_str(), code);
                            warnings.push(warning);
                            assert(texts(warnings@) =~= texts(warnings1).push(warning@));
                        },
                        None => {},
                    }
                },
            }
            i = i + 1;
            assert(self@.files =~= files0 + files_of(all.subrange(0, i as int)));
            assert(self@.subdirs =~= subdirs0 + subdirs_of(all.subrange(0, i as int)));
            assert(texts(warnings@) =~= warnings0 + warnings_of(path@, all.subrange(0, i as int)));
        }
        assert(all.subrange(0, i as int) =~= all);
    }

    /// Decodes one answer of the enumeration, `count` records in `buf`, and
    /// adds its entries to the listing.
    pub fn absorb_batch(
        &mut self,
        warnings: &mut Vec<String>,
        path: &str,
        buf: &[u8],
        count: usize,
    )
        ensures
            final(self)@.files == old(self)@.files + files_of(
                entries_from(buf@, 0, count as nat),
            ),
            final(self)@.subdirs == old(self)@.subdirs + subdirs_of(
                entries_from(buf@, 0, count as nat),
            ),
            texts(final(warnings)@) == texts(old(warnings)@) + warnings_of(
                path@,
                entries_from(buf@, 0, count as nat),
            ),
    {
        let entries: Vec<Entry> = decode_records(buf, count);
        self.absorb_entries(warnings, path, &entries);
    }
}

/// Lists a directory from the outcome of its enumeration. The result is
/// the listing of all batches, or the error of the outcome; the warnings of
/// all batches are added to `warnings` either way. No subdirectory of the
/// listing is the directory itself or its parent.
pub fn get_dir_info(path: &str, outcome: &Outcome, warnings: &mut Vec<String>) -> (result: Result<
    DirInfo,
    String,
>)
    ensures
        listing_view(result) == listing_of(path@, *outcome),
        texts(final(warnings)@) == texts(old(warnings)@) + outcome_warnings(path@, *outcome),
        match result {
            Ok(info) => forall|i: int|
                0 <= i < info@.subdirs.len() ==> !is_pseudo_name(#[trigger] info@.subdirs[i]),
            Err(message) => true,
        },
{
    let ghost warnings0 = texts(warnings@);
    match outcome {
        Outcome::InvalidPath => {
            assert(texts(warnings@) =~= warnings0 + Seq::<Seq<char>>::empty());
            Err(describe_failure(path, ScanFailure::InvalidPath))
        },
        Outcome::OpenFailed(kind) => {
            assert(texts(warnings@) =~= warnings0 + Seq::<Seq<char>>::empty());
            Err(describe_failure(path, open_failure(*kind)))
        },
        Outcome::Read { batches, failure } => {
            let mut info: DirInfo = DirInfo::new();
            let mut i: usize = 0;
            assert(batches@.subrange(0, 0) =~= Seq::<Batch>::empty());
            assert(info@.files =~= files_of(batch_entries(batches@.subrange(0, 0))));
            assert(info@.subdirs =~= subdirs_of(batch_entries(batches@.subrange(0, 0))));
            assert(texts(warnings@) =~= warnings0 + warnings_of(
                path@,
                batch_entries(batches@.subrange(0, 0)),
            ));
            while i < batches.len()
                invariant
                    i <= batches.len(),
                    info@.files == files_of(batch_entries(batches@.subrange(0, i as int))),
                    info@.subdirs == subdirs_of(batch_entries(batches@.subrange(0, i as int))),
                    texts(warnings@) == warnings0 + warnings_of(
                        path@,
                        batch_entries(batches@.subrange(0, i as int)),
                    ),
                decreases batches.len() - i,
            {
                let batch: &Batch = &batches[i];
                proof {
                    assert(batches@.subrange(0, i + 1).drop_last() =~= batches@.subrange(
                        0,
                        i as int,
                    ));
                    assert(batches@.subrange(0, i + 1).last() == *batch);
                    lemma_lists_of_concat(
                        path@,
                        batch_entries(batches@.subrange(0, i as int)),
                        entries_from(batch.bytes@, 0, batch.count as nat),
                    );
                }
                info.absorb_batch(warnings, path, batch.bytes.as_slice(), batch.count);
                i = i + 1;
                assert(texts(warnings@) =~= warnings0 + warnings_of(
                    path@,
                    batch_entries(batches@.subrange(0, i as int)),
                ));
            }
            assert(batches@.subrange(0, i as int) =~= batches@);
            match failure {
                Some(kind) => Err(describe_failure(path, read_failure(*kind))),
                None => {
                    proof {
                        lemma_listing_has_no_pseudo_names(path@, *outcome);
                        assert(listing_of(path@, *outcome)->Ok_0.subdirs == info@.subdirs);
                    }
                    Ok(info)
                },
            }
        },
    }
}

} // verus!
