//! Decoding the packed records of a bulk directory enumeration.
//!
//! A buffer holds records one after another. Each begins with its own
//! length in bytes, which leads to the next record, and the set of
//! attributes that it carries; the attributes follow in a fixed order.
//! All integers are little-endian. No read leaves the record it belongs to:
//! an attribute that does not fit counts as absent, and so does every
//! attribute after it.

use vstd::prelude::*;
use vstd::slice::slice_subrange;
use vstd::utf8::decode_utf8;
use vstd::utf8::valid_utf8;
use crate::blocks::blocks_for;
use crate::blocks::blocks_from_bytes;
use crate::bytes::le_i32;
use crate::bytes::le_i64;
use crate::bytes::le_u32;
use crate::bytes::le_u64;
use crate::bytes::read_i32;
use crate::bytes::read_i64;
use crate::bytes::read_u32;
use crate::bytes::read_u64;
use crate::entry::entries_view;
use crate::entry::is_dot_or_dotdot;
use crate::entry::is_pseudo_name;
use crate::entry::name_view;
use crate::entry::Entry;
use crate::entry::EntryKind;
use crate::entry::EntryView;

verus! {

/// Common attribute: the entry's name.
pub const ATTR_CMN_NAME: u32 = 0x0000_0001;

/// Common attribute: the object type.
pub const ATTR_CMN_OBJTYPE: u32 = 0x0000_0008;

/// Common attribute: the file identifier.
pub const ATTR_CMN_FILEID: u32 = 0x0200_0000;

/// Common attribute: the error met while collecting the entry's attributes.
pub const ATTR_CMN_ERROR: u32 = 0x2000_0000;

/// Common attribute: the set of attributes that a record carries.
pub const ATTR_CMN_RETURNED_ATTRS: u32 = 0x8000_0000;

/// File attribute: the bytes allocated on storage.
pub const ATTR_FILE_ALLOCSIZE: u32 = 0x0000_0004;

/// The common attributes to ask the enumeration for: the five above.
pub const REQUESTED_COMMON_ATTRS: u32 = 0xA200_0009;

/// The file attributes to ask the enumeration for.
pub const REQUESTED_FILE_ATTRS: u32 = 0x0000_0004;

/// Object type: none.
pub const VNON: u32 = 0;

/// Object type: regular file.
pub const VREG: u32 = 1;

/// Object type: directory.
pub const VDIR: u32 = 2;

/// Object type: symbolic link.
pub const VLNK: u32 = 5;

/// Bytes taken by a record's length and its set of returned attributes.
pub const RECORD_HEADER: usize = 24;

/// Whether `mask` has a bit of `flag`.
pub open spec fn has_attr(mask: u32, flag: u32) -> bool {
    mask & flag != 0
}

/// The attributes of one record as they stand in the buffer, before any
/// rule of the accounting is applied.
#[derive(Clone, Debug)]
pub struct RawEntry {
    /// The name, if the record has one in valid UTF-8.
    pub name: Option<String>,
    /// The per-entry error code; zero when the record carries none.
    pub error: u32,
    /// The object type; `VNON` when the record carries none.
    pub obj_type: u32,
    /// The file identifier; zero when the record carries none.
    pub inode: u64,
    /// The allocated bytes, if the record carries them.
    pub alloc_size: Option<i64>,
}

/// The mathematical value of a [`RawEntry`].
pub struct RawView {
    pub name: Option<Seq<char>>,
    pub error: u32,
    pub obj_type: u32,
    pub inode: u64,
    pub alloc_size: Option<i64>,
}

impl View for RawEntry {
    type V = RawView;

    open spec fn view(&self) -> RawView {
        RawView {
            name: name_view(self.name),
            error: self.error,
            obj_type: self.obj_type,
            inode: self.inode,
            alloc_size: self.alloc_size,
        }
    }
}

/// A record without attributes.
pub open spec fn bare_record() -> RawView {
    RawView { name: None, error: 0, obj_type: 0, inode: 0, alloc_size: None }
}

/// Where an attribute of `width` bytes is read: at the cursor, if the
/// record carries the attribute, the cursor is intact and the attribute
/// ends within the record.
pub open spec fn field_at(cursor: Option<int>, carried: bool, width: int, end: int) -> Option<int> {
    if carried && cursor is Some && cursor->0 + width <= end {
        cursor
    } else {
        None
    }
}

/// The cursor after an attribute of `width` bytes: unmoved where the record
/// does not carry the attribute, past it where it was read, and lost where
/// it did not fit.
pub open spec fn cursor_after(cursor: Option<int>, carried: bool, width: int, end: int) -> Option<
    int,
> {
    if !carried {
        cursor
    } else if cursor is Some && cursor->0 + width <= end {
        Some(cursor->0 + width)
    } else {
        None
    }
}

/// The name that the reference at `at` points to. The reference holds a
/// signed offset from its own first byte and the length of the encoded
/// name, whose last byte is a terminator and no part of the name. There is
/// no name where the length is zero, where the encoded name does not lie
/// within the record, or where its bytes are not UTF-8.
pub open spec fn name_at(buf: Seq<u8>, start: int, end: int, at: int) -> Option<Seq<char>> {
    let offset = le_i32(buf, at) as int;
    let length = le_u32(buf, at + 4) as int;
    let first = at + offset;
    if length > 0 && start <= first && first + length <= end {
        let bytes = buf.subrange(first, first + length - 1);
        if valid_utf8(bytes) {
            Some(decode_utf8(bytes))
        } else {
            None
        }
    } else {
        None
    }
}

/// The attributes of the record of `len` bytes that begins at `start`.
/// After the header come, each only if the record carries it: the name
/// reference, the error code, the object type, the file identifier and the
/// allocated size.
pub open spec fn raw_at(buf: Seq<u8>, start: int, len: int) -> RawView {
    if len < 24 {
        bare_record()
    } else {
        let end = start + len;
        let common = le_u32(buf, start + 4);
        let file = le_u32(buf, start + 16);
        let c0 = Some(start + 24);
        let name_pos = field_at(c0, has_attr(common, ATTR_CMN_NAME), 8, end);
        let c1 = cursor_after(c0, has_attr(common, ATTR_CMN_NAME), 8, end);
        let error_pos = field_at(c1, has_attr(common, ATTR_CMN_ERROR), 4, end);
        let c2 = cursor_after(c1, has_attr(common, ATTR_CMN_ERROR), 4, end);
        let type_pos = field_at(c2, has_attr(common, ATTR_CMN_OBJTYPE), 4, end);
        let c3 = cursor_after(c2, has_attr(common, ATTR_CMN_OBJTYPE), 4, end);
        let inode_pos = field_at(c3, has_attr(common, ATTR_CMN_FILEID), 8, end);
        let c4 = cursor_after(c3, has_attr(common, ATTR_CMN_FILEID), 8, end);
        let alloc_pos = field_at(c4, has_attr(file, ATTR_FILE_ALLOCSIZE), 8, end);
        RawView {
            name: match name_pos {
                Some(at) => name_at(buf, start, end, at),
                None => None,
            },
            error: match error_pos {
                Some(at) => le_u32(buf, at),
                None => 0,
            },
            obj_type: match type_pos {
                Some(at) => le_u32(buf, at),
                None => 0,
            },
            inode: match inode_pos {
                Some(at) => le_u64(buf, at),
                None => 0,
            },
            alloc_size: match alloc_pos {
                Some(at) => Some(le_i64(buf, at)),
                None => None,
            },
        }
    }
}

/// The entry that a record stands for, if it stands for one. The two
/// pseudo-entries are passed over first; then a record with an error code
/// is a failed entry; then the object type decides. A regular file without
/// an allocated size, a directory without a name and every other type of
/// object give no entry.
pub open spec fn classified(raw: RawView) -> Option<EntryView> {
    if raw.name is Some && is_pseudo_name(raw.name->0) {
        None
    } else if raw.error != 0 {
        Some(EntryView { name: raw.name, kind: EntryKind::Failed { code: raw.error } })
    } else if raw.obj_type == VREG {
        match raw.alloc_size {
            Some(bytes) => Some(
                EntryView {
                    name: raw.name,
                    kind: EntryKind::File {
                        blocks: blocks_for(bytes as int) as i64,
                        inode: raw.inode,
                    },
                },
            ),
            None => None,
        }
    } else if raw.obj_type == VDIR {
        if raw.name is Some {
            Some(EntryView { name: raw.name, kind: EntryKind::Directory })
        } else {
            None
        }
    } else if raw.obj_type == VLNK {
        Some(EntryView { name: raw.name, kind: EntryKind::Symlink { inode: raw.inode } })
    } else {
        None
    }
}

/// The length of the record that begins at `start`, if a record can begin
/// there: its length field lies in the buffer, and the length covers at
/// least that field and does not pass the end of the buffer.
pub open spec fn record_len(buf: Seq<u8>, start: int) -> Option<int> {
    if 0 <= start && start + 4 <= buf.len() {
        let len = le_u32(buf, start) as int;
        if 4 <= len && start + len <= buf.len() {
            Some(len)
        } else {
            None
        }
    } else {
        None
    }
}

/// The entries of up to `count` records from `start` on, in the order of
/// the records. Decoding ends at the first place where no record can begin.
pub open spec fn entries_from(buf: Seq<u8>, start: int, count: nat) -> Seq<EntryView>
    decreases count,
{
    if count == 0 {
        Seq::empty()
    } else {
        match record_len(buf, start) {
            None => Seq::empty(),
            Some(len) => {
                let rest = entries_from(buf, start + len, (count - 1) as nat);
                match classified(raw_at(buf, start, len)) {
                    Some(entry) => seq![entry] + rest,
                    None => rest,
                }
            },
        }
    }
}

/// Decoding yields at most one entry for each record asked for.
pub proof fn lemma_at_most_one_entry_per_record(buf: Seq<u8>, start: int, count: nat)
    ensures
        entries_from(buf, start, count).len() <= count,
    decreases count,
{
    if count > 0 {
        match record_len(buf, start) {
            None => {},
            Some(len) => {
                lemma_at_most_one_entry_per_record(buf, start + len, (count - 1) as nat);
            },
        }
    }
}

/// No record gives an entry named `.` or `..`, and every directory entry
/// has a name.
pub proof fn lemma_classified_is_named_properly(raw: RawView)
    ensures
        match classified(raw) {
            Some(entry) => {
                &&& entry.name is Some ==> !is_pseudo_name(entry.name->0)
                &&& entry.kind == EntryKind::Directory ==> entry.name is Some
            },
            None => true,
        },
{
}

/// No entry of the sequence is named `.` or `..`, and every directory
/// among them has a name.
pub open spec fn properly_named(entries: Seq<EntryView>) -> bool {
    forall|i: int|
        0 <= i < entries.len() ==> {
            let entry = #[trigger] entries[i];
            &&& entry.name is Some ==> !is_pseudo_name(entry.name->0)
            &&& entry.kind == EntryKind::Directory ==> entry.name is Some
        }
}

/// The decoded entries of a buffer never hold one named `.` or `..`, and
/// every directory among them has a name.
pub proof fn lemma_no_pseudo_entries(buf: Seq<u8>, start: int, count: nat)
    ensures
        properly_named(entries_from(buf, start, count)),
    decreases count,
{
    if count > 0 {
        match record_len(buf, start) {
            None => {},
            Some(len) => {
                lemma_no_pseudo_entries(buf, start + len, (count - 1) as nat);
                lemma_classified_is_named_properly(raw_at(buf, start, len));
            },
        }
    }
}

/// A record is decoded from its own bytes alone: two buffers that agree on
/// the bytes of a record give it the same attributes, whatever they hold
/// elsewhere.
pub proof fn lemma_record_is_local(a: Seq<u8>, b: Seq<u8>, start: int, len: int)
    requires
        0 <= start,
        4 <= len,
        start + len <= a.len(),
        start + len <= b.len(),
        a.subrange(start, start + len) == b.subrange(start, start + len),
    ensures
        raw_at(a, start, len) == raw_at(b, start, len),
{
    let end = start + len;
    assert forall|i: int| start <= i < end implies a[i] == b[i] by {
        assert(a.subrange(start, end)[i - start] == a[i]);
        assert(b.subrange(start, end)[i - start] == b[i]);
    }
    assert forall|at: int| start <= at && at + 8 <= end implies name_at(a, start, end, at)
        == name_at(b, start, end, at) by {
        let offset = le_i32(a, at) as int;
        let length = le_u32(a, at + 4) as int;
        let first = at + offset;
        if length > 0 && start <= first && first + length <= end {
            assert(a.subrange(first, first + length - 1) =~= b.subrange(
                first,
                first + length - 1,
            ));
        }
    }
}

/// A position in the buffer as a mathematical integer.
pub open spec fn position_view(cursor: Option<usize>) -> Option<int> {
    match cursor {
        Some(at) => Some(at as int),
        None => None,
    }
}

/// Tests a bit of an attribute set.
fn carries(mask: u32, flag: u32) -> (carried: bool)
    ensures
        carried == has_attr(mask, flag),
{
    mask & flag != 0
}

/// Moves the cursor over one attribute: returns where the attribute is
/// read, if it is, and the cursor after it.
fn advance(cursor: Option<usize>, carried: bool, width: usize, end: usize) -> (step: (
    Option<usize>,
    Option<usize>,
))
    ensures
        position_view(step.0) == field_at(position_view(cursor), carried, width as int, end as int),
        position_view(step.1) == cursor_after(
            position_view(cursor),
            carried,
            width as int,
            end as int,
        ),
{
    if !carried {
        (None, cursor)
    } else {
        match cursor {
            Some(at) => {
                if at <= end && end - at >= width {
                    (Some(at), Some(at + width))
                } else {
                    (None, None)
                }
            },
            None => (None, None),
        }
    }
}

/// `std::str::from_utf8`, with the text copied into a `String`: there is a
/// result exactly where the bytes are well-formed UTF-8, and it is the text
/// that they encode.
#[verifier::external_body]
fn text_of(bytes: &[u8]) -> (text: Option<String>)
    ensures
        text is Some <==> valid_utf8(bytes@),
        text is Some ==> text->0@ == decode_utf8(bytes@),
{
    match std::str::from_utf8(bytes) {
        Ok(text) => Some(text.to_string()),
        Err(_) => None,
    }
}

/// Reads the name that the reference at `at` points to.
fn read_name(buf: &[u8], start: usize, end: usize, at: usize) -> (name: Option<String>)
    requires
        start <= at,
        at + 8 <= end,
        end <= buf@.len(),
    ensures
        name_view(name) == name_at(buf@, start as int, end as int, at as int),
{
    let size: usize = buf.len();
    let offset: i32 = read_i32(buf, at);
    let length: u32 = read_u32(buf, at + 4);
    if length == 0 {
        return None;
    }
    let first: i128 = at as i128 + offset as i128;
    let past: i128 = first + length as i128;
    if first < start as i128 || past > end as i128 {
        return None;
    }
    let from: usize = first as usize;
    let to: usize = (past - 1) as usize;
    let bytes = slice_subrange(buf, from, to);
    text_of(bytes)
}

/// Reads the attributes of the record of `len` bytes at `start`.
pub fn parse_record(buf: &[u8], start: usize, len: usize) -> (raw: RawEntry)
    requires
        4 <= len,
        start + len <= buf@.len(),
    ensures
        raw@ == raw_at(buf@, start as int, len as int),
{
    let size: usize = buf.len();
    let mut raw = RawEntry { name: None, error: 0, obj_type: VNON, inode: 0, alloc_size: None };
    if len < RECORD_HEADER {
        return raw;
    }
    let end: usize = start + len;
    let common: u32 = read_u32(buf, start + 4);
    let file: u32 = read_u32(buf, start + 16);
    let c0: Option<usize> = Some(start + RECORD_HEADER);
    let (name_pos, c1) = advance(c0, carries(common, ATTR_CMN_NAME), 8, end);
    let (error_pos, c2) = advance(c1, carries(common, ATTR_CMN_ERROR), 4, end);
    let (type_pos, c3) = advance(c2, carries(common, ATTR_CMN_OBJTYPE), 4, end);
    let (inode_pos, c4) = advance(c3, carries(common, ATTR_CMN_FILEID), 8, end);
    let (alloc_pos, _c5) = advance(c4, carries(file, ATTR_FILE_ALLOCSIZE), 8, end);
    if let Some(at) = name_pos {
        raw.name = read_name(buf, start, end, at);
    }
    if let Some(at) = error_pos {
        raw.error = read_u32(buf, at);
    }
    if let Some(at) = type_pos {
        raw.obj_type = read_u32(buf, at);
    }
    if let Some(at) = inode_pos {
        raw.inode = read_u64(buf, at);
    }
    if let Some(at) = alloc_pos {
        raw.alloc_size = Some(read_i64(buf, at));
    }
    raw
}

/// Applies the rules of the accounting to the attributes of one record.
pub fn classify(raw: RawEntry) -> (entry: Option<Entry>)
    ensures
        match entry {
            Some(decoded) => classified(raw@) == Some(decoded@),
            None => classified(raw@) is None,
        },
{
    let pseudo: bool = match &raw.name {
        Some(text) => is_dot_or_dotdot(text.as_str()),
        None => false,
    };
    if pseudo {
        None
    } else if raw.error != 0 {
        Some(Entry { name: raw.name, kind: EntryKind::Failed { code: raw.error } })
    } else if raw.obj_type == VREG {
        match raw.alloc_size {
            Some(bytes) => Some(
                Entry {
                    name: raw.name,
                    kind: EntryKind::File { blocks: blocks_from_bytes(bytes), inode: raw.inode },
                },
            ),
            None => None,
        }
    } else if raw.obj_type == VDIR {
        if raw.name.is_some() {
            Some(Entry { name: raw.name, kind: EntryKind::Directory })
        } else {
            None
        }
    } else if raw.obj_type == VLNK {
        Some(Entry { name: raw.name, kind: EntryKind::Symlink { inode: raw.inode } })
    } else {
        None
    }
}

/// Finds the length of the record that begins at `start`.
pub fn frame_record(buf: &[u8], start: usize) -> (len: Option<usize>)
    ensures
        position_view(len) == record_len(buf@, start as int),
{
    let size: usize = buf.len();
    if start > size || size - start < 4 {
        return None;
    }
    let declared: u32 = read_u32(buf, start);
    let len: usize = declared as usize;
    if len < 4 || len > size - start {
        None
    } else {
        Some(len)
    }
}

/// Decodes up to `count` records from the start of `buf` into entries, in
/// the order of the records. There is at most one entry for each record,
/// and none for the directory itself or its parent.
pub fn decode_records(buf: &[u8], count: usize) -> (entries: Vec<Entry>)
    ensures
        entries_view(entries@) == entries_from(buf@, 0, count as nat),
        entries@.len() <= count,
        properly_named(entries_view(entries@)),
{
    proof {
        lemma_at_most_one_entry_per_record(buf@, 0, count as nat);
        lemma_no_pseudo_entries(buf@, 0, count as nat);
    }
    let mut entries: Vec<Entry> = Vec::new();
    let mut pos: usize = 0;
    let mut left: usize = count;
    let size: usize = buf.len();
    assert(entries_view(entries@) =~= Seq::<EntryView>::empty());
    while left > 0
        invariant
            size == buf@.len(),
            pos <= size,
            entries_from(buf@, 0, count as nat) == entries_view(entries@) + entries_from(
                buf@,
                pos as int,
                left as nat,
            ),
        decreases left,
    {
        match frame_record(buf, pos) {
            None => {
                left = 0;
            },
            Some(len) => {
                let raw = parse_record(buf, pos, len);
                let ghost before = entries@;
                match classify(raw) {
                    Some(entry) => {
                        entries.push(entry);
                        assert(entries_view(entries@) =~= entries_view(before) + seq![entry@]);
                    },
                    None => {},
                }
                pos = pos + len;
                left = left - 1;
            },
        }
    }
    entries
}

} // verus!
