//! The owned snapshot of a tar entry, in which the output of both readers is compared.
use crate::bytes::bytes_equal;
use crate::rs_laws::{is_left_out_type, kept};
use vstd::prelude::*;

verus! {

/// Maximum content size read per entry (keeps memory bounded on arbitrary inputs).
pub const MAX_CONTENT_READ: u64 = 262144;

/// Owned snapshot of a parsed tar entry, with its content bytes.
///
/// All byte-oriented fields are byte strings, since tar paths and xattr values need not be valid
/// UTF-8.
#[derive(Debug, Clone, Eq)]
pub struct OwnedEntry {
    pub entry_type: u8,
    pub path: Vec<u8>,
    pub link_target: Option<Vec<u8>>,
    pub mode: u32,
    pub uid: u64,
    pub gid: u64,
    pub mtime: u64,
    pub size: u64,
    pub uname: Option<Vec<u8>>,
    pub gname: Option<Vec<u8>>,
    /// Device major number (for block and character devices).
    pub dev_major: Option<u32>,
    /// Device minor number (for block and character devices).
    pub dev_minor: Option<u32>,
    /// Extended attributes (from PAX `SCHILY.xattr.*` records).
    /// Each pair is `(attr_name, value)` where `attr_name` is the part after `SCHILY.xattr.`
    /// (such as `user.mime_type`).
    pub xattrs: Vec<(Vec<u8>, Vec<u8>)>,
    pub content: Vec<u8>,
}

/// The mathematical value of an [`OwnedEntry`].
#[verifier::ext_equal]
pub struct OwnedEntryView {
    pub entry_type: u8,
    pub path: Seq<u8>,
    pub link_target: Option<Seq<u8>>,
    pub mode: u32,
    pub uid: u64,
    pub gid: u64,
    pub mtime: u64,
    pub size: u64,
    pub uname: Option<Seq<u8>>,
    pub gname: Option<Seq<u8>>,
    pub dev_major: Option<u32>,
    pub dev_minor: Option<u32>,
    pub xattrs: Seq<(Seq<u8>, Seq<u8>)>,
    pub content: Seq<u8>,
}

/// The value of an optional byte string.
pub open spec fn optional_bytes(v: Option<Vec<u8>>) -> Option<Seq<u8>> {
    match v {
        Some(bytes) => Some(bytes@),
        None => None,
    }
}

/// The values of a list of pairs of byte strings.
pub open spec fn byte_pairs(pairs: Seq<(Vec<u8>, Vec<u8>)>) -> Seq<(Seq<u8>, Seq<u8>)> {
    Seq::new(pairs.len(), |i: int| (pairs[i].0@, pairs[i].1@))
}

impl View for OwnedEntry {
    type V = OwnedEntryView;

    open spec fn view(&self) -> OwnedEntryView {
        OwnedEntryView {
            entry_type: self.entry_type,
            path: self.path@,
            link_target: optional_bytes(self.link_target),
            mode: self.mode,
            uid: self.uid,
            gid: self.gid,
            mtime: self.mtime,
            size: self.size,
            uname: optional_bytes(self.uname),
            gname: optional_bytes(self.gname),
            dev_major: self.dev_major,
            dev_minor: self.dev_minor,
            xattrs: byte_pairs(self.xattrs@),
            content: self.content@,
        }
    }
}

/// The values of a list of entries.
pub open spec fn entry_views(entries: Seq<OwnedEntry>) -> Seq<OwnedEntryView> {
    Seq::new(entries.len(), |i: int| entries[i]@)
}

/// Whether two optional byte strings are the same.
fn optional_bytes_equal(a: &Option<Vec<u8>>, b: &Option<Vec<u8>>) -> (r: bool)
    ensures
        r == (optional_bytes(*a) == optional_bytes(*b)),
{
    match (a, b) {
        (Some(x), Some(y)) => bytes_equal(x, y),
        (None, None) => true,
        _ => false,
    }
}

/// Whether two optional numbers are the same.
fn optional_numbers_equal(a: Option<u32>, b: Option<u32>) -> (r: bool)
    ensures
        r == (a == b),
{
    match (a, b) {
        (Some(x), Some(y)) => x == y,
        (None, None) => true,
        _ => false,
    }
}

/// Whether two lists of pairs of byte strings are the same.
fn byte_pairs_equal(a: &Vec<(Vec<u8>, Vec<u8>)>, b: &Vec<(Vec<u8>, Vec<u8>)>) -> (r: bool)
    ensures
        r == (byte_pairs(a@) == byte_pairs(b@)),
{
    if a.len() != b.len() {
        assert(byte_pairs(a@).len() != byte_pairs(b@).len());
        return false;
    }
    let mut i: usize = 0;
    while i < a.len()
        invariant
            i <= a.len(),
            a@.len() == b@.len(),
            forall|j: int| 0 <= j < i ==> byte_pairs(a@)[j] == byte_pairs(b@)[j],
        decreases a.len() - i,
    {
        if !bytes_equal(&a[i].0, &b[i].0) || !bytes_equal(&a[i].1, &b[i].1) {
            assert(byte_pairs(a@)[i as int] != byte_pairs(b@)[i as int]);
            return false;
        }
        i += 1;
    }
    assert(byte_pairs(a@) =~= byte_pairs(b@));
    true
}

impl PartialEq for OwnedEntry {
    fn eq(&self, other: &Self) -> (r: bool) {
        self.entry_type == other.entry_type && bytes_equal(&self.path, &other.path)
            && optional_bytes_equal(&self.link_target, &other.link_target) && self.mode
            == other.mode && self.uid == other.uid && self.gid == other.gid && self.mtime
            == other.mtime && self.size == other.size && optional_bytes_equal(
            &self.uname,
            &other.uname,
        ) && optional_bytes_equal(&self.gname, &other.gname) && optional_numbers_equal(
            self.dev_major,
            other.dev_major,
        ) && optional_numbers_equal(self.dev_minor, other.dev_minor) && byte_pairs_equal(
            &self.xattrs,
            &other.xattrs,
        ) && bytes_equal(&self.content, &other.content)
    }
}

impl vstd::std_specs::cmp::PartialEqSpecImpl for OwnedEntry {
    open spec fn obeys_eq_spec() -> bool {
        true
    }

    open spec fn eq_spec(&self, other: &Self) -> bool {
        self@ == other@
    }
}

/// Whether `entry_type` is a type whose entries only describe others: GNU long name, GNU long
/// link, PAX header, global PAX header.
pub open spec fn is_metadata_type(entry_type: u8) -> bool {
    entry_type == 0x4c || entry_type == 0x4b || entry_type == 0x78 || entry_type == 0x67
}

/// Whether `entry_type` is a type whose entries only describe others.
pub fn describes_other_entries(entry_type: u8) -> (r: bool)
    ensures
        r == is_metadata_type(entry_type),
        r == is_left_out_type(entry_type),
{
    entry_type == 0x4c || entry_type == 0x4b || entry_type == 0x78 || entry_type == 0x67
}

/// How many bytes of content are kept of an entry of the given size.
pub open spec fn kept_content(size: u64) -> int {
    if size < MAX_CONTENT_READ {
        size as int
    } else {
        MAX_CONTENT_READ as int
    }
}

/// How many bytes of content are kept of an entry of the given size.
pub fn kept_content_len(size: u64) -> (r: usize)
    ensures
        r == kept_content(size),
        r == kept(size),
{
    if size < MAX_CONTENT_READ {
        size as usize
    } else {
        MAX_CONTENT_READ as usize
    }
}

/// What both readers guarantee of every entry that they return: it is a real entry, it has a
/// path, and its content is complete up to the content limit.
pub open spec fn is_comparable(entry: OwnedEntryView) -> bool {
    &&& !is_metadata_type(entry.entry_type)
    &&& entry.path.len() > 0
    &&& entry.content.len() == kept_content(entry.size)
}

} // verus!
