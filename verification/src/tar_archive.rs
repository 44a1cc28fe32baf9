//! The entries of an archive, as the tar crate hands them out.
use crate::entry::optional_bytes;
use crate::fixup::HEADER_SIZE;
use crate::rs_sums::overflow_index;
use std::borrow::Cow;
use std::io::{Cursor, Read};
use tar::Archive;
use vstd::prelude::*;

verus! {

/// An entry as the tar crate hands it out: its header, its path and link name with GNU and PAX
/// overrides applied, its size, and what could be read of its content up to a limit.
pub struct RawEntry {
    pub header: Vec<u8>,
    pub path: Vec<u8>,
    pub link_name: Option<Vec<u8>>,
    pub size: u64,
    pub content: Vec<u8>,
}

/// The mathematical value of a [`RawEntry`].
pub struct RawEntryView {
    pub header: Seq<u8>,
    pub path: Seq<u8>,
    pub link_name: Option<Seq<u8>>,
    pub size: u64,
    pub content: Seq<u8>,
}

impl View for RawEntry {
    type V = RawEntryView;

    open spec fn view(&self) -> RawEntryView {
        RawEntryView {
            header: self.header@,
            path: self.path@,
            link_name: optional_bytes(self.link_name),
            size: self.size,
            content: self.content@,
        }
    }
}

/// A PAX record: its key and value, or nothing if it is malformed.
pub type PaxRecord = Option<(Vec<u8>, Vec<u8>)>;

/// The mathematical value of a [`PaxRecord`].
pub type PaxRecordView = Option<(Seq<u8>, Seq<u8>)>;

/// The values of a list of PAX records.
pub open spec fn record_views(records: Seq<PaxRecord>) -> Seq<PaxRecordView> {
    Seq::new(
        records.len(),
        |i: int|
            match records[i] {
                Some(record) => Some((record.0@, record.1@)),
                None => None,
            },
    )
}

/// How many items iterating over `tar::Archive::entries` of `data` hands out: entries, and at the
/// end an error if the archive is malformed.
pub uninterp spec fn tar_entry_count(data: Seq<u8>) -> nat;

/// What `tar::Entry::header` gives for the item of `data` with index `i`; nothing if the item is an
/// error.
pub uninterp spec fn tar_header_bytes(data: Seq<u8>, i: int) -> Option<Seq<u8>>;

/// What `tar::Entry::path_bytes` gives for the entry of `data` with index `i`.
pub uninterp spec fn tar_path(data: Seq<u8>, i: int) -> Seq<u8>;

/// What `tar::Entry::link_name_bytes` gives for the entry of `data` with index `i`.
pub uninterp spec fn tar_link_name(data: Seq<u8>, i: int) -> Option<Seq<u8>>;

/// What `tar::Entry::size` gives for the entry of `data` with index `i`.
pub uninterp spec fn tar_size(data: Seq<u8>, i: int) -> u64;

/// What can be read of the content of the entry of `data` with index `i`, up to `limit` bytes.
pub uninterp spec fn tar_content(data: Seq<u8>, i: int, limit: u64) -> Seq<u8>;

/// What `tar::Entry::pax_extensions` gives for the item of `data` with index `i`; nothing if there
/// are no extensions or the item is an error.
pub uninterp spec fn tar_pax_records(data: Seq<u8>, i: int) -> Option<Seq<PaxRecordView>>;

/// The item of `data` with index `i`; nothing if it is an error.
pub open spec fn handed_out(data: Seq<u8>, i: int, limit: u64) -> Option<RawEntryView> {
    match tar_header_bytes(data, i) {
        Some(header) => Some(
            RawEntryView {
                header,
                path: tar_path(data, i),
                link_name: tar_link_name(data, i),
                size: tar_size(data, i),
                content: tar_content(data, i, limit),
            },
        ),
        None => None,
    }
}

/// How many of `total` items are taken: `count`, if that is set, and no more than there are.
pub open spec fn taken(count: Option<usize>, total: nat) -> nat {
    match count {
        Some(n) => if n < total {
            n as nat
        } else {
            total
        },
        None => total,
    }
}

/// Whether the first `count` items of `data`, or all of them, can be had from the tar crate without
/// a position that it adds up to 2^64 or more.
pub open spec fn positions_fit(data: Seq<u8>, count: Option<usize>) -> bool {
    overflow_index(data) matches Some(k) ==> (count matches Some(n) && n <= k)
}

/// Iterates over `tar::Archive::entries`, for the first `count` items or for all, and calls
/// `header`, `path_bytes`, `link_name_bytes`, `size` and `std::io::Read::read_to_end` on each entry.
///
/// Trusted: how many items there are, and what each call gives, is a function of the data, of the
/// index of the entry and, for the content, of the limit; a header is one block. The tar crate adds
/// extension blocks of sparse entries to a position unchecked, so items at which that overflows
/// are left out.
#[verifier::external_body]
pub(crate) fn read_entries(data: &[u8], limit: u64, count: Option<usize>) -> (r: Vec<
    Option<RawEntry>,
>)
    requires
        positions_fit(data@, count),
    ensures
        r@.len() == taken(count, tar_entry_count(data@)),
        forall|i: int|
            0 <= i < r@.len() ==> match #[trigger] r@[i] {
                Some(entry) => {
                    &&& tar_header_bytes(data@, i) == Some(entry.header@)
                    &&& entry.header@.len() == HEADER_SIZE
                    &&& entry.path@ == tar_path(data@, i)
                    &&& optional_bytes(entry.link_name) == tar_link_name(data@, i)
                    &&& entry.size == tar_size(data@, i)
                    &&& entry.content@ == tar_content(data@, i, limit)
                },
                None => tar_header_bytes(data@, i) is None,
            },
{
    let mut archive = Archive::new(Cursor::new(data));
    let entries = archive.entries().into_iter().flatten().take(count.unwrap_or(usize::MAX));
    entries.map(|entry| entry.ok().map(|mut entry| {
        let mut content = Vec::new();
        let _ = entry.by_ref().take(limit).read_to_end(&mut content);
        let header = entry.header().as_bytes().to_vec();
        let path = entry.path_bytes().into_owned();
        let link_name = entry.link_name_bytes().map(Cow::into_owned);
        RawEntry { header, path, link_name, size: entry.size(), content }
    })).collect()
}

/// Iterates over `tar::Archive::entries`, for the first `count` items or for all, and calls
/// `pax_extensions` on each entry.
///
/// Trusted: the records are a function of the data and of the index of the entry. Items at which a
/// position of the tar crate overflows are left out.
#[verifier::external_body]
pub(crate) fn read_pax_records(data: &[u8], count: Option<usize>) -> (r: Vec<
    Option<Vec<PaxRecord>>,
>)
    requires
        positions_fit(data@, count),
    ensures
        r@.len() == taken(count, tar_entry_count(data@)),
        forall|i: int|
            0 <= i < r@.len() ==> match #[trigger] r@[i] {
                Some(records) => tar_pax_records(data@, i) == Some(record_views(records@)),
                None => tar_pax_records(data@, i) is None,
            },
{
    let mut archive = Archive::new(Cursor::new(data));
    let entries = archive.entries().into_iter().flatten().take(count.unwrap_or(usize::MAX));
    entries.map(|entry| {
        let mut entry = entry.ok()?;
        let records = entry.pax_extensions().ok()??;
        Some(records.map(|record| {
            let record = record.ok()?;
            Some((record.key_bytes().to_vec(), record.value_bytes().to_vec()))
        }).collect())
    }).collect()
}

} // verus!
