//! Reading an archive with the tar crate.
use crate::bytes::{
    before_nul, bytes_equal, law_truncation_is_longest_nul_free_prefix, starts_with,
    truncate_at_nul,
};
use crate::entry::{
    byte_pairs, describes_other_entries, entry_views, is_comparable, is_metadata_type,
    kept_content, kept_content_len, optional_bytes, OwnedEntry, OwnedEntryView, MAX_CONTENT_READ,
};
use crate::fixup::HEADER_SIZE;
use crate::rs_laws::{is_right_resolution, law_resolution_is_right};
use crate::rs_sums::{
    find_overflow, has_extended_sparse, lemma_overflow_needs_extended_sparse, nothing_described,
    overflow_index,
};
use crate::tar_archive::{
    handed_out, positions_fit, read_entries, read_pax_records, record_views, taken, tar_entry_count,
    tar_pax_records, PaxRecord, PaxRecordView, RawEntry, RawEntryView,
};
use crate::tar_header::{header_fields, read_header_fields, HeaderFields, HeaderFieldsView};
use vstd::prelude::*;
use vstd::slice::{slice_subrange, slice_to_vec};
use vstd::utf8::valid_utf8;

verus! {

/// What the PAX key of an extended attribute starts with: `SCHILY.xattr.`.
pub const PAX_SCHILY_XATTR: [u8; 13] = [
    0x53, 0x43, 0x48, 0x49, 0x4c, 0x59, 0x2e, 0x78, 0x61, 0x74, 0x74, 0x72, 0x2e,
];

/// The PAX key of the user name: `uname`.
pub const PAX_UNAME: [u8; 5] = [0x75, 0x6e, 0x61, 0x6d, 0x65];

/// The PAX key of the group name: `gname`.
pub const PAX_GNAME: [u8; 5] = [0x67, 0x6e, 0x61, 0x6d, 0x65];

/// Calls `std::str::from_utf8`.
///
/// Trusted: it succeeds on valid UTF-8 and on nothing else.
#[verifier::external_body]
fn is_utf8(bytes: &[u8]) -> (r: bool)
    ensures
        r == valid_utf8(bytes@),
{
    std::str::from_utf8(bytes).is_ok()
}

/// The value of the last well-formed record with the given key whose value is not empty.
pub open spec fn last_value(records: Seq<PaxRecordView>, key: Seq<u8>) -> Option<Seq<u8>>
    decreases records.len(),
{
    if records.len() == 0 {
        None
    } else {
        match records.last() {
            Some(record) => if record.0 == key && record.1.len() > 0 {
                Some(record.1)
            } else {
                last_value(records.drop_last(), key)
            },
            None => last_value(records.drop_last(), key),
        }
    }
}

/// Whether a PAX key names an extended attribute: it is valid UTF-8 and has the prefix.
pub open spec fn is_xattr_key(key: Seq<u8>) -> bool {
    valid_utf8(key) && PAX_SCHILY_XATTR@.is_prefix_of(key)
}

/// The extended attributes in a list of records, in their order: the rest of the key behind the
/// prefix, and the value.
pub open spec fn xattrs(records: Seq<PaxRecordView>) -> Seq<(Seq<u8>, Seq<u8>)>
    decreases records.len(),
{
    if records.len() == 0 {
        Seq::empty()
    } else {
        let earlier = xattrs(records.drop_last());
        match records.last() {
            Some(record) => if is_xattr_key(record.0) {
                earlier.push((record.0.skip(PAX_SCHILY_XATTR@.len() as int), record.1))
            } else {
                earlier
            },
            None => earlier,
        }
    }
}

/// The records of an entry; none if it has no extensions.
pub open spec fn record_list(pax: Option<Seq<PaxRecordView>>) -> Seq<PaxRecordView> {
    match pax {
        Some(records) => records,
        None => Seq::empty(),
    }
}

/// An optional byte string, without an empty one.
pub open spec fn unless_empty(bytes: Option<Seq<u8>>) -> Option<Seq<u8>> {
    match bytes {
        Some(b) => if b.len() > 0 {
            Some(b)
        } else {
            None
        },
        None => None,
    }
}

/// A name of the owner: what the PAX records say, or else what the header says.
pub open spec fn owner(
    records: Seq<PaxRecordView>,
    key: Seq<u8>,
    in_header: Option<Seq<u8>>,
) -> Option<Seq<u8>> {
    match last_value(records, key) {
        Some(value) => Some(value),
        None => unless_empty(in_header),
    }
}

/// What becomes of an entry that the tar crate hands out.
pub enum Resolution {
    /// Reading ends here.
    Stop,
    /// The entry is left out.
    Skip,
    /// The entry is recorded.
    Record(OwnedEntry),
}

/// The mathematical value of a [`Resolution`].
pub enum ResolutionView {
    Stop,
    Skip,
    Record(OwnedEntryView),
}

impl View for Resolution {
    type V = ResolutionView;

    open spec fn view(&self) -> ResolutionView {
        match *self {
            Resolution::Stop => ResolutionView::Stop,
            Resolution::Skip => ResolutionView::Skip,
            Resolution::Record(entry) => ResolutionView::Record(entry@),
        }
    }
}

/// Whether every numeric field of a header has a value.
pub open spec fn numbers_are_valid(fields: HeaderFieldsView) -> bool {
    fields.mode is Some && fields.uid is Some && fields.gid is Some && fields.mtime is Some
        && fields.dev_major is Some && fields.dev_minor is Some
}

/// What becomes of an entry with the given header fields and PAX records.
///
/// A malformed numeric field ends the reading, before anything else is looked at, since tar-core
/// takes it for an error. Entries that only describe others, and entries with an empty path, are
/// left out. Content that is missing, up to the content limit, ends the reading.
pub open spec fn resolve(
    raw: RawEntryView,
    fields: HeaderFieldsView,
    pax: Option<Seq<PaxRecordView>>,
) -> ResolutionView {
    let path = before_nul(raw.path);
    let records = record_list(pax);
    if !numbers_are_valid(fields) {
        ResolutionView::Stop
    } else if is_metadata_type(fields.entry_type) || path.len() == 0 {
        ResolutionView::Skip
    } else if raw.content.len() != kept_content(raw.size) {
        ResolutionView::Stop
    } else {
        ResolutionView::Record(
            OwnedEntryView {
                entry_type: fields.entry_type,
                path,
                link_target: match unless_empty(raw.link_name) {
                    Some(name) => Some(before_nul(name)),
                    None => None,
                },
                mode: fields.mode->0,
                uid: fields.uid->0,
                gid: fields.gid->0,
                mtime: fields.mtime->0,
                size: raw.size,
                uname: owner(records, PAX_UNAME@, fields.username),
                gname: owner(records, PAX_GNAME@, fields.groupname),
                dev_major: fields.dev_major->0,
                dev_minor: fields.dev_minor->0,
                xattrs: xattrs(records),
                content: raw.content,
            },
        )
    }
}

/// What becomes of the item of `data` with index `i`. An error ends the reading.
pub open spec fn outcome_at(data: Seq<u8>, i: int) -> ResolutionView {
    match handed_out(data, i, MAX_CONTENT_READ) {
        Some(raw) => resolve(raw, header_fields(raw.header), tar_pax_records(data, i)),
        None => ResolutionView::Stop,
    }
}

/// The entries recorded of `data` from the item with index `i` on.
pub open spec fn entries_from(data: Seq<u8>, i: int) -> Seq<OwnedEntryView>
    decreases tar_entry_count(data) - i,
{
    if i < 0 || i >= tar_entry_count(data) {
        Seq::empty()
    } else {
        match outcome_at(data, i) {
            ResolutionView::Stop => Seq::empty(),
            ResolutionView::Skip => entries_from(data, i + 1),
            ResolutionView::Record(entry) => seq![entry] + entries_from(data, i + 1),
        }
    }
}

/// Whether reading `data` from the item with index `i` on ends before it comes to the item with
/// index `k`.
pub open spec fn ends_before(data: Seq<u8>, i: int, k: int) -> bool
    decreases k - i,
{
    if i < 0 || i >= k {
        false
    } else {
        i >= tar_entry_count(data) || outcome_at(data, i) is Stop || ends_before(data, i + 1, k)
    }
}

/// Whether the tar crate, reading `data`, adds up no position to 2^64 or more. What stands where
/// the reading does not come is not looked at.
pub open spec fn rs_reading_fits(data: Seq<u8>) -> bool {
    overflow_index(data) matches Some(k) ==> ends_before(data, 0, k)
}

/// The value of the last well-formed record with the given key whose value is not empty.
fn find_last_value(records: &Vec<PaxRecord>, key: &[u8]) -> (r: Option<Vec<u8>>)
    ensures
        optional_bytes(r) == last_value(record_views(records@), key@),
{
    let ghost views = record_views(records@);
    let mut i: usize = records.len();
    assert(views.subrange(0, i as int) =~= views);
    while i > 0
        invariant
            i <= records.len(),
            views == record_views(records@),
            last_value(views, key@) == last_value(views.subrange(0, i as int), key@),
        decreases i,
    {
        i -= 1;
        assert(views.subrange(0, i + 1).drop_last() =~= views.subrange(0, i as int));
        assert(views.subrange(0, i + 1).last() == views[i as int]);
        if let Some((k, v)) = &records[i] {
            if bytes_equal(k, key) && v.len() > 0 {
                return Some(slice_to_vec(v.as_slice()));
            }
        }
    }
    None
}

/// The extended attributes in a list of records.
fn collect_xattrs(records: &Vec<PaxRecord>) -> (r: Vec<(Vec<u8>, Vec<u8>)>)
    ensures
        byte_pairs(r@) == xattrs(record_views(records@)),
{
    let ghost views = record_views(records@);
    let mut r: Vec<(Vec<u8>, Vec<u8>)> = Vec::new();
    let mut i: usize = 0;
    assert(byte_pairs(r@) =~= Seq::empty());
    assert(views.subrange(0, 0).len() == 0);
    while i < records.len()
        invariant
            i <= records.len(),
            views == record_views(records@),
            byte_pairs(r@) == xattrs(views.subrange(0, i as int)),
        decreases records.len() - i,
    {
        let ghost upto = views.subrange(0, i + 1);
        assert(upto.drop_last() =~= views.subrange(0, i as int));
        assert(upto.last() == views[i as int]);
        if let Some((key, value)) = &records[i] {
            if is_utf8(key) && starts_with(key, &PAX_SCHILY_XATTR) {
                let ghost before = r@;
                let name = slice_to_vec(slice_subrange(key, PAX_SCHILY_XATTR.len(), key.len()));
                assert(name@ =~= key@.skip(PAX_SCHILY_XATTR@.len() as int));
                r.push((name, slice_to_vec(value.as_slice())));
                assert(byte_pairs(r@) =~= byte_pairs(before).push((name@, value@)));
            }
        }
        i += 1;
    }
    assert(views.subrange(0, views.len() as int) =~= views);
    r
}

/// An optional byte string, without an empty one.
fn copy_unless_empty(bytes: &Option<Vec<u8>>) -> (r: Option<Vec<u8>>)
    ensures
        optional_bytes(r) == unless_empty(optional_bytes(*bytes)),
{
    match bytes {
        Some(b) => if b.len() > 0 {
            Some(slice_to_vec(b.as_slice()))
        } else {
            None
        },
        None => None,
    }
}

/// A name of the owner: what the PAX records say, or else what the header says.
fn find_owner(records: &Vec<PaxRecord>, key: &[u8], in_header: &Option<Vec<u8>>) -> (r: Option<
    Vec<u8>,
>)
    ensures
        optional_bytes(r) == owner(record_views(records@), key@, optional_bytes(*in_header)),
{
    match find_last_value(records, key) {
        Some(value) => Some(value),
        None => copy_unless_empty(in_header),
    }
}

/// What becomes of an entry with the given header fields and PAX records.
pub fn resolve_entry(raw: &RawEntry, fields: &HeaderFields, records: &Vec<PaxRecord>) -> (r:
    Resolution)
    ensures
        r@ == resolve(raw@, fields@, Some(record_views(records@))),
        is_right_resolution(raw@, fields@, Some(record_views(records@)), r@),
{
    proof {
        law_resolution_is_right(raw@, fields@, Some(record_views(records@)));
    }
    let path = truncate_at_nul(slice_to_vec(raw.path.as_slice()));
    let (mode, uid, gid, mtime) = match (fields.mode, fields.uid, fields.gid, fields.mtime) {
        (Some(mode), Some(uid), Some(gid), Some(mtime)) => (mode, uid, gid, mtime),
        _ => return Resolution::Stop,
    };
    let (dev_major, dev_minor) = match (fields.dev_major, fields.dev_minor) {
        (Some(dev_major), Some(dev_minor)) => (dev_major, dev_minor),
        _ => return Resolution::Stop,
    };
    if describes_other_entries(fields.entry_type) {
        return Resolution::Skip;
    }
    if path.len() == 0 {
        return Resolution::Skip;
    }
    let link_target = match copy_unless_empty(&raw.link_name) {
        Some(name) => Some(truncate_at_nul(name)),
        None => None,
    };
    let uname = find_owner(records, &PAX_UNAME, &fields.username);
    let gname = find_owner(records, &PAX_GNAME, &fields.groupname);
    let xattrs = collect_xattrs(records);
    if raw.content.len() != kept_content_len(raw.size) {
        return Resolution::Stop;
    }
    Resolution::Record(
        OwnedEntry {
            entry_type: fields.entry_type,
            path,
            link_target,
            mode,
            uid,
            gid,
            mtime,
            size: raw.size,
            uname,
            gname,
            dev_major,
            dev_minor,
            xattrs,
            content: slice_to_vec(raw.content.as_slice()),
        },
    )
}

/// The entries recorded of the first `count` items, or of all, and whether the reading ended among
/// them.
fn collect_entries(data: &[u8], count: Option<usize>) -> (r: (Vec<OwnedEntry>, bool))
    requires
        positions_fit(data@, count),
    ensures
        r.1 == (count matches Some(n) ==> ends_before(data@, 0, n as int)),
        r.1 ==> entry_views(r.0@) == entries_from(data@, 0),
{
    let mut results: Vec<OwnedEntry> = Vec::new();
    let items = read_entries(data, MAX_CONTENT_READ, count);
    let records = read_pax_records(data, count);
    let no_records: Vec<PaxRecord> = Vec::new();
    assert(record_views(no_records@) =~= Seq::empty());
    assert(entry_views(results@) + entries_from(data@, 0) =~= entries_from(data@, 0));
    let mut i: usize = 0;
    while i < items.len()
        invariant
            i <= items.len(),
            items@.len() == taken(count, tar_entry_count(data@)),
            records@.len() == items@.len(),
            record_views(no_records@) == Seq::<PaxRecordView>::empty(),
            forall|j: int|
                0 <= j < items@.len() ==> match #[trigger] items@[j] {
                    Some(entry) => handed_out(data@, j, MAX_CONTENT_READ) == Some(entry@)
                        && entry.header@.len() == HEADER_SIZE,
                    None => handed_out(data@, j, MAX_CONTENT_READ) is None,
                },
            forall|j: int|
                0 <= j < records@.len() ==> match #[trigger] records@[j] {
                    Some(list) => tar_pax_records(data@, j) == Some(record_views(list@)),
                    None => tar_pax_records(data@, j) is None,
                },
            entry_views(results@) + entries_from(data@, i as int) == entries_from(data@, 0),
            count matches Some(n) ==> ends_before(data@, 0, n as int) == ends_before(
                data@,
                i as int,
                n as int,
            ),
        decreases items.len() - i,
    {
        assert(entry_views(results@) + Seq::<OwnedEntryView>::empty() =~= entry_views(results@));
        let raw = match &items[i] {
            Some(raw) => raw,
            None => return (results, true),
        };
        let fields = read_header_fields(&raw.header);
        let pax: &Vec<PaxRecord> = match &records[i] {
            Some(list) => list,
            None => &no_records,
        };
        assert(record_views(pax@) == record_list(tar_pax_records(data@, i as int)));
        match resolve_entry(raw, &fields, pax) {
            Resolution::Stop => return (results, true),
            Resolution::Skip => {},
            Resolution::Record(entry) => {
                let ghost before = results@;
                results.push(entry);
                proof {
                    let rest = entries_from(data@, i + 1);
                    assert(entry_views(before) + (seq![entry@] + rest) =~= entry_views(results@)
                        + rest);
                }
            },
        }
        i += 1;
    }
    assert(entry_views(results@) + Seq::<OwnedEntryView>::empty() =~= entry_views(results@));
    let ended = match count {
        Some(n) => items.len() < n,
        None => true,
    };
    (results, ended)
}

/// Whether the tar crate, reading `data`, adds up no position to 2^64 or more.
pub fn can_read_tar_rs(data: &[u8]) -> (r: bool)
    ensures
        r == rs_reading_fits(data@),
{
    match find_overflow(data) {
        Some(k) => collect_entries(data, Some(k)).1,
        None => true,
    }
}

/// Read a tar archive with the `tar` crate, with its entries owned.
///
/// The tar crate adds the extension blocks of sparse entries to a position unchecked; data on which
/// such a sum overflows is left out, and [`can_read_tar_rs`] tells it.
pub fn parse_tar_rs(data: &[u8]) -> (r: Vec<OwnedEntry>)
    requires
        rs_reading_fits(data@),
    ensures
        entry_views(r@) == entries_from(data@, 0),
{
    collect_entries(data, find_overflow(data)).0
}

proof fn lemma_entries(data: Seq<u8>, from: int, i: int)
    requires
        0 <= i < entries_from(data, from).len(),
    ensures
        is_comparable(entries_from(data, from)[i]),
        !entries_from(data, from)[i].path.contains(0u8),
        has_no_nul(entries_from(data, from)[i].link_target),
        is_absent_or_named(entries_from(data, from)[i].uname),
        is_absent_or_named(entries_from(data, from)[i].gname),
    decreases tar_entry_count(data) - from,
{
    let raw = handed_out(data, from, MAX_CONTENT_READ)->0;
    let records = record_list(tar_pax_records(data, from));
    match outcome_at(data, from) {
        ResolutionView::Record(entry) => {
            if i > 0 {
                lemma_entries(data, from + 1, i - 1);
            } else {
                law_truncation_is_longest_nul_free_prefix(raw.path);
                law_truncation_is_longest_nul_free_prefix(unless_empty(raw.link_name)->0);
                lemma_last_value(records, PAX_UNAME@);
                lemma_last_value(records, PAX_GNAME@);
            }
        },
        _ => {
            lemma_entries(data, from + 1, i);
        },
    }
}

/// Whether an optional byte string, if there, has no NUL byte.
pub open spec fn has_no_nul(bytes: Option<Seq<u8>>) -> bool {
    bytes matches Some(b) ==> !b.contains(0u8)
}

/// Whether an optional name, if there, is not empty.
pub open spec fn is_absent_or_named(name: Option<Seq<u8>>) -> bool {
    name matches Some(n) ==> n.len() > 0
}

proof fn lemma_last_value(records: Seq<PaxRecordView>, key: Seq<u8>)
    ensures
        is_absent_or_named(last_value(records, key)),
    decreases records.len(),
{
    if records.len() > 0 {
        lemma_last_value(records.drop_last(), key);
    }
}

/// Every entry that reading with the tar crate records is a real entry with a path and with its
/// content complete up to the content limit; its path and link target have no NUL byte, and its
/// owner's names are absent rather than empty.
pub proof fn law_rs_entries_are_comparable(data: Seq<u8>)
    ensures
        forall|i: int|
            0 <= i < entries_from(data, 0).len() ==> {
                let entry = #[trigger] entries_from(data, 0)[i];
                &&& is_comparable(entry)
                &&& !entry.path.contains(0u8)
                &&& has_no_nul(entry.link_target)
                &&& is_absent_or_named(entry.uname)
                &&& is_absent_or_named(entry.gname)
            },
{
    assert forall|i: int| 0 <= i < entries_from(data, 0).len() implies {
        let entry = #[trigger] entries_from(data, 0)[i];
        &&& is_comparable(entry)
        &&& !entry.path.contains(0u8)
        &&& has_no_nul(entry.link_target)
        &&& is_absent_or_named(entry.uname)
        &&& is_absent_or_named(entry.gname)
    } by {
        lemma_entries(data, 0, i);
    }
}

/// A malformed numeric field ends the reading at any entry, one that would be left out as well.
pub proof fn law_malformed_number_ends_reading(
    raw: RawEntryView,
    fields: HeaderFieldsView,
    pax: Option<Seq<PaxRecordView>>,
)
    requires
        !numbers_are_valid(fields),
    ensures
        resolve(raw, fields, pax) is Stop,
{
}

/// Malformed PAX records have no effect: without them an entry is resolved in the same way.
pub proof fn law_malformed_records_are_skipped(
    raw: RawEntryView,
    fields: HeaderFieldsView,
    records: Seq<PaxRecordView>,
)
    ensures
        resolve(raw, fields, Some(records.filter(|r: PaxRecordView| r is Some))) == resolve(
            raw,
            fields,
            Some(records),
        ),
{
    lemma_malformed_records(records, PAX_UNAME@);
    lemma_malformed_records(records, PAX_GNAME@);
}

proof fn lemma_malformed_records(records: Seq<PaxRecordView>, key: Seq<u8>)
    ensures
        xattrs(records.filter(|r: PaxRecordView| r is Some)) == xattrs(records),
        last_value(records.filter(|r: PaxRecordView| r is Some), key) == last_value(records, key),
    decreases records.len(),
{
    reveal(Seq::filter);
    if records.len() > 0 {
        let pred = |r: PaxRecordView| r is Some;
        let earlier = records.drop_last();
        lemma_malformed_records(earlier, key);
        if records.last() is Some {
            assert(records.filter(pred) =~= earlier.filter(pred).push(records.last()));
            assert(records.filter(pred).drop_last() =~= earlier.filter(pred));
        }
    }
}

/// Any data without a GNU sparse header that extension blocks follow can be read with the tar
/// crate.
pub proof fn law_rs_overflow_needs_extended_sparse(data: Seq<u8>)
    requires
        !has_extended_sparse(data),
    ensures
        rs_reading_fits(data),
{
    lemma_overflow_needs_extended_sparse(data, 0, nothing_described(), 0);
}

} // verus!
