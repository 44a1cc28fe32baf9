//! What reading with the tar crate is for, said of what the tar crate gives.
use crate::bytes::{before_nul, law_truncation_is_longest_nul_free_prefix};
use crate::entry::OwnedEntryView;
use crate::raw_header::has_known_magic;
use crate::rs_reader::{
    entries_from, is_xattr_key, last_value, outcome_at, owner, record_list, resolve, unless_empty,
    xattrs, ResolutionView, PAX_GNAME, PAX_SCHILY_XATTR, PAX_UNAME,
};
use crate::tar_archive::{
    handed_out, tar_content, tar_entry_count, tar_header_bytes, tar_link_name, tar_pax_records,
    tar_path, tar_size, PaxRecordView, RawEntryView,
};
use crate::tar_header::{
    header_fields, tar_device_major, tar_device_minor, tar_gid, tar_mode, tar_mtime,
    tar_uid, HeaderFieldsView,
};
use vstd::prelude::*;
use vstd::utf8::valid_utf8;

verus! {

/// Whether `cut` is `whole` up to its first NUL byte, or all of it if it has none.
pub open spec fn is_cut_at_nul(whole: Seq<u8>, cut: Seq<u8>) -> bool {
    &&& cut.len() <= whole.len()
    &&& forall|i: int| 0 <= i < cut.len() ==> cut[i] == whole[i] && #[trigger] cut[i] != 0
    &&& cut.len() < whole.len() ==> whole[cut.len() as int] == 0
}

pub proof fn lemma_cut(whole: Seq<u8>)
    ensures
        is_cut_at_nul(whole, before_nul(whole)),
{
    law_truncation_is_longest_nul_free_prefix(whole);
    let cut = before_nul(whole);
    assert forall|i: int| 0 <= i < cut.len() implies cut[i] == whole[i] && #[trigger] cut[i] != 0 by {
        assert(cut[i] == whole.subrange(0, cut.len() as int)[i]);
        assert(cut.contains(cut[i]));
    }
}

/// The type flag that a header stands for: that of a regular file for the NUL byte of old archives.
pub open spec fn flag_of(header: Seq<u8>) -> u8 {
    if header[156] == 0 {
        0x30
    } else {
        header[156]
    }
}

/// Whether entries with this type flag describe others and are left out: `L`, `K`, `x` and `g`.
pub open spec fn is_left_out_type(flag: u8) -> bool {
    flag == 0x4c || flag == 0x4b || flag == 0x78 || flag == 0x67
}

/// How many bytes of content are kept of an entry: all, up to 256 KiB.
pub open spec fn kept(size: u64) -> int {
    if size <= 262144 {
        size as int
    } else {
        262144
    }
}

/// Whether a header is in the UStar or the GNU format, which have names of the owner.
pub open spec fn has_names(header: Seq<u8>) -> bool {
    &&& header[257] == 0x75
    &&& header[258] == 0x73
    &&& header[259] == 0x74
    &&& header[260] == 0x61
    &&& header[261] == 0x72
    &&& (header[262] == 0x00 && header[263] == 0x30 && header[264] == 0x30) || (header[262] == 0x20
        && header[263] == 0x20 && header[264] == 0x00)
}

/// Whether `name` is what a header holds in the 32 bytes at `start`, in the formats with names.
pub open spec fn is_name_in(header: Seq<u8>, start: int, name: Option<Seq<u8>>) -> bool {
    match name {
        Some(n) => has_names(header) && is_cut_at_nul(header.subrange(start, start + 32), n),
        None => !has_names(header),
    }
}

/// Whether the record with index `k` sets `key` to a value that is not empty.
pub open spec fn sets(records: Seq<PaxRecordView>, key: Seq<u8>, k: int) -> bool {
    0 <= k < records.len() && (records[k] matches Some((name, value)) && name == key && value.len()
        > 0)
}

/// Whether a name of the owner is the last that the PAX records set, or, if they set none, what the
/// header says unless that is empty.
pub open spec fn is_owner(
    records: Seq<PaxRecordView>,
    key: Seq<u8>,
    in_header: Option<Seq<u8>>,
    name: Option<Seq<u8>>,
) -> bool {
    &&& forall|k: int| #[trigger]
        sets(records, key, k) && (forall|l: int| k < l ==> !#[trigger] sets(records, key, l))
            ==> name == Some((records[k]->0).1)
    &&& (forall|k: int| !#[trigger] sets(records, key, k)) ==> name == (match in_header {
        Some(n) => if n.len() == 0 {
            None
        } else {
            Some(n)
        },
        None => None,
    })
}

/// Whether a record sets an extended attribute: its key is UTF-8 and starts with `SCHILY.xattr.`.
pub open spec fn sets_xattr(record: PaxRecordView) -> bool {
    record matches Some((key, _)) && valid_utf8(key) && key.len() >= 13 && key.subrange(0, 13)
        == seq![
        0x53u8,
        0x43,
        0x48,
        0x49,
        0x4c,
        0x59,
        0x2e,
        0x78,
        0x61,
        0x74,
        0x74,
        0x72,
        0x2e,
    ]
}

/// The extended attributes that records set, in their order: the key behind `SCHILY.xattr.`, and
/// the value.
pub open spec fn xattrs_of(records: Seq<PaxRecordView>) -> Seq<(Seq<u8>, Seq<u8>)> {
    records.filter(|r: PaxRecordView| sets_xattr(r)).map_values(
        |r: PaxRecordView| ((r->0).0.skip(13), (r->0).1),
    )
}

/// Whether `target` is the link target of an entry with the given link name: none if there is no
/// name or an empty one.
pub open spec fn is_target(name: Option<Seq<u8>>, target: Option<Seq<u8>>) -> bool {
    match name {
        Some(n) => if n.len() == 0 {
            target is None
        } else {
            target matches Some(t) && is_cut_at_nul(n, t)
        },
        None => target is None,
    }
}

/// The records of an entry; none if it has no extensions.
pub open spec fn list_of(pax: Option<Seq<PaxRecordView>>) -> Seq<PaxRecordView> {
    match pax {
        Some(records) => records,
        None => seq![],
    }
}

/// Whether `entry` is what an item with these parts is recorded as, field by field.
pub open spec fn is_recorded_as(
    raw: RawEntryView,
    fields: HeaderFieldsView,
    pax: Option<Seq<PaxRecordView>>,
    entry: OwnedEntryView,
) -> bool {
    &&& entry.entry_type == fields.entry_type
    &&& is_cut_at_nul(raw.path, entry.path)
    &&& is_target(raw.link_name, entry.link_target)
    &&& fields.mode == Some(entry.mode)
    &&& fields.uid == Some(entry.uid)
    &&& fields.gid == Some(entry.gid)
    &&& fields.mtime == Some(entry.mtime)
    &&& entry.size == raw.size
    &&& is_owner(
        list_of(pax),
        seq![0x75u8, 0x6e, 0x61, 0x6d, 0x65],
        fields.username,
        entry.uname,
    )
    &&& is_owner(
        list_of(pax),
        seq![0x67u8, 0x6e, 0x61, 0x6d, 0x65],
        fields.groupname,
        entry.gname,
    )
    &&& fields.dev_major == Some(entry.dev_major)
    &&& fields.dev_minor == Some(entry.dev_minor)
    &&& entry.xattrs == xattrs_of(list_of(pax))
    &&& entry.content == raw.content
}

/// Whether an item with these parts is left out: its type describes others, or its path is empty
/// up to the first NUL byte.
pub open spec fn is_left_out(raw: RawEntryView, fields: HeaderFieldsView) -> bool {
    is_left_out_type(fields.entry_type) || raw.path.len() == 0 || raw.path[0] == 0
}

/// Whether a numeric field of an item is malformed.
pub open spec fn is_malformed(fields: HeaderFieldsView) -> bool {
    fields.mode is None || fields.uid is None || fields.gid is None || fields.mtime is None
        || fields.dev_major is None || fields.dev_minor is None
}

/// Whether `resolution` is right for an item with these parts. A malformed number ends the reading,
/// whatever the item is. An item that is left out is skipped. Otherwise it is recorded, field by
/// field, if its content is complete up to 256 KiB, and ends the reading if not.
pub open spec fn is_right_resolution(
    raw: RawEntryView,
    fields: HeaderFieldsView,
    pax: Option<Seq<PaxRecordView>>,
    resolution: ResolutionView,
) -> bool {
    if is_malformed(fields) {
        resolution == ResolutionView::Stop
    } else if is_left_out(raw, fields) {
        resolution == ResolutionView::Skip
    } else if raw.content.len() != kept(raw.size) {
        resolution == ResolutionView::Stop
    } else {
        resolution matches ResolutionView::Record(entry) && is_recorded_as(raw, fields, pax, entry)
    }
}

proof fn lemma_last_value(records: Seq<PaxRecordView>, key: Seq<u8>)
    ensures
        match last_value(records, key) {
            Some(v) => exists|k: int|
                #![trigger sets(records, key, k)]
                sets(records, key, k) && v == (records[k]->0).1 && forall|l: int|
                    k < l ==> !#[trigger] sets(records, key, l),
            None => forall|k: int| !#[trigger] sets(records, key, k),
        },
    decreases records.len(),
{
    if records.len() > 0 {
        let front = records.drop_last();
        let last = records.len() - 1;
        lemma_last_value(front, key);
        assert forall|k: int| k != last implies sets(front, key, k) == #[trigger] sets(
            records,
            key,
            k,
        ) by {
            if 0 <= k < last {
                assert(front[k] == records[k]);
            }
        }
        if sets(records, key, last) {
            assert(last_value(records, key) == Some((records[last]->0).1));
        } else {
            assert(last_value(records, key) == last_value(front, key));
            if last_value(front, key) is Some {
                let k = choose|k: int|
                    #![trigger sets(front, key, k)]
                    sets(front, key, k) && last_value(front, key)->0 == (front[k]->0).1 && forall|
                        l: int,
                    |
                        k < l ==> !#[trigger] sets(front, key, l);
                assert(sets(records, key, k));
                assert forall|l: int| k < l implies !#[trigger] sets(records, key, l) by {
                    assert(l != last ==> !sets(front, key, l));
                }
            } else {
                assert forall|k: int| !#[trigger] sets(records, key, k) by {
                    assert(!sets(front, key, k));
                }
            }
        }
    }
}

proof fn lemma_owner(records: Seq<PaxRecordView>, key: Seq<u8>, in_header: Option<Seq<u8>>)
    ensures
        is_owner(records, key, in_header, owner(records, key, in_header)),
{
    lemma_last_value(records, key);
    let name = owner(records, key, in_header);
    if last_value(records, key) is Some {
        let m = choose|m: int|
            #![trigger sets(records, key, m)]
            sets(records, key, m) && last_value(records, key)->0 == (records[m]->0).1 && forall|
                l: int,
            |
                m < l ==> !#[trigger] sets(records, key, l);
        assert forall|k: int| #[trigger]
            sets(records, key, k) && (forall|l: int|
                k < l ==> !#[trigger] sets(records, key, l)) implies name == Some(
            (records[k]->0).1,
        ) by {
            assert(sets(records, key, m));
            assert(k == m);
        }
    }
}

proof fn lemma_xattrs(records: Seq<PaxRecordView>)
    ensures
        xattrs(records) == xattrs_of(records),
    decreases records.len(),
{
    reveal(Seq::filter);
    let pred = |r: PaxRecordView| sets_xattr(r);
    let part = |r: PaxRecordView| ((r->0).0.skip(13), (r->0).1);
    if records.len() > 0 {
        let front = records.drop_last();
        let last = records.last();
        lemma_xattrs(front);
        if let Some((key, value)) = last {
            let prefix = seq![
                0x53u8,
                0x43,
                0x48,
                0x49,
                0x4c,
                0x59,
                0x2e,
                0x78,
                0x61,
                0x74,
                0x74,
                0x72,
                0x2e,
            ];
            assert(PAX_SCHILY_XATTR@ =~= prefix);
            assert(sets_xattr(last) == is_xattr_key(key));
        }
        if sets_xattr(last) {
            assert(records.filter(pred) =~= front.filter(pred).push(last));
            assert(records.filter(pred).map_values(part) =~= front.filter(pred).map_values(
                part,
            ).push(part(last)));
        } else {
            assert(records.filter(pred) =~= front.filter(pred));
        }
    } else {
        assert(records.filter(pred) =~= Seq::empty());
        assert(records.filter(pred).map_values(part) =~= Seq::empty());
    }
}

/// What becomes of an item of the tar crate is right.
pub proof fn law_resolution_is_right(
    raw: RawEntryView,
    fields: HeaderFieldsView,
    pax: Option<Seq<PaxRecordView>>,
)
    ensures
        is_right_resolution(raw, fields, pax, resolve(raw, fields, pax)),
{
    let records = record_list(pax);
    assert(records =~= list_of(pax));
    lemma_cut(raw.path);
    lemma_cut(unless_empty(raw.link_name)->0);
    assert(PAX_UNAME@ =~= seq![0x75u8, 0x6e, 0x61, 0x6d, 0x65]);
    assert(PAX_GNAME@ =~= seq![0x67u8, 0x6e, 0x61, 0x6d, 0x65]);
    lemma_owner(records, PAX_UNAME@, fields.username);
    lemma_owner(records, PAX_GNAME@, fields.groupname);
    lemma_xattrs(records);
    let path = before_nul(raw.path);
    assert((path.len() == 0) == (raw.path.len() == 0 || raw.path[0] == 0)) by {
        if path.len() > 0 {
            assert(path[0] == raw.path[0] && path[0] != 0);
        }
    }
}

/// Whether `fields` is what the tar crate reads in a header, field by field.
pub open spec fn are_fields_of(header: Seq<u8>, fields: HeaderFieldsView) -> bool {
    &&& fields.entry_type == flag_of(header)
    &&& fields.mode == tar_mode(header)
    &&& fields.uid == tar_uid(header)
    &&& fields.gid == tar_gid(header)
    &&& fields.mtime == tar_mtime(header)
    &&& fields.dev_major == tar_device_major(header)
    &&& fields.dev_minor == tar_device_minor(header)
    &&& is_name_in(header, 265, fields.username)
    &&& is_name_in(header, 297, fields.groupname)
}

pub proof fn lemma_has_names(header: Seq<u8>)
    requires
        header.len() == 512,
    ensures
        has_names(header) == has_known_magic(header),
{
    let found = header.subrange(257, 265);
    let ustar = seq![0x75u8, 0x73, 0x74, 0x61, 0x72, 0x00, 0x30, 0x30];
    let gnu = seq![0x75u8, 0x73, 0x74, 0x61, 0x72, 0x20, 0x20, 0x00];
    assert(crate::raw_header::USTAR_MAGIC@ =~= ustar);
    assert(crate::raw_header::GNU_MAGIC@ =~= gnu);
    assert(forall|i: int| 0 <= i < 8 ==> #[trigger] found[i] == header[257 + i]);
    if has_names(header) {
        if header[262] == 0 {
            assert(found =~= ustar);
        } else {
            assert(found =~= gnu);
        }
    }
    if has_known_magic(header) {
        assert(found[0] == 0x75 && found[1] == 0x73 && found[2] == 0x74 && found[3] == 0x61
            && found[4] == 0x72);
        assert((found[5] == 0 && found[6] == 0x30 && found[7] == 0x30) || (found[5] == 0x20
            && found[6] == 0x20 && found[7] == 0));
    }
}

/// The fields of a header are those that the tar crate reads in it.
pub proof fn law_fields_are_those_of_the_header(header: Seq<u8>)
    requires
        header.len() == 512,
    ensures
        are_fields_of(header, header_fields(header)),
{
    lemma_has_names(header);
    lemma_cut(header.subrange(265, 297));
    lemma_cut(header.subrange(297, 329));
}

/// Whether the item of `data` with index `j` has a header in which every number can be read.
pub open spec fn is_sound(data: Seq<u8>, j: int) -> bool {
    tar_header_bytes(data, j) matches Some(h) && tar_mode(h) is Some && tar_uid(h) is Some
        && tar_gid(h) is Some && tar_mtime(h) is Some && tar_device_major(h) is Some
        && tar_device_minor(h) is Some
}

/// Whether the item of `data` with index `j` is left out: its type flag is `L`, `K`, `x` or `g`, or
/// its path is empty up to the first NUL byte.
pub open spec fn is_passed_over(data: Seq<u8>, j: int) -> bool {
    is_left_out_type(flag_of(tar_header_bytes(data, j)->0)) || tar_path(data, j).len() == 0
        || tar_path(data, j)[0] == 0
}

/// Whether `entry` is the item of `data` with index `j`, field by field as the tar crate gives it.
pub open spec fn is_item(data: Seq<u8>, j: int, entry: OwnedEntryView) -> bool {
    let header = tar_header_bytes(data, j)->0;
    let records = list_of(tar_pax_records(data, j));
    &&& is_sound(data, j)
    &&& !is_passed_over(data, j)
    &&& entry.entry_type == flag_of(header)
    &&& tar_mode(header) == Some(entry.mode)
    &&& tar_uid(header) == Some(entry.uid)
    &&& tar_gid(header) == Some(entry.gid)
    &&& tar_mtime(header) == Some(entry.mtime)
    &&& tar_device_major(header) == Some(entry.dev_major)
    &&& tar_device_minor(header) == Some(entry.dev_minor)
    &&& is_cut_at_nul(tar_path(data, j), entry.path)
    &&& is_target(tar_link_name(data, j), entry.link_target)
    &&& entry.size == tar_size(data, j)
    &&& entry.content == tar_content(data, j, 262144)
    &&& entry.content.len() == kept(entry.size)
    &&& entry.xattrs == xattrs_of(records)
    &&& header.len() == 512 ==> exists|user: Option<Seq<u8>>|
        #![trigger is_name_in(header, 265, user)]
        is_name_in(header, 265, user) && is_owner(
            records,
            seq![0x75u8, 0x6e, 0x61, 0x6d, 0x65],
            user,
            entry.uname,
        )
    &&& header.len() == 512 ==> exists|group: Option<Seq<u8>>|
        #![trigger is_name_in(header, 297, group)]
        is_name_in(header, 297, group) && is_owner(
            records,
            seq![0x67u8, 0x6e, 0x61, 0x6d, 0x65],
            group,
            entry.gname,
        )
}

/// Whether `source` tells, for each of `entries`, the item of `data` that it is, in the order of
/// the items from `from` up to `stop`, with none missing but those that are left out.
pub open spec fn are_items(
    data: Seq<u8>,
    entries: Seq<OwnedEntryView>,
    source: Seq<int>,
    from: int,
    stop: int,
) -> bool {
    &&& source.len() == entries.len()
    &&& forall|k: int|
        0 <= k < source.len() ==> from <= #[trigger] source[k] < stop && is_item(
            data,
            source[k],
            entries[k],
        )
    &&& forall|k: int, l: int| 0 <= k < l < source.len() ==> source[k] < source[l]
    &&& forall|j: int|
        from <= j < stop ==> #[trigger] is_sound(data, j) && (is_passed_over(data, j)
            || source.contains(j))
}

/// Whether reading `data` stops at the item with index `stop`: there is none, it is an error, one of
/// its numbers is malformed, or its content is not complete up to 256 KiB.
pub open spec fn stops_at(data: Seq<u8>, stop: int) -> bool {
    ||| stop == tar_entry_count(data)
    ||| !is_sound(data, stop)
    ||| !is_passed_over(data, stop) && tar_content(data, stop, 262144).len() != kept(
        tar_size(data, stop),
    )
}

pub proof fn lemma_item(data: Seq<u8>, j: int)
    ensures
        match outcome_at(data, j) {
            ResolutionView::Stop => !is_sound(data, j) || (!is_passed_over(data, j) && tar_content(
                data,
                j,
                262144,
            ).len() != kept(tar_size(data, j))),
            ResolutionView::Skip => is_sound(data, j) && is_passed_over(data, j),
            ResolutionView::Record(entry) => is_item(data, j, entry),
        },
{
    if let Some(raw) = handed_out(data, j, 262144) {
        let fields = header_fields(raw.header);
        let pax = tar_pax_records(data, j);
        law_resolution_is_right(raw, fields, pax);
        if raw.header.len() == 512 {
            law_fields_are_those_of_the_header(raw.header);
            assert(is_name_in(raw.header, 265, fields.username));
            assert(is_name_in(raw.header, 297, fields.groupname));
        }
    }
}

proof fn lemma_items(data: Seq<u8>, from: int) -> (r: (Seq<int>, int))
    requires
        0 <= from <= tar_entry_count(data),
    ensures
        from <= r.1 <= tar_entry_count(data),
        stops_at(data, r.1),
        are_items(data, entries_from(data, from), r.0, from, r.1),
    decreases tar_entry_count(data) - from,
{
    if from == tar_entry_count(data) {
        (Seq::empty(), from)
    } else {
        lemma_item(data, from);
        match outcome_at(data, from) {
            ResolutionView::Stop => (Seq::empty(), from),
            ResolutionView::Skip => {
                let (rest, stop) = lemma_items(data, from + 1);
                (rest, stop)
            },
            ResolutionView::Record(entry) => {
                let (rest, stop) = lemma_items(data, from + 1);
                let source = seq![from] + rest;
                let entries = entries_from(data, from);
                let later = entries_from(data, from + 1);
                assert(entries == seq![entry] + later);
                assert forall|k: int| 0 <= k < source.len() implies from <= #[trigger] source[k]
                    < stop && is_item(data, source[k], entries[k]) by {
                    if k > 0 {
                        assert(source[k] == rest[k - 1]);
                        assert(entries[k] == later[k - 1]);
                    }
                }
                assert forall|k: int, l: int| 0 <= k < l < source.len() implies source[k]
                    < source[l] by {
                    assert(source[l] == rest[l - 1]);
                    if k > 0 {
                        assert(source[k] == rest[k - 1]);
                    }
                }
                assert forall|j: int| from <= j < stop implies #[trigger] is_sound(data, j) && (
                is_passed_over(data, j) || source.contains(j)) by {
                    if j == from {
                        assert(source[0] == from);
                        assert(is_item(data, from, entry));
                    } else {
                        assert(from + 1 <= j < stop);
                        assert(is_sound(data, j));
                    }
                    if j > from && !is_passed_over(data, j) {
                        assert(rest.contains(j));
                        let k = choose|k: int| 0 <= k < rest.len() && rest[k] == j;
                        assert(source[k + 1] == j);
                    }
                }
                (source, stop)
            },
        }
    }
}

/// What reading with the tar crate gives is the items that the tar crate hands out, in their order
/// and each as the tar crate gives it, up to where the reading stops; only items that describe
/// others or have no path are missing. Returns the item of each entry, and where the reading stops.
pub proof fn law_rs_entries_are_the_items(data: Seq<u8>) -> (r: (Seq<int>, int))
    ensures
        0 <= r.1 <= tar_entry_count(data),
        stops_at(data, r.1),
        are_items(data, entries_from(data, 0), r.0, 0, r.1),
{
    lemma_items(data, 0)
}

} // verus!
