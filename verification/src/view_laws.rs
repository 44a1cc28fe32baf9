//! The mathematical values of the library's types have the fields of those types, unchanged.
use crate::core_event::{EventView, ParseError, ParseEvent, ParsedEntry};
use crate::core_reader::{Step, TarCoreParseResult};
use crate::dump::BlockDump;
use crate::entry::{entry_views, OwnedEntry};
use crate::rs_reader::{Resolution, ResolutionView};
use crate::tar_archive::{record_views, PaxRecord, RawEntry};
use crate::tar_header::HeaderFields;
use std::borrow::Cow;
use vstd::prelude::*;

verus! {

/// Whether an optional byte string has the given value.
pub open spec fn holds(bytes: Option<Vec<u8>>, value: Option<Seq<u8>>) -> bool {
    match (bytes, value) {
        (Some(b), Some(v)) => b@ == v,
        (None, None) => true,
        _ => false,
    }
}

/// Whether an optional byte string, borrowed or owned, has the given value.
pub open spec fn cow_holds(bytes: Option<Cow<'_, [u8]>>, value: Option<Seq<u8>>) -> bool {
    match (bytes, value) {
        (Some(b), Some(v)) => b@ == v,
        (None, None) => true,
        _ => false,
    }
}

/// The value of an entry has its fields.
pub proof fn law_value_of_owned_entry(e: OwnedEntry)
    ensures
        e@.entry_type == e.entry_type,
        e@.path == e.path@,
        holds(e.link_target, e@.link_target),
        e@.mode == e.mode,
        e@.uid == e.uid,
        e@.gid == e.gid,
        e@.mtime == e.mtime,
        e@.size == e.size,
        holds(e.uname, e@.uname),
        holds(e.gname, e@.gname),
        e@.dev_major == e.dev_major,
        e@.dev_minor == e.dev_minor,
        e@.xattrs.len() == e.xattrs@.len(),
        forall|i: int|
            0 <= i < e.xattrs@.len() ==> #[trigger] e@.xattrs[i] == (
                e.xattrs@[i].0@,
                e.xattrs@[i].1@,
            ),
        e@.content == e.content@,
{
}

/// The value of a list of entries is the list of their values.
pub proof fn law_values_of_entries(entries: Seq<OwnedEntry>)
    ensures
        entry_views(entries).len() == entries.len(),
        forall|i: int| 0 <= i < entries.len() ==> #[trigger] entry_views(entries)[i] == entries[i]@,
{
}

/// The value of a reported entry has its fields.
pub proof fn law_value_of_parsed_entry(e: ParsedEntry<'_>)
    ensures
        e@.entry_type == e.entry_type,
        e@.path == e.path@,
        cow_holds(e.link_target, e@.link_target),
        e@.mode == e.mode,
        e@.uid == e.uid,
        e@.gid == e.gid,
        e@.mtime == e.mtime,
        e@.size == e.size,
        cow_holds(e.uname, e@.uname),
        cow_holds(e.gname, e@.gname),
        e@.dev_major == e.dev_major,
        e@.dev_minor == e.dev_minor,
        e@.xattrs.len() == e.xattrs@.len(),
        forall|i: int|
            0 <= i < e.xattrs@.len() ==> #[trigger] e@.xattrs[i] == (
                e.xattrs@[i].0@,
                e.xattrs@[i].1@,
            ),
{
}

/// The value of an event is the event.
pub proof fn law_value_of_event(event: ParseEvent<'_>)
    ensures
        match event {
            ParseEvent::NeedData => event@ == EventView::NeedData,
            ParseEvent::Entry(consumed, entry) => event@ == EventView::Entry(consumed, entry@),
            ParseEvent::GlobalExtensions(consumed) => event@ == EventView::GlobalExtensions(
                consumed,
            ),
            ParseEvent::End => event@ == EventView::End,
        },
{
}

/// The value of an error has its kind and its message.
pub proof fn law_value_of_error(error: ParseError)
    ensures
        error@.kind == error.kind,
        error@.message == error.message@,
{
}

/// The value of a result has the values of its entries, in order, and of its error.
pub proof fn law_value_of_result(r: TarCoreParseResult)
    ensures
        r@.entries.len() == r.entries@.len(),
        forall|i: int| 0 <= i < r.entries@.len() ==> #[trigger] r@.entries[i] == r.entries@[i]@,
        match r.error {
            Some(e) => r@.error == Some(e@),
            None => r@.error is None,
        },
{
}

/// The value of a step has the value of the recorded entry and the next offset.
pub proof fn law_value_of_step(s: Step)
    ensures
        match s.recorded {
            Some(e) => s@.recorded == Some(e@),
            None => s@.recorded is None,
        },
        match s.next {
            Some(next) => s@.next == Some(next as int),
            None => s@.next is None,
        },
{
}

/// The value of an item of the tar crate has its parts.
pub proof fn law_value_of_raw_entry(e: RawEntry)
    ensures
        e@.header == e.header@,
        e@.path == e.path@,
        holds(e.link_name, e@.link_name),
        e@.size == e.size,
        e@.content == e.content@,
{
}

/// The value of a list of PAX records has the key and value of each, in order.
pub proof fn law_values_of_records(records: Seq<PaxRecord>)
    ensures
        record_views(records).len() == records.len(),
        forall|i: int|
            0 <= i < records.len() ==> match records[i] {
                Some(record) => #[trigger] record_views(records)[i] == Some(
                    (record.0@, record.1@),
                ),
                None => record_views(records)[i] is None,
            },
{
}

/// The value of header fields has those fields.
pub proof fn law_value_of_header_fields(f: HeaderFields)
    ensures
        f@.entry_type == f.entry_type,
        f@.mode == f.mode,
        f@.uid == f.uid,
        f@.gid == f.gid,
        f@.mtime == f.mtime,
        f@.dev_major == f.dev_major,
        f@.dev_minor == f.dev_minor,
        holds(f.username, f@.username),
        holds(f.groupname, f@.groupname),
{
}

/// The value of a resolution is the resolution.
pub proof fn law_value_of_resolution(r: Resolution)
    ensures
        match r {
            Resolution::Stop => r@ == ResolutionView::Stop,
            Resolution::Skip => r@ == ResolutionView::Skip,
            Resolution::Record(entry) => r@ == ResolutionView::Record(entry@),
        },
{
}

/// The value of a dumped block has its index, its offset and its text.
pub proof fn law_value_of_block(b: BlockDump)
    ensures
        b@.index == b.index,
        b@.offset == b.offset,
        match b.header {
            Some(text) => b@.header == Some(text@),
            None => b@.header is None,
        },
{
}

} // verus!
