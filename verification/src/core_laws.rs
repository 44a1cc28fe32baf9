//! What reading with tar-core is for, said of the events that the parser reports.
use crate::core_event::{
    permissive, tar_core_event, EventView, Limits, ParseErrorView, ParsedEntry, ParsedEntryView,
};
use crate::core_reader::{as_list, read_from, step, ParseResultView, StepView};
use crate::entry::{OwnedEntry, OwnedEntryView};
use crate::fixup_laws::round_up;
use crate::rs_laws::{is_left_out_type, kept};
use std::borrow::Cow;
use vstd::prelude::*;

verus! {

/// Whether an optional byte string is a copy of another: both absent, or both there with the same
/// bytes.
pub open spec fn is_copy(from: Option<Cow<'_, [u8]>>, to: Option<Vec<u8>>) -> bool {
    match (from, to) {
        (Some(x), Some(y)) => x@ == y@,
        (None, None) => true,
        _ => false,
    }
}

/// Whether `to` is a copy of `from` with the given content, field by field.
pub open spec fn is_copy_of_entry(from: ParsedEntry<'_>, content: Seq<u8>, to: OwnedEntry) -> bool {
    &&& to.entry_type == from.entry_type
    &&& to.path@ == from.path@
    &&& is_copy(from.link_target, to.link_target)
    &&& to.mode == from.mode
    &&& to.uid == from.uid
    &&& to.gid == from.gid
    &&& to.mtime == from.mtime
    &&& to.size == from.size
    &&& is_copy(from.uname, to.uname)
    &&& is_copy(from.gname, to.gname)
    &&& to.dev_major == from.dev_major
    &&& to.dev_minor == from.dev_minor
    &&& to.xattrs@.len() == from.xattrs@.len()
    &&& forall|i: int|
        0 <= i < to.xattrs@.len() ==> (#[trigger] to.xattrs@[i]).0@ == from.xattrs@[i].0@
            && to.xattrs@[i].1@ == from.xattrs@[i].1@
    &&& to.content@ == content
}

/// Whether `to` has every field of the reported entry `from`, and the given content.
pub open spec fn has_fields_of(from: ParsedEntryView, content: Seq<u8>, to: OwnedEntryView) -> bool {
    &&& to.entry_type == from.entry_type
    &&& to.path == from.path
    &&& to.link_target == from.link_target
    &&& to.mode == from.mode
    &&& to.uid == from.uid
    &&& to.gid == from.gid
    &&& to.mtime == from.mtime
    &&& to.size == from.size
    &&& to.uname == from.uname
    &&& to.gname == from.gname
    &&& to.dev_major == from.dev_major
    &&& to.dev_minor == from.dev_minor
    &&& to.xattrs == from.xattrs
    &&& to.content == content
}

/// Whether a reported entry is left out: its type flag is `L`, `K`, `x` or `g`, or it has no path.
pub open spec fn is_unwanted(entry: ParsedEntryView) -> bool {
    is_left_out_type(entry.entry_type) || entry.path.len() == 0
}

/// Whether `next` is where reading goes on: at `at`, if the data reaches that far.
pub open spec fn is_next(data: Seq<u8>, at: int, next: Option<int>) -> bool {
    if at <= data.len() {
        next == Some(at)
    } else {
        next is None
    }
}

/// Whether `taken` is right for an event reported at `offset`. A want of data and the end of the
/// archive record nothing and end the reading. A global header records nothing. An entry whose
/// content is not in the data, up to 256 KiB, ends the reading. Any other is recorded with all its
/// fields and that content unless it is left out; reading goes on behind the content, rounded up
/// to whole blocks.
pub open spec fn is_right_step(data: Seq<u8>, offset: int, event: EventView, taken: StepView) -> bool {
    match event {
        EventView::NeedData => taken.recorded is None && taken.next is None,
        EventView::End => taken.recorded is None && taken.next is None,
        EventView::GlobalExtensions(consumed) => taken.recorded is None && is_next(
            data,
            offset + consumed,
            taken.next,
        ),
        EventView::Entry(consumed, entry) => {
            let start = offset + consumed;
            if start + kept(entry.size) > data.len() {
                taken.recorded is None && taken.next is None
            } else {
                &&& is_next(data, start + round_up(entry.size as int), taken.next)
                &&& if is_unwanted(entry) {
                    taken.recorded is None
                } else {
                    taken.recorded matches Some(to) && has_fields_of(
                        entry,
                        data.subrange(start, start + kept(entry.size)),
                        to,
                    )
                }
            }
        },
    }
}

/// What an event adds to the reading is right.
pub proof fn law_step_is_right(data: Seq<u8>, offset: int, event: EventView)
    ensures
        is_right_step(data, offset, event, step(data, offset, event)),
{
}

/// Permissive limits are the widest: the largest numbers for metadata and pending headers, no limit
/// on paths, a million regions.
pub proof fn law_permissive_limits()
    ensures
        permissive().max_metadata_size == 0xffff_ffff,
        permissive().max_path_len is None,
        permissive().max_pending_entries == usize::MAX,
        permissive().max_sparse_entries == 1_000_000,
{
}

/// What the parser reports for `data` from `offset` on, entries without a path let through.
pub open spec fn event_at(limits: Limits, data: Seq<u8>, offset: int) -> Result<
    EventView,
    ParseErrorView,
> {
    tar_core_event(limits, true, data.subrange(offset, data.len() as int))
}

/// Whether reading goes on at `next` behind the event at `offset`: behind a global header, or behind
/// an entry and its content, rounded up to whole blocks.
pub open spec fn leads_to(limits: Limits, data: Seq<u8>, offset: int, next: int) -> bool {
    &&& offset < next <= data.len()
    &&& match event_at(limits, data, offset) {
        Ok(EventView::GlobalExtensions(consumed)) => next == offset + consumed,
        Ok(EventView::Entry(consumed, entry)) => next == offset + consumed + round_up(
            entry.size as int,
        ),
        _ => false,
    }
}

/// Whether reading ends at the event at `offset`, with the given error: with the error of the
/// parser; with none at a want of data, at the end of the archive, at an entry whose content or
/// padding lies beyond the data, and at an event that takes up no bytes or more than there are.
pub open spec fn ends_with(
    limits: Limits,
    data: Seq<u8>,
    offset: int,
    error: Option<ParseErrorView>,
) -> bool {
    match event_at(limits, data, offset) {
        Err(e) => error == Some(e),
        Ok(EventView::NeedData) => error is None,
        Ok(EventView::End) => error is None,
        Ok(EventView::GlobalExtensions(consumed)) => error is None && (consumed == 0 || offset
            + consumed > data.len()),
        Ok(EventView::Entry(consumed, entry)) => {
            let start = offset + consumed;
            error is None && (consumed == 0 || start + kept(entry.size) > data.len() || start
                + round_up(entry.size as int) > data.len())
        },
    }
}

/// Whether an entry is recorded at `offset`: the parser reports one that is not left out, with its
/// content in the data.
pub open spec fn is_entry_there(limits: Limits, data: Seq<u8>, offset: int) -> bool {
    event_at(limits, data, offset) matches Ok(EventView::Entry(consumed, entry)) && !is_unwanted(
        entry,
    ) && offset + consumed + kept(entry.size) <= data.len()
}

/// Whether `to` is the entry that the parser reports at `offset`, with its content.
pub open spec fn is_entry_at(limits: Limits, data: Seq<u8>, offset: int, to: OwnedEntryView) -> bool {
    &&& is_entry_there(limits, data, offset)
    &&& event_at(limits, data, offset) matches Ok(EventView::Entry(consumed, entry))
        && has_fields_of(
        entry,
        data.subrange(offset + consumed, offset + consumed + kept(entry.size)),
        to,
    )
}

/// Whether `chain` goes on rightly behind its offset with index `i`.
pub open spec fn is_link(limits: Limits, data: Seq<u8>, chain: Seq<int>, i: int) -> bool {
    leads_to(limits, data, chain[i], chain[i + 1])
}

/// Whether `result` is the reading of `data` along the offsets of `chain`: `source` tells, for each
/// entry, the index of its offset, in order and with none missing, and the error is that of the
/// last offset.
pub open spec fn is_reading(
    limits: Limits,
    data: Seq<u8>,
    chain: Seq<int>,
    source: Seq<int>,
    result: ParseResultView,
) -> bool {
    &&& chain.len() > 0
    &&& forall|i: int| 0 <= i < chain.len() - 1 ==> #[trigger] is_link(limits, data, chain, i)
    &&& ends_with(limits, data, chain.last(), result.error)
    &&& source.len() == result.entries.len()
    &&& forall|k: int|
        0 <= k < source.len() ==> 0 <= #[trigger] source[k] < chain.len() && is_entry_at(
            limits,
            data,
            chain[source[k]],
            result.entries[k],
        )
    &&& forall|k: int, l: int| 0 <= k < l < source.len() ==> source[k] < source[l]
    &&& forall|i: int|
        0 <= i < chain.len() && is_entry_there(limits, data, #[trigger] chain[i])
            ==> source.contains(i)
}

proof fn lemma_single(limits: Limits, data: Seq<u8>, offset: int) -> (source: Seq<int>)
    requires
        0 <= offset <= data.len(),
        ends_with(limits, data, offset, read_from(limits, data, offset).error),
        read_from(limits, data, offset).entries == (match event_at(limits, data, offset) {
            Ok(event) => as_list(step(data, offset, event).recorded),
            Err(_) => Seq::empty(),
        }),
    ensures
        is_reading(limits, data, seq![offset], source, read_from(limits, data, offset)),
{
    let chain = seq![offset];
    let result = read_from(limits, data, offset);
    match event_at(limits, data, offset) {
        Ok(event) => {
            law_step_is_right(data, offset, event);
            match step(data, offset, event).recorded {
                Some(to) => {
                    let source = seq![0int];
                    assert(result.entries[0] == to);
                    assert(source[0] == 0);
                    source
                },
                None => Seq::empty(),
            }
        },
        Err(_) => Seq::empty(),
    }
}

proof fn lemma_reading(limits: Limits, data: Seq<u8>, offset: int) -> (r: (Seq<int>, Seq<int>))
    requires
        0 <= offset <= data.len(),
    ensures
        r.0[0] == offset,
        is_reading(limits, data, r.0, r.1, read_from(limits, data, offset)),
    decreases data.len() - offset,
{
    assert(data.skip(offset) =~= data.subrange(offset, data.len() as int));
    let result = read_from(limits, data, offset);
    match event_at(limits, data, offset) {
        Err(_) => (seq![offset], lemma_single(limits, data, offset)),
        Ok(event) => {
            law_step_is_right(data, offset, event);
            let taken = step(data, offset, event);
            if taken.next is Some && offset < taken.next->0 {
                let next = taken.next->0;
                let (later, rest) = lemma_reading(limits, data, next);
                let chain = seq![offset] + later;
                let here = as_list(taken.recorded);
                let shifted = Seq::new(rest.len(), |k: int| rest[k] + 1);
                let source = if taken.recorded is Some {
                    seq![0int] + shifted
                } else {
                    shifted
                };
                let tail = read_from(limits, data, next);
                assert(result.entries == here + tail.entries);
                assert(result.error == tail.error);
                assert(chain.last() == later.last());
                assert forall|i: int| 0 <= i < chain.len() - 1 implies #[trigger] is_link(
                    limits,
                    data,
                    chain,
                    i,
                ) by {
                    if i > 0 {
                        assert(is_link(limits, data, later, i - 1));
                        assert(chain[i] == later[i - 1] && chain[i + 1] == later[i]);
                    } else {
                        assert(chain[1] == later[0]);
                    }
                }
                assert forall|k: int| 0 <= k < source.len() implies 0 <= #[trigger] source[k]
                    < chain.len() && is_entry_at(
                    limits,
                    data,
                    chain[source[k]],
                    result.entries[k],
                ) by {
                    if k < here.len() {
                        assert(source[k] == 0);
                    } else {
                        let m = k - here.len();
                        assert(source[k] == rest[m] + 1);
                        assert(chain[source[k]] == later[rest[m]]);
                        assert(result.entries[k] == tail.entries[m]);
                    }
                }
                assert forall|k: int, l: int| 0 <= k < l < source.len() implies source[k]
                    < source[l] by {
                    assert(source[l] == rest[l - here.len()] + 1);
                    if k >= here.len() {
                        assert(source[k] == rest[k - here.len()] + 1);
                    }
                }
                assert forall|i: int|
                    0 <= i < chain.len() && is_entry_there(
                        limits,
                        data,
                        #[trigger] chain[i],
                    ) implies source.contains(i) by {
                    if i == 0 {
                        assert(source[0] == 0);
                    } else {
                        assert(chain[i] == later[i - 1]);
                        assert(rest.contains(i - 1));
                        let m = choose|m: int| 0 <= m < rest.len() && rest[m] == i - 1;
                        assert(source[m + here.len()] == i);
                    }
                }
                (chain, source)
            } else {
                (seq![offset], lemma_single(limits, data, offset))
            }
        },
    }
}

/// What reading with tar-core gives is the entries that the parser reports, in their order and each
/// with all its fields and its content, along a chain of offsets that leads from the start of the
/// data from event to event; the error is the one at which the chain ends, if it ends at one.
/// Returns the chain, and for each entry the index of its offset.
pub proof fn law_core_entries_are_the_events(limits: Limits, data: Seq<u8>) -> (r: (
    Seq<int>,
    Seq<int>,
))
    ensures
        r.0[0] == 0,
        is_reading(limits, data, r.0, r.1, read_from(limits, data, 0)),
{
    lemma_reading(limits, data, 0)
}

} // verus!
