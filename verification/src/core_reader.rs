//! Reading an archive with the tar-core parser.
use crate::bytes::owned_bytes;
use crate::core_event::{
    is_settled, optional_cow, parse_event, parse_failure, permissive, tar_core_event,
    EventView, Limits, ParseError, ParseErrorView, ParseEvent, ParsedEntry, ParsedEntryView,
};
use crate::core_laws::{is_copy, is_copy_of_entry, is_right_step, law_step_is_right};
use crate::core_sums::{
    do_sums_fit, has_huge_extension, lemma_sums_fit, nothing_pending, sums_fit,
};
use crate::entry::{
    byte_pairs, describes_other_entries, entry_views, is_comparable, is_metadata_type,
    kept_content, kept_content_len, optional_bytes, OwnedEntry, OwnedEntryView,
};
use crate::fixup::{block_at, padded, padded_size, HEADER_SIZE};
use std::borrow::Cow;
use vstd::prelude::*;
use vstd::slice::{slice_subrange, slice_to_vec};

verus! {

/// Result of reading with tar-core: the entries collected so far, and the error that ended the
/// reading if one did (rather than the end of the archive or of the data).
#[derive(Debug)]
pub struct TarCoreParseResult {
    pub entries: Vec<OwnedEntry>,
    pub error: Option<ParseError>,
}

/// The mathematical value of a [`TarCoreParseResult`].
#[verifier::ext_equal]
pub struct ParseResultView {
    pub entries: Seq<OwnedEntryView>,
    pub error: Option<ParseErrorView>,
}

impl View for TarCoreParseResult {
    type V = ParseResultView;

    open spec fn view(&self) -> ParseResultView {
        ParseResultView {
            entries: entry_views(self.entries@),
            error: match self.error {
                Some(error) => Some(error@),
                None => None,
            },
        }
    }
}

/// The snapshot of a parsed entry with the given content.
pub open spec fn snapshot(entry: ParsedEntryView, content: Seq<u8>) -> OwnedEntryView {
    OwnedEntryView {
        entry_type: entry.entry_type,
        path: entry.path,
        link_target: entry.link_target,
        mode: entry.mode,
        uid: entry.uid,
        gid: entry.gid,
        mtime: entry.mtime,
        size: entry.size,
        uname: entry.uname,
        gname: entry.gname,
        dev_major: entry.dev_major,
        dev_minor: entry.dev_minor,
        xattrs: entry.xattrs,
        content,
    }
}

/// What one event adds to the reading of an archive.
pub struct Step {
    /// The entry to record, if there is one.
    pub recorded: Option<OwnedEntry>,
    /// Where reading goes on, unless it ends here.
    pub next: Option<usize>,
}

/// The mathematical value of a [`Step`].
pub struct StepView {
    pub recorded: Option<OwnedEntryView>,
    pub next: Option<int>,
}

impl View for Step {
    type V = StepView;

    open spec fn view(&self) -> StepView {
        StepView {
            recorded: match self.recorded {
                Some(entry) => Some(entry@),
                None => None,
            },
            next: match self.next {
                Some(next) => Some(next as int),
                None => None,
            },
        }
    }
}

/// Where reading goes on: at `next`, if the data reaches that far.
pub open spec fn go_on_at(data: Seq<u8>, next: int) -> Option<int> {
    if next <= data.len() {
        Some(next)
    } else {
        None
    }
}

/// What `event`, reported for the bytes from `offset` on, adds to the reading of `data`.
///
/// A global PAX header stands for no file and is stepped over. An entry is recorded if its content
/// is there, up to the content limit (the padding behind it need not be), unless it only describes
/// other entries or has an empty path. Reading goes on behind the content and its padding, and
/// ends where the data does not reach that far.
pub open spec fn step(data: Seq<u8>, offset: int, event: EventView) -> StepView {
    match event {
        EventView::NeedData | EventView::End => StepView { recorded: None, next: None },
        EventView::GlobalExtensions(consumed) => StepView {
            recorded: None,
            next: go_on_at(data, offset + consumed),
        },
        EventView::Entry(consumed, entry) => {
            let start = offset + consumed;
            let end = start + kept_content(entry.size);
            if end > data.len() {
                StepView { recorded: None, next: None }
            } else {
                StepView {
                    recorded: if is_metadata_type(entry.entry_type) || entry.path.len() == 0 {
                        None
                    } else {
                        Some(snapshot(entry, data.subrange(start, end)))
                    },
                    next: go_on_at(data, start + padded(entry.size as int)),
                }
            }
        },
    }
}

/// A list of the entry to record, if there is one.
pub open spec fn as_list(recorded: Option<OwnedEntryView>) -> Seq<OwnedEntryView> {
    match recorded {
        Some(entry) => seq![entry],
        None => Seq::empty(),
    }
}

/// What reading `data` from `offset` on gives: the entries recorded at each event in turn, and the
/// error at which it ended, if it did. (An event that took up no bytes would end it as well; the
/// parser reports none.)
pub open spec fn read_from(limits: Limits, data: Seq<u8>, offset: int) -> ParseResultView
    decreases data.len() - offset,
{
    match tar_core_event(limits, true, data.skip(offset)) {
        Err(error) => ParseResultView { entries: Seq::empty(), error: Some(error) },
        Ok(event) => {
            let step = step(data, offset, event);
            let here = as_list(step.recorded);
            match step.next {
                Some(next) => if offset < next <= data.len() {
                    let rest = read_from(limits, data, next);
                    ParseResultView { entries: here + rest.entries, error: rest.error }
                } else {
                    ParseResultView { entries: here, error: None }
                },
                None => ParseResultView { entries: here, error: None },
            }
        },
    }
}

/// Whether tar-core, reading `data` from `offset` on, adds up no sizes of extension headers to
/// 2^64 or more. What stands where the reading does not come is not looked at.
pub open spec fn reading_fits(limits: Limits, data: Seq<u8>, offset: int) -> bool
    decreases data.len() - offset,
{
    &&& sums_fit(limits, data.skip(offset), 0, nothing_pending())
    &&& match tar_core_event(limits, true, data.skip(offset)) {
        Err(_) => true,
        Ok(event) => match step(data, offset, event).next {
            Some(next) => offset < next <= data.len() ==> reading_fits(limits, data, next),
            None => true,
        },
    }
}

/// Whether reading `data` from `offset` on ends for one of these causes only: an error, the end of
/// the archive, a want of data for the next header, and an entry whose content, up to the content
/// limit, or whose padding lies beyond the data.
pub open spec fn ends_for_cause(limits: Limits, data: Seq<u8>, offset: int) -> bool
    decreases data.len() - offset,
{
    match tar_core_event(limits, true, data.skip(offset)) {
        Err(_) => true,
        Ok(EventView::End) => true,
        Ok(EventView::NeedData) => true,
        Ok(EventView::GlobalExtensions(consumed)) => {
            &&& 0 < consumed <= data.len() - offset
            &&& ends_for_cause(limits, data, offset + consumed)
        },
        Ok(EventView::Entry(consumed, entry)) => {
            let start = offset + consumed;
            &&& 0 < consumed <= data.len() - offset
            &&& {
                ||| start + kept_content(entry.size) > data.len()
                ||| start + padded(entry.size as int) > data.len()
                ||| ends_for_cause(limits, data, start + padded(entry.size as int))
            }
        },
    }
}

/// Whether every event at which reading `data` from `offset` on takes up bytes is one that bytes
/// behind the data do not change.
pub open spec fn events_are_settled(limits: Limits, data: Seq<u8>, offset: int) -> bool
    decreases data.len() - offset,
{
    let input = data.skip(offset);
    match tar_core_event(limits, true, input) {
        Ok(event) => {
            &&& event is NeedData || is_settled(limits, true, input, event)
            &&& match step(data, offset, event).next {
                Some(next) => offset < next <= data.len() ==> events_are_settled(
                    limits,
                    data,
                    next,
                ),
                None => true,
            }
        },
        Err(_) => true,
    }
}

/// The bytes of an optional byte string, owned.
fn owned_optional_bytes(bytes: Option<Cow<'_, [u8]>>) -> (r: Option<Vec<u8>>)
    ensures
        optional_bytes(r) == optional_cow(bytes),
        is_copy(bytes, r),
{
    match bytes {
        Some(b) => Some(owned_bytes(b)),
        None => None,
    }
}

/// The bytes of each pair, owned.
fn owned_byte_pairs(pairs: Vec<(Cow<'_, [u8]>, Cow<'_, [u8]>)>) -> (r: Vec<(Vec<u8>, Vec<u8>)>)
    ensures
        byte_pairs(r@) == Seq::new(pairs@.len(), |i: int| (pairs@[i].0@, pairs@[i].1@)),
        r@.len() == pairs@.len(),
        forall|i: int|
            0 <= i < r@.len() ==> (#[trigger] r@[i]).0@ == pairs@[i].0@ && r@[i].1@ == pairs@[i].1@,
{
    let mut r: Vec<(Vec<u8>, Vec<u8>)> = Vec::new();
    let mut i: usize = 0;
    while i < pairs.len()
        invariant
            i <= pairs.len(),
            r@.len() == i,
            forall|j: int|
                0 <= j < i ==> (#[trigger] r@[j]).0@ == pairs@[j].0@ && r@[j].1@ == pairs@[j].1@,
        decreases pairs.len() - i,
    {
        let (name, value) = (copied_bytes(&pairs[i].0), copied_bytes(&pairs[i].1));
        r.push((name, value));
        i += 1;
    }
    assert(byte_pairs(r@) =~= Seq::new(pairs@.len(), |i: int| (pairs@[i].0@, pairs@[i].1@)));
    r
}

/// A copy of a borrowed or owned byte string.
fn copied_bytes(bytes: &Cow<'_, [u8]>) -> (r: Vec<u8>)
    ensures
        r@ == bytes@,
{
    match bytes {
        Cow::Borrowed(b) => slice_to_vec(b),
        Cow::Owned(v) => slice_to_vec(v.as_slice()),
    }
}

/// The snapshot of a parsed entry with the given content.
pub fn take_snapshot(entry: ParsedEntry<'_>, content: Vec<u8>) -> (r: OwnedEntry)
    ensures
        r@ == snapshot(entry@, content@),
        is_copy_of_entry(entry, content@, r),
{
    let r = OwnedEntry {
        entry_type: entry.entry_type,
        path: owned_bytes(entry.path),
        link_target: owned_optional_bytes(entry.link_target),
        mode: entry.mode,
        uid: entry.uid,
        gid: entry.gid,
        mtime: entry.mtime,
        size: entry.size,
        uname: owned_optional_bytes(entry.uname),
        gname: owned_optional_bytes(entry.gname),
        dev_major: entry.dev_major,
        dev_minor: entry.dev_minor,
        xattrs: owned_byte_pairs(entry.xattrs),
        content,
    };
    assert(r@ =~= snapshot(entry@, content@));
    r
}

/// Where reading goes on behind `event`, reported for the bytes from `offset` on.
fn next_offset(data: &[u8], offset: usize, event: &ParseEvent<'_>) -> (r: Option<usize>)
    requires
        offset <= data@.len(),
    ensures
        step(data@, offset as int, event@).next == (match r {
            Some(next) => Some(next as int),
            None => None,
        }),
{
    let left: usize = data.len() - offset;
    match event {
        ParseEvent::NeedData => None,
        ParseEvent::End => None,
        ParseEvent::GlobalExtensions(consumed) => if *consumed <= left {
            Some(offset + *consumed)
        } else {
            None
        },
        ParseEvent::Entry(consumed, entry) => {
            if *consumed > left || kept_content_len(entry.size) > left - *consumed {
                return None;
            }
            let start: usize = offset + *consumed;
            match padded_size(entry.size) {
                Some(skip) => if skip <= (data.len() - start) as u64 {
                    Some(start + skip as usize)
                } else {
                    None
                },
                None => None,
            }
        },
    }
}

/// What `event`, reported for the bytes from `offset` on, adds to the reading of `data`.
pub fn take_event(data: &[u8], offset: usize, event: ParseEvent<'_>) -> (r: Step)
    requires
        offset <= data@.len(),
    ensures
        r@ == step(data@, offset as int, event@),
        is_right_step(data@, offset as int, event@, r@),
{
    proof {
        law_step_is_right(data@, offset as int, event@);
    }
    let next = next_offset(data, offset, &event);
    let left: usize = data.len() - offset;
    match event {
        ParseEvent::Entry(consumed, entry) => {
            let read_size = kept_content_len(entry.size);
            if consumed > left || read_size > left - consumed || describes_other_entries(
                entry.entry_type,
            ) || cow_is_empty(&entry.path) {
                return Step { recorded: None, next };
            }
            let start: usize = offset + consumed;
            let content = slice_to_vec(slice_subrange(data, start, start + read_size));
            Step { recorded: Some(take_snapshot(entry, content)), next }
        },
        _ => Step { recorded: None, next },
    }
}

/// Whether a borrowed or owned byte string is empty.
fn cow_is_empty(bytes: &Cow<'_, [u8]>) -> (r: bool)
    ensures
        r == (bytes@.len() == 0),
{
    match bytes {
        Cow::Borrowed(b) => b.len() == 0,
        Cow::Owned(v) => v.len() == 0,
    }
}

/// Whether tar-core, reading `data`, adds up no sizes of extension headers to 2^64 or more.
pub fn can_read_tar_core(data: &[u8], limits: Limits) -> (r: bool)
    ensures
        r == reading_fits(limits, data@, 0),
{
    let mut offset: usize = 0;
    loop
        invariant
            offset <= data@.len(),
            reading_fits(limits, data@, 0) == reading_fits(limits, data@, offset as int),
        decreases data@.len() - offset,
    {
        let input = slice_subrange(data, offset, data.len());
        assert(input@ =~= data@.skip(offset as int));
        if !do_sums_fit(input, limits) {
            return false;
        }
        let event = match parse_event(limits, true, input) {
            Some(event) => event,
            None => return true,
        };
        match next_offset(data, offset, &event) {
            Some(next) => {
                offset = next;
            },
            None => return true,
        }
    }
}

/// Read a tar archive with tar-core, with both the entries and any error that ended the reading.
///
/// Entries with empty paths are let through by the parser, so that reading does not end at them,
/// and are then left out, as [`crate::parse_tar_rs`] leaves them out.
///
/// tar-core adds up the sizes of extension headers unchecked; data on which such a sum overflows
/// is left out, and [`can_read_tar_core`] tells it.
pub fn parse_tar_core_detailed(data: &[u8], limits: Limits) -> (r: TarCoreParseResult)
    requires
        reading_fits(limits, data@, 0),
    ensures
        r@ == read_from(limits, data@, 0),
        ends_for_cause(limits, data@, 0),
        events_are_settled(limits, data@, 0),
{
    let mut entries: Vec<OwnedEntry> = Vec::new();
    let mut offset: usize = 0;
    assert(entry_views(entries@) =~= Seq::empty());
    assert(Seq::<OwnedEntryView>::empty() + read_from(limits, data@, 0).entries =~= read_from(
        limits,
        data@,
        0,
    ).entries);
    loop
        invariant
            offset <= data@.len(),
            reading_fits(limits, data@, offset as int),
            ends_for_cause(limits, data@, offset as int) ==> ends_for_cause(limits, data@, 0),
            events_are_settled(limits, data@, offset as int) ==> events_are_settled(
                limits,
                data@,
                0,
            ),
            read_from(limits, data@, 0) == (ParseResultView {
                entries: entry_views(entries@) + read_from(limits, data@, offset as int).entries,
                error: read_from(limits, data@, offset as int).error,
            }),
        decreases data@.len() - offset,
    {
        let input = slice_subrange(data, offset, data.len());
        assert(input@ =~= data@.skip(offset as int));
        let event = match parse_event(limits, true, input) {
            Some(event) => event,
            None => {
                assert(entry_views(entries@) + Seq::<OwnedEntryView>::empty() =~= entry_views(
                    entries@,
                ));
                let error = parse_failure(limits, true, input);
                return TarCoreParseResult { entries, error };
            },
        };
        let ghost before = entries@;
        let taken = take_event(data, offset, event);
        let ghost here = as_list(taken@.recorded);
        if let Some(entry) = taken.recorded {
            entries.push(entry);
        }
        assert(entry_views(entries@) =~= entry_views(before) + here);
        match taken.next {
            Some(next) => {
                proof {
                    let rest = read_from(limits, data@, next as int).entries;
                    assert(entry_views(before) + (here + rest) =~= entry_views(entries@) + rest);
                }
                offset = next;
            },
            None => {
                return TarCoreParseResult { entries, error: None };
            },
        }
    }
}

/// Read a tar archive with tar-core under the given limits.
///
/// An archive that goes on behind the data has the same entries, and perhaps more.
pub fn parse_tar_core_with_limits(data: &[u8], limits: Limits) -> (r: Vec<OwnedEntry>)
    requires
        reading_fits(limits, data@, 0),
    ensures
        entry_views(r@) == read_from(limits, data@, 0).entries,
        forall|whole: Seq<u8>| #[trigger]
            data@.is_prefix_of(whole) ==> entry_views(r@).is_prefix_of(
                read_from(limits, whole, 0).entries,
            ),
{
    let r = parse_tar_core_detailed(data, limits).entries;
    assert forall|whole: Seq<u8>| #[trigger] data@.is_prefix_of(whole) implies entry_views(
        r@,
    ).is_prefix_of(read_from(limits, whole, 0).entries) by {
        law_cut_loses_last_entries_only(limits, data@, whole);
    }
    r
}

/// Read a tar archive with tar-core under permissive limits.
///
/// An archive that goes on behind the data has the same entries, and perhaps more.
pub fn parse_tar_core(data: &[u8]) -> (r: Vec<OwnedEntry>)
    requires
        reading_fits(permissive(), data@, 0),
    ensures
        entry_views(r@) == read_from(permissive(), data@, 0).entries,
        forall|whole: Seq<u8>| #[trigger]
            data@.is_prefix_of(whole) ==> entry_views(r@).is_prefix_of(
                read_from(permissive(), whole, 0).entries,
            ),
{
    let r = parse_tar_core_detailed(data, Limits::permissive()).entries;
    assert forall|whole: Seq<u8>| #[trigger] data@.is_prefix_of(whole) implies entry_views(
        r@,
    ).is_prefix_of(read_from(permissive(), whole, 0).entries) by {
        law_cut_loses_last_entries_only(permissive(), data@, whole);
    }
    r
}

proof fn lemma_read_entries(limits: Limits, data: Seq<u8>, offset: int, i: int)
    requires
        0 <= offset,
        0 <= i < read_from(limits, data, offset).entries.len(),
    ensures
        is_comparable(read_from(limits, data, offset).entries[i]),
        is_part_of(read_from(limits, data, offset).entries[i].content, data),
    decreases data.len() - offset,
{
    let event = tar_core_event(limits, true, data.skip(offset))->Ok_0;
    let step = step(data, offset, event);
    let here = as_list(step.recorded);
    if i < here.len() {
        assert(event is Entry);
        let start = offset + event->Entry_0;
        assert(here[i].content == data.subrange(start, start + kept_content(here[i].size)));
    } else {
        lemma_read_entries(limits, data, step.next->0, i - here.len());
    }
}

/// Whether `part` stands somewhere in `whole`.
pub open spec fn is_part_of(part: Seq<u8>, whole: Seq<u8>) -> bool {
    exists|at: int|
        0 <= at && at + part.len() <= whole.len() && part == #[trigger] whole.subrange(
            at,
            at + part.len(),
        )
}

/// Every entry that reading with tar-core records is a real entry with a path and with its content
/// complete up to the content limit, and that content stands in the archive.
pub proof fn law_core_entries_are_comparable(limits: Limits, data: Seq<u8>)
    ensures
        forall|i: int|
            0 <= i < read_from(limits, data, 0).entries.len() ==> is_comparable(
                #[trigger] read_from(limits, data, 0).entries[i],
            ) && is_part_of(read_from(limits, data, 0).entries[i].content, data),
{
    assert forall|i: int| 0 <= i < read_from(limits, data, 0).entries.len() implies is_comparable(
        #[trigger] read_from(limits, data, 0).entries[i],
    ) && is_part_of(read_from(limits, data, 0).entries[i].content, data) by {
        lemma_read_entries(limits, data, 0, i);
    }
}

/// The padding behind the content of an entry is not needed: where the data ends right behind the
/// content, up to the content limit, the same is recorded.
pub proof fn law_padding_may_be_missing(
    data: Seq<u8>,
    offset: int,
    consumed: usize,
    entry: ParsedEntryView,
)
    requires
        0 <= offset,
        offset + consumed + kept_content(entry.size) <= data.len(),
    ensures
        step(
            data.take(offset + consumed + kept_content(entry.size)),
            offset,
            EventView::Entry(consumed, entry),
        ).recorded == step(data, offset, EventView::Entry(consumed, entry)).recorded,
{
    let start = offset + consumed;
    let end = start + kept_content(entry.size);
    assert(data.take(end).subrange(start, end) =~= data.subrange(start, end));
}

/// Cutting an archive short makes no event record anything else: it records the same, or nothing.
pub proof fn law_cut_records_nothing_else(data: Seq<u8>, n: int, offset: int, event: EventView)
    requires
        0 <= offset <= n <= data.len(),
    ensures
        step(data.take(n), offset, event).recorded is None || step(
            data.take(n),
            offset,
            event,
        ).recorded == step(data, offset, event).recorded,
{
    if let EventView::Entry(consumed, entry) = event {
        let start = offset + consumed;
        let end = start + kept_content(entry.size);
        if end <= n {
            assert(data.take(n).subrange(start, end) =~= data.subrange(start, end));
        }
    }
}

proof fn lemma_reading_fits(limits: Limits, data: Seq<u8>, offset: int)
    requires
        !has_huge_extension(data),
        0 <= offset <= data.len(),
    ensures
        reading_fits(limits, data, offset),
    decreases data.len() - offset,
{
    let rest = data.skip(offset);
    assert forall|p: int| 0 <= p && p + HEADER_SIZE <= rest.len() implies #[trigger] block_at(rest, p)
        == block_at(data, p + offset) by {
        assert(block_at(rest, p) =~= block_at(data, p + offset));
    }
    lemma_sums_fit(limits, rest, 0, nothing_pending());
    if let Ok(event) = tar_core_event(limits, true, rest) {
        if let Some(next) = step(data, offset, event).next {
            if offset < next <= data.len() {
                lemma_reading_fits(limits, data, next);
            }
        }
    }
}

/// Any data in which no extension header declares a size close to 2^64 can be read with tar-core,
/// under any limits.
pub proof fn law_core_overflow_needs_huge_extension(limits: Limits, data: Seq<u8>)
    requires
        !has_huge_extension(data),
    ensures
        reading_fits(limits, data, 0),
{
    lemma_reading_fits(limits, data, 0);
}

proof fn lemma_cut(limits: Limits, cut: Seq<u8>, whole: Seq<u8>, offset: int)
    requires
        cut.is_prefix_of(whole),
        0 <= offset <= cut.len(),
        events_are_settled(limits, cut, offset),
    ensures
        read_from(limits, cut, offset).entries.is_prefix_of(
            read_from(limits, whole, offset).entries,
        ),
    decreases cut.len() - offset,
{
    let short = read_from(limits, cut, offset).entries;
    let long = read_from(limits, whole, offset).entries;
    let input = cut.skip(offset);
    if let Ok(event) = tar_core_event(limits, true, input) {
        if event !is NeedData {
            let more = whole.skip(cut.len() as int);
            assert(input + more =~= whole.skip(offset));
            assert(tar_core_event(limits, true, input + more) == Ok::<EventView, ParseErrorView>(
                event,
            ));
            assert(whole.take(cut.len() as int) =~= cut);
            law_cut_records_nothing_else(whole, cut.len() as int, offset, event);
            let here = as_list(step(cut, offset, event).recorded);
            if let Some(next) = step(cut, offset, event).next {
                assert(step(whole, offset, event).next == Some(next));
                if offset < next {
                    lemma_cut(limits, cut, whole, next);
                    let short_rest = read_from(limits, cut, next).entries;
                    let long_rest = read_from(limits, whole, next).entries;
                    assert(here == as_list(step(whole, offset, event).recorded));
                    assert(short == here + short_rest);
                    assert(long == here + long_rest);
                    assert(short_rest =~= long_rest.subrange(0, short_rest.len() as int));
                    assert(short =~= long.subrange(0, short.len() as int));
                }
            }
        }
    }
    assert(short =~= long.subrange(0, short.len() as int));
}

/// Cutting an archive short only loses entries at the end: what is read of it is the first of what
/// is read of the whole. (The events of the cut archive have to be those that the parser reports
/// whatever follows; the parser reports no others.)
pub proof fn law_cut_loses_last_entries_only(limits: Limits, cut: Seq<u8>, whole: Seq<u8>)
    requires
        cut.is_prefix_of(whole),
        events_are_settled(limits, cut, 0),
    ensures
        read_from(limits, cut, 0).entries.is_prefix_of(read_from(limits, whole, 0).entries),
{
    lemma_cut(limits, cut, whole, 0);
}

} // verus!
