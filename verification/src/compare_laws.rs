//! What comparing two readings is for, said of the entries themselves.
use crate::core_event::{HeaderErrorKind, Limits, ParseError, ParseErrorKind, ParseErrorView};
use crate::core_reader::read_from;
use crate::differential::{divergence, is_outcome, lemma_first_difference, Divergence, Outcome};
use crate::entry::{entry_views, OwnedEntry, OwnedEntryView};
use crate::rs_reader::entries_from;
use vstd::prelude::*;

verus! {

/// Whether two optional byte strings are both absent, or both there with the same bytes.
pub open spec fn same_optional(a: Option<Vec<u8>>, b: Option<Vec<u8>>) -> bool {
    match (a, b) {
        (Some(x), Some(y)) => x@ == y@,
        (None, None) => true,
        _ => false,
    }
}

/// Whether two entries have the same type, path, link target, mode, owner, times, sizes, names,
/// device numbers, extended attributes in the same order, and content.
pub open spec fn same_fields(a: OwnedEntry, b: OwnedEntry) -> bool {
    &&& a.entry_type == b.entry_type
    &&& a.path@ == b.path@
    &&& same_optional(a.link_target, b.link_target)
    &&& a.mode == b.mode
    &&& a.uid == b.uid
    &&& a.gid == b.gid
    &&& a.mtime == b.mtime
    &&& a.size == b.size
    &&& same_optional(a.uname, b.uname)
    &&& same_optional(a.gname, b.gname)
    &&& a.dev_major == b.dev_major
    &&& a.dev_minor == b.dev_minor
    &&& a.xattrs@.len() == b.xattrs@.len()
    &&& forall|i: int|
        0 <= i < a.xattrs@.len() ==> (#[trigger] a.xattrs@[i]).0@ == b.xattrs@[i].0@
            && a.xattrs@[i].1@ == b.xattrs@[i].1@
    &&& a.content@ == b.content@
}

/// Two entries count as equal if and only if every field is the same.
pub proof fn law_entries_are_equal_by_fields(a: OwnedEntry, b: OwnedEntry)
    ensures
        a@ == b@ <==> same_fields(a, b),
{
    if a@ == b@ {
        assert(a@.link_target == b@.link_target && a@.uname == b@.uname && a@.gname == b@.gname);
        assert(a@.xattrs.len() == b@.xattrs.len());
        assert forall|i: int| 0 <= i < a.xattrs@.len() implies (#[trigger] a.xattrs@[i]).0@
            == b.xattrs@[i].0@ && a.xattrs@[i].1@ == b.xattrs@[i].1@ by {
            assert(a@.xattrs[i] == b@.xattrs[i]);
        }
    }
    if same_fields(a, b) {
        assert(a@.xattrs =~= b@.xattrs);
        assert(a@ =~= b@);
    }
}

/// Whether missing entries of tar-core are excused: it stopped with a malformed PAX record, a PAX
/// key that is not UTF-8, a malformed numeric field, or content where the type has none.
pub open spec fn is_excused(error: Option<ParseErrorKind>) -> bool {
    error matches Some(kind) && match kind {
        ParseErrorKind::Pax => true,
        ParseErrorKind::InvalidUtf8 => true,
        ParseErrorKind::Header(HeaderErrorKind::InvalidOctal) => true,
        ParseErrorKind::Header(HeaderErrorKind::InsufficientData) => false,
        ParseErrorKind::Header(HeaderErrorKind::FieldOverflow) => false,
        ParseErrorKind::Header(HeaderErrorKind::ChecksumMismatch) => false,
        ParseErrorKind::NonZeroSizeForHeaderOnlyEntry => true,
        ParseErrorKind::Other => false,
    }
}

/// Whether `verdict` is right on the entries of the tar crate and of tar-core, and on the error at
/// which tar-core stopped. With fewer entries than the tar crate, and no excuse, tar-core has read
/// too few. Otherwise the first entries that both have and that differ are reported; if there are
/// none, all is well.
pub open spec fn is_right(
    tar_rs: Seq<OwnedEntry>,
    tar_core: Seq<OwnedEntry>,
    error: Option<ParseErrorKind>,
    verdict: Result<(), Divergence>,
) -> bool {
    if tar_core.len() < tar_rs.len() && !is_excused(error) {
        verdict matches Err(Divergence::FewerEntries { tar_core: c, tar_rs: r }) && c
            == tar_core.len() && r == tar_rs.len()
    } else {
        match verdict {
            Ok(_) => forall|i: int|
                0 <= i < tar_rs.len() && i < tar_core.len() ==> same_fields(
                    #[trigger] tar_rs[i],
                    tar_core[i],
                ),
            Err(Divergence::EntryMismatch { index }) => {
                &&& index < tar_rs.len()
                &&& index < tar_core.len()
                &&& !same_fields(tar_rs[index as int], tar_core[index as int])
                &&& forall|i: int|
                    0 <= i < index ==> same_fields(#[trigger] tar_rs[i], tar_core[i])
            },
            Err(Divergence::FewerEntries { .. }) => false,
        }
    }
}

/// The kind of an error, if there is one.
pub open spec fn kind_of(error: Option<ParseError>) -> Option<ParseErrorKind> {
    match error {
        Some(e) => Some(e.kind),
        None => None,
    }
}

/// The comparison of two readings is right.
pub proof fn law_divergence_is_right(
    tar_rs: Seq<OwnedEntry>,
    tar_core: Seq<OwnedEntry>,
    error: Option<ParseErrorView>,
    kind: Option<ParseErrorKind>,
    verdict: Result<(), Divergence>,
)
    requires
        tar_rs.len() <= usize::MAX,
        tar_core.len() <= usize::MAX,
        kind == (match error {
            Some(e) => Some(e.kind),
            None => None,
        }),
        match divergence(entry_views(tar_rs), entry_views(tar_core), error) {
            Some(found) => verdict == Err::<(), Divergence>(found),
            None => verdict is Ok,
        },
    ensures
        is_right(tar_rs, tar_core, kind, verdict),
{
    let a = entry_views(tar_rs);
    let b = entry_views(tar_core);
    lemma_first_difference(a, b, 0);
    assert forall|i: int| 0 <= i < tar_rs.len() && i < tar_core.len() implies (a[i] == b[i]
        <==> same_fields(#[trigger] tar_rs[i], tar_core[i])) by {
        law_entries_are_equal_by_fields(tar_rs[i], tar_core[i]);
    }
}

/// Two readings of which tar-core's lacks entries are no divergence only if tar-core stopped with
/// one of four kinds of error; with any other error, or with none, they are reported with the
/// number of entries of each.
pub proof fn law_missing_entries_need_one_of_four_errors(
    tar_rs: Seq<OwnedEntryView>,
    tar_core: Seq<OwnedEntryView>,
    error: Option<ParseErrorView>,
)
    requires
        tar_core.len() < tar_rs.len() <= usize::MAX,
    ensures
        !(error matches Some(e) && (e.kind == ParseErrorKind::Pax || e.kind
            == ParseErrorKind::InvalidUtf8 || e.kind == ParseErrorKind::Header(
            HeaderErrorKind::InvalidOctal,
        ) || e.kind == ParseErrorKind::NonZeroSizeForHeaderOnlyEntry)) ==> divergence(
            tar_rs,
            tar_core,
            error,
        ) == Some(
            Divergence::FewerEntries {
                tar_core: tar_core.len() as usize,
                tar_rs: tar_rs.len() as usize,
            },
        ),
        (error matches Some(e) && (e.kind == ParseErrorKind::Pax || e.kind
            == ParseErrorKind::InvalidUtf8 || e.kind == ParseErrorKind::Header(
            HeaderErrorKind::InvalidOctal,
        ) || e.kind == ParseErrorKind::NonZeroSizeForHeaderOnlyEntry)) ==> !(divergence(
            tar_rs,
            tar_core,
            error,
        ) matches Some(Divergence::FewerEntries { .. })),
{
}

/// The verdict of an outcome is right on the two readings that it holds.
pub proof fn law_outcome_is_right(outcome: Outcome, data: Seq<u8>)
    requires
        is_outcome(outcome, data),
        outcome.tar_rs_entries@.len() <= usize::MAX,
        outcome.tar_core.entries@.len() <= usize::MAX,
    ensures
        is_right(
            outcome.tar_rs_entries@,
            outcome.tar_core.entries@,
            kind_of(outcome.tar_core.error),
            outcome.verdict,
        ),
{
    law_divergence_is_right(
        outcome.tar_rs_entries@,
        outcome.tar_core.entries@,
        outcome.tar_core@.error,
        kind_of(outcome.tar_core.error),
        outcome.verdict,
    );
}

/// Whether `list` has the given values, in order.
pub open spec fn has_values(list: Seq<OwnedEntry>, values: Seq<OwnedEntryView>) -> bool {
    list.len() == values.len() && forall|i: int|
        0 <= i < list.len() ==> (#[trigger] list[i])@ == values[i]
}

/// Whether an outcome holds both readings of `data`, that of tar-core under the widest limits, and
/// a verdict that is right on them.
pub open spec fn is_full_outcome(outcome: Outcome, data: Seq<u8>) -> bool {
    let limits = Limits {
        max_metadata_size: 0xffff_ffff,
        max_path_len: None,
        max_pending_entries: usize::MAX,
        max_sparse_entries: 1_000_000,
    };
    let reading = read_from(limits, data, 0);
    &&& has_values(outcome.tar_rs_entries@, entries_from(data, 0))
    &&& has_values(outcome.tar_core.entries@, reading.entries)
    &&& match outcome.tar_core.error {
        Some(e) => reading.error matches Some(v) && v.kind == e.kind && v.message == e.message@,
        None => reading.error is None,
    }
    &&& is_right(
        outcome.tar_rs_entries@,
        outcome.tar_core.entries@,
        kind_of(outcome.tar_core.error),
        outcome.verdict,
    )
}

/// An outcome holds both readings and the right verdict on them.
pub proof fn law_outcome_is_full(outcome: Outcome, data: Seq<u8>)
    requires
        is_outcome(outcome, data),
        outcome.tar_rs_entries@.len() <= usize::MAX,
        outcome.tar_core.entries@.len() <= usize::MAX,
    ensures
        is_full_outcome(outcome, data),
{
    law_outcome_is_right(outcome, data);
    assert forall|i: int| 0 <= i < outcome.tar_rs_entries@.len() implies (
    #[trigger] outcome.tar_rs_entries@[i])@ == entries_from(data, 0)[i] by {
        assert(entry_views(outcome.tar_rs_entries@)[i] == outcome.tar_rs_entries@[i]@);
    }
    assert forall|i: int| 0 <= i < outcome.tar_core.entries@.len() implies (
    #[trigger] outcome.tar_core.entries@[i])@ == outcome.tar_core@.entries[i] by {
        assert(entry_views(outcome.tar_core.entries@)[i] == outcome.tar_core.entries@[i]@);
    }
}

} // verus!
