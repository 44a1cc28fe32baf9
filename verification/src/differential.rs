//! Comparison of the two readers on one input.
//!
//! Whenever the tar crate reads an entry, tar-core should read a matching one, with the same
//! metadata, extended attributes and content. tar-core is stricter on purpose in a few known ways;
//! [`is_allowlisted_divergence`] tells them from defects.
use crate::compare_laws::{
    is_excused, is_full_outcome, is_right, law_divergence_is_right, law_outcome_is_full,
};
use crate::core_event::{
    permissive, HeaderErrorKind, Limits, ParseError, ParseErrorKind, ParseErrorView,
};
use crate::core_reader::{
    can_read_tar_core, parse_tar_core_detailed, read_from, reading_fits, TarCoreParseResult,
};
use crate::entry::{entry_views, OwnedEntry, OwnedEntryView};
use crate::fixup_laws::{is_prepared, law_examined_is_prepared};
use crate::fixup::{
    fixed_up, fixup_checksums, is_header, law_fixup_changes_checksum_fields_only,
    law_fixup_is_idempotent, lemma_walked_range, CHECKSUM_END, CHECKSUM_START,
};
use crate::rs_reader::{can_read_tar_rs, entries_from, parse_tar_rs, rs_reading_fits};
use vstd::prelude::*;
use vstd::slice::slice_to_vec;

verus! {

/// Longest input that is examined, in bytes.
pub const MAX_INPUT: usize = 262144;

/// Whether tar-core stops with an error of this kind where the tar crate goes on:
///
/// - malformed PAX records and PAX keys that are not UTF-8, which the tar crate skips;
/// - numeric fields that are neither octal text nor a valid binary number, which the tar crate
///   may read as some number;
/// - a size other than zero on an entry whose type has no content.
pub open spec fn is_stricter(kind: ParseErrorKind) -> bool {
    ||| kind is Pax
    ||| kind is InvalidUtf8
    ||| kind == ParseErrorKind::Header(HeaderErrorKind::InvalidOctal)
    ||| kind is NonZeroSizeForHeaderOnlyEntry
}

/// Whether the error is a known difference in which tar-core is stricter than the tar crate on
/// purpose.
///
/// Where it is, the tar crate may have read more entries than tar-core, and that is expected.
pub fn is_allowlisted_divergence(err: &ParseError) -> (r: bool)
    ensures
        r == is_stricter(err.kind),
        r == is_excused(Some(err.kind)),
{
    matches!(
        err.kind,
        ParseErrorKind::Pax | ParseErrorKind::InvalidUtf8 | ParseErrorKind::Header(
            HeaderErrorKind::InvalidOctal,
        ) | ParseErrorKind::NonZeroSizeForHeaderOnlyEntry
    )
}

/// How the readings of the two readers differ.
#[derive(Debug, Clone, Copy, PartialEq, Eq)]
pub enum Divergence {
    /// tar-core read fewer entries than the tar crate.
    FewerEntries { tar_core: usize, tar_rs: usize },
    /// The entries with this index differ, and none before them do.
    EntryMismatch { index: usize },
}

/// The index from `i` on at which the two lists first differ, as far as both reach.
pub open spec fn first_difference(
    a: Seq<OwnedEntryView>,
    b: Seq<OwnedEntryView>,
    i: int,
) -> Option<int>
    decreases a.len() - i,
{
    if i < 0 || i >= a.len() || i >= b.len() {
        None
    } else if a[i] != b[i] {
        Some(i)
    } else {
        first_difference(a, b, i + 1)
    }
}

/// Whether reading stopped with an error in which tar-core is stricter on purpose.
pub open spec fn stopped_by_stricter_check(error: Option<ParseErrorView>) -> bool {
    error matches Some(e) && is_stricter(e.kind)
}

/// How the readings differ, if they do. tar-core has to read at least as many entries as the tar
/// crate, unless an error that is known to be stricter stopped it. Entries that both have read have
/// to be the same in any case.
pub open spec fn divergence(
    tar_rs: Seq<OwnedEntryView>,
    tar_core: Seq<OwnedEntryView>,
    error: Option<ParseErrorView>,
) -> Option<Divergence> {
    if tar_core.len() < tar_rs.len() && !stopped_by_stricter_check(error) {
        Some(
            Divergence::FewerEntries {
                tar_core: tar_core.len() as usize,
                tar_rs: tar_rs.len() as usize,
            },
        )
    } else {
        match first_difference(tar_rs, tar_core, 0) {
            Some(i) => Some(Divergence::EntryMismatch { index: i as usize }),
            None => None,
        }
    }
}

/// The value of an optional error.
pub open spec fn error_view(error: Option<&ParseError>) -> Option<ParseErrorView> {
    match error {
        Some(e) => Some(e@),
        None => None,
    }
}

/// Compare entries read by the tar crate and by tar-core.
///
/// tar-core is more lenient than the tar crate in some cases, on purpose (numeric fields of NUL
/// bytes alone are accepted as zero), so it is only required that it reads at least as many entries
/// and that those entries match.
pub fn compare_entries(
    tar_rs_entries: &[OwnedEntry],
    tar_core_entries: &[OwnedEntry],
    tar_core_error: Option<&ParseError>,
) -> (r: Result<(), Divergence>)
    ensures
        match divergence(
            entry_views(tar_rs_entries@),
            entry_views(tar_core_entries@),
            error_view(tar_core_error),
        ) {
            Some(found) => r == Err::<(), Divergence>(found),
            None => r is Ok,
        },
        is_right(
            tar_rs_entries@,
            tar_core_entries@,
            match tar_core_error {
                Some(err) => Some(err.kind),
                None => None,
            },
            r,
        ),
{
    let ghost kind = match tar_core_error {
        Some(err) => Some(err.kind),
        None => None,
    };
    if tar_core_entries.len() < tar_rs_entries.len() {
        let allowlisted = match tar_core_error {
            Some(err) => is_allowlisted_divergence(err),
            None => false,
        };
        if !allowlisted {
            let r = Err(
                Divergence::FewerEntries {
                    tar_core: tar_core_entries.len(),
                    tar_rs: tar_rs_entries.len(),
                },
            );
            proof {
                law_divergence_is_right(
                    tar_rs_entries@,
                    tar_core_entries@,
                    error_view(tar_core_error),
                    kind,
                    r,
                );
            }
            return r;
        }
    }
    let ghost tar_rs = entry_views(tar_rs_entries@);
    let ghost tar_core = entry_views(tar_core_entries@);
    let mut i: usize = 0;
    while i < tar_rs_entries.len() && i < tar_core_entries.len()
        invariant
            tar_rs == entry_views(tar_rs_entries@),
            tar_core == entry_views(tar_core_entries@),
            kind == (match tar_core_error {
                Some(err) => Some(err.kind),
                None => None,
            }),
            tar_core.len() < tar_rs.len() ==> stopped_by_stricter_check(
                error_view(tar_core_error),
            ),
            first_difference(tar_rs, tar_core, 0) == first_difference(tar_rs, tar_core, i as int),
        decreases tar_rs_entries.len() - i,
    {
        assert(tar_rs[i as int] == tar_rs_entries@[i as int]@);
        assert(tar_core[i as int] == tar_core_entries@[i as int]@);
        if tar_rs_entries[i] != tar_core_entries[i] {
            let r = Err(Divergence::EntryMismatch { index: i });
            proof {
                law_divergence_is_right(
                    tar_rs_entries@,
                    tar_core_entries@,
                    error_view(tar_core_error),
                    kind,
                    r,
                );
            }
            return r;
        }
        i += 1;
    }
    proof {
        law_divergence_is_right(
            tar_rs_entries@,
            tar_core_entries@,
            error_view(tar_core_error),
            kind,
            Ok(()),
        );
    }
    Ok(())
}

/// Both readings of an input, and how they compare.
#[derive(Debug)]
pub struct Outcome {
    pub tar_rs_entries: Vec<OwnedEntry>,
    pub tar_core: TarCoreParseResult,
    pub verdict: Result<(), Divergence>,
}

/// What reading `data` with both readers and comparing gives.
pub open spec fn is_outcome(outcome: Outcome, data: Seq<u8>) -> bool {
    let tar_rs = entries_from(data, 0);
    let tar_core = read_from(permissive(), data, 0);
    &&& entry_views(outcome.tar_rs_entries@) == tar_rs
    &&& outcome.tar_core@ == tar_core
    &&& match divergence(tar_rs, tar_core.entries, tar_core.error) {
        Some(found) => outcome.verdict == Err::<(), Divergence>(found),
        None => outcome.verdict is Ok,
    }
}

/// Read `data` with both readers and compare what they give.
///
/// Data on which a sum of one of the readers overflows is left out.
pub fn run_differential(data: &[u8]) -> (r: Outcome)
    requires
        rs_reading_fits(data@),
        reading_fits(permissive(), data@, 0),
    ensures
        is_outcome(r, data@),
        is_full_outcome(r, data@),
{
    let tar_rs_entries = parse_tar_rs(data);
    let tar_core = parse_tar_core_detailed(data, Limits::permissive());
    let verdict = compare_entries(&tar_rs_entries, &tar_core.entries, tar_core.error.as_ref());
    assert(tar_rs_entries.len() <= usize::MAX && tar_core.entries.len() <= usize::MAX);
    let outcome = Outcome { tar_rs_entries, tar_core, verdict };
    proof {
        law_outcome_is_full(outcome, data@);
    }
    outcome
}

/// What is examined in place of the given input: nothing if it is too long; for nine first bytes in
/// ten the input with its checksums repaired, so that the readers' deeper logic is exercised; for
/// the others, and for the empty input, the input itself, so that checksum validation is.
pub open spec fn examined(data: Seq<u8>) -> Option<Seq<u8>> {
    if data.len() > MAX_INPUT {
        None
    } else if data.len() > 0 && data[0] % 10 != 0 {
        Some(fixed_up(data, 0))
    } else {
        Some(data)
    }
}

/// What is examined in place of the given input.
pub fn prepare_input(data: &[u8]) -> (r: Option<Vec<u8>>)
    ensures
        match r {
            Some(input) => examined(data@) == Some(input@),
            None => examined(data@) is None,
        },
        match r {
            Some(input) => data@.len() <= 262144 && is_prepared(data@, input@),
            None => data@.len() > 262144,
        },
{
    proof {
        law_examined_is_prepared(data@);
    }
    if data.len() > MAX_INPUT {
        return None;
    }
    let should_fixup = data.len() > 0 && data[0] % 10 != 0;
    let mut input = slice_to_vec(data);
    if should_fixup {
        fixup_checksums(&mut input);
    }
    Some(input)
}

/// One of the two readers.
#[derive(Debug, Clone, Copy, PartialEq, Eq)]
pub enum Reader {
    TarRs,
    TarCore,
}

/// The first reader, the tar crate before tar-core, in which reading `data` overflows a sum.
pub open spec fn overflowing_reader(data: Seq<u8>) -> Option<Reader> {
    if !rs_reading_fits(data) {
        Some(Reader::TarRs)
    } else if !reading_fits(permissive(), data, 0) {
        Some(Reader::TarCore)
    } else {
        None
    }
}

/// The first reader, the tar crate before tar-core, in which reading `data` overflows a sum.
pub fn find_overflowing_reader(data: &[u8]) -> (r: Option<Reader>)
    ensures
        r == overflowing_reader(data@),
{
    if !can_read_tar_rs(data) {
        Some(Reader::TarRs)
    } else if !can_read_tar_core(data, Limits::permissive()) {
        Some(Reader::TarCore)
    } else {
        None
    }
}

/// What examining an input gives.
#[derive(Debug)]
pub enum Examination {
    /// The input is too long and was not examined.
    TooLong,
    /// A sum overflows in this reader when it reads the prepared input.
    Overflow { input: Vec<u8>, reader: Reader },
    /// Both readers have read the prepared input, with this outcome.
    Compared { input: Vec<u8>, outcome: Outcome },
}

/// Examine one input: prepare it, read it with both readers and compare.
pub fn examine(data: &[u8]) -> (r: Examination)
    ensures
        match r {
            Examination::TooLong => data@.len() > MAX_INPUT && data@.len() > 262144,
            Examination::Overflow { input, reader } => {
                &&& data@.len() <= 262144
                &&& is_prepared(data@, input@)
                &&& examined(data@) == Some(input@)
                &&& overflowing_reader(input@) == Some(reader)
            },
            Examination::Compared { input, outcome } => {
                &&& data@.len() <= 262144
                &&& is_prepared(data@, input@)
                &&& is_full_outcome(outcome, input@)
                &&& examined(data@) == Some(input@)
                &&& overflowing_reader(input@) is None
                &&& is_outcome(outcome, input@)
            },
        },
{
    let input = match prepare_input(data) {
        Some(input) => input,
        None => return Examination::TooLong,
    };
    match find_overflowing_reader(&input) {
        Some(reader) => Examination::Overflow { input, reader },
        None => {
            let outcome = run_differential(&input);
            Examination::Compared { input, outcome }
        },
    }
}

/// Preparing what is examined in place of an input changes nothing: it is examined as it is, so an
/// outcome can be had again from it.
pub proof fn law_prepared_input_is_stable(data: Seq<u8>)
    ensures
        examined(data) matches Some(input) ==> examined(input) == Some(input),
{
    if data.len() > 0 && data[0] % 10 != 0 {
        law_fixup_changes_checksum_fields_only(data);
        law_fixup_is_idempotent(data);
        assert forall|p: int|
            #![trigger is_header(data, p)]
            is_header(data, p) implies !(p + CHECKSUM_START <= 0 < p + CHECKSUM_END) by {
            lemma_walked_range(data, 0, p);
        }
        assert(fixed_up(data, 0)[0] == data[0]);
    }
}

pub proof fn lemma_first_difference(a: Seq<OwnedEntryView>, b: Seq<OwnedEntryView>, i: int)
    requires
        0 <= i,
    ensures
        match first_difference(a, b, i) {
            Some(at) => i <= at < a.len() && at < b.len() && a[at] != b[at] && forall|j: int|
                i <= j < at ==> a[j] == b[j],
            None => forall|j: int| i <= j < a.len() && j < b.len() ==> a[j] == b[j],
        },
    decreases a.len() - i,
{
    if i < a.len() && i < b.len() && a[i] == b[i] {
        lemma_first_difference(a, b, i + 1);
    }
}

/// The readings agree exactly if the entries that both have read are the same, and tar-core has
/// read as many as the tar crate or was stopped by a check that is known to be stricter.
pub proof fn law_agreement(
    tar_rs: Seq<OwnedEntryView>,
    tar_core: Seq<OwnedEntryView>,
    error: Option<ParseErrorView>,
)
    ensures
        divergence(tar_rs, tar_core, error) is None <==> {
            &&& forall|i: int| 0 <= i < tar_rs.len() && i < tar_core.len() ==> tar_rs[i] == tar_core[i]
            &&& tar_rs.len() <= tar_core.len() || stopped_by_stricter_check(error)
        },
{
    lemma_first_difference(tar_rs, tar_core, 0);
}

/// Where the readings agree and no check that is known to be stricter stopped tar-core, the
/// entries of the tar crate are the first entries of tar-core: for every entry that the tar crate
/// read, tar-core read a matching one.
pub proof fn law_agreement_covers_every_entry(
    tar_rs: Seq<OwnedEntryView>,
    tar_core: Seq<OwnedEntryView>,
    error: Option<ParseErrorView>,
)
    requires
        divergence(tar_rs, tar_core, error) is None,
        !stopped_by_stricter_check(error),
    ensures
        tar_rs.is_prefix_of(tar_core),
{
    law_agreement(tar_rs, tar_core, error);
    assert(tar_rs =~= tar_core.subrange(0, tar_rs.len() as int));
}

/// A mismatch is reported at an index at which both readings have an entry, the entries differ, and
/// all entries before them are the same.
pub proof fn law_mismatch_is_the_first(
    tar_rs: Seq<OwnedEntryView>,
    tar_core: Seq<OwnedEntryView>,
    error: Option<ParseErrorView>,
    index: usize,
)
    requires
        tar_rs.len() <= usize::MAX,
        divergence(tar_rs, tar_core, error) == Some(Divergence::EntryMismatch { index }),
    ensures
        index < tar_rs.len(),
        index < tar_core.len(),
        tar_rs[index as int] != tar_core[index as int],
        forall|j: int| 0 <= j < index ==> tar_rs[j] == tar_core[j],
{
    lemma_first_difference(tar_rs, tar_core, 0);
}

/// Entries that tar-core reads beyond those of the tar crate are no divergence.
pub proof fn law_more_entries_are_accepted(
    tar_rs: Seq<OwnedEntryView>,
    more: Seq<OwnedEntryView>,
    error: Option<ParseErrorView>,
)
    ensures
        divergence(tar_rs, tar_rs + more, error) is None,
{
    law_agreement(tar_rs, tar_rs + more, error);
}

/// A reading that a check known to be stricter cut short is no divergence.
pub proof fn law_stricter_check_may_cut_short(
    tar_rs: Seq<OwnedEntryView>,
    n: int,
    error: Option<ParseErrorView>,
)
    requires
        0 <= n <= tar_rs.len(),
        stopped_by_stricter_check(error),
    ensures
        divergence(tar_rs, tar_rs.subrange(0, n), error) is None,
{
    law_agreement(tar_rs, tar_rs.subrange(0, n), error);
}

} // verus!
