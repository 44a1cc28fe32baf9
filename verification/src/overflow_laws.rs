//! When a sum of a reader overflows, said of the bytes and of what the tar crate reads in them.
use crate::bytes::{all_zero, lemma_before_nul_is_prefix};
use crate::core_event::Limits;
use crate::core_laws::event_at;
use crate::core_reader::{reading_fits, step};
use crate::core_sums::{nothing_pending, sums_fit, Pending};
use crate::differential::{overflowing_reader, Reader};
use crate::fixup::{block_at, padded};
use crate::fixup_laws::{
    are_digits, is_zero_block, lemma_octal_number, lemma_sum_is_checksum, octal_of, round_up,
    sum_of, written,
};
use crate::pax::{all_digits, decimal_number, decimal_value, size_record, tar_pax_extensions};
use crate::raw_header::{
    binary_number, core_checksum_holds, core_octal, core_size, is_extension, is_space,
    lemma_trim_end, lemma_trim_start,
};
use crate::rs_laws::{
    has_names, is_left_out_type, is_passed_over, is_sound, kept, lemma_has_names, lemma_item,
};
use crate::rs_reader::{ends_before, rs_reading_fits};
use crate::rs_sums::{
    behind_extension_blocks, behind_sparse, overflow_from, overflow_index, regions, Described,
    Sparse,
};
use crate::tar_archive::{tar_content, tar_entry_count, tar_size, PaxRecordView};
use crate::tar_header::{
    tar_cksum, tar_entry_size, tar_real_size, tar_region_length, tar_region_offset,
};
use vstd::prelude::*;

verus! {

/// Whether `b` is a space, a tab, a line feed, a vertical tab, a form feed or a carriage return.
pub open spec fn is_blank(b: u8) -> bool {
    b == 0x20 || b == 0x09 || b == 0x0a || b == 0x0b || b == 0x0c || b == 0x0d
}

/// Whether the text of a field, as tar-core reads it, goes from `a` to `b`: the field ends at `n`,
/// in front of its first NUL byte, and only blanks stand around the text.
pub open spec fn is_core_text(field: Seq<u8>, n: int, a: int, b: int) -> bool {
    &&& 0 <= a <= b <= n <= field.len()
    &&& forall|i: int| 0 <= i < n ==> field[i] != 0
    &&& n < field.len() ==> field[n] == 0
    &&& forall|i: int| 0 <= i < a ==> is_blank(#[trigger] field[i])
    &&& forall|i: int| b <= i < n ==> is_blank(#[trigger] field[i])
    &&& a < b ==> !is_blank(field[a]) && !is_blank(field[b - 1])
    &&& a == b ==> a == n
}

/// An octal field has, for tar-core, the number that its text is.
pub proof fn law_core_octal_is_its_text(field: Seq<u8>, n: int, a: int, b: int)
    requires
        is_core_text(field, n, a, b),
    ensures
        match octal_of(field.subrange(a, b)) {
            Some(v) => core_octal(field) matches Some(r) && r == v,
            None => core_octal(field) is None,
        },
{
    lemma_before_nul_is_prefix(field, n);
    let text = field.subrange(0, n);
    assert forall|i: int| 0 <= i < a implies is_space(#[trigger] text[i]) by {
        assert(is_blank(field[i]));
    }
    if a < n {
        assert(!is_space(text[a]));
    }
    lemma_trim_start(text, a);
    let rest = text.skip(a);
    assert forall|i: int| b - a <= i < rest.len() implies is_space(#[trigger] rest[i]) by {
        assert(is_blank(field[i + a]));
    }
    if b > a {
        assert(!is_space(rest[b - a - 1]));
    }
    lemma_trim_end(rest, b - a);
    assert(rest.take(b - a) =~= field.subrange(a, b));
    lemma_octal_number(field.subrange(a, b));
}

/// The number that bytes are, the most significant first.
pub open spec fn big_endian(bytes: Seq<u8>) -> int
    decreases bytes.len(),
{
    if bytes.len() == 0 {
        0
    } else {
        256 * big_endian(bytes.drop_last()) + bytes.last()
    }
}

/// The size that tar-core reads in a header: the last eight bytes of the field as a number, if the
/// first byte has its high bit set; else the octal number in the field.
pub proof fn law_core_size(header: Seq<u8>)
    requires
        header.len() == 512,
    ensures
        header[124] >= 128 ==> (core_size(header) matches Some(n) && n == big_endian(
            header.subrange(128, 136),
        )),
        header[124] < 128 ==> core_size(header) == core_octal(header.subrange(124, 136)),
{
    let s = header.subrange(128, 136);
    assert(s.drop_last() =~= header.subrange(128, 135));
    assert(header.subrange(128, 135).drop_last() =~= header.subrange(128, 134));
    assert(header.subrange(128, 134).drop_last() =~= header.subrange(128, 133));
    assert(header.subrange(128, 133).drop_last() =~= header.subrange(128, 132));
    assert(header.subrange(128, 132).drop_last() =~= header.subrange(128, 131));
    assert(header.subrange(128, 131).drop_last() =~= header.subrange(128, 130));
    assert(header.subrange(128, 130).drop_last() =~= header.subrange(128, 129));
    assert(header.subrange(128, 129).drop_last() =~= Seq::empty());
    reveal_with_fuel(big_endian, 9);
    assert(big_endian(s) == binary_number(header, 128));
}

/// tar-core accepts a header if and only if the number in its checksum field is the sum of its
/// bytes, with that field taken as spaces.
pub proof fn law_core_checksum(header: Seq<u8>)
    requires
        header.len() == 512,
    ensures
        core_checksum_holds(header) <==> (core_octal(header.subrange(148, 156)) matches Some(n) && n
            == sum_of(header, 0, 512)),
{
    lemma_sum_is_checksum(header, 0);
    assert(block_at(header, 0) =~= header);
}

/// The header at `o`.
pub open spec fn header_at(data: Seq<u8>, o: int) -> Seq<u8> {
    data.subrange(o, o + 512)
}

/// Whether a header is that of a long name, a long link or a PAX header, in a format that has them.
pub open spec fn describes_next(header: Seq<u8>) -> bool {
    has_names(header) && (header[156] == 0x4c || header[156] == 0x4b || header[156] == 0x78)
}

/// Whether tar-core has met a header with this type flag in front of the entry.
pub open spec fn was_met(pending: Pending, flag: u8) -> bool {
    (flag == 0x4c && pending.long_name) || (flag == 0x4b && pending.long_link) || (flag == 0x78
        && pending.pax)
}

/// How many headers tar-core has met in front of the entry.
pub open spec fn how_many(pending: Pending) -> int {
    let name: int = if pending.long_name {
        1
    } else {
        0
    };
    let link: int = if pending.long_link {
        1
    } else {
        0
    };
    let pax: int = if pending.pax {
        1
    } else {
        0
    };
    name + link + pax
}

/// Whether a name or link of `size` bytes at `start` is within the limit on paths; a NUL byte at
/// its end does not count.
pub open spec fn is_short_enough(
    limits: Limits,
    flag: u8,
    data: Seq<u8>,
    start: int,
    size: int,
) -> bool {
    flag == 0x78 || match limits.max_path_len {
        Some(limit) => size <= limit || (size == limit + 1 && data[start + size - 1] == 0),
        None => true,
    }
}

/// What tar-core has met behind one more header, with a new total.
pub open spec fn met_with(pending: Pending, flag: u8, total: int) -> Pending {
    Pending {
        long_name: pending.long_name || flag == 0x4c,
        long_link: pending.long_link || flag == 0x4b,
        pax: pending.pax || flag == 0x78,
        total: total as u64,
    }
}

/// tar-core looks at the header at `o`. It adds the size of a header that describes the next entry
/// to the total, unless it rejects the header before, and the sum must be below 2^64; it goes on
/// behind the content of the header, unless a limit or the end of the data stops it. It steps over
/// a zero block that no other follows.
pub proof fn law_core_sums_step(limits: Limits, data: Seq<u8>, o: int, pending: Pending)
    requires
        0 <= o,
    ensures
        ({
            let fits = sums_fit(limits, data, o, pending);
            let header = header_at(data, o);
            if o + 512 > data.len() {
                fits
            } else if is_zero_block(data, o) {
                if o + 1024 > data.len() || is_zero_block(data, o + 512) {
                    fits
                } else {
                    fits == sums_fit(limits, data, o + 512, pending)
                }
            } else if how_many(pending) > limits.max_pending_entries || !core_checksum_holds(header)
                || !describes_next(header) || was_met(pending, header[156]) || core_size(
                header,
            ) is None {
                fits
            } else {
                let size = core_size(header)->0 as int;
                let next = o + 512 + round_up(size);
                if size > 0xffff_ffff_ffff_fe00 {
                    fits
                } else if pending.total + size >= 0x1_0000_0000_0000_0000 {
                    !fits
                } else if pending.total + size > limits.max_metadata_size || next > data.len()
                    || !is_short_enough(limits, header[156], data, o + 512, size) {
                    fits
                } else {
                    fits == sums_fit(
                        limits,
                        data,
                        next,
                        met_with(pending, header[156], pending.total + size),
                    )
                }
            }
        }),
{
    let header = header_at(data, o);
    if o + 512 <= data.len() {
        assert(header =~= block_at(data, o));
        lemma_zero(data, o);
        if o + 1024 <= data.len() {
            lemma_zero(data, o + 512);
        }
        lemma_has_names(header);
        assert(describes_next(header) == is_extension(header));
        if !all_zero(header) && core_size(header) is Some {
            let size = core_size(header)->0;
            let total = pending.total + size;
            if describes_next(header) {
                assert(crate::core_sums::with_pending(pending, header[156], total as u64)
                    == met_with(pending, header[156], total));
                assert(is_short_enough(limits, header[156], data, o + 512, size as int)
                    == crate::core_sums::keeps_path_limit(
                    limits,
                    header[156],
                    data,
                    o + 512,
                    size as int,
                ));
                assert(was_met(pending, header[156]) == crate::core_sums::is_pending(
                    pending,
                    header[156],
                ));
            }
            assert(how_many(pending) == crate::core_sums::pending_count(pending));
            assert(round_up(size as int) == padded(size as int));
        }
    }
}

proof fn lemma_zero(data: Seq<u8>, o: int)
    requires
        0 <= o,
        o + 512 <= data.len(),
    ensures
        is_zero_block(data, o) == all_zero(block_at(data, o)),
{
    let block = block_at(data, o);
    if is_zero_block(data, o) {
        assert forall|i: int| 0 <= i < block.len() implies block[i] == 0 by {
            assert(block[i] == data[o + i]);
        }
    } else {
        let i = choose|i: int| o <= i < o + 512 && data[i] != 0;
        assert(block[i - o] != 0);
    }
}

/// Nothing is met in front of the first header.
pub proof fn law_nothing_is_pending_at_first()
    ensures
        how_many(nothing_pending()) == 0,
        nothing_pending().total == 0,
{
}

/// Reading with tar-core overflows no sum if looking for an entry at `offset` overflows none, and
/// reading from where it goes on behind that entry overflows none.
pub proof fn law_core_reading_fits(limits: Limits, data: Seq<u8>, offset: int)
    requires
        0 <= offset <= data.len(),
    ensures
        reading_fits(limits, data, offset) <==> sums_fit(
            limits,
            data.subrange(offset, data.len() as int),
            0,
            nothing_pending(),
        ) && match event_at(limits, data, offset) {
            Ok(event) => match step(data, offset, event).next {
                Some(next) => offset < next <= data.len() ==> reading_fits(limits, data, next),
                None => true,
            },
            Err(_) => true,
        },
{
    assert(data.skip(offset) =~= data.subrange(offset, data.len() as int));
}

/// The decimal number that a text is: digits, one at least, with or without a plus sign, for a
/// number below 2^64.
pub open spec fn decimal_of(text: Seq<u8>) -> Option<int> {
    let digits = if text.len() > 0 && text[0] == 0x2b {
        text.skip(1)
    } else {
        text
    };
    if digits.len() > 0 && are_digits(digits, 10) && written(digits, 10) <= 0xffff_ffff_ffff_ffff {
        Some(written(digits, 10))
    } else {
        None
    }
}

proof fn lemma_written_decimal(digits: Seq<u8>)
    requires
        are_digits(digits, 10),
    ensures
        written(digits, 10) == decimal_value(digits),
        all_digits(digits),
    decreases digits.len(),
{
    assert forall|i: int| 0 <= i < digits.len() implies 0x30 <= #[trigger] digits[i] <= 0x39 by {
        assert(0x30 <= digits[i] < 0x3a);
    }
    if digits.len() > 0 {
        let front = digits.drop_last();
        assert(0x30 <= digits[digits.len() - 1]);
        assert forall|i: int| 0 <= i < front.len() implies 0x30 <= #[trigger] front[i] < 0x3a by {
            assert(0x30 <= digits[i] < 0x3a);
        }
        lemma_written_decimal(front);
    }
}

/// A decimal number is what its text says.
pub proof fn law_decimal_number_is_its_text(text: Seq<u8>)
    ensures
        match decimal_of(text) {
            Some(v) => decimal_number(text) matches Some(r) && r == v,
            None => decimal_number(text) is None,
        },
{
    let digits = if text.len() > 0 && text[0] == 0x2b {
        text.skip(1)
    } else {
        text
    };
    if are_digits(digits, 10) {
        lemma_written_decimal(digits);
    } else {
        let i = choose|i: int| 0 <= i < digits.len() && !(0x30 <= #[trigger] digits[i] < 0x3a);
        assert(!all_digits(digits));
    }
}

/// Whether a record has the key `size`.
pub open spec fn is_size_record(record: PaxRecordView) -> bool {
    record matches Some((key, _)) && key == seq![0x73u8, 0x69, 0x7a, 0x65]
}

/// The size that records set is the number in the first one with the key `size`, if no malformed
/// one stands before it; else they set none.
pub proof fn law_first_size_record_counts(records: Seq<PaxRecordView>, k: int)
    requires
        0 <= k <= records.len(),
        forall|i: int| 0 <= i < k ==> (#[trigger] records[i]) is Some && !is_size_record(records[i]),
        k < records.len() ==> records[k] is None || is_size_record(records[k]),
    ensures
        k < records.len() && records[k] is Some ==> size_record(records) == decimal_number(
            (records[k]->0).1,
        ),
        k == records.len() || records[k] is None ==> size_record(records) is None,
    decreases records.len(),
{
    assert(crate::pax::PAX_SIZE@ =~= seq![0x73u8, 0x69, 0x7a, 0x65]);
    if k > 0 {
        let rest = records.skip(1);
        assert(records[0] is Some && !is_size_record(records[0]));
        assert forall|i: int| 0 <= i < k - 1 implies (#[trigger] rest[i]) is Some
            && !is_size_record(rest[i]) by {
            assert(rest[i] == records[i + 1]);
        }
        law_first_size_record_counts(rest, k - 1);
    }
}

/// The tar crate goes through the regions of a sparse entry one by one. It skips those whose fields
/// are blank. It rejects one that is malformed, that starts before the last one has ended or behind
/// a part that is no whole number of blocks, whose end is at 2^64 or more, or that takes more bytes
/// than are left.
pub proof fn law_regions_step(
    data: Seq<u8>,
    at: int,
    n: nat,
    size: u64,
    cur: u64,
    remaining: u64,
)
    ensures
        n == 0 ==> regions(data, at, n, size, cur, remaining) == Some((cur, remaining)),
        n > 0 ==> regions(data, at, n, size, cur, remaining) == ({
            let region = data.subrange(at, at + 24);
            if data[at] == 0 || data[at + 12] == 0 {
                regions(data, at + 24, (n - 1) as nat, size, cur, remaining)
            } else if tar_region_offset(region) is None || tar_region_length(region) is None {
                None
            } else {
                let offset = tar_region_offset(region)->0;
                let len = tar_region_length(region)->0;
                if offset < cur || offset + len > 0xffff_ffff_ffff_ffff || len > remaining || (len
                    > 0 && (size - remaining) % 512 != 0) {
                    None
                } else {
                    regions(
                        data,
                        at + 24,
                        (n - 1) as nat,
                        size,
                        (offset + len) as u64,
                        (remaining - len) as u64,
                    )
                }
            }
        }),
{
}

/// The tar crate moves the position of the next header on by one block for each extension block of
/// a sparse header, without a test; the data has to hold the block, its 21 regions are gone
/// through, and its byte 504 says whether another one follows.
pub proof fn law_extension_blocks_step(
    data: Seq<u8>,
    at: int,
    size: u64,
    cur: u64,
    remaining: u64,
    next: u64,
)
    requires
        0 <= at,
    ensures
        behind_extension_blocks(data, at, size, cur, remaining, next) == ({
            let listed = regions(data, at, 21, size, cur, remaining);
            if at + 512 > data.len() {
                Sparse::Rejected
            } else if next > 0xffff_ffff_ffff_fdff {
                Sparse::Overflow
            } else if listed is None {
                Sparse::Rejected
            } else if data[at + 504] == 1 {
                behind_extension_blocks(
                    data,
                    at + 512,
                    size,
                    (listed->0).0,
                    (listed->0).1,
                    (next + 512) as u64,
                )
            } else {
                Sparse::Listed((next + 512) as u64, (listed->0).0, (listed->0).1)
            }
        }),
{
}

/// A sparse header lists four regions itself, and its byte 482 says whether extension blocks
/// follow. It is accepted if the regions end where the header says that the entry ends and leave
/// no stored bytes.
pub proof fn law_sparse_header(data: Seq<u8>, o: int, size: u64, next: u64)
    requires
        0 <= o,
        o + 512 <= data.len(),
    ensures
        ({
            let listed = regions(data, o + 386, 4, size, 0, size);
            let behind = behind_sparse(data, o, size, next);
            let all = if data[o + 482] == 1 {
                behind_extension_blocks(data, o + 512, size, (listed->0).0, (listed->0).1, next)
            } else {
                Sparse::Listed(next, (listed->0).0, (listed->0).1)
            };
            if listed is None {
                behind == Sparse::Rejected
            } else {
                match all {
                    Sparse::Listed(_, end, left) => if left == 0 && tar_real_size(
                        header_at(data, o),
                    ) == Some(end) {
                        behind == all
                    } else {
                        behind == Sparse::Rejected
                    },
                    _ => behind == all,
                }
            }
        }),
{
    assert(header_at(data, o) =~= block_at(data, o));
}

/// Whether the tar crate has met a header with this type flag in front of the entry.
pub open spec fn was_described(described: Described, flag: u8) -> bool {
    (flag == 0x4c && described.long_name) || (flag == 0x4b && described.long_link) || (flag == 0x78
        && described.pax is Some)
}

/// Whether the tar crate accepts the header at `o`: it is not zero, its checksum is the sum of its
/// bytes, and its size can be read.
pub open spec fn is_accepted(data: Seq<u8>, o: int) -> bool {
    let header = header_at(data, o);
    &&& !is_zero_block(data, o)
    &&& tar_cksum(header) matches Some(sum) && sum == sum_of(data, o, 512)
    &&& tar_entry_size(header) is Some
}

/// What the tar crate has met behind one more header with the given content.
pub open spec fn described_with(before: Described, flag: u8, content: Seq<u8>) -> Described {
    Described {
        long_name: before.long_name || flag == 0x4c,
        long_link: before.long_link || flag == 0x4b,
        pax: if flag == 0x78 {
            Some(size_record(tar_pax_extensions(content)))
        } else {
            before.pax
        },
    }
}

/// Nothing was met.
pub open spec fn none_described() -> Described {
    Described { long_name: false, long_link: false, pax: None }
}

/// The size that counts for the header at `o`: the one that a PAX header in front of it sets, unless
/// the header describes other entries itself; else its own.
pub open spec fn size_at(data: Seq<u8>, o: int, described: Described) -> int {
    let own = tar_entry_size(header_at(data, o))->0;
    match described.pax {
        Some(Some(set)) => if is_left_out_type(data[o + 156]) {
            own as int
        } else {
            set as int
        },
        _ => own as int,
    }
}

/// The tar crate looks at the header at `o`. It ends at a header that it does not accept. It goes
/// from a header that describes the next entry to the one behind its content. Any other header is
/// an entry; the next header is behind its content, and for a sparse entry behind its extension
/// blocks too, where a sum can overflow.
pub proof fn law_rs_walk_step(data: Seq<u8>, o: int, described: Described, index: int)
    requires
        0 <= o,
    ensures
        ({
            let found = overflow_from(data, o, described, index);
            let header = header_at(data, o);
            let size = size_at(data, o, described);
            let next = o + 512 + round_up(size);
            if o + 512 > data.len() || !is_accepted(data, o) {
                found is None
            } else if describes_next(header) {
                let own = tar_entry_size(header)->0 as int;
                let behind = o + 512 + round_up(own);
                if was_described(described, header[156]) || behind > data.len() {
                    found is None
                } else {
                    found == overflow_from(
                        data,
                        behind,
                        described_with(
                            described,
                            header[156],
                            data.subrange(o + 512, o + 512 + own),
                        ),
                        index,
                    )
                }
            } else if next > 0xffff_ffff_ffff_ffff {
                found is None
            } else if header[156] != 0x53 {
                if next > data.len() {
                    found is None
                } else {
                    found == overflow_from(data, next, none_described(), index + 1)
                }
            } else if !(has_names(header) && header[262] == 0x20) {
                found is None
            } else {
                match behind_sparse(data, o, size as u64, next as u64) {
                    Sparse::Overflow => found == Some(index),
                    Sparse::Rejected => found is None,
                    Sparse::Listed(behind, _, _) => if behind > data.len() {
                        found is None
                    } else {
                        found == overflow_from(data, behind as int, none_described(), index + 1)
                    },
                }
            }
        }),
{
    let header = header_at(data, o);
    if o + 512 <= data.len() {
        assert(header =~= block_at(data, o));
        lemma_zero(data, o);
        lemma_has_names(header);
        lemma_gnu(header);
        lemma_sum_is_checksum(data, o);
        assert(describes_next(header) == is_extension(header));
        if tar_entry_size(header) is Some {
            let own = tar_entry_size(header)->0;
            assert(data[o + 156] == header[156]);
            assert(size_at(data, o, described) == crate::rs_sums::effective_size(
                header,
                own,
                described,
            ));
            assert(round_up(own as int) == padded(own as int));
            assert(round_up(size_at(data, o, described)) == padded(size_at(data, o, described)));
            if describes_next(header) {
                let content = data.subrange(o + 512, o + 512 + own);
                assert(crate::rs_sums::is_described(described, header[156]) == was_described(
                    described,
                    header[156],
                ));
                assert(crate::rs_sums::with_described(described, header[156], content)
                    == described_with(described, header[156], content));
            }
        }
        assert(is_accepted(data, o) == (!all_zero(header) && crate::rs_sums::rs_checksum_holds(
            header,
        ) && tar_entry_size(header) is Some));
    }
}

proof fn lemma_gnu(header: Seq<u8>)
    requires
        header.len() == 512,
    ensures
        (has_names(header) && header[262] == 0x20) == crate::raw_header::has_gnu_magic(header),
{
    let found = header.subrange(257, 265);
    let gnu = seq![0x75u8, 0x73, 0x74, 0x61, 0x72, 0x20, 0x20, 0x00];
    assert(crate::raw_header::GNU_MAGIC@ =~= gnu);
    assert(forall|i: int| 0 <= i < 8 ==> #[trigger] found[i] == header[257 + i]);
    if has_names(header) && header[262] == 0x20 {
        assert(found =~= gnu);
    }
    if crate::raw_header::has_gnu_magic(header) {
        assert(found[0] == 0x75 && found[1] == 0x73 && found[2] == 0x74 && found[3] == 0x61
            && found[4] == 0x72 && found[5] == 0x20 && found[6] == 0x20 && found[7] == 0);
    }
}

/// The walk of the tar crate starts at the first header, with nothing met, at the first entry.
pub proof fn law_rs_walk_starts(data: Seq<u8>)
    ensures
        overflow_index(data) == overflow_from(data, 0, none_described(), 0),
{
}

/// Reading with the tar crate overflows no sum if and only if its walk overflows none, or reading
/// ends at an item before the one at which it does: the items have run out, an item is an error or
/// has a malformed number, or it is an entry without its content.
pub proof fn law_rs_reading_fits(data: Seq<u8>, i: int, k: int)
    requires
        0 <= i,
    ensures
        overflow_index(data) is None ==> rs_reading_fits(data),
        overflow_index(data) == Some(k) ==> rs_reading_fits(data) == ends_before(data, 0, k),
        ends_before(data, i, k) <==> i < k && (i >= tar_entry_count(data) || !is_sound(data, i) || (
        !is_passed_over(data, i) && tar_content(data, i, 262144).len() != kept(tar_size(data, i)))
            || ends_before(data, i + 1, k)),
{
    lemma_item(data, i);
}

/// The tar crate reads first: an overflow in it is told before one in tar-core, and one in tar-core
/// under the widest limits.
pub proof fn law_overflowing_reader(data: Seq<u8>)
    ensures
        ({
            let limits = Limits {
                max_metadata_size: 0xffff_ffff,
                max_path_len: None,
                max_pending_entries: usize::MAX,
                max_sparse_entries: 1_000_000,
            };
            overflowing_reader(data) == (if !rs_reading_fits(data) {
                Some(Reader::TarRs)
            } else if !reading_fits(limits, data, 0) {
                Some(Reader::TarCore)
            } else {
                None
            })
        }),
{
}

} // verus!
