//! Repair of header checksums, so that arbitrary bytes get past a reader's checksum gate.
use crate::bytes::{all_zero, is_all_zero};
use crate::fixup_laws::{is_repaired, is_walk, law_fixup_repairs_along_the_walk};
use crate::octal::{
    encode_checksum, law_octal_text_reads_back, lemma_octal_text_len, octal_field, octal_text,
    parse_octal_simple,
};
use vstd::arithmetic::power::pow;
use vstd::prelude::*;

verus! {

/// Size of a tar block in bytes; headers and padded content are made of whole blocks.
pub const HEADER_SIZE: usize = 512;

/// Where the size field of a header starts and ends.
pub const SIZE_START: usize = 124;

pub const SIZE_END: usize = 136;

/// Where the checksum field of a header starts and ends.
pub const CHECKSUM_START: usize = 148;

pub const CHECKSUM_END: usize = 156;

/// `size` rounded up to a whole number of blocks.
pub open spec fn padded(size: int) -> int {
    (size + (HEADER_SIZE - 1)) / (HEADER_SIZE as int) * HEADER_SIZE
}

/// The block of `data` at `offset`.
pub open spec fn block_at(data: Seq<u8>, offset: int) -> Seq<u8> {
    data.subrange(offset, offset + HEADER_SIZE)
}

/// The sum of the bytes of `s`.
pub open spec fn byte_sum(s: Seq<u8>) -> nat
    decreases s.len(),
{
    if s.len() == 0 {
        0
    } else {
        byte_sum(s.drop_last()) + s.last() as nat
    }
}

/// A header with its checksum field replaced.
pub open spec fn with_checksum_field(block: Seq<u8>, field: Seq<u8>) -> Seq<u8> {
    block.subrange(0, CHECKSUM_START as int) + field + block.subrange(
        CHECKSUM_END as int,
        block.len() as int,
    )
}

/// The checksum of a header: the sum of its bytes, with the checksum field taken as spaces.
pub open spec fn header_checksum(block: Seq<u8>) -> nat {
    byte_sum(with_checksum_field(block, Seq::new(8, |i: int| 0x20u8)))
}

/// A header with its checksum stored: seven octal digits and a NUL byte.
pub open spec fn sealed(block: Seq<u8>) -> Seq<u8> {
    with_checksum_field(block, octal_text(header_checksum(block), 7).push(0))
}

/// Whether the checksum that a header stores is the header's checksum.
pub open spec fn has_valid_checksum(block: Seq<u8>) -> bool {
    octal_field(block.subrange(CHECKSUM_START as int, CHECKSUM_END as int)) == Some(
        header_checksum(block) as u64,
    )
}

/// `data` with the block at `offset` replaced.
pub open spec fn replace_block(data: Seq<u8>, offset: int, block: Seq<u8>) -> Seq<u8> {
    data.subrange(0, offset) + block + data.subrange(offset + HEADER_SIZE, data.len() as int)
}

/// Where the block after the one at `offset` is looked for. Behind a zero block that is the next
/// block. Behind a header it is the block after the content that the size field announces; where
/// the field has no value, or the data ends before the content does, it is the next block.
pub open spec fn next_block(data: Seq<u8>, offset: int) -> int {
    let after = offset + HEADER_SIZE;
    if all_zero(block_at(data, offset)) {
        after
    } else {
        match octal_field(
            block_at(data, offset).subrange(SIZE_START as int, SIZE_END as int),
        ) {
            Some(size) => if after + padded(size as int) <= data.len() {
                after + padded(size as int)
            } else {
                after
            },
            None => after,
        }
    }
}

/// `data` after the walk over its blocks from `offset` on has sealed every header that it met.
pub open spec fn fixed_up(data: Seq<u8>, offset: int) -> Seq<u8>
    decreases data.len() - offset,
{
    if offset < 0 || offset + HEADER_SIZE > data.len() {
        data
    } else if all_zero(block_at(data, offset)) {
        fixed_up(data, next_block(data, offset))
    } else {
        proof {
            lemma_octal_text_len(header_checksum(block_at(data, offset)), 7);
        }
        fixed_up(
            replace_block(data, offset, sealed(block_at(data, offset))),
            next_block(data, offset),
        )
    }
}

/// `size` rounded up to a whole number of blocks, if that fits in 64 bits.
pub fn padded_size(size: u64) -> (r: Option<u64>)
    ensures
        r == (if padded(size as int) <= u64::MAX {
            Some(padded(size as int) as u64)
        } else {
            None
        }),
        match r {
            Some(n) => n % 512 == 0 && size <= n && n - size < 512,
            None => size > 0xffff_ffff_ffff_fe00,
        },
{
    match size.checked_add(511) {
        Some(sum) => Some(sum / 512 * 512),
        None => None,
    }
}

/// A header is as long sealed as it was before.
pub proof fn lemma_sealed_len(block: Seq<u8>)
    requires
        block.len() == HEADER_SIZE,
    ensures
        sealed(block).len() == HEADER_SIZE,
{
    lemma_octal_text_len(header_checksum(block), 7);
}

/// The bytes of a sequence add up to at most 255 each.
pub proof fn lemma_byte_sum_bound(s: Seq<u8>)
    ensures
        byte_sum(s) <= 255 * s.len(),
    decreases s.len(),
{
    if s.len() > 0 {
        lemma_byte_sum_bound(s.drop_last());
    }
}

/// The checksum of the header at `offset`.
pub(crate) fn compute_checksum(data: &[u8], offset: usize) -> (r: u64)
    requires
        offset + HEADER_SIZE <= data@.len(),
    ensures
        r == header_checksum(block_at(data@, offset as int)),
        r <= 255 * HEADER_SIZE,
{
    let ghost spaced = with_checksum_field(
        block_at(data@, offset as int),
        Seq::new(8, |i: int| 0x20u8),
    );
    let mut sum: u64 = 0;
    let mut i: usize = 0;
    assert(spaced.subrange(0, 0) =~= Seq::empty());
    while i < HEADER_SIZE
        invariant
            i <= HEADER_SIZE,
            offset + HEADER_SIZE <= data.len(),
            spaced.len() == HEADER_SIZE,
            forall|j: int|
                0 <= j < HEADER_SIZE ==> #[trigger] spaced[j] == (if CHECKSUM_START <= j
                    < CHECKSUM_END {
                    0x20u8
                } else {
                    data@[offset + j]
                }),
            sum == byte_sum(spaced.subrange(0, i as int)),
            sum <= 255 * i,
        decreases HEADER_SIZE - i,
    {
        let b: u8 = if CHECKSUM_START <= i && i < CHECKSUM_END {
            0x20
        } else {
            data[offset + i]
        };
        assert(spaced[i as int] == b);
        assert(spaced.subrange(0, i + 1).drop_last() =~= spaced.subrange(0, i as int));
        sum = sum + b as u64;
        i += 1;
    }
    assert(spaced.subrange(0, HEADER_SIZE as int) =~= spaced);
    sum
}

/// Store the checksum of the header at `offset` in its checksum field.
fn seal_header(data: &mut [u8], offset: usize)
    requires
        offset + HEADER_SIZE <= old(data)@.len(),
    ensures
        final(data)@ == replace_block(
            old(data)@,
            offset as int,
            sealed(block_at(old(data)@, offset as int)),
        ),
{
    let ghost before = data@;
    let checksum = compute_checksum(data, offset);
    let field = encode_checksum(checksum);
    let mut i: usize = 0;
    while i < 8
        invariant
            i <= 8,
            offset + HEADER_SIZE <= data.len(),
            data@.len() == before.len(),
            field@.len() == 8,
            forall|j: int|
                0 <= j < data@.len() ==> #[trigger] data@[j] == (if offset + CHECKSUM_START <= j
                    < offset + CHECKSUM_START + i {
                    field@[j - offset - CHECKSUM_START]
                } else {
                    before[j]
                }),
        decreases 8 - i,
    {
        data[offset + CHECKSUM_START + i] = field[i];
        i += 1;
    }
    proof {
        lemma_sealed_len(block_at(before, offset as int));
        assert(data@ =~= replace_block(
            before,
            offset as int,
            sealed(block_at(before, offset as int)),
        ));
    }
}

/// Give every header in fuzz input a valid checksum.
///
/// Walks through blocks of 512 bytes. For each block that is not zero (a potential header) it
/// computes the checksum and stores it. Then it reads the size field to step over the content
/// blocks to the next header.
///
/// With that, a reader gets past its checksum test and its deeper logic is exercised (PAX
/// extensions, GNU long names and links, sparse files).
pub fn fixup_checksums(data: &mut [u8])
    ensures
        final(data)@ == fixed_up(old(data)@, 0),
        forall|walk: Seq<int>| #[trigger]
            is_walk(old(data)@, walk) ==> is_repaired(old(data)@, walk, final(data)@),
{
    proof {
        assert forall|walk: Seq<int>| #[trigger] is_walk(data@, walk) implies is_repaired(
            data@,
            walk,
            fixed_up(data@, 0),
        ) by {
            law_fixup_repairs_along_the_walk(data@, walk);
        }
    }
    let ghost input = data@;
    let mut offset: usize = 0;
    while offset <= data.len() && HEADER_SIZE <= data.len() - offset
        invariant
            data@.len() == input.len(),
            fixed_up(data@, offset as int) == fixed_up(input, 0),
            offset <= data@.len(),
        decreases data.len() - offset,
    {
        let ghost before = data@;
        let ghost at = offset as int;
        if is_all_zero(&data[offset..offset + HEADER_SIZE]) {
            offset += HEADER_SIZE;
            continue;
        }
        let size = parse_octal_simple(&data[offset + SIZE_START..offset + SIZE_END]);
        assert(before.subrange(at + SIZE_START, at + SIZE_END) =~= block_at(before, at).subrange(
            SIZE_START as int,
            SIZE_END as int,
        ));
        seal_header(data, offset);
        proof {
            lemma_sealed_len(block_at(before, at));
        }
        offset += HEADER_SIZE;
        if let Some(size) = size {
            if let Some(skip) = padded_size(size) {
                if skip <= (data.len() - offset) as u64 {
                    offset += skip as usize;
                }
            }
        }
        assert(offset == next_block(before, at));
    }
}

/// Whether the walk over the blocks of `data` that starts at `from` looks at the block at `p`.
pub open spec fn is_walked(data: Seq<u8>, from: int, p: int) -> bool
    decreases data.len() - from,
{
    if from < 0 || from + HEADER_SIZE > data.len() {
        false
    } else {
        p == from || is_walked(data, next_block(data, from), p)
    }
}

/// Whether the walk over `data` from its start takes the block at `p` for a header.
pub open spec fn is_header(data: Seq<u8>, p: int) -> bool {
    is_walked(data, 0, p) && !all_zero(block_at(data, p))
}

/// Whether two inputs hold the same bytes from `from` on.
spec fn agree_from(a: Seq<u8>, b: Seq<u8>, from: int) -> bool {
    a.len() == b.len() && forall|j: int| from <= j < a.len() ==> a[j] == b[j]
}

/// A walked block lies within the data, at or behind the start of the walk.
pub proof fn lemma_walked_range(data: Seq<u8>, from: int, p: int)
    requires
        is_walked(data, from, p),
    ensures
        0 <= from <= p,
        p + HEADER_SIZE <= data.len(),
    decreases data.len() - from,
{
    if p != from {
        lemma_walked_range(data, next_block(data, from), p);
    }
}

/// Which blocks are walked depends on the bytes from the start of the walk on.
proof fn lemma_walk_depends_on_rest(a: Seq<u8>, b: Seq<u8>, from: int, p: int)
    requires
        agree_from(a, b, from),
    ensures
        is_walked(a, from, p) == is_walked(b, from, p),
    decreases a.len() - from,
{
    if from >= 0 && from + HEADER_SIZE <= a.len() {
        assert(block_at(a, from) =~= block_at(b, from));
        lemma_walk_depends_on_rest(a, b, next_block(a, from), p);
    }
}

/// Bytes before the start of the walk stay as they are, and so does the length.
proof fn lemma_fixed_up_keeps_front(data: Seq<u8>, from: int)
    ensures
        fixed_up(data, from).len() == data.len(),
        forall|j: int| 0 <= j < from && j < data.len() ==> fixed_up(data, from)[j] == data[j],
    decreases data.len() - from,
{
    if from >= 0 && from + HEADER_SIZE <= data.len() {
        let next = next_block(data, from);
        if all_zero(block_at(data, from)) {
            lemma_fixed_up_keeps_front(data, next);
        } else {
            lemma_sealed_len(block_at(data, from));
            let sealed_data = replace_block(data, from, sealed(block_at(data, from)));
            lemma_fixed_up_keeps_front(sealed_data, next);
            assert forall|j: int| 0 <= j < from implies fixed_up(data, from)[j] == data[j] by {
                assert(sealed_data[j] == data[j]);
            }
        }
    }
}

/// After the walk a walked block is sealed if it was a header, and as before if it was zero.
pub proof fn lemma_walked_block(data: Seq<u8>, from: int, p: int)
    requires
        is_walked(data, from, p),
    ensures
        block_at(fixed_up(data, from), p) == (if all_zero(block_at(data, p)) {
            block_at(data, p)
        } else {
            sealed(block_at(data, p))
        }),
    decreases data.len() - from,
{
    lemma_walked_range(data, from, p);
    let next = next_block(data, from);
    let block = block_at(data, from);
    if all_zero(block) {
        if p == from {
            lemma_fixed_up_keeps_front(data, next);
            assert(block_at(fixed_up(data, from), p) =~= block);
        } else {
            lemma_walked_block(data, next, p);
        }
    } else {
        lemma_sealed_len(block);
        let sealed_data = replace_block(data, from, sealed(block));
        if p == from {
            lemma_fixed_up_keeps_front(sealed_data, next);
            assert(block_at(fixed_up(data, from), p) =~= sealed(block)) by {
                assert forall|i: int| 0 <= i < HEADER_SIZE implies block_at(
                    fixed_up(data, from),
                    p,
                )[i] == sealed(block)[i] by {
                    assert(sealed_data[from + i] == sealed(block)[i]);
                }
            }
        } else {
            assert(agree_from(data, sealed_data, next));
            lemma_walk_depends_on_rest(data, sealed_data, next, p);
            lemma_walked_range(data, next, p);
            lemma_walked_block(sealed_data, next, p);
            assert(block_at(sealed_data, p) =~= block_at(data, p));
        }
    }
}

/// A byte that differs after the walk is in the checksum field of a walked header.
proof fn lemma_changed_byte(data: Seq<u8>, from: int, j: int)
    requires
        0 <= j < data.len(),
        fixed_up(data, from)[j] != data[j],
    ensures
        exists|p: int|
            #![trigger is_walked(data, from, p)]
            is_walked(data, from, p) && !all_zero(block_at(data, p)) && p + CHECKSUM_START <= j < p
                + CHECKSUM_END,
    decreases data.len() - from,
{
    if from >= 0 && from + HEADER_SIZE <= data.len() {
        let next = next_block(data, from);
        let block = block_at(data, from);
        if all_zero(block) {
            lemma_changed_byte(data, next, j);
            let p = choose|p: int|
                #![trigger is_walked(data, next, p)]
                is_walked(data, next, p) && !all_zero(block_at(data, p)) && p + CHECKSUM_START <= j
                    < p + CHECKSUM_END;
            assert(is_walked(data, from, p));
        } else {
            lemma_octal_text_len(header_checksum(block), 7);
            let sealed_data = replace_block(data, from, sealed(block));
            if from + CHECKSUM_START <= j < from + CHECKSUM_END {
                assert(is_walked(data, from, from));
            } else {
                assert(sealed_data[j] == data[j]);
                lemma_changed_byte(sealed_data, next, j);
                let p = choose|p: int|
                    #![trigger is_walked(sealed_data, next, p)]
                    is_walked(sealed_data, next, p) && !all_zero(block_at(sealed_data, p)) && p
                        + CHECKSUM_START <= j < p + CHECKSUM_END;
                assert(agree_from(data, sealed_data, next));
                lemma_walk_depends_on_rest(data, sealed_data, next, p);
                lemma_walked_range(sealed_data, next, p);
                assert(block_at(sealed_data, p) =~= block_at(data, p));
                assert(is_walked(data, from, p));
            }
        }
    }
}

/// Sealing a header leaves its checksum, its size field and the fact that it is not zero alone.
proof fn lemma_sealed_header(block: Seq<u8>)
    requires
        block.len() == HEADER_SIZE,
    ensures
        header_checksum(sealed(block)) == header_checksum(block),
        sealed(sealed(block)) == sealed(block),
        !all_zero(sealed(block)),
        sealed(block).subrange(SIZE_START as int, SIZE_END as int) == block.subrange(
            SIZE_START as int,
            SIZE_END as int,
        ),
        sealed(block).subrange(CHECKSUM_START as int, CHECKSUM_END as int) == octal_text(
            header_checksum(block),
            7,
        ).push(0),
        has_valid_checksum(sealed(block)),
{
    let spaces = Seq::new(8, |i: int| 0x20u8);
    let field = octal_text(header_checksum(block), 7).push(0);
    lemma_octal_text_len(header_checksum(block), 7);
    assert(with_checksum_field(sealed(block), spaces) =~= with_checksum_field(block, spaces));
    assert(with_checksum_field(sealed(block), field) =~= sealed(block));
    assert(sealed(block).subrange(CHECKSUM_START as int, CHECKSUM_END as int) =~= field);
    assert(sealed(block).subrange(SIZE_START as int, SIZE_END as int) =~= block.subrange(
        SIZE_START as int,
        SIZE_END as int,
    ));
    lemma_byte_sum_bound(with_checksum_field(block, spaces));
    assert(pow(8, 7) == 0o10000000) by {
        reveal(pow);
        reveal_with_fuel(pow, 8);
    }
    law_octal_text_reads_back(header_checksum(block), 7);
    assert(sealed(block)[CHECKSUM_START as int] == field[0]);
    assert(field[0] != 0) by {
        reveal_with_fuel(octal_text, 8);
    }
}

/// Repairing checksums neither lengthens nor shortens the data, and changes no byte outside the
/// checksum fields of the headers that the walk meets.
pub proof fn law_fixup_changes_checksum_fields_only(data: Seq<u8>)
    ensures
        fixed_up(data, 0).len() == data.len(),
        forall|j: int|
            0 <= j < data.len() && (forall|p: int|
                #![trigger is_header(data, p)]
                is_header(data, p) ==> !(p + CHECKSUM_START <= j < p + CHECKSUM_END))
                ==> #[trigger] fixed_up(data, 0)[j] == data[j],
{
    lemma_fixed_up_keeps_front(data, 0);
    assert forall|j: int|
        0 <= j < data.len() && (forall|p: int|
            #![trigger is_header(data, p)]
            is_header(data, p) ==> !(p + CHECKSUM_START <= j < p
                + CHECKSUM_END)) implies #[trigger] fixed_up(data, 0)[j] == data[j] by {
        if fixed_up(data, 0)[j] != data[j] {
            lemma_changed_byte(data, 0, j);
            let p = choose|p: int|
                #![trigger is_walked(data, 0, p)]
                is_walked(data, 0, p) && !all_zero(block_at(data, p)) && p + CHECKSUM_START <= j < p
                    + CHECKSUM_END;
            assert(is_header(data, p));
        }
    }
}

/// After the repair every header that the walk met stores its own checksum, and every zero block
/// that it met is still zero.
pub proof fn law_fixup_makes_checksums_valid(data: Seq<u8>, p: int)
    requires
        is_walked(data, 0, p),
    ensures
        is_header(data, p) ==> has_valid_checksum(block_at(fixed_up(data, 0), p)),
        !is_header(data, p) ==> all_zero(block_at(fixed_up(data, 0), p)),
{
    lemma_walked_block(data, 0, p);
    lemma_walked_range(data, 0, p);
    lemma_sealed_header(block_at(data, p));
}

proof fn lemma_fixup_is_idempotent(data: Seq<u8>, from: int)
    ensures
        fixed_up(fixed_up(data, from), from) == fixed_up(data, from),
    decreases data.len() - from,
{
    lemma_fixed_up_keeps_front(data, from);
    if from >= 0 && from + HEADER_SIZE <= data.len() {
        let result = fixed_up(data, from);
        let next = next_block(data, from);
        let block = block_at(data, from);
        assert(is_walked(data, from, from));
        lemma_walked_block(data, from, from);
        lemma_sealed_header(block);
        assert(next_block(result, from) == next);
        if all_zero(block) {
            lemma_fixup_is_idempotent(data, next);
        } else {
            lemma_sealed_len(block);
            lemma_fixup_is_idempotent(replace_block(data, from, sealed(block)), next);
            assert(replace_block(result, from, sealed(block)) =~= result) by {
                assert forall|i: int| 0 <= i < HEADER_SIZE implies result[from + i] == sealed(
                    block,
                )[i] by {
                    assert(block_at(result, from)[i] == sealed(block)[i]);
                }
            }
        }
    }
}

/// Repairing checksums a second time changes nothing.
pub proof fn law_fixup_is_idempotent(data: Seq<u8>)
    ensures
        fixed_up(fixed_up(data, 0), 0) == fixed_up(data, 0),
{
    lemma_fixup_is_idempotent(data, 0);
}

} // verus!
