//! What repairing checksums is for, said of the bytes alone.
//!
//! A tar archive is a row of blocks of 512 bytes. A header announces the size of its content in the
//! twelve bytes at 124, and stores the sum of its bytes in the eight bytes at 148.
use crate::bytes::all_zero;
use crate::differential::examined;
use crate::fixup::{
    block_at, byte_sum, fixed_up, header_checksum, is_header, is_walked,
    law_fixup_changes_checksum_fields_only, lemma_byte_sum_bound, lemma_walked_block, next_block,
    sealed, with_checksum_field,
};
use crate::octal::{
    all_octal_digits, is_octal_digit, lemma_after_spaces,
    lemma_before_terminator, lemma_octal_text, octal_field, octal_number, octal_text, octal_value,
};
use vstd::arithmetic::power::pow;
use vstd::prelude::*;

verus! {

/// The number that digits write in the given base, the most significant first.
pub open spec fn written(digits: Seq<u8>, base: int) -> int
    decreases digits.len(),
{
    if digits.len() == 0 {
        0
    } else {
        base * written(digits.drop_last(), base) + (digits.last() - 0x30)
    }
}

/// Whether the text of a field goes from `a` to `b`: only spaces stand before it, and it ends at
/// the end of the field or in front of a space or a NUL byte.
pub open spec fn is_text(field: Seq<u8>, a: int, b: int) -> bool {
    &&& 0 <= a <= b <= field.len()
    &&& forall|i: int| 0 <= i < a ==> field[i] == 0x20
    &&& a < field.len() ==> field[a] != 0x20
    &&& forall|i: int| a <= i < b ==> field[i] != 0x20 && field[i] != 0
    &&& b < field.len() ==> field[b] == 0x20 || field[b] == 0
}

/// Whether every byte is a digit of the given base, which is at most ten.
pub open spec fn are_digits(s: Seq<u8>, base: int) -> bool {
    forall|i: int| 0 <= i < s.len() ==> 0x30 <= #[trigger] s[i] < 0x30 + base
}

/// The octal number that a text is: zero for no text; otherwise digits from `0` to `7`, one at
/// least, with or without a plus sign, for a number below 2^64.
pub open spec fn octal_of(text: Seq<u8>) -> Option<int> {
    let digits = if text.len() > 0 && text[0] == 0x2b {
        text.skip(1)
    } else {
        text
    };
    if text.len() == 0 {
        Some(0)
    } else if digits.len() > 0 && are_digits(digits, 8) && written(digits, 8)
        <= 0xffff_ffff_ffff_ffff {
        Some(written(digits, 8))
    } else {
        None
    }
}

proof fn lemma_written_octal(digits: Seq<u8>)
    requires
        all_octal_digits(digits),
    ensures
        written(digits, 8) == octal_value(digits),
    decreases digits.len(),
{
    if digits.len() > 0 {
        let front = digits.drop_last();
        assert(is_octal_digit(digits[digits.len() - 1]));
        assert forall|i: int| 0 <= i < front.len() implies is_octal_digit(#[trigger] front[i]) by {
            assert(is_octal_digit(digits[i]));
        }
        lemma_written_octal(front);
    }
}

pub proof fn lemma_octal_digits(value: nat)
    requires
        value < 0o10000000,
    ensures
        are_digits(octal_text(value, 7), 8),
        written(octal_text(value, 7), 8) == value,
{
    assert(pow(8, 7) == 0o10000000) by {
        reveal(pow);
        reveal_with_fuel(pow, 8);
    }
    lemma_octal_text(value, 7);
    let digits = octal_text(value, 7);
    lemma_written_octal(digits);
    assert forall|i: int| 0 <= i < digits.len() implies 0x30 <= #[trigger] digits[i] < 0x38 by {
        assert(is_octal_digit(digits[i]));
    }
}

pub proof fn lemma_octal_number(text: Seq<u8>)
    ensures
        text.len() > 0 ==> match octal_of(text) {
            Some(n) => octal_number(text) matches Some(r) && r == n,
            None => octal_number(text) is None,
        },
{
    let digits = if text.len() > 0 && text[0] == 0x2b {
        text.skip(1)
    } else {
        text
    };
    if are_digits(digits, 8) {
        assert forall|i: int| 0 <= i < digits.len() implies is_octal_digit(#[trigger] digits[i]) by {
            assert(0x30 <= digits[i] < 0x38);
        }
        lemma_written_octal(digits);
    } else {
        let i = choose|i: int| 0 <= i < digits.len() && !(0x30 <= #[trigger] digits[i] < 0x38);
        assert(!is_octal_digit(digits[i]));
        assert(!all_octal_digits(digits));
    }
}

/// An octal field has the number that its text is.
pub proof fn law_octal_field_is_its_text(field: Seq<u8>, a: int, b: int)
    requires
        is_text(field, a, b),
    ensures
        match octal_of(field.subrange(a, b)) {
            Some(n) => octal_field(field) matches Some(r) && r == n,
            None => octal_field(field) is None,
        },
{
    let text = field.subrange(a, b);
    lemma_after_spaces(field, a);
    let rest = field.skip(a);
    lemma_before_terminator(rest, b - a);
    assert(rest.subrange(0, b - a) =~= text);
    lemma_octal_number(text);
}

/// `n` rounded up to whole blocks.
pub open spec fn round_up(n: int) -> int {
    (n + 511) / 512 * 512
}

/// Whether the block at `p` is all zero.
pub open spec fn is_zero_block(data: Seq<u8>, p: int) -> bool {
    forall|i: int| p <= i < p + 512 ==> data[i] == 0
}

/// Whether the header at `p` announces content of `size` bytes, or no size that can be read.
pub open spec fn announces(data: Seq<u8>, p: int, size: Option<int>) -> bool {
    let field = data.subrange(p + 124, p + 136);
    exists|a: int, b: int|
        #![trigger is_text(field, a, b)]
        is_text(field, a, b) && size == octal_of(field.subrange(a, b))
}

/// Where the block behind the header at `p` is looked for, if the header announces `size`.
pub open spec fn behind_content(data: Seq<u8>, p: int, size: Option<int>) -> int {
    match size {
        Some(n) => if p + 512 + round_up(n) <= data.len() {
            p + 512 + round_up(n)
        } else {
            p + 512
        },
        None => p + 512,
    }
}

/// Whether the block behind the one at `p` is looked for at `q`: right behind a zero block; behind
/// the content of a header, if the data holds all of it; else right behind the header.
pub open spec fn goes_on(data: Seq<u8>, p: int, q: int) -> bool {
    if is_zero_block(data, p) {
        q == p + 512
    } else {
        exists|size: Option<int>|
            #![trigger announces(data, p, size)]
            announces(data, p, size) && q == behind_content(data, p, size)
    }
}

/// Whether `walk` goes on rightly behind its place with index `i`.
pub open spec fn is_step(data: Seq<u8>, walk: Seq<int>, i: int) -> bool {
    walk[i] + 512 <= data.len() && goes_on(data, walk[i], walk[i + 1])
}

/// Whether `walk` leads over the blocks of `data` from its start, ending where no block is left.
pub open spec fn is_walk(data: Seq<u8>, walk: Seq<int>) -> bool {
    &&& walk.len() > 0
    &&& walk[0] == 0
    &&& walk.last() + 512 > data.len()
    &&& forall|i: int| 0 <= i < walk.len() - 1 ==> #[trigger] is_step(data, walk, i)
}

/// The sum of the first `n` bytes of the header at `p`, with the checksum field taken as spaces.
pub open spec fn sum_of(data: Seq<u8>, p: int, n: int) -> int
    decreases n,
{
    if n <= 0 {
        0
    } else {
        sum_of(data, p, n - 1) + (if 148 <= n - 1 < 156 {
            32
        } else {
            data[p + n - 1] as int
        })
    }
}

/// Whether the header at `p` stores `sum`: seven octal digits and a NUL byte.
pub open spec fn stores(data: Seq<u8>, p: int, sum: int) -> bool {
    &&& forall|i: int| p + 148 <= i < p + 155 ==> 0x30 <= #[trigger] data[i] <= 0x37
    &&& written(data.subrange(p + 148, p + 155), 8) == sum
    &&& data[p + 155] == 0
}

/// Whether the byte at `j` is in no checksum field of a header on the walk.
pub open spec fn is_outside(data: Seq<u8>, walk: Seq<int>, j: int) -> bool {
    forall|i: int|
        0 <= i < walk.len() - 1 && !is_zero_block(data, #[trigger] walk[i]) ==> !(walk[i] + 148 <= j
            < walk[i] + 156)
}

/// Whether `result` is `data` with its checksums repaired along `walk`: each block that is not zero
/// stores the sum of its bytes, and nothing else has changed; the content that a header announces
/// has not, in particular.
pub open spec fn is_repaired(data: Seq<u8>, walk: Seq<int>, result: Seq<u8>) -> bool {
    &&& result.len() == data.len()
    &&& forall|i: int|
        0 <= i < walk.len() - 1 && !is_zero_block(data, #[trigger] walk[i]) ==> stores(
            result,
            walk[i],
            sum_of(data, walk[i], 512),
        ) && sum_of(result, walk[i], 512) == sum_of(data, walk[i], 512)
    &&& forall|j: int|
        0 <= j < data.len() && is_outside(data, walk, j) ==> #[trigger] result[j] == data[j]
    &&& forall|i: int, j: int|
        #![trigger walk[i], result[j]]
        0 <= i < walk.len() - 1 && walk[i] + 156 <= j < walk[i + 1] && j < data.len() ==> result[j]
            == data[j]
}

proof fn lemma_text_start(field: Seq<u8>, a: int) -> (r: int)
    requires
        0 <= a <= field.len(),
        forall|i: int| 0 <= i < a ==> field[i] == 0x20,
    ensures
        a <= r <= field.len(),
        forall|i: int| 0 <= i < r ==> field[i] == 0x20,
        r < field.len() ==> field[r] != 0x20,
    decreases field.len() - a,
{
    if a < field.len() && field[a] == 0x20 {
        lemma_text_start(field, a + 1)
    } else {
        a
    }
}

proof fn lemma_text_end(field: Seq<u8>, a: int, b: int) -> (r: int)
    requires
        0 <= a <= b <= field.len(),
        forall|i: int| a <= i < b ==> field[i] != 0x20 && field[i] != 0,
    ensures
        b <= r <= field.len(),
        forall|i: int| a <= i < r ==> field[i] != 0x20 && field[i] != 0,
        r < field.len() ==> field[r] == 0x20 || field[r] == 0,
    decreases field.len() - b,
{
    if b < field.len() && field[b] != 0x20 && field[b] != 0 {
        lemma_text_end(field, a, b + 1)
    } else {
        b
    }
}

proof fn lemma_goes_on_somewhere(data: Seq<u8>, p: int) -> (q: int)
    requires
        0 <= p,
        p + 512 <= data.len(),
    ensures
        goes_on(data, p, q),
        p + 512 <= q <= data.len(),
{
    if is_zero_block(data, p) {
        p + 512
    } else {
        let field = data.subrange(p + 124, p + 136);
        let a = lemma_text_start(field, 0);
        let b = lemma_text_end(field, a, a);
        assert(is_text(field, a, b));
        let size = octal_of(field.subrange(a, b));
        assert(announces(data, p, size));
        law_octal_field_is_its_text(field, a, b);
        behind_content(data, p, size)
    }
}

proof fn lemma_walk_on(data: Seq<u8>, walk: Seq<int>) -> (r: Seq<int>)
    requires
        walk.len() > 0,
        walk[0] == 0,
        0 <= walk.last() <= data.len(),
        forall|i: int| 0 <= i < walk.len() - 1 ==> #[trigger] is_step(data, walk, i),
    ensures
        is_walk(data, r),
    decreases data.len() - walk.last(),
{
    let p = walk.last();
    if p + 512 > data.len() {
        walk
    } else {
        let q = lemma_goes_on_somewhere(data, p);
        let longer = walk.push(q);
        assert forall|i: int| 0 <= i < longer.len() - 1 implies #[trigger] is_step(data, longer, i) by {
            if i < walk.len() - 1 {
                assert(is_step(data, walk, i));
            }
        }
        lemma_walk_on(data, longer)
    }
}

/// There is a walk over any data.
pub proof fn law_there_is_a_walk(data: Seq<u8>) -> (walk: Seq<int>)
    ensures
        is_walk(data, walk),
{
    lemma_walk_on(data, seq![0int])
}

proof fn lemma_goes_on(data: Seq<u8>, p: int, q: int)
    requires
        0 <= p,
        p + 512 <= data.len(),
        goes_on(data, p, q),
    ensures
        q == next_block(data, p),
        q >= p + 512,
        is_zero_block(data, p) == all_zero(block_at(data, p)),
{
    let block = block_at(data, p);
    if is_zero_block(data, p) {
        assert forall|i: int| 0 <= i < block.len() implies block[i] == 0 by {
            assert(block[i] == data[p + i]);
        }
    } else {
        let i = choose|i: int| p <= i < p + 512 && data[i] != 0;
        assert(block[i - p] != 0);
        let field = data.subrange(p + 124, p + 136);
        assert(block.subrange(124, 136) =~= field);
        let size = choose|size: Option<int>|
            #![trigger announces(data, p, size)]
            announces(data, p, size) && q == behind_content(data, p, size);
        let (a, b) = choose|a: int, b: int|
            #![trigger is_text(field, a, b)]
            is_text(field, a, b) && size == octal_of(field.subrange(a, b));
        law_octal_field_is_its_text(field, a, b);
    }
}

proof fn lemma_walk(data: Seq<u8>, walk: Seq<int>, k: int)
    requires
        is_walk(data, walk),
        0 <= k < walk.len(),
    ensures
        walk[k] >= 512 * k,
        k < walk.len() - 1 ==> is_walked(data, 0, walk[k]),
        forall|p: int| #[trigger]
            is_walked(data, 0, p) ==> is_walked(data, walk[k], p) || exists|i: int|
                0 <= i < k && #[trigger] walk[i] == p,
        forall|p: int| #[trigger] is_walked(data, walk[k], p) ==> is_walked(data, 0, p),
    decreases k,
{
    if k > 0 {
        lemma_walk(data, walk, k - 1);
        let before = walk[k - 1];
        assert(is_step(data, walk, k - 1));
        lemma_goes_on(data, before, walk[k]);
        assert forall|p: int| #[trigger] is_walked(data, 0, p) implies is_walked(data, walk[k], p)
            || exists|i: int| 0 <= i < k && #[trigger] walk[i] == p by {
            if is_walked(data, before, p) {
                if p == before {
                    assert(walk[k - 1] == p);
                }
            } else {
                let i = choose|i: int| 0 <= i < k - 1 && #[trigger] walk[i] == p;
                assert(walk[i] == p);
            }
        }
        assert forall|p: int| #[trigger] is_walked(data, walk[k], p) implies is_walked(data, 0, p) by {
            assert(is_walked(data, before, p));
        }
    }
    if k < walk.len() - 1 {
        assert(is_step(data, walk, k));
        assert(is_walked(data, walk[k], walk[k]));
    }
}

proof fn lemma_order(data: Seq<u8>, walk: Seq<int>, i: int, k: int)
    requires
        is_walk(data, walk),
        0 <= i < k < walk.len(),
    ensures
        walk[i] + 512 <= walk[k],
    decreases k,
{
    lemma_walk(data, walk, k - 1);
    assert(is_step(data, walk, k - 1));
    lemma_goes_on(data, walk[k - 1], walk[k]);
    if i < k - 1 {
        lemma_order(data, walk, i, k - 1);
    }
}

proof fn lemma_sum(data: Seq<u8>, p: int, n: int)
    requires
        0 <= p,
        p + 512 <= data.len(),
        0 <= n <= 512,
    ensures
        sum_of(data, p, n) == byte_sum(
            with_checksum_field(block_at(data, p), Seq::new(8, |i: int| 0x20u8)).subrange(0, n),
        ),
    decreases n,
{
    let spaced = with_checksum_field(block_at(data, p), Seq::new(8, |i: int| 0x20u8));
    if n > 0 {
        lemma_sum(data, p, n - 1);
        assert(spaced.subrange(0, n).drop_last() =~= spaced.subrange(0, n - 1));
    }
}

pub proof fn lemma_sum_is_checksum(data: Seq<u8>, p: int)
    requires
        0 <= p,
        p + 512 <= data.len(),
    ensures
        sum_of(data, p, 512) == header_checksum(block_at(data, p)),
        header_checksum(block_at(data, p)) <= 255 * 512,
{
    let spaced = with_checksum_field(block_at(data, p), Seq::new(8, |i: int| 0x20u8));
    lemma_sum(data, p, 512);
    assert(spaced.subrange(0, 512) =~= spaced);
    lemma_byte_sum_bound(spaced);
}

proof fn lemma_stores(data: Seq<u8>, result: Seq<u8>, p: int)
    requires
        0 <= p,
        p + 512 <= data.len(),
        result.len() == data.len(),
        block_at(result, p) == sealed(block_at(data, p)),
    ensures
        stores(result, p, sum_of(data, p, 512)),
        sum_of(result, p, 512) == sum_of(data, p, 512),
{
    let block = block_at(data, p);
    let after = block_at(result, p);
    let sum = header_checksum(block);
    lemma_sum_is_checksum(data, p);
    lemma_sum_is_checksum(result, p);
    assert(pow(8, 7) == 0o10000000) by {
        reveal(pow);
        reveal_with_fuel(pow, 8);
    }
    lemma_octal_text(sum, 7);
    let digits = octal_text(sum, 7);
    assert forall|i: int| p + 148 <= i < p + 155 implies 0x30 <= #[trigger] result[i] <= 0x37 by {
        assert(result[i] == after[i - p]);
        assert(is_octal_digit(digits[i - p - 148]));
    }
    assert(result[p + 155] == after[155]);
    assert(result.subrange(p + 148, p + 155) =~= digits) by {
        assert forall|i: int| 0 <= i < 7 implies result[p + 148 + i] == digits[i] by {
            assert(result[p + 148 + i] == after[148 + i]);
        }
    }
    lemma_written_octal(digits);
    let spaces = Seq::new(8, |i: int| 0x20u8);
    assert(with_checksum_field(after, spaces) =~= with_checksum_field(block, spaces));
}

proof fn lemma_walked_header(data: Seq<u8>, walk: Seq<int>, i: int)
    requires
        is_walk(data, walk),
        0 <= i < walk.len() - 1,
        !is_zero_block(data, walk[i]),
    ensures
        fixed_up(data, 0).len() == data.len(),
        stores(fixed_up(data, 0), walk[i], sum_of(data, walk[i], 512)),
        sum_of(fixed_up(data, 0), walk[i], 512) == sum_of(data, walk[i], 512),
{
    law_fixup_changes_checksum_fields_only(data);
    lemma_walk(data, walk, i);
    assert(is_step(data, walk, i));
    lemma_goes_on(data, walk[i], walk[i + 1]);
    lemma_walked_block(data, 0, walk[i]);
    lemma_stores(data, fixed_up(data, 0), walk[i]);
}

proof fn lemma_unchanged(data: Seq<u8>, walk: Seq<int>, j: int)
    requires
        is_walk(data, walk),
        0 <= j < data.len(),
        is_outside(data, walk, j),
    ensures
        fixed_up(data, 0)[j] == data[j],
{
    law_fixup_changes_checksum_fields_only(data);
    assert forall|p: int|
        #![trigger is_header(data, p)]
        is_header(data, p) implies !(p + 148 <= j < p + 156) by {
        lemma_walk(data, walk, walk.len() - 1);
        assert(!is_walked(data, walk.last(), p));
        let i = choose|i: int| 0 <= i < walk.len() - 1 && #[trigger] walk[i] == p;
        lemma_walk(data, walk, i);
        assert(is_step(data, walk, i));
        lemma_goes_on(data, walk[i], walk[i + 1]);
    }
}

proof fn lemma_content(data: Seq<u8>, walk: Seq<int>, i: int, j: int)
    requires
        is_walk(data, walk),
        0 <= i < walk.len() - 1,
        walk[i] + 156 <= j < walk[i + 1],
        j < data.len(),
    ensures
        fixed_up(data, 0)[j] == data[j],
{
    lemma_walk(data, walk, i);
    assert forall|k: int|
        0 <= k < walk.len() - 1 && !is_zero_block(data, #[trigger] walk[k]) implies !(walk[k] + 148
        <= j < walk[k] + 156) by {
        if k < i {
            lemma_order(data, walk, k, i);
        } else if k > i + 1 {
            lemma_order(data, walk, i + 1, k);
        }
    }
    lemma_unchanged(data, walk, j);
}

/// Repairing checksums walks over the blocks of the data, from header to header and over the
/// content that each header announces. Every block on the way that is not zero then stores the sum
/// of its bytes, and no other byte changes.
pub proof fn law_fixup_repairs_along_the_walk(data: Seq<u8>, walk: Seq<int>)
    requires
        is_walk(data, walk),
    ensures
        is_repaired(data, walk, fixed_up(data, 0)),
{
    let result = fixed_up(data, 0);
    law_fixup_changes_checksum_fields_only(data);
    assert forall|i: int| 0 <= i < walk.len() - 1 && !is_zero_block(data, #[trigger] walk[i]) implies stores(
    result, walk[i], sum_of(data, walk[i], 512)) && sum_of(result, walk[i], 512) == sum_of(
        data,
        walk[i],
        512,
    ) by {
        lemma_walked_header(data, walk, i);
    }
    assert forall|j: int| 0 <= j < data.len() && is_outside(data, walk, j) implies #[trigger] result[j]
        == data[j] by {
        lemma_unchanged(data, walk, j);
    }
    assert forall|i: int, j: int|
        #![trigger walk[i], result[j]]
        0 <= i < walk.len() - 1 && walk[i] + 156 <= j < walk[i + 1] && j < data.len() implies result[j]
        == data[j] by {
        lemma_content(data, walk, i, j);
    }
}

/// Whether `input` is what is examined in place of `data`: repaired along the walk over it if the
/// first byte is no multiple of ten, else the same.
pub open spec fn is_prepared(data: Seq<u8>, input: Seq<u8>) -> bool {
    if data.len() > 0 && data[0] % 10 != 0 {
        forall|walk: Seq<int>| #[trigger] is_walk(data, walk) ==> is_repaired(data, walk, input)
    } else {
        input == data
    }
}

/// What is examined in place of an input is the prepared input, unless the input is longer than
/// 256 KiB.
pub proof fn law_examined_is_prepared(data: Seq<u8>)
    ensures
        data.len() > 262144 <==> examined(data) is None,
        examined(data) matches Some(input) ==> is_prepared(data, input),
{
    if examined(data) is Some {
        assert forall|walk: Seq<int>| #[trigger]
            is_walk(data, walk) && data.len() > 0 && data[0] % 10 != 0 implies is_repaired(
            data,
            walk,
            examined(data)->0,
        ) by {
            law_fixup_repairs_along_the_walk(data, walk);
        }
    }
}

/// What is examined: nothing for an input of more than 256 KiB. For an input whose first byte is no
/// multiple of ten, nine in ten, the input with its checksums repaired along the walk over it. For
/// every other, and for the empty input, the input as it is.
pub proof fn law_nine_inputs_in_ten_are_repaired(data: Seq<u8>, walk: Seq<int>)
    requires
        is_walk(data, walk),
    ensures
        data.len() > 262144 <==> examined(data) is None,
        0 < data.len() <= 262144 && data[0] % 10 != 0 ==> is_repaired(
            data,
            walk,
            examined(data)->0,
        ),
        data.len() == 0 ==> examined(data) == Some(data),
        0 < data.len() <= 262144 && data[0] % 10 == 0 ==> examined(data) == Some(data),
{
    law_fixup_repairs_along_the_walk(data, walk);
}

} // verus!
