//! What decides how the readers go on behind a header: its format and type, and, for tar-core, its
//! size and its checksum.
use crate::bytes::{before_nul, lemma_before_nul_is_prefix};
use crate::fixup::{
    block_at, compute_checksum, header_checksum, CHECKSUM_END, CHECKSUM_START, HEADER_SIZE,
    SIZE_END, SIZE_START,
};
use crate::octal::{octal_number, parse_octal_number};
use vstd::prelude::*;

verus! {

/// The type flag of a GNU long name.
pub const LONG_NAME: u8 = 0x4c;

/// The type flag of a GNU long link.
pub const LONG_LINK: u8 = 0x4b;

/// The type flag of a PAX header.
pub const PAX_HEADER: u8 = 0x78;

/// The type flag of a GNU sparse entry.
pub const SPARSE: u8 = 0x53;

/// The magic and version of the UStar format.
pub const USTAR_MAGIC: [u8; 8] = [0x75, 0x73, 0x74, 0x61, 0x72, 0x00, 0x30, 0x30];

/// The magic and version of the GNU format.
pub const GNU_MAGIC: [u8; 8] = [0x75, 0x73, 0x74, 0x61, 0x72, 0x20, 0x20, 0x00];

/// Whether the magic and version of a header are those of the GNU format.
pub open spec fn has_gnu_magic(header: Seq<u8>) -> bool {
    header.subrange(257, 265) == GNU_MAGIC@
}

/// Whether the magic and version of a header are those of the UStar or of the GNU format.
pub open spec fn has_known_magic(header: Seq<u8>) -> bool {
    header.subrange(257, 265) == USTAR_MAGIC@ || has_gnu_magic(header)
}

/// Whether a header is that of a GNU long name, GNU long link or PAX header, whose content
/// describes the entry behind it.
pub open spec fn is_extension(header: Seq<u8>) -> bool {
    has_known_magic(header) && (header[156] == LONG_NAME || header[156] == LONG_LINK || header[156]
        == PAX_HEADER)
}

/// Whether `b` is ASCII white space, the vertical tab among it.
pub open spec fn is_space(b: u8) -> bool {
    b == 0x20 || 0x09 <= b <= 0x0d
}

/// `s` without the white space at its start.
pub open spec fn trim_start(s: Seq<u8>) -> Seq<u8>
    decreases s.len(),
{
    if s.len() == 0 || !is_space(s[0]) {
        s
    } else {
        trim_start(s.skip(1))
    }
}

/// `s` without the white space at its end.
pub open spec fn trim_end(s: Seq<u8>) -> Seq<u8>
    decreases s.len(),
{
    if s.len() == 0 || !is_space(s.last()) {
        s
    } else {
        trim_end(s.drop_last())
    }
}

/// The number that tar-core reads in an octal field: the text ends at the first NUL byte, and white
/// space around it does not count. A blank field is zero; text that is no octal number is rejected.
pub open spec fn core_octal(field: Seq<u8>) -> Option<u64> {
    let text = trim_end(trim_start(before_nul(field)));
    if text.len() == 0 {
        Some(0u64)
    } else {
        octal_number(text)
    }
}

/// The number that the eight bytes of `data` at `p` are, the most significant first.
pub open spec fn binary_number(data: Seq<u8>, p: int) -> int {
    data[p] * 0x100_0000_0000_0000 + data[p + 1] * 0x1_0000_0000_0000 + data[p + 2]
        * 0x100_0000_0000 + data[p + 3] * 0x1_0000_0000 + data[p + 4] * 0x100_0000 + data[p + 5]
        * 0x1_0000 + data[p + 6] * 0x100 + data[p + 7]
}

/// The size that tar-core reads in a header: a binary number in the last eight bytes of the field
/// if the first byte of the field is marked so, else an octal number.
pub open spec fn core_size(header: Seq<u8>) -> Option<u64> {
    if header[SIZE_START as int] >= 0x80 {
        Some(binary_number(header, SIZE_END - 8) as u64)
    } else {
        core_octal(header.subrange(SIZE_START as int, SIZE_END as int))
    }
}

/// Whether tar-core finds in a header the checksum that the header has.
pub open spec fn core_checksum_holds(header: Seq<u8>) -> bool {
    core_octal(header.subrange(CHECKSUM_START as int, CHECKSUM_END as int)) == Some(
        header_checksum(header) as u64,
    )
}

pub proof fn lemma_trim_start(s: Seq<u8>, n: int)
    requires
        0 <= n <= s.len(),
        forall|i: int| 0 <= i < n ==> is_space(#[trigger] s[i]),
        n < s.len() ==> !is_space(s[n]),
    ensures
        trim_start(s) == s.skip(n),
    decreases s.len(),
{
    if n == 0 {
        assert(s.skip(0) =~= s);
    } else {
        assert(is_space(s[0]));
        assert forall|i: int| 0 <= i < n - 1 implies is_space(#[trigger] s.skip(1)[i]) by {
            assert(is_space(s[i + 1]));
        }
        lemma_trim_start(s.skip(1), n - 1);
        assert(s.skip(1).skip(n - 1) =~= s.skip(n));
    }
}

pub proof fn lemma_trim_end(s: Seq<u8>, n: int)
    requires
        0 <= n <= s.len(),
        forall|i: int| n <= i < s.len() ==> is_space(#[trigger] s[i]),
        n > 0 ==> !is_space(s[n - 1]),
    ensures
        trim_end(s) == s.take(n),
    decreases s.len(),
{
    if n == s.len() {
        assert(s.take(n) =~= s);
    } else {
        assert(is_space(s[s.len() - 1]));
        assert forall|i: int| n <= i < s.len() - 1 implies is_space(#[trigger] s.drop_last()[i]) by {
            assert(is_space(s[i]));
        }
        lemma_trim_end(s.drop_last(), n);
        assert(s.drop_last().take(n) =~= s.take(n));
    }
}

/// Whether `b` is ASCII white space, the vertical tab among it.
fn is_space_byte(b: u8) -> (r: bool)
    ensures
        r == is_space(b),
{
    b == 0x20 || (0x09 <= b && b <= 0x0d)
}

/// The number that tar-core reads in the octal field of `data` from `start` to `end`.
fn read_core_octal(data: &[u8], start: usize, end: usize) -> (r: Option<u64>)
    requires
        start <= end <= data@.len(),
    ensures
        r == core_octal(data@.subrange(start as int, end as int)),
{
    let ghost field = data@.subrange(start as int, end as int);
    let mut nul: usize = start;
    while nul < end && data[nul] != 0
        invariant
            start <= nul <= end <= data.len(),
            forall|i: int| start <= i < nul ==> data@[i] != 0,
        decreases end - nul,
    {
        nul += 1;
    }
    let ghost text = data@.subrange(start as int, nul as int);
    proof {
        lemma_before_nul_is_prefix(field, nul - start);
        assert(field.subrange(0, nul - start) =~= text);
    }
    let mut first: usize = start;
    while first < nul && is_space_byte(data[first])
        invariant
            start <= first <= nul <= data.len(),
            forall|i: int| start <= i < first ==> is_space(#[trigger] data@[i]),
        decreases nul - first,
    {
        first += 1;
    }
    let ghost cut = data@.subrange(first as int, nul as int);
    proof {
        lemma_trim_start(text, first - start);
        assert(text.skip(first - start) =~= cut);
    }
    let mut last: usize = nul;
    while last > first && is_space_byte(data[last - 1])
        invariant
            first <= last <= nul <= data.len(),
            forall|i: int| last <= i < nul ==> is_space(#[trigger] data@[i]),
        decreases last,
    {
        last -= 1;
    }
    proof {
        lemma_trim_end(cut, last - first);
        assert(cut.take(last - first) =~= data@.subrange(first as int, last as int));
    }
    if first == last {
        return Some(0);
    }
    parse_octal_number(data, first, last)
}

/// The size that tar-core reads in the header of `data` at `p`.
pub fn read_core_size(data: &[u8], p: usize) -> (r: Option<u64>)
    requires
        p + HEADER_SIZE <= data.len(),
    ensures
        r == core_size(block_at(data@, p as int)),
{
    let ghost header = block_at(data@, p as int);
    if data[p + SIZE_START] >= 0x80 {
        assert(binary_number(header, 128) == binary_number(data@, p + 128));
        let size: u64 = data[p + 128] as u64 * 0x100_0000_0000_0000 + data[p + 129] as u64
            * 0x1_0000_0000_0000 + data[p + 130] as u64 * 0x100_0000_0000 + data[p + 131] as u64
            * 0x1_0000_0000 + data[p + 132] as u64 * 0x100_0000 + data[p + 133] as u64 * 0x1_0000
            + data[p + 134] as u64 * 0x100 + data[p + 135] as u64;
        return Some(size);
    }
    assert(header.subrange(SIZE_START as int, SIZE_END as int) =~= data@.subrange(
        p + SIZE_START,
        p + SIZE_END,
    ));
    read_core_octal(data, p + SIZE_START, p + SIZE_END)
}

/// Whether tar-core finds in the header of `data` at `p` the checksum that the header has.
pub fn does_core_checksum_hold(data: &[u8], p: usize) -> (r: bool)
    requires
        p + HEADER_SIZE <= data.len(),
    ensures
        r == core_checksum_holds(block_at(data@, p as int)),
{
    let ghost header = block_at(data@, p as int);
    assert(header.subrange(CHECKSUM_START as int, CHECKSUM_END as int) =~= data@.subrange(
        p + CHECKSUM_START,
        p + CHECKSUM_END,
    ));
    let sum = compute_checksum(data, p);
    match read_core_octal(data, p + CHECKSUM_START, p + CHECKSUM_END) {
        Some(stored) => stored == sum,
        None => false,
    }
}

/// Whether the header of `data` at `p` has the given magic and version.
fn has_magic(data: &[u8], p: usize, magic: &[u8; 8]) -> (r: bool)
    requires
        p + HEADER_SIZE <= data.len(),
    ensures
        r == (block_at(data@, p as int).subrange(257, 265) == magic@),
{
    let ghost found = block_at(data@, p as int).subrange(257, 265);
    let mut i: usize = 0;
    while i < 8
        invariant
            i <= 8,
            p + HEADER_SIZE <= data.len(),
            found == block_at(data@, p as int).subrange(257, 265),
            forall|j: int| 0 <= j < i ==> found[j] == magic@[j],
        decreases 8 - i,
    {
        assert(found[i as int] == data@[p + 257 + i]);
        if data[p + 257 + i] != magic[i] {
            return false;
        }
        i += 1;
    }
    assert(found =~= magic@);
    true
}

/// Whether the header of `data` at `p` has the magic of the GNU format.
pub fn is_gnu_header(data: &[u8], p: usize) -> (r: bool)
    requires
        p + HEADER_SIZE <= data.len(),
    ensures
        r == has_gnu_magic(block_at(data@, p as int)),
{
    has_magic(data, p, &GNU_MAGIC)
}

/// Whether the header of `data` at `p` is that of a GNU long name, GNU long link or PAX header.
pub fn is_extension_header(data: &[u8], p: usize) -> (r: bool)
    requires
        p + HEADER_SIZE <= data.len(),
    ensures
        r == is_extension(block_at(data@, p as int)),
{
    let flag = data[p + 156];
    (flag == LONG_NAME || flag == LONG_LINK || flag == PAX_HEADER) && (has_magic(
        data,
        p,
        &USTAR_MAGIC,
    ) || has_magic(data, p, &GNU_MAGIC))
}

} // verus!
