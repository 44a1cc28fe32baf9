//! Where the tar crate adds up positions.
//!
//! The tar crate computes the position of the next header with a test for overflow, except that it
//! then adds one block for each extension block of a GNU sparse header without a test. This module
//! walks along the headers as the tar crate does and tells at which entry, if at any, such a sum
//! reaches 2^64.
use crate::bytes::{all_zero, is_all_zero};
use crate::entry::{describes_other_entries, is_metadata_type};
use crate::fixup::{
    block_at, compute_checksum, header_checksum, padded, padded_size, HEADER_SIZE,
};
use crate::pax::{read_size_record, size_record, tar_pax_extensions};
use crate::raw_header::{
    has_gnu_magic, is_extension, is_extension_header, is_gnu_header, LONG_LINK, LONG_NAME, SPARSE,
};
use crate::tar_header::{
    cksum, entry_size, real_size, region_length, region_offset, tar_cksum, tar_entry_size,
    tar_real_size, tar_region_length, tar_region_offset,
};
use vstd::prelude::*;
use vstd::slice::slice_subrange;

verus! {

/// The extension headers met in front of an entry; of a PAX header, the size that it sets, if it
/// sets one.
#[derive(Debug, Clone, Copy)]
pub struct Described {
    pub long_name: bool,
    pub long_link: bool,
    pub pax: Option<Option<u64>>,
}

/// No extension header met yet.
pub open spec fn nothing_described() -> Described {
    Described { long_name: false, long_link: false, pax: None }
}

/// What the `n` regions of a sparse entry listed in `data` at `at` come to: where in the entry the
/// last one ends, and how many of the `size` bytes stored in the archive are left. `cur` and
/// `remaining` are the same before these regions. Nothing if one of them is rejected: it is
/// malformed, is out of order, does not start at a block of the archive, or takes more bytes than
/// are left.
pub open spec fn regions(
    data: Seq<u8>,
    at: int,
    n: nat,
    size: u64,
    cur: u64,
    remaining: u64,
) -> Option<(u64, u64)>
    decreases n,
{
    if n == 0 {
        Some((cur, remaining))
    } else if data[at] == 0 || data[at + 12] == 0 {
        regions(data, at + 24, (n - 1) as nat, size, cur, remaining)
    } else {
        let region = data.subrange(at, at + 24);
        match (tar_region_offset(region), tar_region_length(region)) {
            (Some(offset), Some(len)) => if (len != 0 && (size - remaining) % (HEADER_SIZE as int)
                != 0) || offset < cur || offset + len > u64::MAX || len > remaining {
                None
            } else {
                regions(
                    data,
                    at + 24,
                    (n - 1) as nat,
                    size,
                    (offset + len) as u64,
                    (remaining - len) as u64,
                )
            },
            _ => None,
        }
    }
}

/// How the tar crate gets past a sparse header.
#[derive(Debug, Clone, Copy)]
pub enum Sparse {
    /// The position of the next header is added up to 2^64 or more.
    Overflow,
    /// The header is rejected.
    Rejected,
    /// The header is accepted: the position of the next header, the end of the last region, and how
    /// many stored bytes the regions leave.
    Listed(u64, u64, u64),
}

/// How the tar crate gets past the extension blocks of a sparse header at `at`. Each lists regions
/// and says whether another one follows; each moves the position `next` of the next header on.
pub open spec fn behind_extension_blocks(
    data: Seq<u8>,
    at: int,
    size: u64,
    cur: u64,
    remaining: u64,
    next: u64,
) -> Sparse
    decreases data.len() - at,
{
    if at < 0 || at + HEADER_SIZE > data.len() {
        Sparse::Rejected
    } else if next + HEADER_SIZE > u64::MAX {
        Sparse::Overflow
    } else {
        match regions(data, at, 21, size, cur, remaining) {
            Some((end, left)) => if data[at + 504] == 1 {
                behind_extension_blocks(
                    data,
                    at + HEADER_SIZE,
                    size,
                    end,
                    left,
                    (next + HEADER_SIZE) as u64,
                )
            } else {
                Sparse::Listed((next + HEADER_SIZE) as u64, end, left)
            },
            None => Sparse::Rejected,
        }
    }
}

/// How the tar crate gets past the sparse header at `o`, for an entry with `size` stored bytes;
/// `next` is the position behind those. The regions have to end where the header says that the
/// entry ends, and to leave no stored bytes.
pub open spec fn behind_sparse(data: Seq<u8>, o: int, size: u64, next: u64) -> Sparse {
    match regions(data, o + 386, 4, size, 0, size) {
        Some((end, left)) => {
            let listed = if data[o + 482] == 1 {
                behind_extension_blocks(data, o + HEADER_SIZE, size, end, left, next)
            } else {
                Sparse::Listed(next, end, left)
            };
            match listed {
                Sparse::Listed(_, end, left) => if left == 0 && tar_real_size(
                    block_at(data, o),
                ) == Some(end) {
                    listed
                } else {
                    Sparse::Rejected
                },
                _ => listed,
            }
        },
        None => Sparse::Rejected,
    }
}

/// The size of the entry whose header declares `size`, behind the extension headers `described`. A
/// PAX record sets it, but not for the headers that describe other entries themselves.
pub open spec fn effective_size(header: Seq<u8>, size: u64, described: Described) -> u64 {
    match described.pax {
        Some(Some(set)) => if is_metadata_type(header[156]) {
            size
        } else {
            set
        },
        _ => size,
    }
}

/// Whether an extension header with the given type flag was met.
pub open spec fn is_described(described: Described, flag: u8) -> bool {
    if flag == LONG_NAME {
        described.long_name
    } else if flag == LONG_LINK {
        described.long_link
    } else {
        described.pax is Some
    }
}

/// The extension headers met, and one more with the given type flag and content.
pub open spec fn with_described(described: Described, flag: u8, content: Seq<u8>) -> Described {
    if flag == LONG_NAME {
        Described { long_name: true, ..described }
    } else if flag == LONG_LINK {
        Described { long_link: true, ..described }
    } else {
        Described { pax: Some(size_record(tar_pax_extensions(content))), ..described }
    }
}

/// Whether the tar crate finds in a header the checksum that the header has.
pub open spec fn rs_checksum_holds(header: Seq<u8>) -> bool {
    tar_cksum(header) == Some(header_checksum(header) as u32)
}

/// The index of the entry at which the tar crate, reading `data` from the header at `o` on, adds
/// up a position to 2^64 or more; `index` is that of the next entry, behind the extension headers
/// `described`.
///
/// The walk ends at a zero block, at the end of the data, and at a header that the tar crate
/// rejects.
pub open spec fn overflow_from(
    data: Seq<u8>,
    o: int,
    described: Described,
    index: int,
) -> Option<int>
    decreases data.len() - o,
{
    let header = block_at(data, o);
    let start = o + HEADER_SIZE;
    if o < 0 || start > data.len() || all_zero(header) || !rs_checksum_holds(header) {
        None
    } else {
        match tar_entry_size(header) {
            Some(declared) => if is_extension(header) {
                let next = start + padded(declared as int);
                if is_described(described, header[156]) || next > data.len() {
                    None
                } else {
                    overflow_from(
                        data,
                        next,
                        with_described(
                            described,
                            header[156],
                            data.subrange(start, start + declared),
                        ),
                        index,
                    )
                }
            } else {
                let size = effective_size(header, declared, described);
                let next = start + padded(size as int);
                if next > u64::MAX {
                    None
                } else if header[156] == SPARSE {
                    if !has_gnu_magic(header) {
                        None
                    } else {
                        match behind_sparse(data, o, size, next as u64) {
                            Sparse::Overflow => Some(index),
                            Sparse::Rejected => None,
                            Sparse::Listed(behind, _, _) => if behind > data.len() {
                                None
                            } else {
                                proof {
                                    lemma_behind_sparse(data, o, size, next as u64);
                                }
                                overflow_from(
                                    data,
                                    behind as int,
                                    nothing_described(),
                                    index + 1,
                                )
                            },
                        }
                    }
                } else if next > data.len() {
                    None
                } else {
                    overflow_from(data, next, nothing_described(), index + 1)
                }
            },
            None => None,
        }
    }
}

/// The index of the entry of `data` at which the tar crate adds up a position to 2^64 or more, if
/// there is one.
pub open spec fn overflow_index(data: Seq<u8>) -> Option<int> {
    overflow_from(data, 0, nothing_described(), 0)
}

proof fn lemma_behind_extension_blocks(
    data: Seq<u8>,
    at: int,
    size: u64,
    cur: u64,
    remaining: u64,
    next: u64,
)
    ensures
        behind_extension_blocks(data, at, size, cur, remaining, next) matches Sparse::Listed(
            behind,
            _,
            _,
        ) ==> next <= behind,
    decreases data.len() - at,
{
    if 0 <= at && at + HEADER_SIZE <= data.len() && next + HEADER_SIZE <= u64::MAX {
        if let Some((end, left)) = regions(data, at, 21, size, cur, remaining) {
            lemma_behind_extension_blocks(
                data,
                at + HEADER_SIZE,
                size,
                end,
                left,
                (next + HEADER_SIZE) as u64,
            );
        }
    }
}

/// Extension blocks move the position of the next header on, never back.
pub proof fn lemma_behind_sparse(data: Seq<u8>, o: int, size: u64, next: u64)
    ensures
        behind_sparse(data, o, size, next) matches Sparse::Listed(behind, _, _) ==> next <= behind,
{
    if let Some((end, left)) = regions(data, o + 386, 4, size, 0, size) {
        lemma_behind_extension_blocks(data, o + HEADER_SIZE, size, end, left, next);
    }
}

/// What the `n` regions of a sparse entry listed in `data` at `at` come to.
fn read_regions(
    data: &[u8],
    at: usize,
    n: usize,
    size: u64,
    cur: u64,
    remaining: u64,
) -> (r: Option<(u64, u64)>)
    requires
        at + 24 * n <= data.len(),
        remaining <= size,
    ensures
        r == regions(data@, at as int, n as nat, size, cur, remaining),
        r matches Some((_, left)) ==> left <= size,
{
    let mut end: u64 = cur;
    let mut left: u64 = remaining;
    let mut i: usize = 0;
    let mut p: usize = at;
    while i < n
        invariant
            i <= n,
            p == at + 24 * i,
            at + 24 * n <= data.len(),
            left <= size,
            regions(data@, at as int, n as nat, size, cur, remaining) == regions(
                data@,
                p as int,
                (n - i) as nat,
                size,
                end,
                left,
            ),
        decreases n - i,
    {
        if data[p] != 0 && data[p + 12] != 0 {
            let region = slice_subrange(data, p, p + 24);
            let (offset, len) = match (region_offset(region), region_length(region)) {
                (Some(offset), Some(len)) => (offset, len),
                _ => return None,
            };
            if (len != 0 && (size - left) % 512 != 0) || offset < end || len > left {
                return None;
            }
            end = match offset.checked_add(len) {
                Some(end) => end,
                None => return None,
            };
            left = left - len;
        }
        p += 24;
        i += 1;
    }
    Some((end, left))
}

/// How the tar crate gets past the extension blocks of a sparse header at `at`.
fn pass_extension_blocks(
    data: &[u8],
    at: usize,
    size: u64,
    cur: u64,
    remaining: u64,
    next: u64,
) -> (r: Sparse)
    requires
        at <= data.len(),
        remaining <= size,
    ensures
        r == behind_extension_blocks(data@, at as int, size, cur, remaining, next),
{
    let mut block: usize = at;
    let mut end: u64 = cur;
    let mut left: u64 = remaining;
    let mut behind: u64 = next;
    while HEADER_SIZE <= data.len() - block
        invariant
            block <= data.len(),
            left <= size,
            behind_extension_blocks(data@, at as int, size, cur, remaining, next)
                == behind_extension_blocks(data@, block as int, size, end, left, behind),
        decreases data.len() - block,
    {
        let moved: u64 = match behind.checked_add(512) {
            Some(moved) => moved,
            None => return Sparse::Overflow,
        };
        let (new_end, new_left) = match read_regions(data, block, 21, size, end, left) {
            Some(listed) => listed,
            None => return Sparse::Rejected,
        };
        if data[block + 504] != 1 {
            return Sparse::Listed(moved, new_end, new_left);
        }
        block += HEADER_SIZE;
        end = new_end;
        left = new_left;
        behind = moved;
    }
    Sparse::Rejected
}

/// How the tar crate gets past the sparse header at `o`.
fn pass_sparse(data: &[u8], o: usize, size: u64, next: u64) -> (r: Sparse)
    requires
        o + HEADER_SIZE <= data.len(),
        has_gnu_magic(block_at(data@, o as int)),
    ensures
        r == behind_sparse(data@, o as int, size, next),
{
    let (end, left) = match read_regions(data, o + 386, 4, size, 0, size) {
        Some(listed) => listed,
        None => return Sparse::Rejected,
    };
    let listed = if data[o + 482] == 1 {
        pass_extension_blocks(data, o + HEADER_SIZE, size, end, left, next)
    } else {
        Sparse::Listed(next, end, left)
    };
    match listed {
        Sparse::Listed(_, end, left) => {
            let whole = match real_size(slice_subrange(data, o, o + HEADER_SIZE)) {
                Some(whole) => whole,
                None => return Sparse::Rejected,
            };
            if left == 0 && whole == end {
                listed
            } else {
                Sparse::Rejected
            }
        },
        _ => listed,
    }
}

/// Whether the tar crate finds in the header of `data` at `o` the checksum that the header has.
fn does_rs_checksum_hold(data: &[u8], o: usize) -> (r: bool)
    requires
        o + HEADER_SIZE <= data.len(),
    ensures
        r == rs_checksum_holds(block_at(data@, o as int)),
{
    let sum = compute_checksum(data, o);
    match cksum(slice_subrange(data, o, o + HEADER_SIZE)) {
        Some(stored) => stored as u64 == sum,
        None => false,
    }
}

/// The index of the entry of `data` at which the tar crate adds up a position to 2^64 or more, if
/// there is one.
pub fn find_overflow(data: &[u8]) -> (r: Option<usize>)
    ensures
        match r {
            Some(index) => overflow_index(data@) == Some(index as int),
            None => overflow_index(data@) is None,
        },
{
    let mut o: usize = 0;
    let mut index: usize = 0;
    let mut described = Described { long_name: false, long_link: false, pax: None };
    while o <= data.len() && HEADER_SIZE <= data.len() - o
        invariant
            o <= data.len(),
            index <= o,
            overflow_index(data@) == overflow_from(data@, o as int, described, index as int),
        decreases data.len() - o,
    {
        let start: usize = o + HEADER_SIZE;
        let header = slice_subrange(data, o, start);
        assert(header@ == block_at(data@, o as int));
        if is_all_zero(header) || !does_rs_checksum_hold(data, o) {
            return None;
        }
        let size = match entry_size(header) {
            Some(size) => size,
            None => return None,
        };
        let flag = data[o + 156];
        assert(flag == header@[156]);
        if is_extension_header(data, o) {
            let is_met = if flag == LONG_NAME {
                described.long_name
            } else if flag == LONG_LINK {
                described.long_link
            } else {
                described.pax.is_some()
            };
            if is_met {
                return None;
            }
            let skip = match padded_size(size) {
                Some(skip) => skip,
                None => return None,
            };
            if skip > (data.len() - start) as u64 {
                return None;
            }
            if flag == LONG_NAME {
                described = Described { long_name: true, ..described };
            } else if flag == LONG_LINK {
                described = Described { long_link: true, ..described };
            } else {
                let content = slice_subrange(data, start, start + size as usize);
                described = Described { pax: Some(read_size_record(content)), ..described };
            }
            o = start + skip as usize;
            continue;
        }
        let stored: u64 = match described.pax {
            Some(Some(set)) => if describes_other_entries(flag) {
                size
            } else {
                set
            },
            _ => size,
        };
        let skip = match padded_size(stored) {
            Some(skip) => skip,
            None => return None,
        };
        let next: u64 = match skip.checked_add(start as u64) {
            Some(next) => next,
            None => return None,
        };
        let end: u64 = if flag == SPARSE {
            if !is_gnu_header(data, o) {
                return None;
            }
            proof {
                lemma_behind_sparse(data@, o as int, stored, next);
            }
            match pass_sparse(data, o, stored, next) {
                Sparse::Overflow => return Some(index),
                Sparse::Rejected => return None,
                Sparse::Listed(behind, _, _) => behind,
            }
        } else {
            next
        };
        if end > data.len() as u64 {
            return None;
        }
        described = Described { long_name: false, long_link: false, pax: None };
        o = end as usize;
        index += 1;
    }
    None
}

/// Whether a header is a GNU sparse header that extension blocks follow.
pub open spec fn is_extended_sparse(header: Seq<u8>) -> bool {
    header[156] == SPARSE && has_gnu_magic(header) && header[482] == 1
}

/// Whether some header in `data`, at whatever byte, is a GNU sparse header that extension blocks
/// follow.
pub open spec fn has_extended_sparse(data: Seq<u8>) -> bool {
    exists|p: int|
        0 <= p && p + HEADER_SIZE <= data.len() && is_extended_sparse(#[trigger] block_at(data, p))
}

/// Only a GNU sparse header that extension blocks follow can make a position overflow.
pub proof fn lemma_overflow_needs_extended_sparse(
    data: Seq<u8>,
    o: int,
    described: Described,
    index: int,
)
    requires
        !has_extended_sparse(data),
    ensures
        overflow_from(data, o, described, index) is None,
    decreases data.len() - o,
{
    let header = block_at(data, o);
    let start = o + HEADER_SIZE;
    if 0 <= o && start <= data.len() {
        if let Some(declared) = tar_entry_size(header) {
            if is_extension(header) {
                let next = start + padded(declared as int);
                if next <= data.len() {
                    let content = data.subrange(start, start + declared);
                    lemma_overflow_needs_extended_sparse(
                        data,
                        next,
                        with_described(described, header[156], content),
                        index,
                    );
                }
            } else {
                let size = effective_size(header, declared, described);
                let next = start + padded(size as int);
                if header[156] == SPARSE && has_gnu_magic(header) && next <= u64::MAX {
                    assert(!is_extended_sparse(header));
                    assert(data[o + 482] == header[482]);
                }
                if next <= data.len() {
                    lemma_overflow_needs_extended_sparse(
                        data,
                        next,
                        nothing_described(),
                        index + 1,
                    );
                }
            }
        }
    }
}

} // verus!
