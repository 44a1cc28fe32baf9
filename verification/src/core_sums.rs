//! Where tar-core adds up the sizes of extension headers.
//!
//! For each entry tar-core keeps a running total of the sizes of the GNU long name, GNU long link
//! and PAX header in front of it, and adds to it without a test for overflow. This module walks
//! along those headers as the parser does and tells whether every sum is below 2^64.
use crate::bytes::{all_zero, is_all_zero};
use crate::core_event::Limits;
use crate::fixup::{block_at, padded, padded_size, HEADER_SIZE};
use crate::raw_header::{
    core_checksum_holds, core_size, does_core_checksum_hold, is_extension, is_extension_header,
    read_core_size, LONG_LINK, LONG_NAME, PAX_HEADER,
};
use vstd::prelude::*;
use vstd::slice::slice_subrange;

verus! {

/// The extension headers met in front of an entry, and the total of their sizes.
#[derive(Debug, Clone, Copy)]
pub struct Pending {
    pub long_name: bool,
    pub long_link: bool,
    pub pax: bool,
    pub total: u64,
}

/// No extension header met yet.
pub open spec fn nothing_pending() -> Pending {
    Pending { long_name: false, long_link: false, pax: false, total: 0 }
}

/// How many extension headers were met.
pub open spec fn pending_count(pending: Pending) -> int {
    (if pending.long_name {
        1int
    } else {
        0
    }) + (if pending.long_link {
        1int
    } else {
        0
    }) + (if pending.pax {
        1int
    } else {
        0
    })
}

/// Whether an extension header with the given type flag was met.
pub open spec fn is_pending(pending: Pending, flag: u8) -> bool {
    if flag == LONG_NAME {
        pending.long_name
    } else if flag == LONG_LINK {
        pending.long_link
    } else {
        pending.pax
    }
}

/// The extension headers met, and one more with the given type flag, with a new total.
pub open spec fn with_pending(pending: Pending, flag: u8, total: u64) -> Pending {
    Pending {
        long_name: pending.long_name || flag == LONG_NAME,
        long_link: pending.long_link || flag == LONG_LINK,
        pax: pending.pax || (flag != LONG_NAME && flag != LONG_LINK),
        total,
    }
}

/// Whether the content of an extension header, if it is a name or a link, keeps to the limit on
/// paths. A NUL byte that closes it does not count.
pub open spec fn keeps_path_limit(
    limits: Limits,
    flag: u8,
    data: Seq<u8>,
    start: int,
    size: int,
) -> bool {
    let len = if size > 0 && data[start + size - 1] == 0 {
        size - 1
    } else {
        size
    };
    flag != PAX_HEADER ==> (limits.max_path_len matches Some(limit) ==> len <= limit)
}

/// Whether tar-core, looking for an entry in `data` from the header at `o` on, behind the
/// extension headers `pending`, adds up no sizes to 2^64 or more.
///
/// It steps over a single zero block, and ends at two of them, at the end of the data, at a header
/// that it rejects, and at one that is no extension header.
pub open spec fn sums_fit(limits: Limits, data: Seq<u8>, o: int, pending: Pending) -> bool
    decreases data.len() - o,
{
    let header = block_at(data, o);
    let start = o + HEADER_SIZE;
    if o < 0 || start > data.len() {
        true
    } else if all_zero(header) {
        if start + HEADER_SIZE > data.len() || all_zero(block_at(data, start)) {
            true
        } else {
            sums_fit(limits, data, start, pending)
        }
    } else if pending_count(pending) > limits.max_pending_entries || !core_checksum_holds(header)
        || !is_extension(header) || is_pending(pending, header[156]) {
        true
    } else {
        match core_size(header) {
            Some(size) => {
                let total = pending.total + size;
                if padded(size as int) > u64::MAX {
                    true
                } else if total > u64::MAX {
                    false
                } else if total > limits.max_metadata_size || start + padded(size as int)
                    > data.len() || !keeps_path_limit(
                    limits,
                    header[156],
                    data,
                    start,
                    size as int,
                ) {
                    true
                } else {
                    sums_fit(
                        limits,
                        data,
                        start + padded(size as int),
                        with_pending(pending, header[156], total as u64),
                    )
                }
            },
            None => true,
        }
    }
}

/// How many extension headers were met.
fn count_pending(pending: Pending) -> (r: usize)
    ensures
        r == pending_count(pending),
{
    let long_name: usize = if pending.long_name {
        1
    } else {
        0
    };
    let long_link: usize = if pending.long_link {
        1
    } else {
        0
    };
    let pax: usize = if pending.pax {
        1
    } else {
        0
    };
    long_name + long_link + pax
}

/// Whether the content of an extension header keeps to the limit on paths.
fn is_path_limit_kept(limits: Limits, flag: u8, data: &[u8], start: usize, size: usize) -> (r: bool)
    requires
        start + size <= data.len(),
    ensures
        r == keeps_path_limit(limits, flag, data@, start as int, size as int),
{
    if flag == PAX_HEADER {
        return true;
    }
    let len: usize = if size > 0 && data[start + size - 1] == 0 {
        size - 1
    } else {
        size
    };
    match limits.max_path_len {
        Some(limit) => len as u64 <= limit as u64,
        None => true,
    }
}

/// Whether tar-core, looking for an entry at the start of `data`, adds up no sizes to 2^64 or more.
pub fn do_sums_fit(data: &[u8], limits: Limits) -> (r: bool)
    ensures
        r == sums_fit(limits, data@, 0, nothing_pending()),
{
    let mut o: usize = 0;
    let mut pending = Pending { long_name: false, long_link: false, pax: false, total: 0 };
    while o <= data.len() && HEADER_SIZE <= data.len() - o
        invariant
            o <= data.len(),
            sums_fit(limits, data@, 0, nothing_pending()) == sums_fit(
                limits,
                data@,
                o as int,
                pending,
            ),
        decreases data.len() - o,
    {
        let start: usize = o + HEADER_SIZE;
        if is_all_zero(slice_subrange(data, o, start)) {
            if HEADER_SIZE > data.len() - start || is_all_zero(
                slice_subrange(data, start, start + HEADER_SIZE),
            ) {
                return true;
            }
            o = start;
            continue;
        }
        if count_pending(pending) > limits.max_pending_entries || !does_core_checksum_hold(data, o)
            || !is_extension_header(data, o) {
            return true;
        }
        let flag = data[o + 156];
        assert(flag == block_at(data@, o as int)[156]);
        let is_met = if flag == LONG_NAME {
            pending.long_name
        } else if flag == LONG_LINK {
            pending.long_link
        } else {
            pending.pax
        };
        if is_met {
            return true;
        }
        let size = match read_core_size(data, o) {
            Some(size) => size,
            None => return true,
        };
        let skip = match padded_size(size) {
            Some(skip) => skip,
            None => return true,
        };
        let total: u64 = match pending.total.checked_add(size) {
            Some(total) => total,
            None => return false,
        };
        if total > limits.max_metadata_size as u64 || skip > (data.len() - start) as u64
            || !is_path_limit_kept(limits, flag, data, start, size as usize) {
            return true;
        }
        pending = Pending {
            long_name: pending.long_name || flag == LONG_NAME,
            long_link: pending.long_link || flag == LONG_LINK,
            pax: pending.pax || (flag != LONG_NAME && flag != LONG_LINK),
            total,
        };
        o = start + skip as usize;
    }
    true
}

/// Whether some extension header in `data`, at whatever byte, declares a size that is within 2^32
/// of 2^64.
pub open spec fn has_huge_extension(data: Seq<u8>) -> bool {
    exists|p: int|
        0 <= p && p + HEADER_SIZE <= data.len() && is_extension(#[trigger] block_at(data, p)) && (
        core_size(block_at(data, p)) matches Some(size) && size + u32::MAX > u64::MAX)
}

/// Only a header that declares a size close to 2^64 can make a sum overflow: what was added up
/// before it keeps to the limit on metadata.
pub proof fn lemma_sums_fit(limits: Limits, data: Seq<u8>, o: int, pending: Pending)
    requires
        !has_huge_extension(data),
        pending.total <= u32::MAX,
    ensures
        sums_fit(limits, data, o, pending),
    decreases data.len() - o,
{
    let header = block_at(data, o);
    let start = o + HEADER_SIZE;
    if 0 <= o && start <= data.len() {
        if all_zero(header) {
            lemma_sums_fit(limits, data, start, pending);
        } else if is_extension(header) {
            if let Some(size) = core_size(header) {
                let total = pending.total + size;
                if total <= limits.max_metadata_size && start + padded(size as int) <= data.len() {
                    lemma_sums_fit(
                        limits,
                        data,
                        start + padded(size as int),
                        with_pending(pending, header[156], total as u64),
                    );
                }
            }
        }
    }
}

} // verus!
