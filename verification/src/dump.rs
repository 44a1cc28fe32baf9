//! The blocks of an archive, for a report.
use crate::bytes::{all_zero, is_all_zero};
use crate::fixup::{block_at, HEADER_SIZE};
use crate::fixup_laws::is_zero_block;
use tar_core::Header;
use vstd::prelude::*;
use vstd::slice::slice_subrange;

verus! {

/// How `tar_core::Header` shows the header that the given bytes are, in its debug format.
pub uninterp spec fn tar_core_header_text(block: Seq<u8>) -> Seq<char>;

/// Calls `tar_core::Header::from_bytes`, and formats the header for debugging.
///
/// Trusted: the text is a function of the bytes of the header.
#[verifier::external_body]
fn describe_header(block: &[u8]) -> (r: String)
    requires
        block@.len() == HEADER_SIZE,
    ensures
        r@ == tar_core_header_text(block@),
{
    format!("{:?}", Header::from_bytes(block.try_into().unwrap()))
}

/// A block of an archive: its index and offset, and its text as a header unless it is zero.
#[derive(Debug)]
pub struct BlockDump {
    pub index: usize,
    pub offset: usize,
    pub header: Option<String>,
}

/// The mathematical value of a [`BlockDump`].
#[verifier::ext_equal]
pub struct BlockDumpView {
    pub index: int,
    pub offset: int,
    pub header: Option<Seq<char>>,
}

impl View for BlockDump {
    type V = BlockDumpView;

    open spec fn view(&self) -> BlockDumpView {
        BlockDumpView {
            index: self.index as int,
            offset: self.offset as int,
            header: match self.header {
                Some(text) => Some(text@),
                None => None,
            },
        }
    }
}

/// The block with index `i`.
pub open spec fn block_dump(data: Seq<u8>, i: int) -> BlockDumpView {
    let block = block_at(data, i * HEADER_SIZE);
    BlockDumpView {
        index: i,
        offset: i * HEADER_SIZE,
        header: if all_zero(block) {
            None
        } else {
            Some(tar_core_header_text(block))
        },
    }
}

/// All whole blocks of the data, in order. A rest shorter than a block is left out.
pub open spec fn block_dumps(data: Seq<u8>) -> Seq<BlockDumpView> {
    Seq::new(data.len() / (HEADER_SIZE as nat), |i: int| block_dump(data, i))
}

/// The raw 512-byte headers of the data, for a report.
pub fn dump_headers(data: &[u8]) -> (r: Vec<BlockDump>)
    ensures
        Seq::new(r@.len(), |i: int| r@[i]@) == block_dumps(data@),
        r@.len() == data@.len() / 512,
        forall|i: int|
            0 <= i < r@.len() ==> (#[trigger] r@[i]).index == i && r@[i].offset == 512 * i && (
            r@[i].header is None <==> is_zero_block(data@, 512 * i)) && (r@[i].header matches Some(
                text,
            ) ==> text@ == tar_core_header_text(data@.subrange(512 * i, 512 * i + 512))),
{
    let mut dumps: Vec<BlockDump> = Vec::new();
    let mut offset: usize = 0;
    let mut index: usize = 0;
    while offset <= data.len() && HEADER_SIZE <= data.len() - offset
        invariant
            offset == index * HEADER_SIZE,
            offset <= data.len(),
            dumps@.len() == index,
            forall|i: int| 0 <= i < index ==> #[trigger] dumps@[i]@ == block_dump(data@, i),
            forall|i: int|
                0 <= i < index ==> (#[trigger] dumps@[i]).index == i && dumps@[i].offset == 512 * i && (
                dumps@[i].header is None <==> is_zero_block(data@, 512 * i)) && (
                dumps@[i].header matches Some(text) ==> text@ == tar_core_header_text(
                    data@.subrange(512 * i, 512 * i + 512),
                )),
        decreases data.len() - offset,
    {
        let block = slice_subrange(data, offset, offset + HEADER_SIZE);
        proof {
            if all_zero(block@) {
                assert forall|i: int| offset <= i < offset + 512 implies data@[i] == 0 by {
                    assert(block@[i - offset] == 0);
                }
            } else {
                let k = choose|k: int| 0 <= k < block@.len() && block@[k] != 0;
                assert(data@[offset + k] != 0);
            }
        }
        let header = if is_all_zero(block) {
            None
        } else {
            Some(describe_header(block))
        };
        dumps.push(BlockDump { index, offset, header });
        offset += HEADER_SIZE;
        index += 1;
    }
    assert(Seq::new(dumps@.len(), |i: int| dumps@[i]@) =~= block_dumps(data@));
    dumps
}

} // verus!
