//! The fields of one header, as the tar crate reads them.
use crate::bytes::before_nul;
use crate::entry::optional_bytes;
use crate::fixup::HEADER_SIZE;
use crate::raw_header::{has_gnu_magic, has_known_magic};
use crate::rs_laws::{are_fields_of, law_fields_are_those_of_the_header};
use tar::{GnuSparseHeader, Header};
use vstd::prelude::*;

verus! {

/// What `tar::Header::mode` reads in a header, if the field is well formed.
pub uninterp spec fn tar_mode(header: Seq<u8>) -> Option<u32>;

/// What `tar::Header::uid` reads in a header, if the field is well formed.
pub uninterp spec fn tar_uid(header: Seq<u8>) -> Option<u64>;

/// What `tar::Header::gid` reads in a header, if the field is well formed.
pub uninterp spec fn tar_gid(header: Seq<u8>) -> Option<u64>;

/// What `tar::Header::mtime` reads in a header, if the field is well formed.
pub uninterp spec fn tar_mtime(header: Seq<u8>) -> Option<u64>;

/// What `tar::Header::device_major` reads in a header, if the field is absent or well formed.
pub uninterp spec fn tar_device_major(header: Seq<u8>) -> Option<Option<u32>>;

/// What `tar::Header::device_minor` reads in a header, if the field is absent or well formed.
pub uninterp spec fn tar_device_minor(header: Seq<u8>) -> Option<Option<u32>>;

/// What `tar::Header::cksum` reads in a header, if the field is well formed.
pub uninterp spec fn tar_cksum(header: Seq<u8>) -> Option<u32>;

/// What `tar::Header::entry_size` reads in a header, if the field is well formed.
pub uninterp spec fn tar_entry_size(header: Seq<u8>) -> Option<u64>;

/// What `tar::GnuHeader::real_size` reads in a header of the GNU format, if the field is well
/// formed.
pub uninterp spec fn tar_real_size(header: Seq<u8>) -> Option<u64>;

/// What `tar::GnuSparseHeader::offset` reads in the description of a region, if the field is well
/// formed.
pub uninterp spec fn tar_region_offset(region: Seq<u8>) -> Option<u64>;

/// What `tar::GnuSparseHeader::length` reads in the description of a region, if the field is well
/// formed.
pub uninterp spec fn tar_region_length(region: Seq<u8>) -> Option<u64>;

/// The NUL-terminated name in a range of a header, in the formats that have such names.
pub open spec fn owner_name(header: Seq<u8>, start: int, end: int) -> Option<Seq<u8>> {
    if has_known_magic(header) {
        Some(before_nul(header.subrange(start, end)))
    } else {
        None
    }
}

/// Calls `tar::Header::entry_type`, and `as_byte` on the type.
///
/// Trusted: the type flag as it stands in the header, except that the NUL flag of old archives is
/// read as the flag of a regular file.
#[verifier::external_body]
fn entry_type(header: &[u8]) -> (r: u8)
    requires
        header@.len() == HEADER_SIZE,
    ensures
        r == type_flag(header@),
{
    Header::from_byte_slice(header).entry_type().as_byte()
}

/// The type flag of a header; a regular file has the flag `0`.
pub open spec fn type_flag(header: Seq<u8>) -> u8 {
    if header[156] == 0 {
        0x30
    } else {
        header[156]
    }
}

/// Calls `tar::Header::mode`.
///
/// Trusted: the result is a function of the bytes of the header.
#[verifier::external_body]
fn mode(header: &[u8]) -> (r: Option<u32>)
    requires
        header@.len() == HEADER_SIZE,
    ensures
        r == tar_mode(header@),
{
    Header::from_byte_slice(header).mode().ok()
}

/// Calls `tar::Header::uid`.
///
/// Trusted: the result is a function of the bytes of the header.
#[verifier::external_body]
fn uid(header: &[u8]) -> (r: Option<u64>)
    requires
        header@.len() == HEADER_SIZE,
    ensures
        r == tar_uid(header@),
{
    Header::from_byte_slice(header).uid().ok()
}

/// Calls `tar::Header::gid`.
///
/// Trusted: the result is a function of the bytes of the header.
#[verifier::external_body]
fn gid(header: &[u8]) -> (r: Option<u64>)
    requires
        header@.len() == HEADER_SIZE,
    ensures
        r == tar_gid(header@),
{
    Header::from_byte_slice(header).gid().ok()
}

/// Calls `tar::Header::mtime`.
///
/// Trusted: the result is a function of the bytes of the header.
#[verifier::external_body]
fn mtime(header: &[u8]) -> (r: Option<u64>)
    requires
        header@.len() == HEADER_SIZE,
    ensures
        r == tar_mtime(header@),
{
    Header::from_byte_slice(header).mtime().ok()
}

/// Calls `tar::Header::device_major`.
///
/// Trusted: the result is a function of the bytes of the header.
#[verifier::external_body]
fn device_major(header: &[u8]) -> (r: Option<Option<u32>>)
    requires
        header@.len() == HEADER_SIZE,
    ensures
        r == tar_device_major(header@),
{
    Header::from_byte_slice(header).device_major().ok()
}

/// Calls `tar::Header::device_minor`.
///
/// Trusted: the result is a function of the bytes of the header.
#[verifier::external_body]
fn device_minor(header: &[u8]) -> (r: Option<Option<u32>>)
    requires
        header@.len() == HEADER_SIZE,
    ensures
        r == tar_device_minor(header@),
{
    Header::from_byte_slice(header).device_minor().ok()
}

/// Calls `tar::Header::username_bytes`.
///
/// Trusted: in the UStar and GNU formats, the bytes of the user name field before its first NUL
/// byte; in other headers, nothing.
#[verifier::external_body]
fn username(header: &[u8]) -> (r: Option<Vec<u8>>)
    requires
        header@.len() == HEADER_SIZE,
    ensures
        optional_bytes(r) == owner_name(header@, 265, 297),
{
    Header::from_byte_slice(header).username_bytes().map(<[u8]>::to_vec)
}

/// Calls `tar::Header::groupname_bytes`.
///
/// Trusted: in the UStar and GNU formats, the bytes of the group name field before its first NUL
/// byte; in other headers, nothing.
#[verifier::external_body]
fn groupname(header: &[u8]) -> (r: Option<Vec<u8>>)
    requires
        header@.len() == HEADER_SIZE,
    ensures
        optional_bytes(r) == owner_name(header@, 297, 329),
{
    Header::from_byte_slice(header).groupname_bytes().map(<[u8]>::to_vec)
}

/// Calls `tar::Header::cksum`.
///
/// Trusted: the result is a function of the bytes of the header.
#[verifier::external_body]
pub(crate) fn cksum(header: &[u8]) -> (r: Option<u32>)
    requires
        header@.len() == HEADER_SIZE,
    ensures
        r == tar_cksum(header@),
{
    Header::from_byte_slice(header).cksum().ok()
}

/// Calls `tar::Header::entry_size`.
///
/// Trusted: the result is a function of the bytes of the header.
#[verifier::external_body]
pub(crate) fn entry_size(header: &[u8]) -> (r: Option<u64>)
    requires
        header@.len() == HEADER_SIZE,
    ensures
        r == tar_entry_size(header@),
{
    Header::from_byte_slice(header).entry_size().ok()
}

/// Calls `tar::GnuHeader::real_size`.
///
/// Trusted: the result is a function of the bytes of the header.
#[verifier::external_body]
pub(crate) fn real_size(header: &[u8]) -> (r: Option<u64>)
    requires
        header@.len() == HEADER_SIZE,
        has_gnu_magic(header@),
    ensures
        r == tar_real_size(header@),
{
    Header::from_byte_slice(header).as_gnu()?.real_size().ok()
}

/// Calls `tar::GnuSparseHeader::offset`.
///
/// Trusted: the result is a function of the bytes that describe the region.
#[verifier::external_body]
pub(crate) fn region_offset(region: &[u8]) -> (r: Option<u64>)
    requires
        region@.len() == 24,
    ensures
        r == tar_region_offset(region@),
{
    let offset = region[..12].try_into().unwrap();
    let numbytes = region[12..].try_into().unwrap();
    GnuSparseHeader { offset, numbytes }.offset().ok()
}

/// Calls `tar::GnuSparseHeader::length`.
///
/// Trusted: the result is a function of the bytes that describe the region.
#[verifier::external_body]
pub(crate) fn region_length(region: &[u8]) -> (r: Option<u64>)
    requires
        region@.len() == 24,
    ensures
        r == tar_region_length(region@),
{
    let offset = region[..12].try_into().unwrap();
    let numbytes = region[12..].try_into().unwrap();
    GnuSparseHeader { offset, numbytes }.length().ok()
}

/// The fields of a header. A numeric field that is malformed has no value; a device number is
/// `Some(None)` in a header whose format has none.
pub struct HeaderFields {
    pub entry_type: u8,
    pub mode: Option<u32>,
    pub uid: Option<u64>,
    pub gid: Option<u64>,
    pub mtime: Option<u64>,
    pub dev_major: Option<Option<u32>>,
    pub dev_minor: Option<Option<u32>>,
    pub username: Option<Vec<u8>>,
    pub groupname: Option<Vec<u8>>,
}

/// The mathematical value of [`HeaderFields`].
pub struct HeaderFieldsView {
    pub entry_type: u8,
    pub mode: Option<u32>,
    pub uid: Option<u64>,
    pub gid: Option<u64>,
    pub mtime: Option<u64>,
    pub dev_major: Option<Option<u32>>,
    pub dev_minor: Option<Option<u32>>,
    pub username: Option<Seq<u8>>,
    pub groupname: Option<Seq<u8>>,
}

impl View for HeaderFields {
    type V = HeaderFieldsView;

    open spec fn view(&self) -> HeaderFieldsView {
        HeaderFieldsView {
            entry_type: self.entry_type,
            mode: self.mode,
            uid: self.uid,
            gid: self.gid,
            mtime: self.mtime,
            dev_major: self.dev_major,
            dev_minor: self.dev_minor,
            username: optional_bytes(self.username),
            groupname: optional_bytes(self.groupname),
        }
    }
}

/// The fields of the header that the given bytes are.
pub open spec fn header_fields(header: Seq<u8>) -> HeaderFieldsView {
    HeaderFieldsView {
        entry_type: type_flag(header),
        mode: tar_mode(header),
        uid: tar_uid(header),
        gid: tar_gid(header),
        mtime: tar_mtime(header),
        dev_major: tar_device_major(header),
        dev_minor: tar_device_minor(header),
        username: owner_name(header, 265, 297),
        groupname: owner_name(header, 297, 329),
    }
}

/// Read the fields of a header with the tar crate.
pub fn read_header_fields(header: &[u8]) -> (r: HeaderFields)
    requires
        header@.len() == HEADER_SIZE,
    ensures
        r@ == header_fields(header@),
        are_fields_of(header@, r@),
        r.mode == tar_mode(header@),
        r.uid == tar_uid(header@),
        r.gid == tar_gid(header@),
        r.mtime == tar_mtime(header@),
        r.dev_major == tar_device_major(header@),
        r.dev_minor == tar_device_minor(header@),
{
    proof {
        law_fields_are_those_of_the_header(header@);
    }
    HeaderFields {
        entry_type: entry_type(header),
        mode: mode(header),
        uid: uid(header),
        gid: gid(header),
        mtime: mtime(header),
        dev_major: device_major(header),
        dev_minor: device_minor(header),
        username: username(header),
        groupname: groupname(header),
    }
}

} // verus!
