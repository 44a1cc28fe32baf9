//! One step of the tar-core parser, in plain values.
use crate::core_sums::{nothing_pending, sums_fit};
use crate::fixup::HEADER_SIZE;
use std::borrow::Cow;
use tar_core::parse::Limits as TarLimits;
use tar_core::parse::ParseError as TarError;
use tar_core::parse::ParseEvent::{End, Entry, GlobalExtensions, NeedData, SparseEntry};
use tar_core::parse::ParsedEntry as TarEntry;
use tar_core::parse::Parser;
use tar_core::HeaderError::{ChecksumMismatch, FieldOverflow, InsufficientData, InvalidOctal};
use vstd::prelude::*;

verus! {

/// Limits on what the parser accepts.
#[derive(Debug, Clone, Copy, PartialEq, Eq)]
pub struct Limits {
    /// Maximum total size of all extension metadata for a single entry, in bytes.
    pub max_metadata_size: u32,
    /// Optional maximum path length in bytes.
    pub max_path_len: Option<u32>,
    /// Maximum number of consecutive metadata entries before an actual entry.
    pub max_pending_entries: usize,
    /// Maximum number of data regions in a sparse file.
    pub max_sparse_entries: usize,
}

/// Calls `tar_core::parse::Limits::permissive`.
///
/// Trusted: the four limits that it sets.
#[verifier::external_body]
fn permissive_limits() -> (r: Limits)
    ensures
        r.max_metadata_size == u32::MAX,
        r.max_path_len == None::<u32>,
        r.max_pending_entries == usize::MAX,
        r.max_sparse_entries == 1_000_000,
{
    let TarLimits { max_metadata_size, max_path_len, max_pending_entries, max_sparse_entries } =
        TarLimits::permissive();
    Limits { max_metadata_size, max_path_len, max_pending_entries, max_sparse_entries }
}

/// Limits that all but switch the checks off.
pub open spec fn permissive() -> Limits {
    Limits {
        max_metadata_size: u32::MAX,
        max_path_len: None,
        max_pending_entries: usize::MAX,
        max_sparse_entries: 1_000_000,
    }
}

impl Limits {
    /// Limits that all but switch the checks off.
    pub fn permissive() -> (r: Limits)
        ensures
            r == permissive(),
    {
        permissive_limits()
    }
}

/// An entry as the parser reports it, with all extensions applied.
pub struct ParsedEntry<'a> {
    /// The type flag; a regular file has the flag `0`.
    pub entry_type: u8,
    pub path: Cow<'a, [u8]>,
    pub link_target: Option<Cow<'a, [u8]>>,
    pub mode: u32,
    pub uid: u64,
    pub gid: u64,
    pub mtime: u64,
    pub size: u64,
    pub uname: Option<Cow<'a, [u8]>>,
    pub gname: Option<Cow<'a, [u8]>>,
    pub dev_major: Option<u32>,
    pub dev_minor: Option<u32>,
    pub xattrs: Vec<(Cow<'a, [u8]>, Cow<'a, [u8]>)>,
}

/// The mathematical value of a [`ParsedEntry`].
#[verifier::ext_equal]
pub struct ParsedEntryView {
    pub entry_type: u8,
    pub path: Seq<u8>,
    pub link_target: Option<Seq<u8>>,
    pub mode: u32,
    pub uid: u64,
    pub gid: u64,
    pub mtime: u64,
    pub size: u64,
    pub uname: Option<Seq<u8>>,
    pub gname: Option<Seq<u8>>,
    pub dev_major: Option<u32>,
    pub dev_minor: Option<u32>,
    pub xattrs: Seq<(Seq<u8>, Seq<u8>)>,
}

/// The value of an optional borrowed or owned byte string.
pub open spec fn optional_cow(v: Option<Cow<'_, [u8]>>) -> Option<Seq<u8>> {
    match v {
        Some(bytes) => Some(bytes@),
        None => None,
    }
}

impl View for ParsedEntry<'_> {
    type V = ParsedEntryView;

    open spec fn view(&self) -> ParsedEntryView {
        ParsedEntryView {
            entry_type: self.entry_type,
            path: self.path@,
            link_target: optional_cow(self.link_target),
            mode: self.mode,
            uid: self.uid,
            gid: self.gid,
            mtime: self.mtime,
            size: self.size,
            uname: optional_cow(self.uname),
            gname: optional_cow(self.gname),
            dev_major: self.dev_major,
            dev_minor: self.dev_minor,
            xattrs: Seq::new(
                self.xattrs@.len(),
                |i: int| (self.xattrs@[i].0@, self.xattrs@[i].1@),
            ),
        }
    }
}

/// What the parser reports for the bytes in front of it.
pub enum ParseEvent<'a> {
    /// More bytes are needed than there are.
    NeedData,
    /// The headers of an entry, sparse or not, take up that many bytes; its content follows.
    Entry(usize, ParsedEntry<'a>),
    /// A global PAX header takes up that many bytes.
    GlobalExtensions(usize),
    /// The end of the archive.
    End,
}

/// The mathematical value of a [`ParseEvent`].
pub enum EventView {
    NeedData,
    Entry(usize, ParsedEntryView),
    GlobalExtensions(usize),
    End,
}

impl View for ParseEvent<'_> {
    type V = EventView;

    open spec fn view(&self) -> EventView {
        match *self {
            ParseEvent::NeedData => EventView::NeedData,
            ParseEvent::Entry(consumed, entry) => EventView::Entry(consumed, entry@),
            ParseEvent::GlobalExtensions(consumed) => EventView::GlobalExtensions(consumed),
            ParseEvent::End => EventView::End,
        }
    }
}

/// What is wrong with a header.
#[derive(Debug, Clone, Copy, PartialEq, Eq, Structural)]
pub enum HeaderErrorKind {
    InsufficientData,
    InvalidOctal,
    FieldOverflow,
    ChecksumMismatch,
}

/// Why the parser gave up.
#[derive(Debug, Clone, Copy, PartialEq, Eq, Structural)]
pub enum ParseErrorKind {
    Header(HeaderErrorKind),
    /// A malformed PAX record.
    Pax,
    /// A PAX key that is not UTF-8.
    InvalidUtf8,
    /// A size other than zero on an entry whose type has no content. The releases of the parser
    /// that make this check report it; release 0.1.0 does not make it.
    NonZeroSizeForHeaderOnlyEntry,
    Other,
}

/// An error of the parser, with its message.
#[derive(Debug, Clone)]
pub struct ParseError {
    pub kind: ParseErrorKind,
    pub message: String,
}

/// The mathematical value of a [`ParseError`].
pub struct ParseErrorView {
    pub kind: ParseErrorKind,
    pub message: Seq<char>,
}

impl View for ParseError {
    type V = ParseErrorView;

    open spec fn view(&self) -> ParseErrorView {
        ParseErrorView { kind: self.kind, message: self.message@ }
    }
}

/// What `tar_core::parse::Parser::parse` returns for `input`, on a parser that was made with
/// `limits` and has not reached the end of an archive. Such a parser carries nothing from one call
/// to the next.
pub uninterp spec fn tar_core_event(
    limits: Limits,
    allow_empty_path: bool,
    input: Seq<u8>,
) -> Result<EventView, ParseErrorView>;

/// Whether an event that takes up bytes takes up whole blocks, one at least, of an input of the
/// given length.
pub open spec fn consumes_blocks(event: EventView, len: int) -> bool {
    match event {
        EventView::Entry(consumed, _) | EventView::GlobalExtensions(consumed) => HEADER_SIZE
            <= consumed <= len && consumed % HEADER_SIZE == 0,
        _ => true,
    }
}

/// Whether the parser reports `event` for `input` whatever bytes follow it.
pub open spec fn is_settled(
    limits: Limits,
    allow_empty_path: bool,
    input: Seq<u8>,
    event: EventView,
) -> bool {
    forall|more: Seq<u8>|
        #[trigger] tar_core_event(limits, allow_empty_path, input + more) == Ok::<
            EventView,
            ParseErrorView,
        >(event)
}

/// Calls `tar_core::parse::Parser::parse` on a new parser with the given settings.
///
/// Trusted: whether there is an event, and which, is a function of the settings and the input; an
/// entry or a global header takes up whole blocks of the input, at least one; unless the event is a
/// want of data, bytes behind the input do not change it. The parser adds up
/// the sizes of extension headers unchecked, so inputs on which a sum reaches 2^64 are left out.
#[verifier::external_body]
pub(crate) fn parse_event<'a>(limits: Limits, allow_empty_path: bool, input: &'a [u8]) -> (r:
    Option<ParseEvent<'a>>)
    requires
        sums_fit(limits, input@, 0, nothing_pending()),
    ensures
        match r {
            Some(event) => tar_core_event(limits, allow_empty_path, input@) == Ok::<
                EventView,
                ParseErrorView,
            >(event@),
            None => tar_core_event(limits, allow_empty_path, input@) is Err,
        },
        r matches Some(event) ==> consumes_blocks(event@, input@.len() as int),
        r matches Some(event) ==> event@ is NeedData || is_settled(
            limits,
            allow_empty_path,
            input@,
            event@,
        ),
{
    let Limits { max_metadata_size, max_path_len, max_pending_entries, max_sparse_entries } = limits;
    let mut parser = Parser::new(
        TarLimits { max_metadata_size, max_path_len, max_pending_entries, max_sparse_entries });
    parser.set_allow_empty_path(allow_empty_path);
    Some(match parser.parse(input).ok()? {
        NeedData { .. } => ParseEvent::NeedData,
        GlobalExtensions { consumed, .. } => ParseEvent::GlobalExtensions(consumed),
        End { .. } => ParseEvent::End,
        Entry { consumed, entry: e } | SparseEntry { consumed, entry: e, .. } => {
            let TarEntry { path, link_target, mode, uid, gid, mtime, size, uname, gname, dev_major, dev_minor, xattrs, .. } = e;
            ParseEvent::Entry(consumed, ParsedEntry { entry_type: e.entry_type.to_byte(), path, link_target, mode, uid, gid, mtime, size, uname, gname, dev_major, dev_minor, xattrs })
        },
    })
}

/// Calls `tar_core::parse::Parser::parse` on a new parser with the given settings, for the error.
///
/// Trusted: whether there is an error, and which, is a function of the settings and the input.
/// Inputs on which a sum of the parser reaches 2^64 are left out.
#[verifier::external_body]
pub(crate) fn parse_failure(limits: Limits, allow_empty_path: bool, input: &[u8]) -> (r: Option<
    ParseError,
>)
    requires
        sums_fit(limits, input@, 0, nothing_pending()),
    ensures
        match r {
            Some(error) => tar_core_event(limits, allow_empty_path, input@) == Err::<
                EventView,
                ParseErrorView,
            >(error@),
            None => tar_core_event(limits, allow_empty_path, input@) is Ok,
        },
{
    let Limits { max_metadata_size, max_path_len, max_pending_entries, max_sparse_entries } = limits;
    let mut parser = Parser::new(
        TarLimits { max_metadata_size, max_path_len, max_pending_entries, max_sparse_entries });
    parser.set_allow_empty_path(allow_empty_path);
    let error = parser.parse(input).err()?;
    let kind = match &error {
        TarError::Header(InsufficientData(_)) => ParseErrorKind::Header(HeaderErrorKind::InsufficientData),
        TarError::Header(InvalidOctal(_)) => ParseErrorKind::Header(HeaderErrorKind::InvalidOctal),
        TarError::Header(FieldOverflow { .. }) => ParseErrorKind::Header(HeaderErrorKind::FieldOverflow),
        TarError::Header(ChecksumMismatch { .. }) => ParseErrorKind::Header(HeaderErrorKind::ChecksumMismatch),
        TarError::Pax(_) => ParseErrorKind::Pax,
        TarError::InvalidUtf8(_) => ParseErrorKind::InvalidUtf8,
        _ => ParseErrorKind::Other,
    };
    Some(ParseError { kind, message: error.to_string() })
}

} // verus!
