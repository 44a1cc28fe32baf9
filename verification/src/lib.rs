//! Differential checking of two tar readers.
//!
//! An archive is read with the `tar` crate and with tar-core's sans-IO parser, both readings are
//! brought into one owned form, and the two lists of entries are compared. Input from a fuzzer can
//! have its header checksums repaired first, so that the readers get past their checksum tests.
//!
//! What the two outside parsers compute is taken from them; every decision made around them is
//! verified.
pub mod bytes;
pub mod compare_laws;
pub mod core_event;
pub mod core_laws;
pub mod core_reader;
pub mod core_sums;
pub mod differential;
pub mod dump;
pub mod entry;
pub mod fixup;
pub mod fixup_laws;
pub mod octal;
pub mod overflow_laws;
pub mod pax;
pub mod raw_header;
pub mod rs_laws;
pub mod rs_reader;
pub mod rs_sums;
pub mod tar_archive;
pub mod tar_header;
pub mod view_laws;

pub use core_reader::{
    parse_tar_core, parse_tar_core_detailed, parse_tar_core_with_limits, TarCoreParseResult,
};
pub use entry::OwnedEntry;
pub use rs_reader::parse_tar_rs;
