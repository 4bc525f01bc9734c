//! What can go wrong while opening an archive or reading a file from it.

use crate::field::DecodeErrorKind;
use vstd::prelude::*;

verus! {

/// The fixed-size sections of an archive.
#[derive(Clone, Copy, Debug, PartialEq, Eq, Structural)]
pub enum Section {
    /// Signature and file count, at the start.
    Header,
    /// The table of contents.
    Toc,
    /// The 30 by 30 lookup table.
    LookupTable,
    /// The product name, at the end.
    ProductName,
    /// The name and size in front of a file body.
    FileHeader,
}

/// The archive does not have the layout of an LGP archive.
#[derive(Clone, Copy, Debug, PartialEq, Eq, Structural)]
pub enum FormatError {
    /// The field that starts at byte `offset` of the stream, in `section`,
    /// could not be decoded.
    Field { section: Section, kind: DecodeErrorKind, offset: usize },
    /// A cell of the lookup table names entries `first..first + count` of a
    /// table of contents that has only `toc_len` entries.
    Bucket { first: usize, count: usize, toc_len: usize },
}

/// Why an archive could not be opened or a file could not be read.
#[derive(Clone, Copy, Debug, PartialEq, Eq, Structural)]
pub enum LgpError {
    /// The archive is malformed.
    Format(FormatError),
    /// The name has no cell in the lookup table: it is shorter than two
    /// bytes, or one of its first two bytes lies outside the table's range.
    Lookup,
    /// The name's cell in the lookup table holds no entry of that name.
    NotFound,
    /// A file body declares `declared` bytes, of which the stream holds only
    /// `available`.
    Truncated { declared: usize, available: usize },
    /// The stream has no position `offset` to seek to.
    Io { offset: u64 },
}

} // verus!
