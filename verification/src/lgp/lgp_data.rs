//! The records of an LGP archive.

use vstd::prelude::*;

verus! {

/// The archive header, once its signature has been checked.
#[derive(Debug, Clone, Copy, PartialEq, Eq)]
pub struct LgpHeader {
    /// Number of records in the table of contents.
    pub file_count: usize,
}

/// One record of the table of contents.
#[derive(Debug, Clone, PartialEq, Eq)]
pub struct LgpTocEntry {
    /// The file's name, without its NUL padding.
    pub filename: String,
    /// Where in the stream the file's header starts.
    pub offset: u32,
    /// A type code that the archive does not interpret.
    pub code: u8,
    /// The 1-based index of the entry whose content this one shares, if any.
    pub duplicate: Option<u16>,
}

/// An `LgpTocEntry` as a mathematical value.
pub struct TocEntryView {
    pub filename: Seq<char>,
    pub offset: u32,
    pub code: u8,
    pub duplicate: Option<u16>,
}

impl View for LgpTocEntry {
    type V = TocEntryView;

    open spec fn view(&self) -> TocEntryView {
        TocEntryView {
            filename: self.filename@,
            offset: self.offset,
            code: self.code,
            duplicate: self.duplicate,
        }
    }
}

impl DeepView for LgpTocEntry {
    type V = TocEntryView;

    open spec fn deep_view(&self) -> TocEntryView {
        self@
    }
}

/// One cell of the lookup table: where in the table of contents the names
/// with a given two-letter prefix start, and how many there are.
#[derive(Debug, Copy, Clone, PartialEq, Eq, Structural)]
pub struct LgpLookupTableEntry {
    /// 1-based index of the first entry; 0 where there is none.
    pub toc_offset: usize,
    /// Number of consecutive entries.
    pub file_count: usize,
}

impl Default for LgpLookupTableEntry {
    fn default() -> (r: Self)
        ensures
            r.toc_offset == 0,
            r.file_count == 0,
    {
        LgpLookupTableEntry { toc_offset: 0, file_count: 0 }
    }
}

/// The header in front of a file body.
#[derive(Debug, Clone, PartialEq, Eq)]
pub struct LgpFileHeader {
    /// The file's name once more, as stored beside the body.
    pub filename: String,
    /// Length of the body in bytes.
    pub byte_size: u32,
}

/// An `LgpFileHeader` as a mathematical value.
pub struct FileHeaderView {
    pub filename: Seq<char>,
    pub byte_size: u32,
}

impl View for LgpFileHeader {
    type V = FileHeaderView;

    open spec fn view(&self) -> FileHeaderView {
        FileHeaderView { filename: self.filename@, byte_size: self.byte_size }
    }
}

/// A file taken out of the archive.
#[derive(Debug, Clone, PartialEq, Eq)]
pub struct LgpFile {
    pub filename: String,
    pub bytes: Vec<u8>,
}

/// An `LgpFile` as a mathematical value.
pub struct FileView {
    pub filename: Seq<char>,
    pub bytes: Seq<u8>,
}

impl View for LgpFile {
    type V = FileView;

    open spec fn view(&self) -> FileView {
        FileView { filename: self.filename@, bytes: self.bytes@ }
    }
}

impl DeepView for LgpFile {
    type V = FileView;

    open spec fn deep_view(&self) -> FileView {
        self@
    }
}

} // verus!
