//! The archive engine: lookup of a file by name, and extraction of all
//! files in the order of the table of contents.

use crate::field::{str_eq, DecodeError};
use crate::lgp::error::{FormatError, LgpError, Section};
use crate::lgp::lgp_data::{FileView, LgpFile, LgpLookupTableEntry, LgpTocEntry, TocEntryView};
use crate::lgp::parser::{lgp_file_header, spec_lgp_file_header, table_view};
use crate::lgp::LGP_LOOKUP_TABLE_SIZE;
use crate::stream::ByteStream;
use vstd::prelude::*;
use vstd::slice::{slice_subrange, slice_to_vec};
use vstd::utf8::encode_utf8;

verus! {

/// The error for a field of `section` that could not be decoded, in a
/// stream of `total` bytes: the field's position is counted from the start
/// of the stream.
pub open spec fn field_error(section: Section, total: nat, e: DecodeError) -> LgpError {
    LgpError::Format(
        FormatError::Field { section, kind: e.kind, offset: (total - e.remaining) as usize },
    )
}

/// What reading the file whose header starts at `offset` yields: the body
/// that the header declares, whole.
pub open spec fn spec_read_file(bytes: Seq<u8>, offset: nat) -> Result<Seq<u8>, LgpError> {
    if offset > bytes.len() {
        Err(LgpError::Io { offset: offset as u64 })
    } else {
        match spec_lgp_file_header(bytes.skip(offset as int)) {
            Err(e) => Err(field_error(Section::FileHeader, bytes.len(), e)),
            Ok((body, header)) => if body.len() < header.byte_size {
                Err(
                    LgpError::Truncated {
                        declared: header.byte_size as usize,
                        available: body.len() as usize,
                    },
                )
            } else {
                Ok(body.take(header.byte_size as int))
            },
        }
    }
}

/// Where reading the file at `offset` leaves the cursor: behind the body
/// when the file was read, at `offset` when only the seek succeeded, and
/// where it was when not even that did.
pub open spec fn spec_cursor_after_read(bytes: Seq<u8>, cursor: nat, offset: nat) -> nat {
    if offset > bytes.len() {
        cursor
    } else {
        match spec_lgp_file_header(bytes.skip(offset as int)) {
            Ok((body, header)) if body.len() >= header.byte_size => (bytes.len() - body.len()
                + header.byte_size) as nat,
            _ => offset,
        }
    }
}

/// Reads the file whose header starts at `offset`.
pub fn lgp_read_file_bytes(reader: &mut ByteStream, offset: u64) -> (r: Result<Vec<u8>, LgpError>)
    ensures
        final(reader).bytes() == old(reader).bytes(),
        final(reader).cursor() == spec_cursor_after_read(
            old(reader).bytes(),
            old(reader).cursor(),
            offset as nat,
        ),
        r matches Ok(body) ==> spec_read_file(old(reader).bytes(), offset as nat) == Ok::<
            _,
            LgpError,
        >(body@),
        r matches Err(e) ==> spec_read_file(old(reader).bytes(), offset as nat) == Err::<
            Seq<u8>,
            _,
        >(e),
{
    let total = reader.len();
    if reader.seek(offset).is_err() {
        return Err(LgpError::Io { offset });
    }
    let buffer = reader.fill_buf();
    match lgp_file_header(buffer) {
        Err(e) => Err(
            LgpError::Format(
                FormatError::Field {
                    section: Section::FileHeader,
                    kind: e.kind,
                    offset: total - e.remaining,
                },
            ),
        ),
        Ok((body, header)) => {
            let declared = header.byte_size as usize;
            if body.len() < declared {
                Err(LgpError::Truncated { declared, available: body.len() })
            } else {
                let file_bytes = slice_to_vec(slice_subrange(body, 0, declared));
                let consumed = buffer.len() - body.len() + declared;
                reader.consume(consumed);
                Ok(file_bytes)
            }
        },
    }
}

/// The cell of the lookup table that a name is looked up in, as row and
/// column: the first two bytes of the name, counted from the letter `a`,
/// the column shifted by one. A name with fewer than two bytes has none, nor
/// has a name of which either byte falls outside the table.
pub open spec fn spec_bucket(name: Seq<u8>) -> Option<(int, int)> {
    if name.len() < 2 || name[0] < 0x61 || name[1] < 0x61 {
        None
    } else if name[0] - 0x61 < LGP_LOOKUP_TABLE_SIZE && name[1] - 0x61 + 1
        < LGP_LOOKUP_TABLE_SIZE {
        Some((name[0] - 0x61, name[1] - 0x61 + 1))
    } else {
        None
    }
}

/// The first entry among `toc[from..to]` that has the given name.
pub open spec fn spec_find(toc: Seq<TocEntryView>, from: int, to: int, name: Seq<char>) -> Option<
    int,
>
    decreases to - from,
{
    if from >= to {
        None
    } else if toc[from].filename == name {
        Some(from)
    } else {
        spec_find(toc, from + 1, to, name)
    }
}

/// An archive as a mathematical value: the bytes of its stream, the cursor
/// of the stream, the table of contents, and the rows of the lookup table.
pub struct LgpView {
    pub bytes: Seq<u8>,
    pub cursor: nat,
    pub toc: Seq<TocEntryView>,
    pub table: Seq<Seq<LgpLookupTableEntry>>,
}

/// The index, in the table of contents, of the entry that a name leads to.
pub open spec fn spec_locate(
    toc: Seq<TocEntryView>,
    table: Seq<Seq<LgpLookupTableEntry>>,
    name: Seq<char>,
) -> Result<int, LgpError> {
    match spec_bucket(encode_utf8(name)) {
        None => Err(LgpError::Lookup),
        Some((row, column)) => {
            let cell = table[row][column];
            let first = cell.toc_offset - 1;
            if cell.file_count == 0 || cell.toc_offset == 0 {
                Err(LgpError::NotFound)
            } else if first + cell.file_count > toc.len() {
                Err(
                    LgpError::Format(
                        FormatError::Bucket {
                            first: first as usize,
                            count: cell.file_count,
                            toc_len: toc.len() as usize,
                        },
                    ),
                )
            } else {
                match spec_find(toc, first, first + cell.file_count, name) {
                    None => Err(LgpError::NotFound),
                    Some(index) => Ok(index),
                }
            }
        },
    }
}

impl LgpView {
    /// What `get_file` returns for a name.
    pub open spec fn get_file(self, name: Seq<char>) -> Result<Seq<u8>, LgpError> {
        match spec_locate(self.toc, self.table, name) {
            Err(e) => Err(e),
            Ok(index) => spec_read_file(self.bytes, self.toc[index].offset as nat),
        }
    }

    /// The archive after `get_file` for a name: only the cursor moves.
    pub open spec fn after_get_file(self, name: Seq<char>) -> LgpView {
        match spec_locate(self.toc, self.table, name) {
            Err(e) => self,
            Ok(index) => LgpView {
                cursor: spec_cursor_after_read(
                    self.bytes,
                    self.cursor,
                    self.toc[index].offset as nat,
                ),
                ..self
            },
        }
    }
}

/// The files that extraction yields from entry `from` of the table of
/// contents on: one file per entry, in stored order, up to the first entry
/// whose file cannot be read.
pub open spec fn spec_files(bytes: Seq<u8>, toc: Seq<TocEntryView>, from: nat) -> Seq<FileView>
    decreases toc.len() - from,
{
    if from >= toc.len() {
        Seq::empty()
    } else {
        match spec_read_file(bytes, toc[from as int].offset as nat) {
            Err(_) => Seq::empty(),
            Ok(body) => seq![FileView { filename: toc[from as int].filename, bytes: body }]
                + spec_files(bytes, toc, from + 1),
        }
    }
}

/// An extraction in progress as a mathematical value: the bytes and the
/// cursor of the stream, the table of contents, and the index of the entry
/// that comes next.
pub struct LgpIteratorView {
    pub bytes: Seq<u8>,
    pub cursor: nat,
    pub toc: Seq<TocEntryView>,
    pub index: nat,
}

impl LgpIteratorView {
    /// What `next` returns: the file of the entry that comes next, if there
    /// is such an entry and its file can be read.
    pub open spec fn next(self) -> Option<FileView> {
        if self.index >= self.toc.len() {
            None
        } else {
            match spec_read_file(self.bytes, self.toc[self.index as int].offset as nat) {
                Err(_) => None,
                Ok(body) => Some(
                    FileView { filename: self.toc[self.index as int].filename, bytes: body },
                ),
            }
        }
    }

    /// The extraction after `next`: one entry further when a file was read,
    /// at its end when the file could not be read.
    pub open spec fn after_next(self) -> LgpIteratorView {
        if self.index >= self.toc.len() {
            self
        } else {
            let offset = self.toc[self.index as int].offset as nat;
            LgpIteratorView {
                cursor: spec_cursor_after_read(self.bytes, self.cursor, offset),
                index: if spec_read_file(self.bytes, offset) is Ok {
                    self.index + 1
                } else {
                    self.toc.len()
                },
                ..self
            }
        }
    }

    /// The files that are still to come.
    pub open spec fn files(self) -> Seq<FileView> {
        spec_files(self.bytes, self.toc, self.index)
    }
}

/// An open archive: the stream, and the table of contents and the lookup
/// table that were read from it.
#[derive(Debug)]
pub struct Lgp {
    reader: ByteStream,
    toc: Vec<LgpTocEntry>,
    lookup_table: [[LgpLookupTableEntry; LGP_LOOKUP_TABLE_SIZE]; LGP_LOOKUP_TABLE_SIZE],
}

impl View for Lgp {
    type V = LgpView;

    closed spec fn view(&self) -> LgpView {
        LgpView {
            bytes: self.reader.bytes(),
            cursor: self.reader.cursor(),
            toc: self.toc.deep_view(),
            table: table_view(self.lookup_table),
        }
    }
}

impl Lgp {
    /// Puts an archive together from its stream and the tables read from it.
    pub(crate) fn new(
        reader: ByteStream,
        toc: Vec<LgpTocEntry>,
        lookup_table: [[LgpLookupTableEntry; LGP_LOOKUP_TABLE_SIZE]; LGP_LOOKUP_TABLE_SIZE],
    ) -> (r: Self)
        ensures
            r@ == (LgpView {
                bytes: reader.bytes(),
                cursor: reader.cursor(),
                toc: toc.deep_view(),
                table: table_view(lookup_table),
            }),
    {
        Lgp { reader, toc, lookup_table }
    }

    /// Reads the file of the given name: the name's first two bytes pick a
    /// cell of the lookup table, the cell a range of the table of contents,
    /// and the first entry of that name in the range says where the file is.
    #[verifier::loop_isolation(false)]
    pub fn get_file(&mut self, filename: &str) -> (r: Result<Vec<u8>, LgpError>)
        ensures
            final(self)@ == old(self)@.after_get_file(filename@),
            final(self)@ == (LgpView { cursor: final(self)@.cursor, ..old(self)@ }),
            r matches Ok(body) ==> old(self)@.get_file(filename@) == Ok::<_, LgpError>(body@),
            r matches Err(e) ==> old(self)@.get_file(filename@) == Err::<Seq<u8>, _>(e),
    {
        let cell = match self.lookup(filename) {
            None => {
                return Err(LgpError::Lookup);
            },
            Some(cell) => *cell,
        };
        if cell.file_count == 0 || cell.toc_offset == 0 {
            return Err(LgpError::NotFound);
        }
        let first = cell.toc_offset - 1;
        if cell.file_count > self.toc.len() || first > self.toc.len() - cell.file_count {
            return Err(
                LgpError::Format(
                    FormatError::Bucket {
                        first,
                        count: cell.file_count,
                        toc_len: self.toc.len(),
                    },
                ),
            );
        }
        let end = first + cell.file_count;
        let mut index = first;
        while index < end && !str_eq(self.toc[index].filename.as_str(), filename)
            invariant
                first <= index <= end <= self.toc@.len(),
                spec_find(self.toc.deep_view(), first as int, end as int, filename@) == spec_find(
                    self.toc.deep_view(),
                    index as int,
                    end as int,
                    filename@,
                ),
            decreases end - index,
        {
            assert(self.toc.deep_view()[index as int] == self.toc@[index as int]@);
            index = index + 1;
        }
        if index == end {
            return Err(LgpError::NotFound);
        }
        assert(self.toc.deep_view()[index as int] == self.toc@[index as int]@);
        let offset = self.toc[index].offset;
        lgp_read_file_bytes(&mut self.reader, offset as u64)
    }

    /// The entries of the table of contents, in stored order.
    pub fn files_metadata_iter(&self) -> (r: core::slice::Iter<'_, LgpTocEntry>)
        ensures
            vstd::std_specs::slice::into_iter_elts(r).map_values(|e: LgpTocEntry| e@)
                == self@.toc,
    {
        self.toc.iter()
    }

    /// The number of files in the archive.
    pub fn num_files(&self) -> (r: usize)
        ensures
            r == self@.toc.len(),
    {
        self.toc.len()
    }

    /// The size of the archive in bytes.
    pub fn num_bytes(&self) -> (r: usize)
        ensures
            r == self@.bytes.len(),
    {
        self.reader.len()
    }

    /// The cell of the lookup table that a name is looked up in.
    pub fn lookup(&self, filename: &str) -> (r: Option<&LgpLookupTableEntry>)
        ensures
            match spec_bucket(encode_utf8(filename@)) {
                None => r is None,
                Some((row, column)) => r == Some(&self@.table[row][column]),
            },
    {
        let name = filename.as_bytes();
        if name.len() < 2 || name[0] < 0x61 || name[1] < 0x61 {
            return None;
        }
        let row: usize = (name[0] - 0x61) as usize;
        let column: usize = (name[1] - 0x61) as usize + 1;
        if row < LGP_LOOKUP_TABLE_SIZE && column < LGP_LOOKUP_TABLE_SIZE {
            Some(&self.lookup_table[row][column])
        } else {
            None
        }
    }

    /// Starts the extraction of all files, in the order of the table of
    /// contents.
    pub fn into_iter(self) -> (r: LgpIterator)
        ensures
            r@ == (LgpIteratorView {
                bytes: self@.bytes,
                cursor: self@.cursor,
                toc: self@.toc,
                index: 0,
            }),
    {
        LgpIterator { reader: self.reader, toc: self.toc, toc_idx: 0 }
    }
}

/// The extraction of all files of an archive, one file per call of `next`.
#[derive(Debug)]
pub struct LgpIterator {
    reader: ByteStream,
    toc: Vec<LgpTocEntry>,
    toc_idx: usize,
}

impl View for LgpIterator {
    type V = LgpIteratorView;

    closed spec fn view(&self) -> LgpIteratorView {
        LgpIteratorView {
            bytes: self.reader.bytes(),
            cursor: self.reader.cursor(),
            toc: self.toc.deep_view(),
            index: self.toc_idx as nat,
        }
    }
}

impl LgpIterator {
    /// Reads the file of the next entry of the table of contents. A file
    /// that cannot be read ends the extraction: this call and every later
    /// one return `None`.
    pub fn next(&mut self) -> (r: Option<LgpFile>)
        ensures
            final(self)@ == old(self)@.after_next(),
            final(self)@.bytes == old(self)@.bytes,
            final(self)@.toc == old(self)@.toc,
            r matches Some(file) ==> old(self)@.next() == Some(file@),
            r is None ==> old(self)@.next() is None,
    {
        if self.toc_idx >= self.toc.len() {
            return None;
        }
        assert(self.toc.deep_view()[self.toc_idx as int] == self.toc@[self.toc_idx as int]@);
        let offset = self.toc[self.toc_idx].offset;
        match lgp_read_file_bytes(&mut self.reader, offset as u64) {
            Err(_) => {
                self.toc_idx = self.toc.len();
                None
            },
            Ok(bytes) => {
                let filename = self.toc[self.toc_idx].filename.clone();
                self.toc_idx = self.toc_idx + 1;
                Some(LgpFile { filename, bytes })
            },
        }
    }

    /// Reads all files that are still to come.
    pub fn collect(self) -> (r: Vec<LgpFile>)
        ensures
            r.deep_view() == self@.files(),
    {
        let ghost start = self@;
        let mut rest = self;
        let mut files: Vec<LgpFile> = Vec::new();
        let mut done = false;
        while !done
            invariant
                rest@.bytes == start.bytes,
                rest@.toc == start.toc,
                start.files() == files.deep_view() + (if done {
                    Seq::empty()
                } else {
                    rest@.files()
                }),
            decreases
                    (if done {
                        0
                    } else if rest@.index >= rest@.toc.len() {
                        1
                    } else {
                        rest@.toc.len() - rest@.index + 1
                    }),
        {
            let ghost head = files.deep_view();
            match rest.next() {
                None => {
                    done = true;
                },
                Some(file) => {
                    let ghost item = file@;
                    files.push(file);
                    proof {
                        assert(files.deep_view() =~= head + seq![item]);
                        assert(head + (seq![item] + rest@.files()) =~= (head + seq![item])
                            + rest@.files());
                    }
                },
            }
        }
        proof {
            assert(files.deep_view() + Seq::<FileView>::empty() =~= files.deep_view());
        }
        files
    }
}

} // verus!
