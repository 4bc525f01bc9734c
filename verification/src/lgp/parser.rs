//! Decoders for the sections of an LGP archive.

use crate::field::{
    ascii_string, fixed_size, le_u16, le_u16_value, le_u32, le_u32_value, lemma_count_done,
    lemma_count_layout, lemma_count_step, lemma_count_succeeds, lemma_skip_skip, prepend,
    spec_ascii_string,
    spec_count, spec_le_u16, spec_le_u32, spec_tag, spec_u8, tag, trim_end, u8, DecodeError,
    Decoded,
};
use crate::lgp::lgp_data::{
    FileHeaderView, LgpFileHeader, LgpHeader, LgpLookupTableEntry, LgpTocEntry, TocEntryView,
};
use crate::lgp::error::{FormatError, LgpError, Section};
use crate::lgp::lgp::{field_error, Lgp, LgpView};
use crate::lgp::{
    LGP_HEADER_SIZE, LGP_LOOKUP_TABLE_SIZE, LGP_PRODUCT_NAME_SIZE, LGP_TOC_FILENAME_SIZE,
    LGP_TOC_SIZE,
};
use crate::stream::ByteStream;
use vstd::prelude::*;
use vstd::utf8::{decode_utf8, valid_utf8};

verus! {

/// The bytes that open every archive: two NULs and `SQUARESOFT`.
pub open spec fn signature() -> Seq<u8> {
    seq![0u8, 0u8, 0x53u8, 0x51u8, 0x55u8, 0x41u8, 0x52u8, 0x45u8, 0x53u8, 0x4fu8, 0x46u8, 0x54u8]
}

/// The bytes that close every archive: `FINAL FANTASY7`.
pub open spec fn product_name() -> Seq<u8> {
    seq![
        0x46u8, 0x49u8, 0x4eu8, 0x41u8, 0x4cu8, 0x20u8, 0x46u8, 0x41u8, 0x4eu8, 0x54u8, 0x41u8,
        0x53u8, 0x59u8, 0x37u8,
    ]
}

/// The archive header: the signature, then the file count.
pub open spec fn spec_lgp_header(input: Seq<u8>) -> Decoded<LgpHeader> {
    match spec_tag(input, signature()) {
        Err(e) => Err(e),
        Ok((after_tag, _)) => match spec_le_u32(after_tag) {
            Err(e) => Err(e),
            Ok((rest, file_count)) => Ok((rest, LgpHeader { file_count: file_count as usize })),
        },
    }
}

/// One record of the table of contents: name, offset, type code, and the
/// duplicate link, of which 0 stands for none.
pub open spec fn spec_lgp_toc_entry(input: Seq<u8>) -> Decoded<TocEntryView> {
    match spec_ascii_string(input, LGP_TOC_FILENAME_SIZE as nat) {
        Err(e) => Err(e),
        Ok((after_name, filename)) => match spec_le_u32(after_name) {
            Err(e) => Err(e),
            Ok((after_offset, offset)) => match spec_u8(after_offset) {
                Err(e) => Err(e),
                Ok((after_code, code)) => match spec_le_u16(after_code) {
                    Err(e) => Err(e),
                    Ok((rest, link)) => Ok(
                        (
                            rest,
                            TocEntryView {
                                filename,
                                offset,
                                code,
                                duplicate: if link == 0 {
                                    None
                                } else {
                                    Some(link)
                                },
                            },
                        ),
                    ),
                },
            },
        },
    }
}

/// The decoder of one record of the table of contents.
pub open spec fn toc_entry_decoder() -> spec_fn(Seq<u8>) -> Decoded<TocEntryView> {
    |i: Seq<u8>| spec_lgp_toc_entry(i)
}

/// The table of contents: `num_files` records in a row.
pub open spec fn spec_lgp_toc(input: Seq<u8>, num_files: nat) -> Decoded<Seq<TocEntryView>> {
    spec_count(toc_entry_decoder(), input, num_files)
}

/// One cell of the lookup table: two 16-bit values.
pub open spec fn spec_lgp_lookup_table_entry(input: Seq<u8>) -> Decoded<LgpLookupTableEntry> {
    match spec_le_u16(input) {
        Err(e) => Err(e),
        Ok((after_offset, toc_offset)) => match spec_le_u16(after_offset) {
            Err(e) => Err(e),
            Ok((rest, file_count)) => Ok(
                (
                    rest,
                    LgpLookupTableEntry {
                        toc_offset: toc_offset as usize,
                        file_count: file_count as usize,
                    },
                ),
            ),
        },
    }
}

/// The decoder of one cell of the lookup table.
pub open spec fn lookup_cell_decoder() -> spec_fn(Seq<u8>) -> Decoded<LgpLookupTableEntry> {
    |i: Seq<u8>| spec_lgp_lookup_table_entry(i)
}

/// `n` cells of the lookup table in a row.
pub open spec fn spec_lgp_lookup_cells(input: Seq<u8>, n: nat) -> Decoded<
    Seq<LgpLookupTableEntry>,
> {
    spec_count(lookup_cell_decoder(), input, n)
}

/// The decoder of one row of the lookup table.
pub open spec fn lookup_row_decoder() -> spec_fn(Seq<u8>) -> Decoded<Seq<LgpLookupTableEntry>> {
    |i: Seq<u8>| spec_lgp_lookup_cells(i, LGP_LOOKUP_TABLE_SIZE as nat)
}

/// `n` rows of the lookup table, each of 30 cells.
pub open spec fn spec_lgp_lookup_rows(input: Seq<u8>, n: nat) -> Decoded<
    Seq<Seq<LgpLookupTableEntry>>,
> {
    spec_count(lookup_row_decoder(), input, n)
}

/// The lookup table: 30 rows of 30 cells, row after row.
pub open spec fn spec_lgp_lookup_table(input: Seq<u8>) -> Decoded<Seq<Seq<LgpLookupTableEntry>>> {
    spec_lgp_lookup_rows(input, LGP_LOOKUP_TABLE_SIZE as nat)
}

/// The rows of a lookup table as sequences.
pub open spec fn table_view(
    table: [[LgpLookupTableEntry; LGP_LOOKUP_TABLE_SIZE]; LGP_LOOKUP_TABLE_SIZE],
) -> Seq<Seq<LgpLookupTableEntry>> {
    Seq::new(LGP_LOOKUP_TABLE_SIZE as nat, |i: int| table[i]@)
}

/// The header in front of a file body: the name, then the size of the body.
pub open spec fn spec_lgp_file_header(input: Seq<u8>) -> Decoded<FileHeaderView> {
    match spec_ascii_string(input, LGP_TOC_FILENAME_SIZE as nat) {
        Err(e) => Err(e),
        Ok((after_name, filename)) => match spec_le_u32(after_name) {
            Err(e) => Err(e),
            Ok((rest, byte_size)) => Ok((rest, FileHeaderView { filename, byte_size })),
        },
    }
}

/// The product name that ends the archive.
pub open spec fn spec_lgp_product_name(input: Seq<u8>) -> Decoded<()> {
    match spec_tag(input, product_name()) {
        Err(e) => Err(e),
        Ok((rest, _)) => Ok((rest, ())),
    }
}

/// What opening a stream as an archive yields. The header is read at the
/// cursor, the table of contents and the lookup table follow it, and the
/// product name is read from the last bytes of the stream, wherever the
/// lookup table ended. The archive starts out with its cursor at 0.
pub open spec fn spec_parse_lgp(bytes: Seq<u8>, cursor: nat) -> Result<LgpView, LgpError> {
    let total = bytes.len();
    match spec_lgp_header(bytes.skip(cursor as int)) {
        Err(e) => Err(field_error(Section::Header, total, e)),
        Ok((after_header, header)) => match spec_lgp_toc(after_header, header.file_count as nat) {
            Err(e) => Err(field_error(Section::Toc, total, e)),
            Ok((after_toc, toc)) => match spec_lgp_lookup_table(after_toc) {
                Err(e) => Err(field_error(Section::LookupTable, total, e)),
                Ok((_, table)) => match spec_lgp_product_name(
                    bytes.skip(total - LGP_PRODUCT_NAME_SIZE),
                ) {
                    Err(e) => Err(field_error(Section::ProductName, total, e)),
                    Ok(_) => Ok(LgpView { bytes, cursor: 0, toc, table }),
                },
            },
        },
    }
}

/// The archive header lies in the first 16 bytes of its input: 12 of
/// signature and 4 of file count.
pub proof fn lemma_lgp_header_layout(input: Seq<u8>)
    ensures
        match spec_lgp_header(input) {
            Ok((rest, header)) => {
                &&& LGP_HEADER_SIZE <= input.len()
                &&& input.take(12) == signature()
                &&& rest == input.skip(LGP_HEADER_SIZE as int)
                &&& header.file_count == le_u32_value(input.subrange(12, 16))
            },
            Err(e) => {
                &&& e.remaining <= input.len()
                &&& (input.len() < LGP_HEADER_SIZE || input.take(12) != signature())
            },
        },
{
    if 12 <= input.len() && input.take(12) == signature() {
        if 16 <= input.len() {
            assert(input.skip(12).take(4) =~= input.subrange(12, 16));
            lemma_skip_skip(input, 12, 4);
        }
    }
}

/// A record of the table of contents lies in the first 27 bytes of its
/// input: 20 of name, 4 of offset, 1 of type code and 2 of duplicate link.
/// It is decoded exactly when those bytes are there and the name is valid
/// UTF-8.
pub proof fn lemma_lgp_toc_entry_layout(input: Seq<u8>)
    ensures
        match spec_lgp_toc_entry(input) {
            Ok((rest, entry)) => {
                &&& LGP_TOC_SIZE <= input.len()
                &&& valid_utf8(input.take(20))
                &&& rest == input.skip(LGP_TOC_SIZE as int)
                &&& entry.filename == trim_end(decode_utf8(input.take(20)), '\0')
                &&& entry.offset == le_u32_value(input.subrange(20, 24))
                &&& entry.code == input[24]
                &&& entry.duplicate == if le_u16_value(input.subrange(25, 27)) == 0 {
                    None
                } else {
                    Some(le_u16_value(input.subrange(25, 27)) as u16)
                }
            },
            Err(e) => {
                &&& e.remaining <= input.len()
                &&& (input.len() < LGP_TOC_SIZE || !valid_utf8(input.take(20)))
            },
        },
{
    if 20 <= input.len() {
        let after_name = input.skip(20);
        if 4 <= after_name.len() {
            assert(after_name.take(4) =~= input.subrange(20, 24));
            lemma_skip_skip(input, 20, 4);
            let after_offset = after_name.skip(4);
            if 1 <= after_offset.len() {
                lemma_skip_skip(input, 24, 1);
                let after_code = after_offset.skip(1);
                if 2 <= after_code.len() {
                    assert(after_code.take(2) =~= input.subrange(25, 27));
                    lemma_skip_skip(input, 25, 2);
                }
            }
        }
    }
}

/// A cell of the lookup table lies in the first 4 bytes of its input.
pub proof fn lemma_lgp_lookup_table_entry_layout(input: Seq<u8>)
    ensures
        match spec_lgp_lookup_table_entry(input) {
            Ok((rest, cell)) => {
                &&& 4 <= input.len()
                &&& rest == input.skip(4)
                &&& cell.toc_offset == le_u16_value(input.subrange(0, 2))
                &&& cell.file_count == le_u16_value(input.subrange(2, 4))
            },
            Err(e) => e.remaining <= input.len() < 4,
        },
{
    if 2 <= input.len() {
        assert(input.take(2) =~= input.subrange(0, 2));
        if 2 <= input.skip(2).len() {
            assert(input.skip(2).take(2) =~= input.subrange(2, 4));
            lemma_skip_skip(input, 2, 2);
        }
    }
}

/// The header in front of a file body lies in the first 24 bytes of its
/// input: 20 of name and 4 of size. It is decoded exactly when those bytes
/// are there and the name is valid UTF-8.
pub proof fn lemma_lgp_file_header_layout(input: Seq<u8>)
    ensures
        match spec_lgp_file_header(input) {
            Ok((rest, header)) => {
                &&& 24 <= input.len()
                &&& valid_utf8(input.take(20))
                &&& rest == input.skip(24)
                &&& header.filename == trim_end(decode_utf8(input.take(20)), '\0')
                &&& header.byte_size == le_u32_value(input.subrange(20, 24))
            },
            Err(e) => {
                &&& e.remaining <= input.len()
                &&& (input.len() < 24 || !valid_utf8(input.take(20)))
            },
        },
{
    if 20 <= input.len() {
        let after_name = input.skip(20);
        if 4 <= after_name.len() {
            assert(after_name.take(4) =~= input.subrange(20, 24));
            lemma_skip_skip(input, 20, 4);
        }
    }
}

/// The records of the table of contents have 27 bytes each.
pub proof fn lemma_toc_entry_fixed_size()
    ensures
        fixed_size(toc_entry_decoder(), LGP_TOC_SIZE as nat),
{
    assert forall|x: Seq<u8>| #![trigger toc_entry_decoder()(x)]
        match toc_entry_decoder()(x) {
            Ok((rest, _)) => LGP_TOC_SIZE <= x.len() && rest == x.skip(LGP_TOC_SIZE as int),
            Err(e) => e.remaining <= x.len(),
        } by {
        lemma_lgp_toc_entry_layout(x);
    }
}

/// The cells of the lookup table have 4 bytes each.
pub proof fn lemma_lookup_cell_fixed_size()
    ensures
        fixed_size(lookup_cell_decoder(), 4),
{
    assert forall|x: Seq<u8>| #![trigger lookup_cell_decoder()(x)]
        match lookup_cell_decoder()(x) {
            Ok((rest, _)) => 4 <= x.len() && rest == x.skip(4),
            Err(e) => e.remaining <= x.len(),
        } by {
        lemma_lgp_lookup_table_entry_layout(x);
    }
}

/// The rows of the lookup table have 120 bytes each.
pub proof fn lemma_lookup_row_fixed_size()
    ensures
        fixed_size(lookup_row_decoder(), 120),
{
    lemma_lookup_cell_fixed_size();
    assert forall|x: Seq<u8>| #![trigger lookup_row_decoder()(x)]
        match lookup_row_decoder()(x) {
            Ok((rest, _)) => 120 <= x.len() && rest == x.skip(120),
            Err(e) => e.remaining <= x.len(),
        } by {
        lemma_count_layout(lookup_cell_decoder(), 4, x, LGP_LOOKUP_TABLE_SIZE as nat);
    }
}

/// The name field of record `i` of a table of contents.
pub open spec fn toc_name_field(toc: Seq<u8>, i: int) -> Seq<u8> {
    toc.subrange(LGP_TOC_SIZE * i, LGP_TOC_SIZE * i + LGP_TOC_FILENAME_SIZE)
}

/// A table of contents of `num_files` records lies in the first
/// `27 * num_files` bytes of its input, record `i` in the 27 bytes from byte
/// `27 * i` on. It is decoded exactly when those bytes are there and every
/// name is valid UTF-8.
pub proof fn lemma_lgp_toc_layout(input: Seq<u8>, num_files: nat)
    ensures
        match spec_lgp_toc(input, num_files) {
            Ok((rest, toc)) => {
                &&& LGP_TOC_SIZE * num_files <= input.len()
                &&& rest == input.skip(LGP_TOC_SIZE * num_files)
                &&& toc.len() == num_files
                &&& forall|i: int|
                    0 <= i < num_files ==> spec_lgp_toc_entry(input.skip(LGP_TOC_SIZE * i))
                        == Ok::<_, DecodeError>(
                        (input.skip(LGP_TOC_SIZE * (i + 1)), #[trigger] toc[i]),
                    )
            },
            Err(e) => {
                &&& e.remaining <= input.len()
                &&& (input.len() < LGP_TOC_SIZE * num_files || exists|i: int|
                    0 <= i < num_files && !valid_utf8(#[trigger] toc_name_field(input, i)))
            },
        },
{
    lemma_toc_entry_fixed_size();
    lemma_count_layout(toc_entry_decoder(), LGP_TOC_SIZE as nat, input, num_files);
    if spec_lgp_toc(input, num_files) is Err && LGP_TOC_SIZE * num_files <= input.len()
        && forall|i: int| 0 <= i < num_files ==> valid_utf8(#[trigger] toc_name_field(input, i)) {
        assert forall|i: int| 0 <= i < num_files implies toc_entry_decoder()(
            #[trigger] input.skip(LGP_TOC_SIZE * i),
        ) is Ok by {
            let record = input.skip(LGP_TOC_SIZE * i);
            assert(record.take(20) =~= toc_name_field(input, i));
            lemma_lgp_toc_entry_layout(record);
        }
        lemma_count_succeeds(toc_entry_decoder(), LGP_TOC_SIZE as nat, input, num_files);
    }
}

/// Byte at which cell `column` of row `row` starts in a lookup table.
pub open spec fn cell_position(row: int, column: int) -> int {
    4 * (LGP_LOOKUP_TABLE_SIZE * row + column)
}

/// The lookup table lies in the first 3600 bytes of its input, row after
/// row, each cell in 4 bytes: 2 of offset and 2 of count. It is decoded
/// exactly when those bytes are there.
pub proof fn lemma_lgp_lookup_table_layout(input: Seq<u8>)
    ensures
        match spec_lgp_lookup_table(input) {
            Ok((rest, table)) => {
                &&& 3600 <= input.len()
                &&& rest == input.skip(3600)
                &&& table.len() == LGP_LOOKUP_TABLE_SIZE
                &&& forall|row: int|
                    0 <= row < LGP_LOOKUP_TABLE_SIZE ==> (#[trigger] table[row]).len()
                        == LGP_LOOKUP_TABLE_SIZE
                &&& forall|row: int, column: int|
                    0 <= row < LGP_LOOKUP_TABLE_SIZE && 0 <= column < LGP_LOOKUP_TABLE_SIZE ==> {
                        let at = cell_position(row, column);
                        &&& (#[trigger] table[row][column]).toc_offset == le_u16_value(
                            input.subrange(at, at + 2),
                        )
                        &&& table[row][column].file_count == le_u16_value(
                            input.subrange(at + 2, at + 4),
                        )
                    }
            },
            Err(e) => e.remaining <= input.len() < 3600,
        },
{
    lemma_lookup_cell_fixed_size();
    lemma_lookup_row_fixed_size();
    lemma_count_layout(lookup_row_decoder(), 120, input, LGP_LOOKUP_TABLE_SIZE as nat);
    match spec_lgp_lookup_table(input) {
        Ok((rest, table)) => {
            assert forall|row: int, column: int|
                0 <= row < LGP_LOOKUP_TABLE_SIZE && 0 <= column < LGP_LOOKUP_TABLE_SIZE implies {
                let at = cell_position(row, column);
                &&& (#[trigger] table[row][column]).toc_offset == le_u16_value(
                    input.subrange(at, at + 2),
                )
                &&& table[row][column].file_count == le_u16_value(input.subrange(at + 2, at + 4))
                &&& table[row].len() == LGP_LOOKUP_TABLE_SIZE
            } by {
                let cells = table[row];
                let row_input = input.skip(120 * row);
                lemma_count_layout(
                    lookup_cell_decoder(),
                    4,
                    row_input,
                    LGP_LOOKUP_TABLE_SIZE as nat,
                );
                let cell = cells[column];
                let cell_input = row_input.skip(4 * column);
                lemma_lgp_lookup_table_entry_layout(cell_input);
                let at = cell_position(row, column);
                assert(cell_input.subrange(0, 2) =~= input.subrange(at, at + 2));
                assert(cell_input.subrange(2, 4) =~= input.subrange(at + 2, at + 4));
            }
            assert forall|row: int| 0 <= row < LGP_LOOKUP_TABLE_SIZE implies (
            #[trigger] table[row]).len() == LGP_LOOKUP_TABLE_SIZE by {
                let cell = table[row][0];
            }
        },
        Err(e) => {
            if 3600 <= input.len() {
                assert forall|i: int| 0 <= i < LGP_LOOKUP_TABLE_SIZE implies lookup_row_decoder()(
                    #[trigger] input.skip(120 * i),
                ) is Ok by {
                    let row = input.skip(120 * i);
                    assert forall|j: int|
                        0 <= j < LGP_LOOKUP_TABLE_SIZE implies lookup_cell_decoder()(
                        #[trigger] row.skip(4 * j),
                    ) is Ok by {
                        lemma_lgp_lookup_table_entry_layout(row.skip(4 * j));
                    }
                    lemma_count_succeeds(
                        lookup_cell_decoder(),
                        4,
                        row,
                        LGP_LOOKUP_TABLE_SIZE as nat,
                    );
                }
                lemma_count_succeeds(
                    lookup_row_decoder(),
                    120,
                    input,
                    LGP_LOOKUP_TABLE_SIZE as nat,
                );
            }
        },
    }
}

/// Decodes the archive header.
pub fn lgp_header<'a>(input: &'a [u8]) -> (r: Result<(&'a [u8], LgpHeader), DecodeError>)
    ensures
        r matches Ok(p) ==> spec_lgp_header(input@) == Ok::<_, DecodeError>((p.0@, p.1)),
        r matches Err(e) ==> spec_lgp_header(input@) == Err::<(Seq<u8>, LgpHeader), _>(e),
{
    let magic: [u8; 12] = [0, 0, 0x53, 0x51, 0x55, 0x41, 0x52, 0x45, 0x53, 0x4f, 0x46, 0x54];
    assert(magic@ =~= signature());
    let (input, _) = tag(input, &magic)?;
    let (input, file_count) = le_u32(input)?;
    Ok((input, LgpHeader { file_count: file_count as usize }))
}

/// Decodes one record of the table of contents.
pub fn lgp_toc_entry<'a>(input: &'a [u8]) -> (r: Result<(&'a [u8], LgpTocEntry), DecodeError>)
    ensures
        r matches Ok(p) ==> spec_lgp_toc_entry(input@) == Ok::<_, DecodeError>((p.0@, p.1@)),
        r matches Err(e) ==> spec_lgp_toc_entry(input@) == Err::<(Seq<u8>, TocEntryView), _>(e),
{
    let (input, filename) = ascii_string(input, LGP_TOC_FILENAME_SIZE)?;
    let (input, offset) = le_u32(input)?;
    let (input, code) = u8(input)?;
    let (input, link) = le_u16(input)?;
    Ok(
        (
            input,
            LgpTocEntry {
                filename,
                offset,
                code,
                duplicate: if link == 0 {
                    None
                } else {
                    Some(link)
                },
            },
        ),
    )
}

/// Decodes a table of contents of `num_files` records.
pub fn lgp_toc<'a>(input: &'a [u8], num_files: usize) -> (r: Result<
    (&'a [u8], Vec<LgpTocEntry>),
    DecodeError,
>)
    ensures
        r matches Ok(p) ==> spec_lgp_toc(input@, num_files as nat) == Ok::<_, DecodeError>(
            (p.0@, p.1.deep_view()),
        ),
        r matches Err(e) ==> spec_lgp_toc(input@, num_files as nat) == Err::<
            (Seq<u8>, Seq<TocEntryView>),
            _,
        >(e),
{
    let mut toc: Vec<LgpTocEntry> = Vec::new();
    let mut rest: &[u8] = input;
    let mut i: usize = 0;
    while i < num_files
        invariant
            i <= num_files,
            spec_lgp_toc(input@, num_files as nat) == prepend(
                toc.deep_view(),
                spec_lgp_toc(rest@, (num_files - i) as nat),
            ),
        decreases num_files - i,
    {
        proof {
            lemma_count_step(
                toc_entry_decoder(),
                input@,
                num_files as nat,
                toc.deep_view(),
                rest@,
                (num_files - i) as nat,
            );
        }
        let ghost head = toc.deep_view();
        let (next, entry) = lgp_toc_entry(rest)?;
        let ghost item = entry@;
        toc.push(entry);
        assert(toc.deep_view() =~= head.push(item));
        rest = next;
        i = i + 1;
    }
    proof {
        lemma_count_done(toc_entry_decoder(), input@, num_files as nat, toc.deep_view(), rest@);
    }
    Ok((rest, toc))
}

/// Decodes one cell of the lookup table.
pub fn lgp_lookup_table_entry<'a>(input: &'a [u8]) -> (r: Result<
    (&'a [u8], LgpLookupTableEntry),
    DecodeError,
>)
    ensures
        r matches Ok(p) ==> spec_lgp_lookup_table_entry(input@) == Ok::<_, DecodeError>(
            (p.0@, p.1),
        ),
        r matches Err(e) ==> spec_lgp_lookup_table_entry(input@) == Err::<
            (Seq<u8>, LgpLookupTableEntry),
            _,
        >(e),
{
    let (input, toc_offset) = le_u16(input)?;
    let (input, file_count) = le_u16(input)?;
    Ok(
        (
            input,
            LgpLookupTableEntry {
                toc_offset: toc_offset as usize,
                file_count: file_count as usize,
            },
        ),
    )
}

/// Decodes one row of the lookup table.
pub fn lgp_lookup_table_row<'a>(input: &'a [u8]) -> (r: Result<
    (&'a [u8], [LgpLookupTableEntry; LGP_LOOKUP_TABLE_SIZE]),
    DecodeError,
>)
    ensures
        r matches Ok(p) ==> spec_lgp_lookup_cells(input@, LGP_LOOKUP_TABLE_SIZE as nat) == Ok::<
            _,
            DecodeError,
        >((p.0@, p.1@)),
        r matches Err(e) ==> spec_lgp_lookup_cells(input@, LGP_LOOKUP_TABLE_SIZE as nat) == Err::<
            (Seq<u8>, Seq<LgpLookupTableEntry>),
            _,
        >(e),
{
    let mut row = [LgpLookupTableEntry { toc_offset: 0, file_count: 0 };LGP_LOOKUP_TABLE_SIZE];
    let mut rest: &[u8] = input;
    let mut j: usize = 0;
    while j < LGP_LOOKUP_TABLE_SIZE
        invariant
            j <= LGP_LOOKUP_TABLE_SIZE,
            spec_lgp_lookup_cells(input@, LGP_LOOKUP_TABLE_SIZE as nat) == prepend(
                row@.take(j as int),
                spec_lgp_lookup_cells(rest@, (LGP_LOOKUP_TABLE_SIZE - j) as nat),
            ),
        decreases LGP_LOOKUP_TABLE_SIZE - j,
    {
        proof {
            lemma_count_step(
                lookup_cell_decoder(),
                input@,
                LGP_LOOKUP_TABLE_SIZE as nat,
                row@.take(j as int),
                rest@,
                (LGP_LOOKUP_TABLE_SIZE - j) as nat,
            );
        }
        let ghost head = row@.take(j as int);
        let (next, cell) = lgp_lookup_table_entry(rest)?;
        row[j] = cell;
        assert(row@.take(j + 1) =~= head.push(cell));
        rest = next;
        j = j + 1;
    }
    proof {
        assert(row@.take(j as int) =~= row@);
        lemma_count_done(
            lookup_cell_decoder(),
            input@,
            LGP_LOOKUP_TABLE_SIZE as nat,
            row@,
            rest@,
        );
    }
    Ok((rest, row))
}

/// Decodes the lookup table.
pub fn lgp_lookup_table<'a>(input: &'a [u8]) -> (r: Result<
    (&'a [u8], [[LgpLookupTableEntry; LGP_LOOKUP_TABLE_SIZE]; LGP_LOOKUP_TABLE_SIZE]),
    DecodeError,
>)
    ensures
        r matches Ok(p) ==> spec_lgp_lookup_table(input@) == Ok::<_, DecodeError>(
            (p.0@, table_view(p.1)),
        ),
        r matches Err(e) ==> spec_lgp_lookup_table(input@) == Err::<
            (Seq<u8>, Seq<Seq<LgpLookupTableEntry>>),
            _,
        >(e),
{
    let empty = LgpLookupTableEntry { toc_offset: 0, file_count: 0 };
    let mut table = [[empty;LGP_LOOKUP_TABLE_SIZE];LGP_LOOKUP_TABLE_SIZE];
    let mut rest: &[u8] = input;
    let mut i: usize = 0;
    while i < LGP_LOOKUP_TABLE_SIZE
        invariant
            i <= LGP_LOOKUP_TABLE_SIZE,
            spec_lgp_lookup_table(input@) == prepend(
                table_view(table).take(i as int),
                spec_lgp_lookup_rows(rest@, (LGP_LOOKUP_TABLE_SIZE - i) as nat),
            ),
        decreases LGP_LOOKUP_TABLE_SIZE - i,
    {
        proof {
            lemma_count_step(
                lookup_row_decoder(),
                input@,
                LGP_LOOKUP_TABLE_SIZE as nat,
                table_view(table).take(i as int),
                rest@,
                (LGP_LOOKUP_TABLE_SIZE - i) as nat,
            );
        }
        let ghost head = table_view(table).take(i as int);
        let (next, row) = lgp_lookup_table_row(rest)?;
        table[i] = row;
        assert(table_view(table).take(i + 1) =~= head.push(row@));
        rest = next;
        i = i + 1;
    }
    proof {
        assert(table_view(table).take(i as int) =~= table_view(table));
        lemma_count_done(
            lookup_row_decoder(),
            input@,
            LGP_LOOKUP_TABLE_SIZE as nat,
            table_view(table),
            rest@,
        );
    }
    Ok((rest, table))
}

/// Decodes the header in front of a file body.
pub fn lgp_file_header<'a>(input: &'a [u8]) -> (r: Result<(&'a [u8], LgpFileHeader), DecodeError>)
    ensures
        r matches Ok(p) ==> spec_lgp_file_header(input@) == Ok::<_, DecodeError>((p.0@, p.1@)),
        r matches Err(e) ==> spec_lgp_file_header(input@) == Err::<(Seq<u8>, FileHeaderView), _>(
            e,
        ),
{
    let (input, filename) = ascii_string(input, LGP_TOC_FILENAME_SIZE)?;
    let (input, byte_size) = le_u32(input)?;
    Ok((input, LgpFileHeader { filename, byte_size }))
}

/// Checks the product name that ends the archive.
pub fn lgp_product_name<'a>(input: &'a [u8]) -> (r: Result<(&'a [u8], ()), DecodeError>)
    ensures
        r matches Ok(p) ==> spec_lgp_product_name(input@) == Ok::<_, DecodeError>((p.0@, ())),
        r matches Err(e) ==> spec_lgp_product_name(input@) == Err::<(Seq<u8>, ()), _>(e),
{
    let name: [u8; 14] = [
        0x46, 0x49, 0x4e, 0x41, 0x4c, 0x20, 0x46, 0x41, 0x4e, 0x54, 0x41, 0x53, 0x59, 0x37,
    ];
    assert(name@ =~= product_name());
    let (input, _) = tag(input, &name)?;
    Ok((input, ()))
}

/// The error for a field of `section` that could not be decoded, in a
/// stream of `total` bytes.
fn section_error(section: Section, total: usize, e: DecodeError) -> (r: LgpError)
    requires
        e.remaining <= total,
    ensures
        r == field_error(section, total as nat, e),
{
    LgpError::Format(FormatError::Field { section, kind: e.kind, offset: total - e.remaining })
}

/// Opens an archive: checks the signature, reads the table of contents and
/// the lookup table, checks the product name at the end of the stream, and
/// rewinds the stream.
pub fn parse_lgp(reader: ByteStream) -> (r: Result<Lgp, LgpError>)
    ensures
        r matches Ok(lgp) ==> spec_parse_lgp(reader.bytes(), reader.cursor()) == Ok::<
            _,
            LgpError,
        >(lgp@),
        r matches Err(e) ==> spec_parse_lgp(reader.bytes(), reader.cursor()) == Err::<LgpView, _>(
            e,
        ),
{
    let mut reader = reader;
    let total = reader.len();
    let input = reader.fill_buf();
    proof {
        lemma_lgp_header_layout(input@);
        lemma_toc_entry_fixed_size();
        lemma_lookup_row_fixed_size();
    }
    let (input, header) = match lgp_header(input) {
        Err(e) => {
            return Err(section_error(Section::Header, total, e));
        },
        Ok(found) => found,
    };
    proof {
        lemma_count_layout(
            toc_entry_decoder(),
            LGP_TOC_SIZE as nat,
            input@,
            header.file_count as nat,
        );
    }
    let (input, toc) = match lgp_toc(input, header.file_count) {
        Err(e) => {
            return Err(section_error(Section::Toc, total, e));
        },
        Ok(found) => found,
    };
    proof {
        lemma_count_layout(lookup_row_decoder(), 120, input@, LGP_LOOKUP_TABLE_SIZE as nat);
    }
    let (_, lookup_table) = match lgp_lookup_table(input) {
        Err(e) => {
            return Err(section_error(Section::LookupTable, total, e));
        },
        Ok(found) => found,
    };
    match reader.seek((total - LGP_PRODUCT_NAME_SIZE) as u64) {
        Err(e) => Err(LgpError::Io { offset: e.offset }),
        Ok(_) => match lgp_product_name(reader.fill_buf()) {
            Err(e) => Err(section_error(Section::ProductName, total, e)),
            Ok(_) => {
                reader.rewind();
                Ok(Lgp::new(reader, toc, lookup_table))
            },
        },
    }
}

} // verus!
