//! What holds of every archive: when a stream opens as one, what looking a
//! name up leads to, how extraction and lookup agree, and what a stream
//! that was cut short still yields.

use crate::field::{le_u32_value, lemma_skip_skip, DecodeErrorKind};
use crate::lgp::error::{FormatError, LgpError, Section};
use crate::lgp::lgp::{
    spec_bucket, spec_files, spec_find, spec_locate, spec_read_file, LgpView,
};
use crate::lgp::lgp_data::TocEntryView;
use crate::lgp::parser::{
    lemma_lgp_file_header_layout, lemma_lgp_header_layout, lemma_lgp_lookup_table_layout,
    lemma_lgp_toc_entry_layout, lemma_lgp_toc_layout, product_name, signature,
    spec_lgp_file_header, spec_lgp_header, spec_lgp_toc, spec_parse_lgp, toc_name_field,
};
use crate::lgp::{
    LGP_FILE_HEADER_SIZE, LGP_HEADER_SIZE, LGP_PRODUCT_NAME_SIZE, LGP_TOC_SIZE,
};
use vstd::prelude::*;
use vstd::utf8::{encode_utf8, valid_utf8};

verus! {

/// Bytes of the lookup table: 30 rows of 30 cells of 4 bytes.
pub open spec fn lookup_table_bytes() -> nat {
    3600
}

/// Whether `bytes` hold a well-formed archive of `file_count` files: the
/// signature, the file count, as many records with names of valid UTF-8, a
/// whole lookup table, and the product name in the last 14 bytes.
pub open spec fn well_formed_archive(bytes: Seq<u8>, file_count: nat) -> bool {
    &&& LGP_HEADER_SIZE + LGP_TOC_SIZE * file_count + lookup_table_bytes() <= bytes.len()
    &&& bytes.take(12) == signature()
    &&& le_u32_value(bytes.subrange(12, 16)) == file_count
    &&& forall|i: int|
        0 <= i < file_count ==> valid_utf8(
            #[trigger] toc_name_field(bytes.skip(LGP_HEADER_SIZE as int), i),
        )
    &&& bytes.skip(bytes.len() - LGP_PRODUCT_NAME_SIZE) == product_name()
}

/// A stream that holds a well-formed archive of `file_count` files opens as
/// an archive of that many files.
pub proof fn lemma_well_formed_archive_opens(bytes: Seq<u8>, file_count: nat)
    requires
        bytes.len() <= usize::MAX,
        well_formed_archive(bytes, file_count),
    ensures
        spec_parse_lgp(bytes, 0) matches Ok(archive) && archive.toc.len() == file_count,
{
    assert(bytes.skip(0) =~= bytes);
    lemma_lgp_header_layout(bytes);
    let after_header = bytes.skip(LGP_HEADER_SIZE as int);
    lemma_lgp_toc_layout(after_header, file_count);
    lemma_skip_skip(bytes, LGP_HEADER_SIZE as int, LGP_TOC_SIZE * file_count);
    lemma_lgp_lookup_table_layout(bytes.skip(LGP_HEADER_SIZE + LGP_TOC_SIZE * file_count));
    let tail = bytes.skip(bytes.len() - LGP_PRODUCT_NAME_SIZE);
    assert(tail.take(LGP_PRODUCT_NAME_SIZE as int) =~= tail);
}

/// A stream that opens as an archive holds a well-formed archive of as many
/// files as the archive then has.
pub proof fn lemma_open_archive_is_well_formed(bytes: Seq<u8>)
    requires
        bytes.len() <= usize::MAX,
        spec_parse_lgp(bytes, 0) is Ok,
    ensures
        well_formed_archive(bytes, spec_parse_lgp(bytes, 0)->Ok_0.toc.len()),
{
    assert(bytes.skip(0) =~= bytes);
    lemma_lgp_header_layout(bytes);
    let after_header = bytes.skip(LGP_HEADER_SIZE as int);
    let n = spec_lgp_header(bytes)->Ok_0.1.file_count as nat;
    lemma_lgp_toc_layout(after_header, n);
    let toc = spec_lgp_toc(after_header, n)->Ok_0.1;
    lemma_skip_skip(bytes, LGP_HEADER_SIZE as int, LGP_TOC_SIZE * n);
    lemma_lgp_lookup_table_layout(bytes.skip(LGP_HEADER_SIZE + LGP_TOC_SIZE * n));
    let tail = bytes.skip(bytes.len() - LGP_PRODUCT_NAME_SIZE);
    assert(tail.take(LGP_PRODUCT_NAME_SIZE as int) =~= tail);
    assert forall|i: int| 0 <= i < n implies valid_utf8(
        #[trigger] toc_name_field(after_header, i),
    ) by {
        let entry = toc[i];
        let record = after_header.skip(LGP_TOC_SIZE * i);
        assert(record.take(20) =~= toc_name_field(after_header, i));
        lemma_lgp_toc_entry_layout(record);
    }
}

/// A stream opens as an archive of `file_count` files exactly when it holds
/// a well-formed archive of that many files. The archive then has the
/// bytes of the stream, and its cursor at 0.
pub proof fn lemma_opens_iff_well_formed(bytes: Seq<u8>, file_count: nat)
    requires
        bytes.len() <= usize::MAX,
    ensures
        well_formed_archive(bytes, file_count) <==> (spec_parse_lgp(bytes, 0) matches Ok(archive)
            && archive.toc.len() == file_count),
        spec_parse_lgp(bytes, 0) matches Ok(archive) ==> archive.bytes == bytes && archive.cursor
            == 0,
{
    if well_formed_archive(bytes, file_count) {
        lemma_well_formed_archive_opens(bytes, file_count);
    }
    if spec_parse_lgp(bytes, 0) is Ok {
        lemma_open_archive_is_well_formed(bytes);
    }
}

/// A stream that does not start, at the cursor, with the signature does not
/// open: the header is refused where it starts.
pub proof fn lemma_corrupt_signature_fails(bytes: Seq<u8>, cursor: nat)
    requires
        cursor <= bytes.len() <= usize::MAX,
        !(cursor + 12 <= bytes.len() && bytes.subrange(cursor as int, cursor as int + 12)
            == signature()),
    ensures
        spec_parse_lgp(bytes, cursor) == Err::<LgpView, _>(
            LgpError::Format(
                FormatError::Field {
                    section: Section::Header,
                    kind: DecodeErrorKind::Tag,
                    offset: cursor as usize,
                },
            ),
        ),
{
    let input = bytes.skip(cursor as int);
    if 12 <= input.len() {
        assert(input.take(12) =~= bytes.subrange(cursor as int, cursor as int + 12));
    }
}

/// The first entry of a name in a range is an entry of that name in the
/// range that no entry of that name precedes; there is none exactly when
/// the range holds no entry of that name.
pub proof fn lemma_find_first(toc: Seq<TocEntryView>, from: int, to: int, name: Seq<char>)
    ensures
        match spec_find(toc, from, to, name) {
            Some(index) => {
                &&& from <= index < to
                &&& toc[index].filename == name
                &&& forall|k: int| from <= k < index ==> (#[trigger] toc[k]).filename != name
            },
            None => forall|k: int| from <= k < to ==> (#[trigger] toc[k]).filename != name,
        },
    decreases to - from,
{
    if from < to && toc[from].filename != name {
        lemma_find_first(toc, from + 1, to, name);
    }
}

/// A name whose cell in the lookup table counts no file is not found.
pub proof fn lemma_empty_bucket_not_found(archive: LgpView, name: Seq<char>)
    requires
        spec_bucket(encode_utf8(name)) matches Some(cell)
            && archive.table[cell.0][cell.1].file_count == 0,
    ensures
        archive.get_file(name) == Err::<Seq<u8>, _>(LgpError::NotFound),
        archive.after_get_file(name) == archive,
{
}

/// A name of fewer than two characters has no cell in the lookup table.
pub proof fn lemma_short_name_has_no_bucket(archive: LgpView, name: Seq<char>)
    requires
        name.len() < 2,
    ensures
        spec_bucket(encode_utf8(name)) is None,
        archive.get_file(name) == Err::<Seq<u8>, _>(LgpError::Lookup),
        archive.after_get_file(name) == archive,
{
    if name.len() == 1 {
        let scalar = name[0] as u32;
        assert(encode_utf8(name.drop_first()) =~= Seq::<u8>::empty());
        let bytes = encode_utf8(name);
        assert(bytes =~= vstd::utf8::encode_scalar(scalar));
        if !vstd::utf8::has_width_1_encoding(scalar) {
            assert(bytes[0] >= 0xc0) by {
                let two = ((scalar >> 6) & 0x1F) as u8;
                let three = ((scalar >> 12) & 0x0F) as u8;
                let four = ((scalar >> 18) & 0x7) as u8;
                assert(0xC0u8 | two >= 0xc0) by (bit_vector);
                assert(0xE0u8 | three >= 0xc0) by (bit_vector);
                assert(0xF0u8 | four >= 0xc0) by (bit_vector);
            }
        }
    } else {
        assert(encode_utf8(name) =~= Seq::<u8>::empty());
    }
}

/// The size that the header at `offset` declares for the body behind it.
pub open spec fn declared_size(bytes: Seq<u8>, offset: nat) -> Option<nat> {
    match spec_lgp_file_header(bytes.skip(offset as int)) {
        Ok((_, header)) => Some(header.byte_size as nat),
        Err(_) => None,
    }
}

/// A file that is read is the body that its header declares: as many bytes
/// as declared, taken from right behind the header.
pub proof fn lemma_read_file_is_declared_body(bytes: Seq<u8>, offset: nat)
    requires
        spec_read_file(bytes, offset) is Ok,
    ensures
        declared_size(bytes, offset) == Some(spec_read_file(bytes, offset)->Ok_0.len()),
        offset + LGP_FILE_HEADER_SIZE + spec_read_file(bytes, offset)->Ok_0.len() <= bytes.len(),
        spec_read_file(bytes, offset)->Ok_0 == bytes.subrange(
            offset + LGP_FILE_HEADER_SIZE,
            offset + LGP_FILE_HEADER_SIZE + spec_read_file(bytes, offset)->Ok_0.len(),
        ),
{
    let input = bytes.skip(offset as int);
    lemma_lgp_file_header_layout(input);
    lemma_skip_skip(bytes, offset as int, LGP_FILE_HEADER_SIZE as int);
    let size = spec_lgp_file_header(input)->Ok_0.1.byte_size as int;
    assert(input.skip(LGP_FILE_HEADER_SIZE as int).take(size) =~= bytes.subrange(
        offset + LGP_FILE_HEADER_SIZE,
        offset + LGP_FILE_HEADER_SIZE + size,
    ));
}

/// The file that `get_file` returns for a name belongs to an entry of that
/// name, and has the length that the header at the entry's offset declares.
pub proof fn lemma_get_file_length(archive: LgpView, name: Seq<char>)
    requires
        archive.get_file(name) is Ok,
    ensures
        spec_locate(archive.toc, archive.table, name) matches Ok(index) && 0 <= index
            < archive.toc.len() && archive.toc[index].filename == name && declared_size(
            archive.bytes,
            archive.toc[index].offset as nat,
        ) == Some(archive.get_file(name)->Ok_0.len()),
{
    let index = spec_locate(archive.toc, archive.table, name)->Ok_0;
    let cell = spec_bucket(encode_utf8(name))->0;
    let entry = archive.table[cell.0][cell.1];
    lemma_find_first(
        archive.toc,
        entry.toc_offset - 1,
        entry.toc_offset - 1 + entry.file_count,
        name,
    );
    lemma_read_file_is_declared_body(archive.bytes, archive.toc[index].offset as nat);
}

/// A name that stands in the table of contents is found if the lookup
/// table is consistent with it: the name's cell spans a range of the table
/// of contents that holds the entry. The entry found is the first of that
/// name in the range.
pub proof fn lemma_present_name_is_located(archive: LgpView, index: int)
    requires
        0 <= index < archive.toc.len(),
        spec_bucket(encode_utf8(archive.toc[index].filename)) matches Some(cell) && ({
            let entry = archive.table[cell.0][cell.1];
            0 <= entry.toc_offset - 1 <= index < entry.toc_offset - 1 + entry.file_count
                <= archive.toc.len()
        }),
    ensures
        spec_locate(archive.toc, archive.table, archive.toc[index].filename) matches Ok(found)
            && found <= index && archive.toc[found].filename == archive.toc[index].filename,
{
    let name = archive.toc[index].filename;
    let cell = spec_bucket(encode_utf8(name))->0;
    let entry = archive.table[cell.0][cell.1];
    lemma_find_first(
        archive.toc,
        entry.toc_offset - 1,
        entry.toc_offset - 1 + entry.file_count,
        name,
    );
}

/// Reading one file changes nothing for the next read, of the same name or
/// of another: the result of `get_file` does not depend on where an earlier
/// call left the cursor, and a second call for the same name leaves the
/// archive as the first left it.
pub proof fn lemma_get_file_is_repeatable(archive: LgpView, earlier: Seq<char>, name: Seq<char>)
    ensures
        archive.after_get_file(earlier).get_file(name) == archive.get_file(name),
        archive.after_get_file(name).after_get_file(name) == archive.after_get_file(name),
{
}

/// Extraction yields the files of the entries in stored order, one per
/// entry: file `i` has the name of entry `from + i` and the bytes that
/// reading at that entry's offset gives.
pub proof fn lemma_files_follow_toc(bytes: Seq<u8>, toc: Seq<TocEntryView>, from: nat)
    requires
        from <= toc.len(),
    ensures
        spec_files(bytes, toc, from).len() <= toc.len() - from,
        forall|i: int|
            0 <= i < spec_files(bytes, toc, from).len() ==> {
                &&& (#[trigger] spec_files(bytes, toc, from)[i]).filename == toc[from
                    + i].filename
                &&& spec_read_file(bytes, toc[from + i].offset as nat) == Ok::<_, LgpError>(
                    spec_files(bytes, toc, from)[i].bytes,
                )
            },
        spec_files(bytes, toc, from).len() < toc.len() - from ==> spec_read_file(
            bytes,
            toc[(from + spec_files(bytes, toc, from).len()) as int].offset as nat,
        ) is Err,
    decreases toc.len() - from,
{
    if from < toc.len() {
        if let Ok(body) = spec_read_file(bytes, toc[from as int].offset as nat) {
            lemma_files_follow_toc(bytes, toc, from + 1);
            let rest = spec_files(bytes, toc, from + 1);
            let files = spec_files(bytes, toc, from);
            assert forall|i: int| 0 <= i < files.len() implies {
                &&& (#[trigger] files[i]).filename == toc[from + i].filename
                &&& spec_read_file(bytes, toc[from + i].offset as nat) == Ok::<_, LgpError>(
                    files[i].bytes,
                )
            } by {
                if i > 0 {
                    assert(files[i] == rest[i - 1]);
                }
            }
        }
    }
}

/// Where every file of the archive can be read, extracting the whole
/// archive yields as many files as the table of contents has entries, and
/// their names are the names of the table of contents in stored order.
pub proof fn lemma_whole_archive_is_extracted(bytes: Seq<u8>, toc: Seq<TocEntryView>)
    requires
        forall|i: int|
            0 <= i < toc.len() ==> spec_read_file(bytes, (#[trigger] toc[i]).offset as nat) is Ok,
    ensures
        spec_files(bytes, toc, 0).len() == toc.len(),
        spec_files(bytes, toc, 0).map_values(|f: crate::lgp::lgp_data::FileView| f.filename)
            == toc.map_values(|e: TocEntryView| e.filename),
{
    lemma_files_follow_toc(bytes, toc, 0);
    let files = spec_files(bytes, toc, 0);
    if files.len() < toc.len() {
        let stuck = toc[files.len() as int];
    }
    assert(files.map_values(|f: crate::lgp::lgp_data::FileView| f.filename) =~= toc.map_values(
        |e: TocEntryView| e.filename,
    ));
}

/// Extraction and lookup agree: the file that extraction yields for an
/// entry is the file that `get_file` returns for the entry's name, where
/// that name leads to the entry or to one with the same offset.
pub proof fn lemma_extraction_agrees_with_lookup(archive: LgpView, index: int)
    requires
        0 <= index < spec_files(archive.bytes, archive.toc, 0).len(),
        spec_locate(archive.toc, archive.table, archive.toc[index].filename) matches Ok(found)
            && archive.toc[found].offset == archive.toc[index].offset,
    ensures
        archive.get_file(archive.toc[index].filename) == Ok::<_, LgpError>(
            spec_files(archive.bytes, archive.toc, 0)[index].bytes,
        ),
        spec_files(archive.bytes, archive.toc, 0)[index].filename == archive.toc[index].filename,
{
    if 0 < archive.toc.len() {
        lemma_files_follow_toc(archive.bytes, archive.toc, 0);
    }
}

/// A file whose header is whole and whose body is not is refused as
/// truncated, with the size that the header declares and the number of
/// bytes that the stream holds behind the header.
pub proof fn lemma_short_body_is_truncated(bytes: Seq<u8>, offset: nat)
    requires
        offset + LGP_FILE_HEADER_SIZE <= bytes.len() <= usize::MAX,
        declared_size(bytes, offset) matches Some(declared) && bytes.len() < offset
            + LGP_FILE_HEADER_SIZE + declared,
    ensures
        spec_read_file(bytes, offset) == Err::<Seq<u8>, _>(
            LgpError::Truncated {
                declared: declared_size(bytes, offset)->0 as usize,
                available: (bytes.len() - offset - LGP_FILE_HEADER_SIZE) as usize,
            },
        ),
{
    lemma_lgp_file_header_layout(bytes.skip(offset as int));
    lemma_skip_skip(bytes, offset as int, LGP_FILE_HEADER_SIZE as int);
}

/// The header in front of a file body is decoded from its 24 bytes alone.
proof fn lemma_file_header_is_local(a: Seq<u8>, b: Seq<u8>)
    requires
        LGP_FILE_HEADER_SIZE <= a.len() <= usize::MAX,
        LGP_FILE_HEADER_SIZE <= b.len() <= usize::MAX,
        a.take(LGP_FILE_HEADER_SIZE as int) == b.take(LGP_FILE_HEADER_SIZE as int),
    ensures
        match spec_lgp_file_header(a) {
            Ok((_, header)) => spec_lgp_file_header(b) matches Ok((_, other)) && other == header,
            Err(e) => spec_lgp_file_header(b) matches Err(f) && f.kind == e.kind && a.len()
                - e.remaining == b.len() - f.remaining,
        },
{
    lemma_lgp_file_header_layout(a);
    lemma_lgp_file_header_layout(b);
    let head = a.take(LGP_FILE_HEADER_SIZE as int);
    assert(a.take(20) =~= head.take(20));
    assert(b.take(20) =~= head.take(20));
    assert(a.subrange(20, 24) =~= head.subrange(20, 24));
    assert(b.subrange(20, 24) =~= head.subrange(20, 24));
}

/// A stream cut down to its first `length` bytes still yields every file
/// that lies within them, and refuses as truncated every file whose header
/// lies within them and whose body does not.
pub proof fn lemma_truncated_stream(bytes: Seq<u8>, length: nat, offset: nat)
    requires
        length <= bytes.len() <= usize::MAX,
        spec_read_file(bytes, offset) is Ok,
        offset + LGP_FILE_HEADER_SIZE <= length,
    ensures
        ({
            let body = spec_read_file(bytes, offset)->Ok_0;
            let available = length - offset - LGP_FILE_HEADER_SIZE;
            spec_read_file(bytes.take(length as int), offset) == if body.len() <= available {
                Ok::<_, LgpError>(body)
            } else {
                Err(
                    LgpError::Truncated {
                        declared: body.len() as usize,
                        available: available as usize,
                    },
                )
            }
        }),
{
    let cut = bytes.take(length as int);
    let whole_input = bytes.skip(offset as int);
    let cut_input = cut.skip(offset as int);
    lemma_read_file_is_declared_body(bytes, offset);
    assert(whole_input.take(LGP_FILE_HEADER_SIZE as int) =~= cut_input.take(
        LGP_FILE_HEADER_SIZE as int,
    ));
    lemma_file_header_is_local(whole_input, cut_input);
    lemma_lgp_file_header_layout(whole_input);
    lemma_lgp_file_header_layout(cut_input);
    let body = spec_read_file(bytes, offset)->Ok_0;
    if body.len() <= length - offset - LGP_FILE_HEADER_SIZE {
        assert(cut_input.skip(LGP_FILE_HEADER_SIZE as int).take(body.len() as int)
            =~= whole_input.skip(LGP_FILE_HEADER_SIZE as int).take(body.len() as int));
    }
}

/// In an archive whose stream was cut short, `get_file` still returns every
/// file that lies within the stream as it would from the whole stream, and
/// fails with `Truncated` for a file whose body the cut runs through.
pub proof fn lemma_truncated_archive(archive: LgpView, length: nat, name: Seq<char>)
    requires
        length <= archive.bytes.len() <= usize::MAX,
        archive.get_file(name) is Ok,
        archive.toc[spec_locate(archive.toc, archive.table, name)->Ok_0].offset
            + LGP_FILE_HEADER_SIZE <= length,
    ensures
        ({
            let cut = LgpView { bytes: archive.bytes.take(length as int), ..archive };
            let offset = archive.toc[spec_locate(archive.toc, archive.table, name)->Ok_0].offset;
            let body = archive.get_file(name)->Ok_0;
            let available = length - offset - LGP_FILE_HEADER_SIZE;
            cut.get_file(name) == if body.len() <= available {
                Ok::<_, LgpError>(body)
            } else {
                Err(
                    LgpError::Truncated {
                        declared: body.len() as usize,
                        available: available as usize,
                    },
                )
            }
        }),
{
    let index = spec_locate(archive.toc, archive.table, name)->Ok_0;
    lemma_truncated_stream(archive.bytes, length, archive.toc[index].offset as nat);
}

} // verus!
