use ff7_assets::field::DecodeErrorKind;
use ff7_assets::lgp::error::{FormatError, LgpError, Section};
use ff7_assets::lgp::lgp::{lgp_read_file_bytes, Lgp};
use ff7_assets::lgp::lgp_data::{LgpFile, LgpLookupTableEntry};
use ff7_assets::lgp::parser::parse_lgp;
use ff7_assets::stream::ByteStream;

const TABLE_BYTES: usize = 3600;

fn name_field(name: &[u8]) -> Vec<u8> {
    let mut field = name.to_vec();
    field.resize(20, 0);
    field
}

fn cell_of(name: &str) -> usize {
    let bytes = name.as_bytes();
    30 * (bytes[0] - b'a') as usize + (bytes[1] - b'a') as usize + 1
}

fn table_start(file_count: usize) -> usize {
    16 + 27 * file_count
}

fn body_start(file_count: usize) -> usize {
    table_start(file_count) + TABLE_BYTES
}

/// An archive of the given files, stored in the given order, with a lookup
/// table that spans, for each two-letter prefix, the run of entries that
/// starts at the first entry with that prefix.
fn archive(files: &[(&str, &[u8])]) -> Vec<u8> {
    let mut bytes = b"\0\0SQUARESOFT".to_vec();
    bytes.extend_from_slice(&(files.len() as u32).to_le_bytes());
    let mut offset = body_start(files.len());
    let mut cells = vec![(0u16, 0u16); 900];
    for (index, (name, body)) in files.iter().enumerate() {
        bytes.extend(name_field(name.as_bytes()));
        bytes.extend_from_slice(&(offset as u32).to_le_bytes());
        bytes.push(14);
        bytes.extend_from_slice(&0u16.to_le_bytes());
        offset += 24 + body.len();
        let cell = &mut cells[cell_of(name)];
        if cell.1 == 0 {
            cell.0 = index as u16 + 1;
        }
        cell.1 += 1;
    }
    for (toc_offset, file_count) in cells {
        bytes.extend_from_slice(&toc_offset.to_le_bytes());
        bytes.extend_from_slice(&file_count.to_le_bytes());
    }
    for (name, body) in files {
        bytes.extend(name_field(name.as_bytes()));
        bytes.extend_from_slice(&(body.len() as u32).to_le_bytes());
        bytes.extend_from_slice(body);
    }
    bytes.extend_from_slice(b"FINAL FANTASY7");
    bytes
}

fn put_u16(bytes: &mut [u8], at: usize, value: u16) {
    bytes[at..at + 2].copy_from_slice(&value.to_le_bytes());
}

fn put_u32(bytes: &mut [u8], at: usize, value: u32) {
    bytes[at..at + 4].copy_from_slice(&value.to_le_bytes());
}

fn set_cell(bytes: &mut [u8], file_count: usize, cell: usize, toc_offset: u16, count: u16) {
    let at = table_start(file_count) + 4 * cell;
    put_u16(bytes, at, toc_offset);
    put_u16(bytes, at + 2, count);
}

fn open(bytes: Vec<u8>) -> Lgp {
    parse_lgp(ByteStream::new(bytes)).unwrap()
}

fn open_error(bytes: Vec<u8>) -> LgpError {
    parse_lgp(ByteStream::new(bytes)).err().unwrap()
}

fn field_error(section: Section, kind: DecodeErrorKind, offset: usize) -> LgpError {
    LgpError::Format(FormatError::Field { section, kind, offset })
}

const THREE_FILES: [(&str, &[u8]); 3] = [
    ("aaaa.rsd", b"first body"),
    ("aaab.p", b""),
    ("biskdead.cam", b"camera data of some length"),
];

#[test]
fn opens_an_archive_without_files() {
    let bytes = archive(&[]);
    assert_eq!(bytes.len(), 16 + 3600 + 14);
    let lgp = open(bytes);
    assert_eq!(lgp.num_files(), 0);
    assert_eq!(lgp.num_bytes(), 3630);
    assert_eq!(lgp.files_metadata_iter().count(), 0);
}

#[test]
fn opens_archives_of_any_file_count() {
    for count in [1usize, 2, 3, 17, 100] {
        let names: Vec<String> = (0..count).map(|i| format!("aa{:04}.p", i)).collect();
        let bodies: Vec<Vec<u8>> = (0..count).map(|i| vec![i as u8; i % 7]).collect();
        let files: Vec<(&str, &[u8])> =
            names.iter().zip(&bodies).map(|(n, b)| (n.as_str(), b.as_slice())).collect();
        let bytes = archive(&files);
        let size = bytes.len();
        let lgp = open(bytes);
        assert_eq!(lgp.num_files(), count);
        assert_eq!(lgp.num_bytes(), size);
    }
}

#[test]
fn table_of_contents_is_exposed_in_stored_order() {
    let mut bytes = archive(&THREE_FILES);
    put_u16(&mut bytes, 16 + 27 + 25, 1);
    bytes[16 + 2 * 27 + 24] = 200;
    let lgp = open(bytes);
    let toc: Vec<_> = lgp.files_metadata_iter().collect();
    assert_eq!(toc.len(), 3);
    assert_eq!(toc[0].filename, "aaaa.rsd");
    assert_eq!(toc[1].filename, "aaab.p");
    assert_eq!(toc[2].filename, "biskdead.cam");
    assert_eq!(toc[0].offset as usize, body_start(3));
    assert_eq!(toc[1].offset as usize, body_start(3) + 24 + 10);
    assert_eq!(toc[2].offset as usize, body_start(3) + 24 + 10 + 24);
    assert_eq!(toc[0].code, 14);
    assert_eq!(toc[2].code, 200);
    assert_eq!(toc[0].duplicate, None);
    assert_eq!(toc[1].duplicate, Some(1));
}

#[test]
fn get_file_returns_the_body_that_the_file_header_declares() {
    let mut lgp = open(archive(&THREE_FILES));
    assert_eq!(lgp.get_file("aaaa.rsd"), Ok(b"first body".to_vec()));
    assert_eq!(lgp.get_file("aaab.p"), Ok(Vec::new()));
    assert_eq!(lgp.get_file("biskdead.cam"), Ok(b"camera data of some length".to_vec()));
}

#[test]
fn get_file_is_stable_across_calls_in_any_order() {
    let mut lgp = open(archive(&THREE_FILES));
    for _ in 0..3 {
        assert_eq!(lgp.get_file("biskdead.cam"), Ok(b"camera data of some length".to_vec()));
        assert_eq!(lgp.get_file("aaaa.rsd"), Ok(b"first body".to_vec()));
        assert_eq!(lgp.get_file("aaaa.rsd"), Ok(b"first body".to_vec()));
        assert_eq!(lgp.get_file("zz"), Err(LgpError::NotFound));
        assert_eq!(lgp.get_file("aaab.p"), Ok(Vec::new()));
    }
    assert_eq!(lgp.num_files(), 3);
}

#[test]
fn get_file_compares_names_byte_for_byte() {
    let mut lgp = open(archive(&THREE_FILES));
    assert_eq!(lgp.get_file("aaaa.RSD"), Err(LgpError::NotFound));
    assert_eq!(lgp.get_file("aaaa.rs"), Err(LgpError::NotFound));
    assert_eq!(lgp.get_file("aaaa.rsd\0"), Err(LgpError::NotFound));
    assert_eq!(lgp.get_file("aaaa.rsdx"), Err(LgpError::NotFound));
}

#[test]
fn get_file_takes_the_size_from_the_file_header() {
    let mut bytes = archive(&THREE_FILES);
    put_u32(&mut bytes, body_start(3) + 20, 4);
    let mut lgp = open(bytes);
    assert_eq!(lgp.get_file("aaaa.rsd"), Ok(b"firs".to_vec()));
}

#[test]
fn get_file_does_not_trust_the_name_in_the_file_header() {
    let mut bytes = archive(&THREE_FILES);
    let at = body_start(3);
    bytes[at..at + 8].copy_from_slice(b"other.xx");
    let mut lgp = open(bytes);
    assert_eq!(lgp.get_file("aaaa.rsd"), Ok(b"first body".to_vec()));
    assert_eq!(lgp.get_file("other.xx"), Err(LgpError::NotFound));
}

#[test]
fn a_name_in_an_empty_bucket_is_not_found() {
    let mut lgp = open(archive(&THREE_FILES));
    assert_eq!(lgp.get_file("ab"), Err(LgpError::NotFound));
    assert_eq!(lgp.get_file("zzzz.p"), Err(LgpError::NotFound));
    assert_eq!(lgp.get_file("ba.cam"), Err(LgpError::NotFound));
}

#[test]
fn a_bucket_that_starts_nowhere_is_empty() {
    let mut bytes = archive(&THREE_FILES);
    set_cell(&mut bytes, 3, cell_of("aa"), 0, 2);
    let mut lgp = open(bytes);
    assert_eq!(lgp.get_file("aaaa.rsd"), Err(LgpError::NotFound));
}

#[test]
fn a_name_outside_its_bucket_is_unreachable() {
    let mut bytes = archive(&THREE_FILES);
    set_cell(&mut bytes, 3, cell_of("aa"), 1, 1);
    let mut lgp = open(bytes);
    assert_eq!(lgp.get_file("aaaa.rsd"), Ok(b"first body".to_vec()));
    assert_eq!(lgp.get_file("aaab.p"), Err(LgpError::NotFound));
    let mut bytes = archive(&THREE_FILES);
    set_cell(&mut bytes, 3, cell_of("aa"), 2, 1);
    let mut lgp = open(bytes);
    assert_eq!(lgp.get_file("aaaa.rsd"), Err(LgpError::NotFound));
    assert_eq!(lgp.get_file("aaab.p"), Ok(Vec::new()));
}

#[test]
fn the_second_letter_is_looked_up_one_column_further() {
    let bytes = archive(&[("ab.x", b"body")]);
    let cell = table_start(1) + 4 * 2;
    assert_eq!(&bytes[cell..cell + 4], &[1u8, 0, 1, 0][..]);
    let mut lgp = open(bytes.clone());
    assert_eq!(lgp.get_file("ab.x"), Ok(b"body".to_vec()));
    let mut moved = bytes;
    set_cell(&mut moved, 1, 2, 0, 0);
    set_cell(&mut moved, 1, 1, 1, 1);
    let mut lgp = open(moved);
    assert_eq!(lgp.get_file("ab.x"), Err(LgpError::NotFound));
    assert_eq!(lgp.get_file("aa.x"), Err(LgpError::NotFound));
}

#[test]
fn lookup_gives_the_cell_of_a_name() {
    let lgp = open(archive(&THREE_FILES));
    assert_eq!(
        lgp.lookup("aaaa.rsd"),
        Some(&LgpLookupTableEntry { toc_offset: 1, file_count: 2 })
    );
    assert_eq!(
        lgp.lookup("bi"),
        Some(&LgpLookupTableEntry { toc_offset: 3, file_count: 1 })
    );
    assert_eq!(lgp.lookup("zz"), Some(&LgpLookupTableEntry { toc_offset: 0, file_count: 0 }));
    assert_eq!(lgp.lookup("a"), None);
    assert_eq!(lgp.lookup("A1"), None);
}

#[test]
fn a_name_of_fewer_than_two_bytes_has_no_bucket() {
    let mut lgp = open(archive(&THREE_FILES));
    assert_eq!(lgp.get_file(""), Err(LgpError::Lookup));
    assert_eq!(lgp.get_file("a"), Err(LgpError::Lookup));
    assert_eq!(lgp.get_file("b"), Err(LgpError::Lookup));
    assert_eq!(lgp.get_file("\u{e9}"), Err(LgpError::Lookup));
}

#[test]
fn a_name_outside_the_table_has_no_bucket() {
    let mut lgp = open(archive(&THREE_FILES));
    for name in ["Aaaa.rsd", "aAaa.rsd", "1aaa", "a1aa", "_a", "a_", "a`", "`a", "\u{7f}a", "a~"] {
        assert_eq!(lgp.get_file(name), Err(LgpError::Lookup));
    }
}

#[test]
fn the_last_cell_of_the_table_can_be_reached() {
    let name = "~}last";
    assert_eq!(cell_of(name), 899);
    let mut lgp = open(archive(&[("aa.p", b"a"), (name, b"the last one")]));
    assert_eq!(lgp.get_file(name), Ok(b"the last one".to_vec()));
}

#[test]
fn the_first_entry_of_a_name_in_its_bucket_wins() {
    let mut lgp = open(archive(&[("aa.p", b"one"), ("ab.p", b"two"), ("ab.p", b"three")]));
    assert_eq!(lgp.get_file("ab.p"), Ok(b"two".to_vec()));
}

#[test]
fn a_duplicate_link_is_not_followed() {
    let mut bytes = archive(&[("aa.p", b"one"), ("ab.p", b"two")]);
    put_u16(&mut bytes, 16 + 27 + 25, 1);
    let mut lgp = open(bytes);
    assert_eq!(lgp.files_metadata_iter().nth(1).unwrap().duplicate, Some(1));
    assert_eq!(lgp.get_file("ab.p"), Ok(b"two".to_vec()));
    let files = lgp.into_iter().collect();
    assert_eq!(files[1].bytes, b"two".to_vec());
}

#[test]
fn a_bucket_that_reaches_beyond_the_table_of_contents_is_a_format_error() {
    let mut bytes = archive(&THREE_FILES);
    set_cell(&mut bytes, 3, cell_of("aa"), 1, 4);
    let mut lgp = open(bytes);
    assert_eq!(
        lgp.get_file("aaaa.rsd"),
        Err(LgpError::Format(FormatError::Bucket { first: 0, count: 4, toc_len: 3 }))
    );
    let mut bytes = archive(&THREE_FILES);
    set_cell(&mut bytes, 3, cell_of("zz"), 4, 1);
    let mut lgp = open(bytes);
    assert_eq!(
        lgp.get_file("zz.p"),
        Err(LgpError::Format(FormatError::Bucket { first: 3, count: 1, toc_len: 3 }))
    );
    let mut bytes = archive(&THREE_FILES);
    set_cell(&mut bytes, 3, cell_of("zz"), u16::MAX, u16::MAX);
    let mut lgp = open(bytes);
    assert_eq!(
        lgp.get_file("zz.p"),
        Err(LgpError::Format(FormatError::Bucket { first: 65534, count: 65535, toc_len: 3 }))
    );
}

#[test]
fn a_bucket_that_ends_with_the_table_of_contents_is_in_bounds() {
    let mut bytes = archive(&THREE_FILES);
    set_cell(&mut bytes, 3, cell_of("bi"), 1, 3);
    let mut lgp = open(bytes);
    assert_eq!(lgp.get_file("biskdead.cam"), Ok(b"camera data of some length".to_vec()));
    assert_eq!(lgp.get_file("bi"), Err(LgpError::NotFound));
}

#[test]
fn an_offset_beyond_the_stream_is_an_io_error() {
    let mut bytes = archive(&THREE_FILES);
    let size = bytes.len() as u32;
    put_u32(&mut bytes, 16 + 20, size + 1);
    put_u32(&mut bytes, 16 + 27 + 20, u32::MAX);
    let mut lgp = open(bytes);
    assert_eq!(lgp.get_file("aaaa.rsd"), Err(LgpError::Io { offset: size as u64 + 1 }));
    assert_eq!(lgp.get_file("aaab.p"), Err(LgpError::Io { offset: u32::MAX as u64 }));
    assert_eq!(lgp.get_file("biskdead.cam"), Ok(b"camera data of some length".to_vec()));
}

#[test]
fn a_file_header_that_is_cut_short_is_a_format_error() {
    let mut bytes = archive(&THREE_FILES);
    let size = bytes.len();
    put_u32(&mut bytes, 16 + 20, size as u32);
    put_u32(&mut bytes, 16 + 27 + 20, size as u32 - 19);
    put_u32(&mut bytes, 16 + 2 * 27 + 20, size as u32 - 23);
    let mut lgp = open(bytes);
    assert_eq!(
        lgp.get_file("aaaa.rsd"),
        Err(field_error(Section::FileHeader, DecodeErrorKind::Eof, size))
    );
    assert_eq!(
        lgp.get_file("aaab.p"),
        Err(field_error(Section::FileHeader, DecodeErrorKind::Eof, size - 19))
    );
    assert_eq!(
        lgp.get_file("biskdead.cam"),
        Err(field_error(Section::FileHeader, DecodeErrorKind::Eof, size - 3))
    );
}

#[test]
fn a_file_header_with_a_name_that_is_no_text_is_a_format_error() {
    let mut bytes = archive(&THREE_FILES);
    let at = body_start(3);
    bytes[at + 3] = 0xff;
    let mut lgp = open(bytes);
    assert_eq!(
        lgp.get_file("aaaa.rsd"),
        Err(field_error(Section::FileHeader, DecodeErrorKind::Text, at))
    );
}

#[test]
fn a_body_cut_short_is_truncated_and_the_others_stay_readable() {
    let mut bytes = archive(&THREE_FILES);
    let last = body_start(3) + 24 + 10 + 24;
    put_u32(&mut bytes, last + 20, 1000);
    let available = bytes.len() - last - 24;
    assert_eq!(available, 26 + 14);
    let mut lgp = open(bytes);
    assert_eq!(lgp.get_file("aaaa.rsd"), Ok(b"first body".to_vec()));
    assert_eq!(
        lgp.get_file("biskdead.cam"),
        Err(LgpError::Truncated { declared: 1000, available })
    );
    assert_eq!(lgp.get_file("aaaa.rsd"), Ok(b"first body".to_vec()));
    assert_eq!(lgp.get_file("aaab.p"), Ok(Vec::new()));
    assert_eq!(
        lgp.get_file("biskdead.cam"),
        Err(LgpError::Truncated { declared: 1000, available })
    );
}

#[test]
fn a_body_that_ends_with_the_stream_is_whole() {
    let mut bytes = archive(&THREE_FILES);
    let last = body_start(3) + 24 + 10 + 24;
    put_u32(&mut bytes, last + 20, 26 + 14);
    let mut lgp = open(bytes.clone());
    assert_eq!(lgp.get_file("biskdead.cam"), Ok(bytes[last + 24..].to_vec()));
    put_u32(&mut bytes, last + 20, 26 + 14 + 1);
    let mut lgp = open(bytes);
    assert_eq!(
        lgp.get_file("biskdead.cam"),
        Err(LgpError::Truncated { declared: 41, available: 40 })
    );
}

#[test]
fn read_file_bytes_leaves_the_cursor_behind_the_body() {
    let bytes = archive(&THREE_FILES);
    let first = body_start(3);
    let size = bytes.len();
    let mut reader = ByteStream::new(bytes);
    assert_eq!(lgp_read_file_bytes(&mut reader, first as u64), Ok(b"first body".to_vec()));
    assert_eq!(reader.position(), first + 24 + 10);
    assert_eq!(
        lgp_read_file_bytes(&mut reader, size as u64 + 5),
        Err(LgpError::Io { offset: size as u64 + 5 })
    );
    assert_eq!(reader.position(), first + 24 + 10);
    assert_eq!(
        lgp_read_file_bytes(&mut reader, size as u64 - 4),
        Err(field_error(Section::FileHeader, DecodeErrorKind::Eof, size - 4))
    );
    assert_eq!(reader.position(), size - 4);
    assert_eq!(reader.len(), size);
}

#[test]
fn collect_yields_every_file_in_stored_order() {
    let files =
        [("ba.p", &b"third letter first"[..]), ("aa.p", b"a"), ("ab.p", b""), ("ca.p", b"c")];
    let lgp = open(archive(&files));
    let count = lgp.num_files();
    let names: Vec<String> = lgp.files_metadata_iter().map(|e| e.filename.clone()).collect();
    let extracted = lgp.into_iter().collect();
    assert_eq!(extracted.len(), count);
    assert_eq!(extracted.len(), 4);
    let extracted_names: Vec<String> = extracted.iter().map(|f| f.filename.clone()).collect();
    assert_eq!(extracted_names, names);
    assert_eq!(extracted_names.concat(), "ba.paa.pab.pca.p");
    for (file, (name, body)) in extracted.iter().zip(files) {
        assert_eq!(file, &LgpFile { filename: name.to_string(), bytes: body.to_vec() });
    }
}

#[test]
fn next_yields_one_file_per_call_and_then_none() {
    let mut files = open(archive(&THREE_FILES)).into_iter();
    assert_eq!(
        files.next(),
        Some(LgpFile { filename: "aaaa.rsd".to_string(), bytes: b"first body".to_vec() })
    );
    assert_eq!(files.next(), Some(LgpFile { filename: "aaab.p".to_string(), bytes: Vec::new() }));
    assert_eq!(
        files.next(),
        Some(LgpFile {
            filename: "biskdead.cam".to_string(),
            bytes: b"camera data of some length".to_vec(),
        })
    );
    assert_eq!(files.next(), None);
    assert_eq!(files.next(), None);
    assert!(files.collect().is_empty());
}

#[test]
fn collect_yields_what_next_has_left() {
    let mut files = open(archive(&THREE_FILES)).into_iter();
    files.next();
    let rest = files.collect();
    assert_eq!(rest.len(), 2);
    assert_eq!(rest[0].filename, "aaab.p");
    assert_eq!(rest[1].filename, "biskdead.cam");
}

#[test]
fn extraction_of_an_empty_archive_yields_nothing() {
    let mut files = open(archive(&[])).into_iter();
    assert_eq!(files.next(), None);
    assert!(open(archive(&[])).into_iter().collect().is_empty());
}

#[test]
fn extraction_ignores_where_lookups_left_the_cursor() {
    let mut lgp = open(archive(&THREE_FILES));
    assert_eq!(lgp.get_file("biskdead.cam"), Ok(b"camera data of some length".to_vec()));
    let files = lgp.into_iter().collect();
    assert_eq!(files.len(), 3);
    assert_eq!(files[0].bytes, b"first body".to_vec());
}

#[test]
fn extraction_agrees_with_get_file() {
    let files = [("ba.p", &b"b"[..]), ("aa.p", b"first a"), ("ab.p", b""), ("ac.p", b"third")];
    let bytes = archive(&files);
    let extracted = open(bytes.clone()).into_iter().collect();
    let mut lgp = open(bytes);
    assert_eq!(extracted.len(), 4);
    for file in &extracted {
        assert_eq!(lgp.get_file(&file.filename), Ok(file.bytes.clone()));
    }
}

#[test]
fn a_file_that_cannot_be_read_ends_the_extraction() {
    let mut bytes = archive(&THREE_FILES);
    let second = body_start(3) + 24 + 10;
    put_u32(&mut bytes, second + 20, 100_000);
    let mut files = open(bytes.clone()).into_iter();
    assert_eq!(
        files.next(),
        Some(LgpFile { filename: "aaaa.rsd".to_string(), bytes: b"first body".to_vec() })
    );
    assert_eq!(files.next(), None);
    assert_eq!(files.next(), None);
    let files = open(bytes).into_iter().collect();
    assert_eq!(files.len(), 1);
    assert_eq!(files[0].filename, "aaaa.rsd");
}

#[test]
fn a_corrupt_signature_is_refused() {
    let good = archive(&THREE_FILES);
    for at in 0..12 {
        let mut bytes = good.clone();
        bytes[at] ^= 0x20;
        assert_eq!(open_error(bytes), field_error(Section::Header, DecodeErrorKind::Tag, 0));
    }
    assert_eq!(
        open_error(b"\0\0SQUARE".to_vec()),
        field_error(Section::Header, DecodeErrorKind::Tag, 0)
    );
    assert_eq!(open_error(Vec::new()), field_error(Section::Header, DecodeErrorKind::Tag, 0));
}

#[test]
fn a_header_without_a_whole_file_count_is_refused() {
    let bytes = archive(&THREE_FILES);
    assert_eq!(
        open_error(bytes[..14].to_vec()),
        field_error(Section::Header, DecodeErrorKind::Eof, 12)
    );
}

#[test]
fn a_table_of_contents_that_is_cut_short_is_refused() {
    let bytes = archive(&THREE_FILES);
    assert_eq!(
        open_error(bytes[..16 + 27 + 10].to_vec()),
        field_error(Section::Toc, DecodeErrorKind::Eof, 16 + 27)
    );
    assert_eq!(
        open_error(bytes[..16 + 2 * 27 + 22].to_vec()),
        field_error(Section::Toc, DecodeErrorKind::Eof, 16 + 2 * 27 + 20)
    );
    assert_eq!(
        open_error(bytes[..16].to_vec()),
        field_error(Section::Toc, DecodeErrorKind::Eof, 16)
    );
}

#[test]
fn a_file_count_that_the_stream_cannot_hold_is_refused() {
    let mut bytes = archive(&THREE_FILES);
    put_u32(&mut bytes, 12, u32::MAX);
    let size = bytes.len();
    assert_eq!(size, 3819);
    assert_eq!((size - 16) / 27, 140);
    assert_eq!((size - 16) % 27, 23);
    assert_eq!(
        open_error(bytes),
        field_error(Section::Toc, DecodeErrorKind::Eof, 16 + 27 * 140 + 20)
    );
}

#[test]
fn a_name_that_is_no_text_is_refused() {
    let mut bytes = archive(&THREE_FILES);
    bytes[16 + 27 + 6] = 0xff;
    assert_eq!(open_error(bytes), field_error(Section::Toc, DecodeErrorKind::Text, 16 + 27));
}

#[test]
fn a_lookup_table_that_is_cut_short_is_refused() {
    let bytes = archive(&THREE_FILES);
    let start = table_start(3);
    assert_eq!(
        open_error(bytes[..start + 3599].to_vec()),
        field_error(Section::LookupTable, DecodeErrorKind::Eof, start + 3598)
    );
    assert_eq!(
        open_error(bytes[..start].to_vec()),
        field_error(Section::LookupTable, DecodeErrorKind::Eof, start)
    );
}

#[test]
fn an_archive_with_another_product_name_is_refused() {
    let mut bytes = archive(&THREE_FILES);
    let size = bytes.len();
    bytes[size - 1] = b'8';
    assert_eq!(
        open_error(bytes),
        field_error(Section::ProductName, DecodeErrorKind::Tag, size - 14)
    );
    let mut bytes = archive(&THREE_FILES);
    bytes.push(0);
    assert_eq!(
        open_error(bytes),
        field_error(Section::ProductName, DecodeErrorKind::Tag, size - 13)
    );
}

#[test]
fn a_stream_that_ends_with_the_lookup_table_has_no_product_name() {
    let bytes = archive(&[]);
    assert_eq!(
        open_error(bytes[..16 + 3600].to_vec()),
        field_error(Section::ProductName, DecodeErrorKind::Tag, 16 + 3600 - 14)
    );
}

#[test]
fn an_archive_is_read_from_where_the_cursor_stands() {
    let mut bytes = vec![0xaau8; 5];
    bytes.extend(archive(&[]));
    let mut reader = ByteStream::new(bytes.clone());
    reader.consume(5);
    let lgp = parse_lgp(reader).unwrap();
    assert_eq!(lgp.num_files(), 0);
    assert_eq!(lgp.num_bytes(), 5 + 3630);
    let mut reader = ByteStream::new(bytes);
    reader.consume(4);
    assert_eq!(
        parse_lgp(reader).err(),
        Some(field_error(Section::Header, DecodeErrorKind::Tag, 4))
    );
}

#[test]
fn lgp_test() {
    let lgp = open(archive(&THREE_FILES));
    let mut names = Vec::new();
    for lgp_file in lgp.into_iter().collect() {
        println!("{:?}", lgp_file.filename);
        names.push(lgp_file.filename);
    }
    assert_eq!(names, ["aaaa.rsd", "aaab.p", "biskdead.cam"]);
}

#[test]
fn parser_test() {
    let mut lgp = open(archive(&THREE_FILES));
    let file = lgp.get_file("biskdead.cam").unwrap();
    println!("{:?}", file);
    assert_eq!(file, b"camera data of some length");
}
