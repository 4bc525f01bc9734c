use ff7_assets::field::{
    ascii_string, le_i32, le_i32_to_usize, le_u16, le_u32, str_eq, tag, take, u8, DecodeError,
    DecodeErrorKind,
};

fn eof(remaining: usize) -> DecodeError {
    DecodeError { kind: DecodeErrorKind::Eof, remaining }
}

#[test]
fn tag_matches_a_prefix_and_returns_what_follows() {
    let input = b"SQUARESOFT and more";
    let (rest, found) = tag(input, b"SQUARE").unwrap();
    assert_eq!(found, b"SQUARE");
    assert_eq!(rest, b"SOFT and more");
}

#[test]
fn tag_of_no_bytes_matches_anything() {
    let (rest, found) = tag(b"abc", b"").unwrap();
    assert_eq!(found, b"");
    assert_eq!(rest, b"abc");
}

#[test]
fn tag_refuses_a_different_prefix() {
    assert_eq!(
        tag(b"SQUAREHARD", b"SQUARESOFT"),
        Err(DecodeError { kind: DecodeErrorKind::Tag, remaining: 10 })
    );
}

#[test]
fn tag_refuses_an_input_shorter_than_the_tag() {
    assert_eq!(
        tag(b"SQU", b"SQUARESOFT"),
        Err(DecodeError { kind: DecodeErrorKind::Tag, remaining: 3 })
    );
}

#[test]
fn take_splits_the_input() {
    let (rest, found) = take(b"abcdef", 2).unwrap();
    assert_eq!(found, b"ab");
    assert_eq!(rest, b"cdef");
}

#[test]
fn take_of_everything_leaves_nothing() {
    let (rest, found) = take(b"abc", 3).unwrap();
    assert_eq!(found, b"abc");
    assert_eq!(rest, b"");
}

#[test]
fn take_needs_all_the_bytes() {
    assert_eq!(take(b"abc", 4), Err(eof(3)));
}

#[test]
fn u8_reads_one_byte() {
    let (rest, value) = u8(&[7, 8, 9]).unwrap();
    assert_eq!(value, 7);
    assert_eq!(rest, &[8u8, 9][..]);
}

#[test]
fn u8_needs_one_byte() {
    assert_eq!(u8(&[]), Err(eof(0)));
}

#[test]
fn le_u16_reads_least_significant_byte_first() {
    let (rest, value) = le_u16(&[0x34, 0x12, 0xaa]).unwrap();
    assert_eq!(value, 0x1234);
    assert_eq!(rest, &[0xaau8][..]);
}

#[test]
fn le_u16_reads_the_largest_value() {
    let (_, value) = le_u16(&[0xff, 0xff]).unwrap();
    assert_eq!(value, u16::MAX);
}

#[test]
fn le_u16_needs_two_bytes() {
    assert_eq!(le_u16(&[0x34]), Err(eof(1)));
}

#[test]
fn le_u32_reads_least_significant_byte_first() {
    let input = [0x78u8, 0x56, 0x34, 0x12, 0xff];
    let (rest, value) = le_u32(&input).unwrap();
    assert_eq!(value, 0x1234_5678);
    assert_eq!(rest, &[0xffu8][..]);
}

#[test]
fn le_u32_reads_the_largest_value() {
    let (_, value) = le_u32(&[0xff, 0xff, 0xff, 0xff]).unwrap();
    assert_eq!(value, u32::MAX);
}

#[test]
fn le_u32_needs_four_bytes() {
    assert_eq!(le_u32(&[0x78, 0x56, 0x34]), Err(eof(3)));
}

#[test]
fn le_i32_reads_twos_complement() {
    let (_, minus_one) = le_i32(&[0xff, 0xff, 0xff, 0xff]).unwrap();
    assert_eq!(minus_one, -1);
    let (_, smallest) = le_i32(&[0x00, 0x00, 0x00, 0x80]).unwrap();
    assert_eq!(smallest, i32::MIN);
    let (_, largest) = le_i32(&[0xff, 0xff, 0xff, 0x7f]).unwrap();
    assert_eq!(largest, i32::MAX);
    let (rest, value) = le_i32(&[0x02, 0x01, 0x00, 0x00, 0x05]).unwrap();
    assert_eq!(value, 258);
    assert_eq!(rest, &[5u8][..]);
}

#[test]
fn le_i32_needs_four_bytes() {
    assert_eq!(le_i32(&[1, 2]), Err(eof(2)));
}

#[test]
fn le_i32_to_usize_reads_a_count() {
    let (rest, count) = le_i32_to_usize(&[0x10, 0x27, 0x00, 0x00, 0x01]).unwrap();
    assert_eq!(count, 10_000);
    assert_eq!(rest, &[1u8][..]);
    let (_, zero) = le_i32_to_usize(&[0, 0, 0, 0]).unwrap();
    assert_eq!(zero, 0);
}

#[test]
fn le_i32_to_usize_refuses_a_negative_count() {
    assert_eq!(
        le_i32_to_usize(&[0xff, 0xff, 0xff, 0xff, 0x00]),
        Err(DecodeError { kind: DecodeErrorKind::Negative, remaining: 5 })
    );
}

#[test]
fn le_i32_to_usize_needs_four_bytes() {
    assert_eq!(le_i32_to_usize(&[0xff, 0xff, 0xff]), Err(eof(3)));
}

#[test]
fn ascii_string_drops_the_nul_padding() {
    let input = b"aaab.p\0\0\0\0rest";
    let (rest, text) = ascii_string(input, 10).unwrap();
    assert_eq!(text, "aaab.p");
    assert_eq!(rest, b"rest");
}

#[test]
fn ascii_string_keeps_a_nul_that_is_not_at_the_end() {
    let (_, text) = ascii_string(b"a\0b\0\0", 5).unwrap();
    assert_eq!(text, "a\0b");
}

#[test]
fn ascii_string_of_nuls_only_is_empty() {
    let (rest, text) = ascii_string(b"\0\0\0\0", 4).unwrap();
    assert_eq!(text, "");
    assert_eq!(rest, b"");
}

#[test]
fn ascii_string_without_padding_is_kept_whole() {
    let (rest, text) = ascii_string(b"abcdefgh", 4).unwrap();
    assert_eq!(text, "abcd");
    assert_eq!(rest, b"efgh");
}

#[test]
fn ascii_string_accepts_text_beyond_ascii() {
    let (_, text) = ascii_string(&[0xc3, 0xa9, 0x00], 3).unwrap();
    assert_eq!(text, "\u{e9}");
}

#[test]
fn ascii_string_refuses_bytes_that_are_no_text() {
    assert_eq!(
        ascii_string(&[b'a', 0xff, b'b', 0, 9], 4),
        Err(DecodeError { kind: DecodeErrorKind::Text, remaining: 5 })
    );
}

#[test]
fn ascii_string_needs_all_the_bytes() {
    assert_eq!(ascii_string(b"abc", 4), Err(eof(3)));
}

#[test]
fn str_eq_compares_every_byte() {
    assert!(str_eq("aaab.p", "aaab.p"));
    assert!(str_eq("", ""));
    assert!(!str_eq("aaab.p", "aaab.P"));
    assert!(!str_eq("aaab.p", "aaab"));
    assert!(!str_eq("aaab", "aaab.p"));
    assert!(!str_eq("aaab.p", "baab.p"));
}
