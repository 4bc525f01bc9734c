//! The binary field decoder: fixed-width little-endian integers, literal
//! byte tags and fixed-length text, each read from the front of a byte
//! slice. Every decoder returns the input that follows the field together
//! with the value, or says which field could not be read and where.

use crate::trusted::{
    nom_le_i32, nom_le_u16, nom_le_u32, nom_tag, nom_take, nom_u8, str_from_utf8,
    str_trim_end_matches,
};
use vstd::prelude::*;
use vstd::string::StringSliceAdditionalSpecFns;
use vstd::utf8::{decode_utf8, encode_utf8_decode_utf8, valid_utf8};

verus! {

/// What went wrong while decoding a field.
#[derive(Clone, Copy, Debug, PartialEq, Eq, Structural)]
pub enum DecodeErrorKind {
    /// The input ended before the field did.
    Eof,
    /// The input does not start with the expected literal bytes.
    Tag,
    /// The bytes of a text field are not valid UTF-8.
    Text,
    /// A count that must not be negative is negative.
    Negative,
}

/// A field that could not be decoded, and where.
#[derive(Clone, Copy, Debug, PartialEq, Eq, Structural)]
pub struct DecodeError {
    pub kind: DecodeErrorKind,
    /// Number of bytes from the start of the offending field to the end of
    /// the input.
    pub remaining: usize,
}

/// The result of a decoder in specifications: the bytes after the field and
/// the value.
pub type Decoded<T> = Result<(Seq<u8>, T), DecodeError>;

/// The error of a field of the given kind that starts where `input` starts.
pub open spec fn fail_at(kind: DecodeErrorKind, input: Seq<u8>) -> DecodeError {
    DecodeError { kind, remaining: input.len() as usize }
}

/// Two bytes as a little-endian unsigned integer.
pub open spec fn le_u16_value(b: Seq<u8>) -> int
    recommends
        b.len() == 2,
{
    b[0] + 0x100 * b[1]
}

/// Four bytes as a little-endian unsigned integer.
pub open spec fn le_u32_value(b: Seq<u8>) -> int
    recommends
        b.len() == 4,
{
    b[0] + 0x100 * b[1] + 0x1_0000 * b[2] + 0x100_0000 * b[3]
}

/// Four bytes as a little-endian two's complement integer.
pub open spec fn le_i32_value(b: Seq<u8>) -> int
    recommends
        b.len() == 4,
{
    if le_u32_value(b) < 0x8000_0000 {
        le_u32_value(b)
    } else {
        le_u32_value(b) - 0x1_0000_0000
    }
}

/// `s` without its trailing run of the character `c`.
pub open spec fn trim_end(s: Seq<char>, c: char) -> Seq<char>
    decreases s.len(),
{
    if s.len() > 0 && s.last() == c {
        trim_end(s.drop_last(), c)
    } else {
        s
    }
}

/// The literal bytes `expected` at the front of the input.
pub open spec fn spec_tag(input: Seq<u8>, expected: Seq<u8>) -> Decoded<Seq<u8>> {
    if expected.len() <= input.len() && input.take(expected.len() as int) == expected {
        Ok((input.skip(expected.len() as int), expected))
    } else {
        Err(fail_at(DecodeErrorKind::Tag, input))
    }
}

/// The first `count` bytes of the input.
pub open spec fn spec_take(input: Seq<u8>, count: nat) -> Decoded<Seq<u8>> {
    if count <= input.len() {
        Ok((input.skip(count as int), input.take(count as int)))
    } else {
        Err(fail_at(DecodeErrorKind::Eof, input))
    }
}

/// One byte.
pub open spec fn spec_u8(input: Seq<u8>) -> Decoded<u8> {
    if 1 <= input.len() {
        Ok((input.skip(1), input[0]))
    } else {
        Err(fail_at(DecodeErrorKind::Eof, input))
    }
}

/// A little-endian 16-bit unsigned integer.
pub open spec fn spec_le_u16(input: Seq<u8>) -> Decoded<u16> {
    if 2 <= input.len() {
        Ok((input.skip(2), le_u16_value(input.take(2)) as u16))
    } else {
        Err(fail_at(DecodeErrorKind::Eof, input))
    }
}

/// A little-endian 32-bit unsigned integer.
pub open spec fn spec_le_u32(input: Seq<u8>) -> Decoded<u32> {
    if 4 <= input.len() {
        Ok((input.skip(4), le_u32_value(input.take(4)) as u32))
    } else {
        Err(fail_at(DecodeErrorKind::Eof, input))
    }
}

/// A little-endian 32-bit signed integer.
pub open spec fn spec_le_i32(input: Seq<u8>) -> Decoded<i32> {
    if 4 <= input.len() {
        Ok((input.skip(4), le_i32_value(input.take(4)) as i32))
    } else {
        Err(fail_at(DecodeErrorKind::Eof, input))
    }
}

/// A count stored as a 32-bit signed integer: a negative one is refused.
pub open spec fn spec_le_i32_to_usize(input: Seq<u8>) -> Decoded<usize> {
    match spec_le_i32(input) {
        Err(e) => Err(e),
        Ok((rest, value)) => if value >= 0 {
            Ok((rest, value as usize))
        } else {
            Err(fail_at(DecodeErrorKind::Negative, input))
        },
    }
}

/// A text field of `length` bytes: valid UTF-8, of which the trailing NUL
/// characters are dropped.
pub open spec fn spec_ascii_string(input: Seq<u8>, length: nat) -> Decoded<Seq<char>> {
    if input.len() < length {
        Err(fail_at(DecodeErrorKind::Eof, input))
    } else if !valid_utf8(input.take(length as int)) {
        Err(fail_at(DecodeErrorKind::Text, input))
    } else {
        Ok((input.skip(length as int), trim_end(decode_utf8(input.take(length as int)), '\0')))
    }
}

/// `head` put in front of the items of a decoded sequence.
pub open spec fn prepend<T>(head: Seq<T>, tail: Decoded<Seq<T>>) -> Decoded<Seq<T>> {
    match tail {
        Ok((rest, items)) => Ok((rest, head + items)),
        Err(e) => Err(e),
    }
}

/// `n` values in a row, each decoded by `f` from what the one before it left
/// over. The first value that cannot be decoded fails the whole.
pub open spec fn spec_count<T>(
    f: spec_fn(Seq<u8>) -> Decoded<T>,
    input: Seq<u8>,
    n: nat,
) -> Decoded<Seq<T>>
    decreases n,
{
    if n == 0 {
        Ok((input, Seq::empty()))
    } else {
        match f(input) {
            Ok((rest, value)) => prepend(seq![value], spec_count(f, rest, (n - 1) as nat)),
            Err(e) => Err(e),
        }
    }
}

/// One step of decoding `total` values front to back: when `head` has been
/// decoded and `left` values are still to come from `rest`, the next value
/// either fails the whole or joins `head`.
pub proof fn lemma_count_step<T>(
    f: spec_fn(Seq<u8>) -> Decoded<T>,
    whole: Seq<u8>,
    total: nat,
    head: Seq<T>,
    rest: Seq<u8>,
    left: nat,
)
    requires
        left > 0,
        spec_count(f, whole, total) == prepend(head, spec_count(f, rest, left)),
    ensures
        match f(rest) {
            Err(e) => spec_count(f, whole, total) == Err::<(Seq<u8>, Seq<T>), _>(e),
            Ok((next, value)) => spec_count(f, whole, total) == prepend(
                head.push(value),
                spec_count(f, next, (left - 1) as nat),
            ),
        },
{
    if let Ok((next, value)) = f(rest) {
        if let Ok((_, items)) = spec_count(f, next, (left - 1) as nat) {
            assert(head + (seq![value] + items) =~= head.push(value) + items);
        }
    }
}

/// When no value is left to decode, what has been decoded is the whole.
pub proof fn lemma_count_done<T>(
    f: spec_fn(Seq<u8>) -> Decoded<T>,
    whole: Seq<u8>,
    total: nat,
    head: Seq<T>,
    rest: Seq<u8>,
)
    requires
        spec_count(f, whole, total) == prepend(head, spec_count(f, rest, 0)),
    ensures
        spec_count(f, whole, total) == Ok::<_, DecodeError>((rest, head)),
{
    assert(head + Seq::<T>::empty() =~= head);
}

/// Whether `f` decodes a field of exactly `size` bytes: where it succeeds it
/// leaves the input without its first `size` bytes, and where it fails it
/// points into the input.
pub open spec fn fixed_size<T>(f: spec_fn(Seq<u8>) -> Decoded<T>, size: nat) -> bool {
    forall|x: Seq<u8>|
        #![trigger f(x)]
        match f(x) {
            Ok((rest, _)) => size <= x.len() && rest == x.skip(size as int),
            Err(e) => e.remaining <= x.len(),
        }
}

/// Skipping twice is skipping once.
pub proof fn lemma_skip_skip(s: Seq<u8>, a: int, b: int)
    requires
        0 <= a,
        0 <= b,
        a + b <= s.len(),
    ensures
        s.skip(a).skip(b) == s.skip(a + b),
{
    assert(s.skip(a).skip(b) =~= s.skip(a + b));
}

/// Where `n` fields of `size` bytes each are decoded in a row, field `i` is
/// decoded from the input without its first `size * i` bytes, and the bytes
/// left over are the input without its first `size * n` bytes. Where one
/// of them fails, the error points into the input.
pub proof fn lemma_count_layout<T>(
    f: spec_fn(Seq<u8>) -> Decoded<T>,
    size: nat,
    input: Seq<u8>,
    n: nat,
)
    requires
        fixed_size(f, size),
    ensures
        match spec_count(f, input, n) {
            Ok((rest, items)) => {
                &&& size * n <= input.len()
                &&& rest == input.skip((size * n) as int)
                &&& items.len() == n
                &&& forall|i: int|
                    0 <= i < n ==> f(input.skip(size * i)) == Ok::<_, DecodeError>(
                        (input.skip(size * (i + 1)), #[trigger] items[i]),
                    )
            },
            Err(e) => e.remaining <= input.len(),
        },
    decreases n,
{
    if n == 0 {
        assert(input.skip(0) =~= input);
        assert(size * 0 == 0);
    } else {
        match f(input) {
            Err(e) => {},
            Ok((after_first, first)) => {
                let m = (n - 1) as nat;
                lemma_count_layout(f, size, after_first, m);
                assert(size * n == size * m + size) by (nonlinear_arith)
                    requires
                        n == m + 1,
                ;
                match spec_count(f, after_first, m) {
                    Err(e) => {},
                    Ok((rest, others)) => {
                        let items = seq![first] + others;
                        lemma_skip_skip(input, size as int, (size * m) as int);
                        assert forall|i: int| 0 <= i < n implies f(input.skip(size * i)) == Ok::<
                            _,
                            DecodeError,
                        >((input.skip(size * (i + 1)), #[trigger] items[i])) by {
                            if i == 0 {
                                assert(input.skip(size * 0int) =~= input);
                                assert(size * 1 == size);
                            } else {
                                let k = i - 1;
                                assert(items[i] == others[k]);
                                assert(size * i == size * k + size && size * (i + 1) == size * (k
                                    + 1) + size && 0 <= size * k && size * (k + 1) <= size * m)
                                    by (nonlinear_arith)
                                    requires
                                        i == k + 1,
                                        0 <= k < m,
                                ;
                                lemma_skip_skip(input, size as int, size * k);
                                lemma_skip_skip(input, size as int, size * (k + 1));
                            }
                        }
                    },
                }
            },
        }
    }
}

/// `n` fields of `size` bytes each are decoded in a row if the input holds
/// them all and each of them is decoded where it stands.
pub proof fn lemma_count_succeeds<T>(
    f: spec_fn(Seq<u8>) -> Decoded<T>,
    size: nat,
    input: Seq<u8>,
    n: nat,
)
    requires
        fixed_size(f, size),
        size * n <= input.len(),
        forall|i: int| 0 <= i < n ==> f(#[trigger] input.skip(size * i)) is Ok,
    ensures
        spec_count(f, input, n) is Ok,
    decreases n,
{
    if n > 0 {
        let m = (n - 1) as nat;
        assert(input.skip(size * 0int) =~= input) by {
            assert(size * 0 == 0);
        }
        assert(f(input.skip(size * 0int)) is Ok);
        let after_first = f(input)->Ok_0.0;
        assert forall|i: int| 0 <= i < m implies f(#[trigger] after_first.skip(size * i)) is Ok by {
            assert(size * (i + 1) == size * i + size && 0 <= size * i && size * (i + 1) <= size
                * n) by (nonlinear_arith)
                requires
                    0 <= i < n - 1,
            ;
            assert(f(input.skip(size * (i + 1))) is Ok);
            lemma_skip_skip(input, size as int, size * i);
        }
        assert(size * n == size * m + size) by (nonlinear_arith)
            requires
                n == m + 1,
        ;
        lemma_count_succeeds(f, size, after_first, m);
    }
}

/// Matches the literal bytes `expected` at the front of the input.
pub fn tag<'a>(input: &'a [u8], expected: &[u8]) -> (r: Result<(&'a [u8], &'a [u8]), DecodeError>)
    ensures
        r matches Ok(p) ==> spec_tag(input@, expected@) == Ok::<_, DecodeError>((p.0@, p.1@)),
        r matches Err(e) ==> spec_tag(input@, expected@) == Err::<(Seq<u8>, Seq<u8>), _>(e),
{
    match nom_tag(expected, input) {
        Ok((rest, found)) => Ok((rest, found)),
        Err(_) => Err(DecodeError { kind: DecodeErrorKind::Tag, remaining: input.len() }),
    }
}

/// Splits `count` bytes off the front of the input.
pub fn take<'a>(input: &'a [u8], count: usize) -> (r: Result<(&'a [u8], &'a [u8]), DecodeError>)
    ensures
        r matches Ok(p) ==> spec_take(input@, count as nat) == Ok::<_, DecodeError>((p.0@, p.1@)),
        r matches Err(e) ==> spec_take(input@, count as nat) == Err::<(Seq<u8>, Seq<u8>), _>(e),
{
    match nom_take(count, input) {
        Ok((rest, found)) => Ok((rest, found)),
        Err(_) => Err(DecodeError { kind: DecodeErrorKind::Eof, remaining: input.len() }),
    }
}

/// Reads one byte.
pub fn u8<'a>(input: &'a [u8]) -> (r: Result<(&'a [u8], u8), DecodeError>)
    ensures
        r matches Ok(p) ==> spec_u8(input@) == Ok::<_, DecodeError>((p.0@, p.1)),
        r matches Err(e) ==> spec_u8(input@) == Err::<(Seq<u8>, u8), _>(e),
{
    match nom_u8(input) {
        Ok((rest, v)) => Ok((rest, v)),
        Err(_) => Err(DecodeError { kind: DecodeErrorKind::Eof, remaining: input.len() }),
    }
}

/// Reads a little-endian 16-bit unsigned integer.
pub fn le_u16<'a>(input: &'a [u8]) -> (r: Result<(&'a [u8], u16), DecodeError>)
    ensures
        r matches Ok(p) ==> spec_le_u16(input@) == Ok::<_, DecodeError>((p.0@, p.1)),
        r matches Err(e) ==> spec_le_u16(input@) == Err::<(Seq<u8>, u16), _>(e),
{
    match nom_le_u16(input) {
        Ok((rest, v)) => Ok((rest, v)),
        Err(_) => Err(DecodeError { kind: DecodeErrorKind::Eof, remaining: input.len() }),
    }
}

/// Reads a little-endian 32-bit unsigned integer.
pub fn le_u32<'a>(input: &'a [u8]) -> (r: Result<(&'a [u8], u32), DecodeError>)
    ensures
        r matches Ok(p) ==> spec_le_u32(input@) == Ok::<_, DecodeError>((p.0@, p.1)),
        r matches Err(e) ==> spec_le_u32(input@) == Err::<(Seq<u8>, u32), _>(e),
{
    match nom_le_u32(input) {
        Ok((rest, v)) => Ok((rest, v)),
        Err(_) => Err(DecodeError { kind: DecodeErrorKind::Eof, remaining: input.len() }),
    }
}

/// Reads a little-endian 32-bit signed integer.
pub fn le_i32<'a>(input: &'a [u8]) -> (r: Result<(&'a [u8], i32), DecodeError>)
    ensures
        r matches Ok(p) ==> spec_le_i32(input@) == Ok::<_, DecodeError>((p.0@, p.1)),
        r matches Err(e) ==> spec_le_i32(input@) == Err::<(Seq<u8>, i32), _>(e),
{
    match nom_le_i32(input) {
        Ok((rest, v)) => Ok((rest, v)),
        Err(_) => Err(DecodeError { kind: DecodeErrorKind::Eof, remaining: input.len() }),
    }
}

/// Reads a count stored as a little-endian 32-bit signed integer.
pub fn le_i32_to_usize<'a>(input: &'a [u8]) -> (r: Result<(&'a [u8], usize), DecodeError>)
    ensures
        r matches Ok(p) ==> spec_le_i32_to_usize(input@) == Ok::<_, DecodeError>((p.0@, p.1)),
        r matches Err(e) ==> spec_le_i32_to_usize(input@) == Err::<(Seq<u8>, usize), _>(e),
{
    let (rest, value) = le_i32(input)?;
    if value >= 0 {
        Ok((rest, value as usize))
    } else {
        Err(DecodeError { kind: DecodeErrorKind::Negative, remaining: input.len() })
    }
}

/// Reads a text field of `length` bytes and drops its trailing NUL padding.
pub fn ascii_string<'a>(input: &'a [u8], length: usize) -> (r: Result<
    (&'a [u8], String),
    DecodeError,
>)
    ensures
        r matches Ok(p) ==> spec_ascii_string(input@, length as nat) == Ok::<_, DecodeError>(
            (p.0@, p.1@),
        ),
        r matches Err(e) ==> spec_ascii_string(input@, length as nat) == Err::<
            (Seq<u8>, Seq<char>),
            _,
        >(e),
{
    match take(input, length) {
        Err(e) => Err(e),
        Ok((rest, raw)) => match str_from_utf8(raw) {
            Err(_) => Err(DecodeError { kind: DecodeErrorKind::Text, remaining: input.len() }),
            Ok(text) => {
                proof {
                    encode_utf8_decode_utf8(text@);
                }
                Ok((rest, str_trim_end_matches(text, '\0').to_owned()))
            },
        },
    }
}

/// Whether two strings hold the same characters.
pub fn str_eq(a: &str, b: &str) -> (r: bool)
    ensures
        r == (a@ == b@),
{
    let x = a.as_bytes();
    let y = b.as_bytes();
    proof {
        encode_utf8_decode_utf8(a@);
        encode_utf8_decode_utf8(b@);
    }
    if x.len() != y.len() {
        return false;
    }
    let mut i: usize = 0;
    while i < x.len()
        invariant
            i <= x@.len(),
            x@.len() == y@.len(),
            x@ == a.spec_bytes(),
            y@ == b.spec_bytes(),
            forall|k: int| 0 <= k < i ==> x@[k] == y@[k],
        decreases x@.len() - i,
    {
        if x[i] != y[i] {
            return false;
        }
        i = i + 1;
    }
    assert(x@ =~= y@);
    true
}

} // verus!
