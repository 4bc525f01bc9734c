//! The calls into `nom` and into the parts of `core::str` that the verifier
//! has no specification for. Nothing in this file is proved: each contract
//! restates what the called function is documented to do.

use crate::field::{le_i32_value, le_u16_value, le_u32_value, trim_end};
use vstd::prelude::*;
use vstd::string::StringSliceAdditionalSpecFns;
use vstd::utf8::valid_utf8;

verus! {

/// `nom::Err`, the error of every parser of nom. Nothing is known of a
/// value of it but that it is an error.
#[verifier::external_type_specification]
#[verifier::external_body]
#[verifier::reject_recursive_types(E)]
pub struct ExNomErr<E>(nom::Err<E>);

/// `nom::error::Error`, what `nom::Err` carries by default. Nothing is
/// known of a value of it.
#[verifier::external_type_specification]
#[verifier::external_body]
#[verifier::reject_recursive_types(I)]
pub struct ExNomError<I>(nom::error::Error<I>);

/// `core::str::Utf8Error`, the error of `core::str::from_utf8`. Nothing is
/// known of a value of it.
#[verifier::external_type_specification]
#[verifier::external_body]
pub struct ExUtf8Error(core::str::Utf8Error);

/// What a parser of nom returns on a byte slice: the input that is left and
/// the value, or nom's error.
pub type NomResult<'a, T> = Result<(&'a [u8], T), nom::Err<nom::error::Error<&'a [u8]>>>;

/// `nom::bytes::complete::tag` on byte slices: succeeds exactly when the
/// input starts with `expected`, and then yields the input after the tag and
/// the matched prefix.
#[verifier::external_body]
pub(crate) fn nom_tag<'a>(expected: &[u8], input: &'a [u8]) -> (r: NomResult<'a, &'a [u8]>)
    ensures
        r is Ok <==> (expected@.len() <= input@.len() && input@.take(expected@.len() as int)
            == expected@),
        r matches Ok(p) ==> p.0@ == input@.skip(expected@.len() as int) && p.1@ == input@.take(
            expected@.len() as int,
        ),
{
    nom::bytes::complete::tag(expected)(input)
}

/// `nom::bytes::complete::take` on a byte slice: succeeds exactly when the
/// input holds at least `count` bytes, and then yields the input after them
/// and the first `count` bytes.
#[verifier::external_body]
pub(crate) fn nom_take<'a>(count: usize, input: &'a [u8]) -> (r: NomResult<'a, &'a [u8]>)
    ensures
        r is Ok <==> count <= input@.len(),
        r matches Ok(p) ==> p.0@ == input@.skip(count as int) && p.1@ == input@.take(count as int),
{
    nom::bytes::complete::take(count)(input)
}

/// `nom::number::complete::u8` on a byte slice: succeeds exactly when the
/// input is not empty, and then yields the input after its first byte and
/// that byte.
#[verifier::external_body]
pub(crate) fn nom_u8<'a>(input: &'a [u8]) -> (r: NomResult<'a, u8>)
    ensures
        r is Ok <==> 1 <= input@.len(),
        r matches Ok(p) ==> p.0@ == input@.skip(1) && p.1 == input@[0],
{
    nom::number::complete::u8(input)
}

/// `nom::number::complete::le_u16` on a byte slice: succeeds exactly when
/// the input holds at least two bytes, and then yields the input after them
/// and their value as a little-endian integer.
#[verifier::external_body]
pub(crate) fn nom_le_u16<'a>(input: &'a [u8]) -> (r: NomResult<'a, u16>)
    ensures
        r is Ok <==> 2 <= input@.len(),
        r matches Ok(p) ==> p.0@ == input@.skip(2) && p.1 as int == le_u16_value(input@.take(2)),
{
    nom::number::complete::le_u16(input)
}

/// `nom::number::complete::le_u32` on a byte slice: succeeds exactly when
/// the input holds at least four bytes, and then yields the input after them
/// and their value as a little-endian integer.
#[verifier::external_body]
pub(crate) fn nom_le_u32<'a>(input: &'a [u8]) -> (r: NomResult<'a, u32>)
    ensures
        r is Ok <==> 4 <= input@.len(),
        r matches Ok(p) ==> p.0@ == input@.skip(4) && p.1 as int == le_u32_value(input@.take(4)),
{
    nom::number::complete::le_u32(input)
}

/// `nom::number::complete::le_i32` on a byte slice: succeeds exactly when
/// the input holds at least four bytes, and then yields the input after them
/// and their value as a little-endian two's complement integer.
#[verifier::external_body]
pub(crate) fn nom_le_i32<'a>(input: &'a [u8]) -> (r: NomResult<'a, i32>)
    ensures
        r is Ok <==> 4 <= input@.len(),
        r matches Ok(p) ==> p.0@ == input@.skip(4) && p.1 as int == le_i32_value(input@.take(4)),
{
    nom::number::complete::le_i32(input)
}

/// `core::str::from_utf8`: succeeds exactly when the bytes are valid UTF-8,
/// and then yields them as a string slice.
#[verifier::external_body]
pub(crate) fn str_from_utf8<'a>(bytes: &'a [u8]) -> (r: Result<&'a str, core::str::Utf8Error>)
    ensures
        r is Ok <==> valid_utf8(bytes@),
        r matches Ok(s) ==> s.spec_bytes() == bytes@,
{
    core::str::from_utf8(bytes)
}

/// `str::trim_end_matches` with a `char` as the pattern: yields the string
/// without its trailing run of that character.
#[verifier::external_body]
pub(crate) fn str_trim_end_matches<'a>(s: &'a str, pattern: char) -> (r: &'a str)
    ensures
        r@ == trim_end(s@, pattern),
{
    s.trim_end_matches(pattern)
}

} // verus!
