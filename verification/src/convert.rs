//! Decoding of raw export bytes in one of three character sets.
use vstd::prelude::*;

verus! {

use crate::error::{Error, ErrorKind, ErrorKindView};

/// Supported character encodings of the input files.
#[derive(Debug, Clone, Copy, PartialEq, Eq, Structural)]
pub enum EncodeType {
    UTF8,
    GBK,
    GB18030,
}

/// What the UTF-8 decoder answers for a byte string, or nothing when the
/// bytes are not valid for the encoding.
pub uninterp spec fn utf8_decoded(bytes: Seq<u8>) -> Option<Seq<char>>;

/// What the GBK decoder answers for a byte string.
pub uninterp spec fn gbk_decoded(bytes: Seq<u8>) -> Option<Seq<char>>;

/// What the GB18030 decoder answers for a byte string.
pub uninterp spec fn gb18030_decoded(bytes: Seq<u8>) -> Option<Seq<char>>;

/// Relies on `encoding::all::UTF_8` with `DecoderTrap::Strict`: the result
/// depends on the bytes alone; malformed input fails.
#[verifier::external_body]
fn decode_utf8(src: &[u8]) -> (r: Option<String>)
    ensures
        r is Some <==> utf8_decoded(src@) is Some,
        r matches Some(s) ==> Some(s@) == utf8_decoded(src@),
{
    encoding::types::Encoding::decode(
        encoding::all::UTF_8,
        src,
        encoding::types::DecoderTrap::Strict,
    ).ok()
}

/// Relies on `encoding::all::GBK` with `DecoderTrap::Strict`: the result
/// depends on the bytes alone; malformed input fails.
#[verifier::external_body]
fn decode_gbk(src: &[u8]) -> (r: Option<String>)
    ensures
        r is Some <==> gbk_decoded(src@) is Some,
        r matches Some(s) ==> Some(s@) == gbk_decoded(src@),
{
    encoding::types::Encoding::decode(
        encoding::all::GBK,
        src,
        encoding::types::DecoderTrap::Strict,
    ).ok()
}

/// Relies on `encoding::all::GB18030` with `DecoderTrap::Strict`: the result
/// depends on the bytes alone; malformed input fails.
#[verifier::external_body]
fn decode_gb18030(src: &[u8]) -> (r: Option<String>)
    ensures
        r is Some <==> gb18030_decoded(src@) is Some,
        r matches Some(s) ==> Some(s@) == gb18030_decoded(src@),
{
    encoding::types::Encoding::decode(
        encoding::all::GB18030,
        src,
        encoding::types::DecoderTrap::Strict,
    ).ok()
}

/// What decoding a byte string under the selected encoding answers.
pub open spec fn decoded(bytes: Seq<u8>, enc: EncodeType) -> Option<Seq<char>> {
    match enc {
        EncodeType::UTF8 => utf8_decoded(bytes),
        EncodeType::GBK => gbk_decoded(bytes),
        EncodeType::GB18030 => gb18030_decoded(bytes),
    }
}

/// Decodes a byte string with the selected encoding; malformed input fails
/// with a `Decode` error.
pub fn decode(src: &[u8], encoding: EncodeType) -> (r: Result<String, Error>)
    ensures
        match r {
            Ok(s) => decoded(src@, encoding) == Some(s@),
            Err(e) => decoded(src@, encoding) is None && e@ == ErrorKindView::Decode(
                ("invalid byte sequence")@,
            ),
        },
{
    let out = match encoding {
        EncodeType::UTF8 => decode_utf8(src),
        EncodeType::GBK => decode_gbk(src),
        EncodeType::GB18030 => decode_gb18030(src),
    };
    match out {
        Some(s) => Ok(s),
        None => Err(Error::new(ErrorKind::Decode("invalid byte sequence".to_owned()))),
    }
}

} // verus!
