use crate::error::Error;
use std::io::{Read, Write};
use vstd::prelude::*;

verus! {

/// `std::io::Error`, the error type of the codecs: nothing is known of a
/// value of it.
#[verifier::external_type_specification]
#[verifier::external_body]
pub struct ExIoError(std::io::Error);

/// What the LZMA decoder makes of `data`: the bytes that it unpacks, or
/// nothing where it reports an error.
pub uninterp spec fn xz_decoded(data: Seq<u8>) -> Option<Seq<u8>>;

/// What the zstd decoder makes of `data`: the bytes that it unpacks, or
/// nothing where it reports an error.
pub uninterp spec fn zstd_decoded(data: Seq<u8>) -> Option<Seq<u8>>;

/// What the LZMA encoder makes of `data` at the preset `level`: the stream
/// that it packs, or nothing where it reports an error.
pub uninterp spec fn xz_encoded(data: Seq<u8>, level: u32) -> Option<Seq<u8>>;

/// What the zstd encoder makes of `data` at `level`: the frame that it
/// packs, or nothing where it reports an error.
pub uninterp spec fn zstd_encoded(data: Seq<u8>, level: i32) -> Option<Seq<u8>>;

/// `xz2::read::XzDecoder`, read to its end: what it unpacks from `data` is
/// a function of `data` alone.
#[verifier::external_body]
pub(crate) fn xz_decode(data: &[u8]) -> (r: Result<Vec<u8>, std::io::Error>)
    ensures
        match r {
            Ok(v) => xz_decoded(data@) == Some(v@),
            Err(_) => xz_decoded(data@) is None,
        },
{
    let mut out: Vec<u8> = Vec::new();
    match xz2::read::XzDecoder::new(data).read_to_end(&mut out) {
        Ok(_) => Ok(out),
        Err(e) => Err(e),
    }
}

/// `xz2::write::XzEncoder`, made with the preset `level`, fed `data` and
/// finished: what it packs is a function of `data` and `level` alone, and
/// where it succeeds, it is a stream that the decoder unpacks to `data`.
/// The preset `level` is one of 0 to 9.
#[verifier::external_body]
pub(crate) fn xz_encode(data: &[u8], level: u32) -> (r: Result<Vec<u8>, std::io::Error>)
    requires
        level <= 9,
    ensures
        match r {
            Ok(v) => xz_encoded(data@, level) == Some(v@) && xz_decoded(v@) == Some(data@),
            Err(_) => xz_encoded(data@, level) is None,
        },
{
    let mut encoder = xz2::write::XzEncoder::new(Vec::new(), level);
    match encoder.write_all(data) {
        Ok(_) => encoder.finish(),
        Err(e) => Err(e),
    }
}

/// `zstd::stream::decode_all`: what it unpacks from `data` is a function of
/// `data` alone.
#[verifier::external_body]
pub(crate) fn zstd_decode(data: &[u8]) -> (r: Result<Vec<u8>, std::io::Error>)
    ensures
        match r {
            Ok(v) => zstd_decoded(data@) == Some(v@),
            Err(_) => zstd_decoded(data@) is None,
        },
{
    zstd::stream::decode_all(data)
}

/// `zstd::stream::encode_all`: what it packs is a function of `data` and
/// `level` alone, and where it succeeds, it is a frame that `decode_all`
/// unpacks to `data`.
#[verifier::external_body]
pub(crate) fn zstd_encode(data: &[u8], level: i32) -> (r: Result<Vec<u8>, std::io::Error>)
    ensures
        match r {
            Ok(v) => zstd_encoded(data@, level) == Some(v@) && zstd_decoded(v@) == Some(data@),
            Err(_) => zstd_encoded(data@, level) is None,
        },
{
    zstd::stream::encode_all(data, level)
}

/// The error of this library that stands for an error of a codec.
pub fn codec_error(e: std::io::Error) -> (r: Error)
    ensures
        r == Error::CompressionFailure,
{
    Error::CompressionFailure
}

} // verus!
