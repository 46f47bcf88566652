//! Trusted wrappers around the compression crates.
//!
//! Each compressed stream is a deterministic function of the input bytes
//! (the level is a fixed constant of this crate), so each compressor's
//! result is given a name, and the matching decompressor is trusted to
//! invert it.  Nothing else is assumed of the outside crates.

use vstd::prelude::*;

use std::io::Read;
use std::io::Write;

use crate::compression_levels::GZIP_LEVEL;
use crate::compression_levels::LZMA_LEVEL;
use crate::compression_levels::ZSTD_LEVEL;

verus! {

/// The xz stream that LZMA compression produces from `data` at this
/// crate's level.
pub uninterp spec fn lzma_of(data: Seq<u8>) -> Seq<u8>;

/// The gzip stream that GZIP compression produces from `data` at this
/// crate's level.
pub uninterp spec fn gzip_of(data: Seq<u8>) -> Seq<u8>;

/// The zstd stream that ZSTD compression produces from `data` at this
/// crate's level.
pub uninterp spec fn zstd_of(data: Seq<u8>) -> Seq<u8>;

/// The LZ4 block that LZ4 compression produces from `data`.
pub uninterp spec fn lz4_of(data: Seq<u8>) -> Seq<u8>;

/// Relies on xz2's `XzEncoder` over an in-memory buffer: writing the
/// whole input and finishing yields a stream that is a function of the
/// input bytes alone (the level is fixed here).
#[verifier::external_body]
pub(crate) fn lzma_compress(data: &[u8]) -> (r: Vec<u8>)
    ensures
        r@ == lzma_of(data@),
{
    let mut encoder = xz2::write::XzEncoder::new(Vec::new(), LZMA_LEVEL as u32);
    encoder.write_all(data).unwrap();
    encoder.finish().unwrap()
}

/// Relies on xz2's `XzDecoder`: reading a stream that `XzEncoder`
/// produced gives back exactly the bytes that were compressed.
#[verifier::external_body]
pub(crate) fn lzma_decompress(data: &[u8]) -> (r: Option<Vec<u8>>)
    ensures
        forall|x: Seq<u8>| data@ == #[trigger] lzma_of(x) ==> r is Some && r->0@ == x,
{
    let mut decoder = xz2::read::XzDecoder::new(data);
    let mut out = Vec::new();
    match decoder.read_to_end(&mut out) {
        Ok(_) => Some(out),
        Err(_) => None,
    }
}

/// Relies on flate2's `GzEncoder` over an in-memory buffer: writing the
/// whole input and finishing yields a stream that is a function of the
/// input bytes alone (the level is fixed here).
#[verifier::external_body]
pub(crate) fn gzip_compress(data: &[u8]) -> (r: Vec<u8>)
    ensures
        r@ == gzip_of(data@),
{
    let mut encoder = flate2::write::GzEncoder::new(
        Vec::new(),
        flate2::Compression::new(GZIP_LEVEL as u32),
    );
    encoder.write_all(data).unwrap();
    encoder.finish().unwrap()
}

/// Relies on flate2's `GzDecoder`: reading a stream that `GzEncoder`
/// produced gives back exactly the bytes that were compressed.
#[verifier::external_body]
pub(crate) fn gzip_decompress(data: &[u8]) -> (r: Option<Vec<u8>>)
    ensures
        forall|x: Seq<u8>| data@ == #[trigger] gzip_of(x) ==> r is Some && r->0@ == x,
{
    let mut decoder = flate2::read::GzDecoder::new(data);
    let mut out = Vec::new();
    match decoder.read_to_end(&mut out) {
        Ok(_) => Some(out),
        Err(_) => None,
    }
}

/// Relies on zstd's `encode_all`: the stream is a function of the input
/// bytes alone (the level is fixed here), and encoding an in-memory
/// buffer cannot fail.
#[verifier::external_body]
pub(crate) fn zstd_compress(data: &[u8]) -> (r: Vec<u8>)
    ensures
        r@ == zstd_of(data@),
{
    zstd::stream::encode_all(data, ZSTD_LEVEL as i32).unwrap()
}

/// Relies on zstd's `decode_all`: decoding a stream that `encode_all`
/// produced gives back exactly the bytes that were compressed.
#[verifier::external_body]
pub(crate) fn zstd_decompress(data: &[u8]) -> (r: Option<Vec<u8>>)
    ensures
        forall|x: Seq<u8>| data@ == #[trigger] zstd_of(x) ==> r is Some && r->0@ == x,
{
    match zstd::stream::decode_all(data) {
        Ok(out) => Some(out),
        Err(_) => None,
    }
}

/// Relies on lz4_flex's block `compress`: the block is a function of the
/// input bytes alone.
#[verifier::external_body]
pub(crate) fn lz4_compress(data: &[u8]) -> (r: Vec<u8>)
    ensures
        r@ == lz4_of(data@),
{
    lz4_flex::compress(data)
}

/// Relies on lz4_flex's block `decompress`: decoding a block that
/// `compress` produced, with the original length passed alongside, gives
/// back exactly the bytes that were compressed.
#[verifier::external_body]
pub(crate) fn lz4_decompress(data: &[u8], size: usize) -> (r: Option<Vec<u8>>)
    ensures
        forall|x: Seq<u8>|
            (data@ == #[trigger] lz4_of(x) && size == x.len()) ==> r is Some && r->0@ == x,
{
    match lz4_flex::decompress(data, size) {
        Ok(out) => Some(out),
        Err(_) => None,
    }
}

} // verus!
