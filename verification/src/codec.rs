//! Compression codecs: zstd frames and gzip streams.

use std::io::{Read, Write};
use vstd::prelude::*;

verus! {

/// The zstd frame that `zstd::encode_all` produces for `data` at level 0.
pub uninterp spec fn zstd_frame(data: Seq<u8>) -> Seq<u8>;

/// The content that `zstd::decode_all` recovers from `frame`, or `None`
/// where it fails on it.
pub uninterp spec fn zstd_content(frame: Seq<u8>) -> Option<Seq<u8>>;

/// The gzip stream that a default `flate2::write::GzEncoder` writes for `data`.
pub uninterp spec fn gzip_stream(data: Seq<u8>) -> Seq<u8>;

/// The content that `flate2::read::GzDecoder` reads out of `stream`, or
/// `None` where reading it fails.
pub uninterp spec fn gzip_content(stream: Seq<u8>) -> Option<Seq<u8>>;

/// Calls `zstd::encode_all` at level 0 (zstd's default level) on a byte
/// slice, writing into a `Vec`, which cannot fail: the result is the frame
/// `zstd_frame(data)`. The error type carries the I/O error's text.
#[verifier::external_body]
pub fn zstd_compress(data: &[u8]) -> (r: Result<Vec<u8>, String>)
    ensures
        r is Ok,
        r matches Ok(c) ==> c@ == zstd_frame(data@),
{
    zstd::encode_all(data, 0).map_err(|e| e.to_string())
}

/// Calls `zstd::decode_all`: it succeeds exactly where `zstd_content(frame)`
/// is some content, and gives that content. zstd is lossless: a frame that
/// `zstd::encode_all` made decodes to the data it was made from. The error's
/// text is not stated.
#[verifier::external_body]
pub fn zstd_decompress(frame: &[u8]) -> (r: Result<Vec<u8>, String>)
    ensures
        r is Ok <==> zstd_content(frame@) is Some,
        r matches Ok(d) ==> zstd_content(frame@) == Some(d@),
        forall|data: Seq<u8>| #[trigger] zstd_frame(data) == frame@ ==> (r is Ok && r->Ok_0@ == data),
{
    zstd::decode_all(frame).map_err(|e| e.to_string())
}

/// Writes `data` through a `flate2::write::GzEncoder` with the default level
/// into a `Vec` and finishes it; writing to a `Vec` cannot fail, so the
/// result is the stream `gzip_stream(data)`.
#[verifier::external_body]
pub fn gzip_compress(data: &[u8]) -> (r: Result<Vec<u8>, String>)
    ensures
        r is Ok,
        r matches Ok(c) ==> c@ == gzip_stream(data@),
{
    let mut encoder = flate2::write::GzEncoder::new(Vec::new(), flate2::Compression::default());
    encoder.write_all(data).map_err(|e| e.to_string())?;
    encoder.finish().map_err(|e| e.to_string())
}

/// Reads `stream` to its end through a `flate2::read::GzDecoder`: it
/// succeeds exactly where `gzip_content(stream)` is some content, and gives
/// that content. Deflate is lossless: a stream that a `GzEncoder` wrote reads
/// back as the data written. The error's text is not stated.
#[verifier::external_body]
pub fn gzip_decompress(stream: &[u8]) -> (r: Result<Vec<u8>, String>)
    ensures
        r is Ok <==> gzip_content(stream@) is Some,
        r matches Ok(d) ==> gzip_content(stream@) == Some(d@),
        forall|data: Seq<u8>| #[trigger] gzip_stream(data) == stream@ ==> (r is Ok && r->Ok_0@ == data),
{
    let mut decoder = flate2::read::GzDecoder::new(stream);
    let mut result = Vec::new();
    decoder.read_to_end(&mut result).map_err(|e| e.to_string())?;
    Ok(result)
}

} // verus!
