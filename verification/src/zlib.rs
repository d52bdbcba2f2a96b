//! Compression of stored objects, done by the `flate2` crate.

use flate2::read::ZlibDecoder;
use flate2::write::ZlibEncoder;
use flate2::Compression;
use std::io::{Read, Write};
use vstd::prelude::*;

verus! {

/// What `flate2`'s zlib decoder makes of a byte stream: the decompressed bytes,
/// or nothing where the stream is not validly compressed.
pub uninterp spec fn zlib_inflated(stream: Seq<u8>) -> Option<Seq<u8>>;

/// What `flate2`'s zlib encoder at the default level makes of a byte
/// sequence: the compressed stream, or nothing where the encoder reports an
/// error.
pub uninterp spec fn zlib_deflated(data: Seq<u8>) -> Option<Seq<u8>>;

/// Compresses `data` with `flate2::write::ZlibEncoder` at the default level
/// (`new`, `write_all`, `finish`). `None` stands for an error of the encoder.
/// Claimed without proof: the outcome depends on the bytes of `data` alone,
/// and a stream that the encoder finished is one that the decoder turns back
/// into `data`.
#[verifier::external_body]
pub(crate) fn deflate(data: &[u8]) -> (stream: Option<Vec<u8>>)
    ensures
        match stream {
            Some(z) => zlib_deflated(data@) == Some(z@) && zlib_inflated(z@) == Some(data@),
            None => zlib_deflated(data@) is None,
        },
{
    let mut encoder = ZlibEncoder::new(Vec::new(), Compression::default());
    match encoder.write_all(data) {
        Ok(()) => encoder.finish().ok(),
        Err(_) => None,
    }
}

/// Decompresses `stream` with `flate2::read::ZlibDecoder` (`new`, then
/// `read_to_end`). `None` stands for an error of the decoder. Claimed without
/// proof: the outcome depends on the bytes of `stream` alone.
#[verifier::external_body]
pub(crate) fn inflate(stream: &[u8]) -> (data: Option<Vec<u8>>)
    ensures
        match data {
            Some(d) => zlib_inflated(stream@) == Some(d@),
            None => zlib_inflated(stream@) is None,
        },
{
    let mut decoder = ZlibDecoder::new(stream);
    let mut buffer = Vec::new();
    match decoder.read_to_end(&mut buffer) {
        Ok(_) => Some(buffer),
        Err(_) => None,
    }
}

} // verus!
