//! Codec identification and whole-buffer decompression.
//!
//! A compressed sequence file names its codec in the header by a well-known
//! identifier string.  Decompression is always whole-buffer: a compressed
//! sub-buffer is handed to the codec and read fully to completion before any
//! of it is consumed.

use vstd::prelude::*;

use crate::errors::Error;
use crate::util::str_eq;

verus! {

/// Type of compression used on the sequence file.
#[derive(Debug, Clone, Copy, PartialEq, Eq, Structural)]
pub enum CompressionType {
    /// No compression.
    Uncompressed,
    /// Record-level compression: the value of each key/value pair is
    /// compressed on its own.
    Record,
    /// Block-level compression: many key/value pairs are gathered into one
    /// compressed block.
    Block,
}

/// Compression codec.
#[derive(Debug, Clone, Copy, PartialEq, Eq, Structural)]
pub enum Codec {
    /// Deflate (zlib), the default.
    Default,
    /// Gzip.
    Gzip,
    /// Bzip2.
    Bzip2,
}

/// Identifier under which the header names the deflate codec.
pub const DEFAULT_CODEC: &'static str = "org.apache.hadoop.io.compress.DefaultCodec";

/// Identifier under which the header names the gzip codec.
pub const GZIP_CODEC: &'static str = "org.apache.hadoop.io.compress.GzipCodec";

/// Identifier under which the header names the bzip2 codec.
pub const BZIP2_CODEC: &'static str = "org.apache.hadoop.io.compress.BZip2Codec";

/// The codec a header identifier resolves to: an exact match against the
/// three supported identifiers, and nothing for every other string.
pub open spec fn codec_of(identifier: Seq<char>) -> Option<Codec> {
    if identifier == "org.apache.hadoop.io.compress.DefaultCodec"@ {
        Some(Codec::Default)
    } else if identifier == "org.apache.hadoop.io.compress.GzipCodec"@ {
        Some(Codec::Gzip)
    } else if identifier == "org.apache.hadoop.io.compress.BZip2Codec"@ {
        Some(Codec::Bzip2)
    } else {
        None
    }
}

/// Resolves a codec identifier string from the header.
pub fn codec(identifier: &str) -> (r: Option<Codec>)
    ensures
        r == codec_of(identifier@),
{
    if str_eq(identifier, "org.apache.hadoop.io.compress.DefaultCodec") {
        Some(Codec::Default)
    } else if str_eq(identifier, "org.apache.hadoop.io.compress.GzipCodec") {
        Some(Codec::Gzip)
    } else if str_eq(identifier, "org.apache.hadoop.io.compress.BZip2Codec") {
        Some(Codec::Bzip2)
    } else {
        None
    }
}

/// What inflating a zlib stream yields, as a function of the compressed
/// bytes alone; nothing when the stream is malformed.
pub uninterp spec fn zlib_inflated(compressed: Seq<u8>) -> Option<Seq<u8>>;

/// What inflating a gzip stream yields, as a function of the compressed
/// bytes alone; nothing when the stream is malformed.
pub uninterp spec fn gzip_inflated(compressed: Seq<u8>) -> Option<Seq<u8>>;

/// What inflating a bzip2 stream yields, as a function of the compressed
/// bytes alone; nothing when the stream is malformed.
pub uninterp spec fn bzip2_inflated(compressed: Seq<u8>) -> Option<Seq<u8>>;

/// Relies on flate2::read::ZlibDecoder: reading it to the end inflates the
/// whole zlib stream, an outcome determined by the compressed bytes alone.
#[verifier::external_body]
fn inflate_zlib(compressed: &Vec<u8>) -> (r: Result<Vec<u8>, Error>)
    ensures
        match zlib_inflated(compressed@) {
            Some(out) => r matches Ok(v) && v@ == out,
            None => r matches Err(e) && e == Error::DecodeFailure,
        },
{
    let mut decoder = flate2::read::ZlibDecoder::new(compressed.as_slice());
    let mut out = Vec::new();
    match std::io::Read::read_to_end(&mut decoder, &mut out) {
        Ok(_) => Ok(out),
        Err(_) => Err(Error::DecodeFailure),
    }
}

/// Relies on flate2::read::GzDecoder: reading it to the end inflates the
/// whole gzip stream, an outcome determined by the compressed bytes alone.
#[verifier::external_body]
fn inflate_gzip(compressed: &Vec<u8>) -> (r: Result<Vec<u8>, Error>)
    ensures
        match gzip_inflated(compressed@) {
            Some(out) => r matches Ok(v) && v@ == out,
            None => r matches Err(e) && e == Error::DecodeFailure,
        },
{
    let mut decoder = flate2::read::GzDecoder::new(compressed.as_slice());
    let mut out = Vec::new();
    match std::io::Read::read_to_end(&mut decoder, &mut out) {
        Ok(_) => Ok(out),
        Err(_) => Err(Error::DecodeFailure),
    }
}

/// Relies on bzip2::read::BzDecoder: reading it to the end inflates the
/// whole bzip2 stream, an outcome determined by the compressed bytes alone.
#[verifier::external_body]
fn inflate_bzip2(compressed: &Vec<u8>) -> (r: Result<Vec<u8>, Error>)
    ensures
        match bzip2_inflated(compressed@) {
            Some(out) => r matches Ok(v) && v@ == out,
            None => r matches Err(e) && e == Error::DecodeFailure,
        },
{
    let mut decoder = bzip2::read::BzDecoder::new(compressed.as_slice());
    let mut out = Vec::new();
    match std::io::Read::read_to_end(&mut decoder, &mut out) {
        Ok(_) => Ok(out),
        Err(_) => Err(Error::DecodeFailure),
    }
}

/// What decompressing a whole buffer with `codec` yields, or nothing when
/// the buffer is no well-formed stream of that codec.
pub open spec fn spec_decompress(codec: Codec, compressed: Seq<u8>) -> Option<Seq<u8>> {
    match codec {
        Codec::Default => zlib_inflated(compressed),
        Codec::Gzip => gzip_inflated(compressed),
        Codec::Bzip2 => bzip2_inflated(compressed),
    }
}

/// Decompresses a whole buffer with the given codec; a malformed buffer is a
/// decode failure.
pub fn decompressor(codec: &Codec, buffer: &Vec<u8>) -> (r: Result<Vec<u8>, Error>)
    ensures
        match spec_decompress(*codec, buffer@) {
            Some(out) => r matches Ok(v) && v@ == out,
            None => r matches Err(e) && e == Error::DecodeFailure,
        },
{
    match codec {
        Codec::Default => inflate_zlib(buffer),
        Codec::Gzip => inflate_gzip(buffer),
        Codec::Bzip2 => inflate_bzip2(buffer),
    }
}

} // verus!
