//! Error taxonomy for sequence file decoding.

use vstd::prelude::*;

verus! {

/// Everything that can go wrong while decoding a sequence file.
///
/// `Eof` is a sentinel, not a user-visible failure: it marks clean exhaustion
/// of the byte source at a record or block boundary and is translated by the
/// reader into ordinary end-of-sequence.
#[derive(Debug, Clone, Copy, PartialEq, Eq, Structural)]
pub enum Error {
    /// The stream does not begin with the `SEQ` magic bytes.
    BadMagic,
    /// The version byte is outside the supported range.
    VersionNotSupported,
    /// The two compression flag bytes form no known combination.
    CompressionTypeUnknown,
    /// The codec identifier names no supported codec.
    UnsupportedCodec,
    /// A sync marker in the stream differs from the one in the header.
    SyncMarkerMismatch,
    /// Clean end of the byte source at a record or block boundary.
    Eof,
    /// The byte source ran out in the middle of a field.
    Io,
    /// A header string is not valid UTF-8.
    BadEncoding,
    /// Decompression failed, or a length field is malformed.
    DecodeFailure,
}

} // verus!
