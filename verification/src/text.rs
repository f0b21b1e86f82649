//! A length-prefixed text value.
//!
//! The on-disk form is a variable-length integer byte count followed by that
//! many bytes of UTF-8.  Unlike the header strings, conversion to a string is
//! lossy: invalid sequences are replaced, never rejected.

use vstd::prelude::*;
use vstd::utf8::{decode_utf8, valid_utf8};

use crate::errors::Error;
use crate::reader::read_vint;
use crate::util::{bytes_at, vint_decoded};
use crate::writable::Writable;

verus! {

/// What lossy UTF-8 conversion yields, as a function of the bytes alone.
pub uninterp spec fn lossy_decoded(bytes: Seq<u8>) -> Seq<char>;

/// Relies on String::from_utf8_lossy: the result depends on the bytes
/// alone, and valid UTF-8 is decoded unchanged.
#[verifier::external_body]
fn lossy_string(bytes: &Vec<u8>) -> (r: String)
    ensures
        r@ == lossy_decoded(bytes@),
        valid_utf8(bytes@) ==> r@ == decode_utf8(bytes@),
{
    String::from_utf8_lossy(bytes.as_slice()).into_owned()
}

/// Mathematical image of a text value: its declared length and its bytes.
pub struct TextV {
    /// The declared byte count.
    pub len: int,
    /// The text bytes.
    pub bytes: Seq<u8>,
}

/// A length-prefixed text value, kept as its raw bytes.
#[derive(Debug)]
pub struct Text {
    len: i32,
    buf: Vec<u8>,
}

impl View for Text {
    type V = TextV;

    closed spec fn view(&self) -> TextV {
        TextV { len: self.len as int, bytes: self.buf@ }
    }
}

impl Text {
    /// Converts to a string, replacing invalid UTF-8 sequences.
    pub fn to_string(&self) -> (r: String)
        ensures
            r@ == lossy_decoded(self@.bytes),
            valid_utf8(self@.bytes) ==> r@ == decode_utf8(self@.bytes),
    {
        lossy_string(&self.buf)
    }

    /// Whether this is the empty string.
    pub fn is_empty(&self) -> (r: bool)
        ensures
            r == (self@.len == 0),
    {
        self.len == 0
    }
}

impl Writable for Text {
    /// A variable-length integer byte count that must fit in 32 bits, then
    /// that many raw bytes; trailing bytes are ignored.
    open spec fn decodes_to(data: Seq<u8>, r: Result<Self, Error>) -> bool {
        match vint_decoded(data, 0) {
            Option::None => r matches Err(e) && e == Error::Io,
            Option::Some((n, end)) => {
                if n < 0 || n > i32::MAX {
                    r matches Err(e) && e == Error::DecodeFailure
                } else if end + n > data.len() {
                    r matches Err(e) && e == Error::Io
                } else {
                    r matches Ok(t) && t@.len == n && t@.bytes == data.subrange(end, end + n)
                }
            },
        }
    }

    fn read(buf: &Vec<u8>) -> (r: Result<Self, Error>) {
        let (len, end) = match read_vint(buf, 0) {
            Ok(p) => p,
            Err(e) => {
                return Err(e);
            },
        };
        if len < 0 {
            return Err(Error::DecodeFailure);
        }
        if len as usize > buf.len() - end {
            return Err(Error::Io);
        }
        let bytes = bytes_at(buf, end, len as usize);
        Ok(Text { len, buf: bytes })
    }
}

} // verus!
