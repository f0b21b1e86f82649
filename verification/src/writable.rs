//! The typed-value capability: decoding raw record bytes into typed values.
//!
//! Keys and values of a sequence file reconstruct themselves from the raw
//! bytes of their record region.  A type opts in by implementing
//! [`Writable`]; implementations are provided for raw byte buffers and for
//! the fixed-width big-endian integers.

use vstd::prelude::*;

use crate::errors::Error;
use crate::util::{be_accumulate, be_i16_at, be_i32_at, be_i64_at, be_signed, be_u64_at};

verus! {

/// A typed value that reconstructs itself from the raw bytes of a record
/// region.
pub trait Writable: Sized {
    /// The decoding relation: whether reading from `data` may return `r`.
    spec fn decodes_to(data: Seq<u8>, r: Result<Self, Error>) -> bool;

    /// Reads one value of this type from the start of `buf`; bytes past the
    /// encoding are ignored.
    fn read(buf: &Vec<u8>) -> (r: Result<Self, Error>)
        ensures
            Self::decodes_to(buf@, r),
    ;
}

impl Writable for Vec<u8> {
    /// A raw byte buffer is the record region itself, verbatim.
    open spec fn decodes_to(data: Seq<u8>, r: Result<Self, Error>) -> bool {
        r matches Ok(v) && v@ == data
    }

    fn read(buf: &Vec<u8>) -> (r: Result<Self, Error>) {
        Ok(vstd::slice::slice_to_vec(buf.as_slice()))
    }
}

impl Writable for i64 {
    /// The first eight bytes, big-endian and signed.
    open spec fn decodes_to(data: Seq<u8>, r: Result<Self, Error>) -> bool {
        if data.len() >= 8 {
            r matches Ok(v) && v == be_signed(data.subrange(0, 8))
        } else {
            r matches Err(e) && e == Error::Io
        }
    }

    fn read(buf: &Vec<u8>) -> (r: Result<Self, Error>) {
        if buf.len() < 8 {
            Err(Error::Io)
        } else {
            Ok(be_i64_at(buf, 0))
        }
    }
}

impl Writable for u64 {
    /// The first eight bytes, big-endian and unsigned.
    open spec fn decodes_to(data: Seq<u8>, r: Result<Self, Error>) -> bool {
        if data.len() >= 8 {
            r matches Ok(v) && v == be_accumulate(data.subrange(0, 8))
        } else {
            r matches Err(e) && e == Error::Io
        }
    }

    fn read(buf: &Vec<u8>) -> (r: Result<Self, Error>) {
        if buf.len() < 8 {
            Err(Error::Io)
        } else {
            proof {
                crate::util::lemma_be_accumulate_bound(buf@.subrange(0, 8));
                crate::util::lemma_pow256_values();
            }
            Ok(be_u64_at(buf, 0, 8))
        }
    }
}

impl Writable for i32 {
    /// The first four bytes, big-endian and signed.
    open spec fn decodes_to(data: Seq<u8>, r: Result<Self, Error>) -> bool {
        if data.len() >= 4 {
            r matches Ok(v) && v == be_signed(data.subrange(0, 4))
        } else {
            r matches Err(e) && e == Error::Io
        }
    }

    fn read(buf: &Vec<u8>) -> (r: Result<Self, Error>) {
        if buf.len() < 4 {
            Err(Error::Io)
        } else {
            Ok(be_i32_at(buf, 0))
        }
    }
}

impl Writable for u32 {
    /// The first four bytes, big-endian and unsigned.
    open spec fn decodes_to(data: Seq<u8>, r: Result<Self, Error>) -> bool {
        if data.len() >= 4 {
            r matches Ok(v) && v == be_accumulate(data.subrange(0, 4))
        } else {
            r matches Err(e) && e == Error::Io
        }
    }

    fn read(buf: &Vec<u8>) -> (r: Result<Self, Error>) {
        if buf.len() < 4 {
            Err(Error::Io)
        } else {
            proof {
                crate::util::lemma_be_accumulate_bound(buf@.subrange(0, 4));
                crate::util::lemma_pow256_values();
            }
            Ok(be_u64_at(buf, 0, 4) as u32)
        }
    }
}

impl Writable for i16 {
    /// The first two bytes, big-endian and signed.
    open spec fn decodes_to(data: Seq<u8>, r: Result<Self, Error>) -> bool {
        if data.len() >= 2 {
            r matches Ok(v) && v == be_signed(data.subrange(0, 2))
        } else {
            r matches Err(e) && e == Error::Io
        }
    }

    fn read(buf: &Vec<u8>) -> (r: Result<Self, Error>) {
        if buf.len() < 2 {
            Err(Error::Io)
        } else {
            Ok(be_i16_at(buf, 0))
        }
    }
}

impl Writable for u16 {
    /// The first two bytes, big-endian and unsigned.
    open spec fn decodes_to(data: Seq<u8>, r: Result<Self, Error>) -> bool {
        if data.len() >= 2 {
            r matches Ok(v) && v == be_accumulate(data.subrange(0, 2))
        } else {
            r matches Err(e) && e == Error::Io
        }
    }

    fn read(buf: &Vec<u8>) -> (r: Result<Self, Error>) {
        if buf.len() < 2 {
            Err(Error::Io)
        } else {
            proof {
                crate::util::lemma_be_accumulate_bound(buf@.subrange(0, 2));
                crate::util::lemma_pow256_values();
            }
            Ok(be_u64_at(buf, 0, 2) as u16)
        }
    }
}

impl Writable for u8 {
    /// The first byte.
    open spec fn decodes_to(data: Seq<u8>, r: Result<Self, Error>) -> bool {
        if data.len() >= 1 {
            r matches Ok(v) && v == data[0]
        } else {
            r matches Err(e) && e == Error::Io
        }
    }

    fn read(buf: &Vec<u8>) -> (r: Result<Self, Error>) {
        if buf.len() < 1 {
            Err(Error::Io)
        } else {
            Ok(buf[0])
        }
    }
}

impl Writable for i8 {
    /// The first byte, signed.
    open spec fn decodes_to(data: Seq<u8>, r: Result<Self, Error>) -> bool {
        if data.len() >= 1 {
            r matches Ok(v) && v == be_signed(data.subrange(0, 1))
        } else {
            r matches Err(e) && e == Error::Io
        }
    }

    fn read(buf: &Vec<u8>) -> (r: Result<Self, Error>) {
        if buf.len() < 1 {
            Err(Error::Io)
        } else {
            proof {
                let s = buf@.subrange(0, 1);
                assert(s.len() == 1);
                assert(s.last() == buf@[0]);
                assert(s.drop_last() =~= Seq::<u8>::empty());
                assert(be_accumulate(Seq::<u8>::empty()) == 0);
                assert(be_accumulate(s) == buf@[0]);
                crate::util::lemma_pow256_values();
            }
            let b = buf[0];
            if b < 0x80 {
                Ok(b as i8)
            } else {
                Ok(-((0xFFu8 - b) as i8) - 1)
            }
        }
    }
}

} // verus!
