//! Header parsing and the streaming reader over decoded records.

use core::marker::PhantomData;
use vstd::prelude::*;
use vstd::utf8::{decode_utf8, valid_utf8};

use crate::compress::{codec, codec_of, spec_decompress, decompressor, Codec, CompressionType};
use crate::errors::Error;
use crate::util::{be_accumulate, be_i32_at, be_signed, be_u64_at, bytes_at, vint_decoded,
    ZeroCompress};
pub use crate::writable::Writable;
use crate::{metadata_map, Header, HeaderV};

verus! {

/// Relies on String::from_utf8: it succeeds exactly on valid UTF-8 and
/// decodes the bytes to their character sequence.
#[verifier::external_body]
fn utf8_string(bytes: Vec<u8>) -> (r: Option<String>)
    ensures
        r is Some <==> valid_utf8(bytes@),
        r matches Some(s) ==> s@ == decode_utf8(bytes@),
{
    String::from_utf8(bytes).ok()
}

/// The string starting at `pos`: a one-byte length, then that many bytes of
/// strict UTF-8.
pub open spec fn spec_read_string(s: Seq<u8>, pos: int) -> Result<(Seq<char>, int), Error> {
    if !(0 <= pos && pos + 1 <= s.len()) {
        Err(Error::Io)
    } else {
        let n = s[pos] as int;
        if pos + 1 + n > s.len() {
            Err(Error::Io)
        } else {
            let bytes = s.subrange(pos + 1, pos + 1 + n);
            if valid_utf8(bytes) {
                Ok((decode_utf8(bytes), pos + 1 + n))
            } else {
                Err(Error::BadEncoding)
            }
        }
    }
}

/// Reads a one-byte-length-prefixed strict UTF-8 string.
fn read_string(data: &Vec<u8>, pos: usize) -> (r: Result<(String, usize), Error>)
    ensures
        match spec_read_string(data@, pos as int) {
            Ok(p) => r matches Ok(q) && q.0@ == p.0 && q.1 == p.1,
            Err(e) => r matches Err(e2) && e2 == e,
        },
{
    if pos >= data.len() {
        return Err(Error::Io);
    }
    let n = data[pos] as usize;
    if n > data.len() - (pos + 1) {
        return Err(Error::Io);
    }
    let bytes = bytes_at(data, pos + 1, n);
    match utf8_string(bytes) {
        Some(s) => Ok((s, pos + 1 + n)),
        None => Err(Error::BadEncoding),
    }
}

/// The buffer starting at `pos`: a variable-length integer byte count, then
/// that many raw bytes.
pub open spec fn spec_read_buf(s: Seq<u8>, pos: int) -> Result<(Seq<u8>, int), Error> {
    match vint_decoded(s, pos) {
        Option::None => Err(Error::Io),
        Option::Some((n, end)) => {
            if n < 0 {
                Err(Error::DecodeFailure)
            } else if end + n > s.len() {
                Err(Error::Io)
            } else {
                Ok((s.subrange(end, end + n), end + n))
            }
        },
    }
}

/// Reads a variable-length-integer-prefixed raw buffer.
fn read_buf(data: &Vec<u8>, pos: usize) -> (r: Result<(Vec<u8>, usize), Error>)
    ensures
        match spec_read_buf(data@, pos as int) {
            Ok(p) => r matches Ok(q) && q.0@ == p.0 && q.1 == p.1,
            Err(e) => r matches Err(e2) && e2 == e,
        },
{
    let (n, end) = match data.decode_vint64(pos) {
        Ok(p) => p,
        Err(e) => {
            return Err(e);
        },
    };
    if n < 0 {
        return Err(Error::DecodeFailure);
    }
    if n as u64 > (data.len() - end) as u64 {
        return Err(Error::Io);
    }
    let n = n as usize;
    Ok((bytes_at(data, end, n), end + n))
}

/// Reads a variable-length integer that must fit in 32 bits; a wider value
/// is a malformed length.
pub fn read_vint(data: &Vec<u8>, pos: usize) -> (r: Result<(i32, usize), Error>)
    ensures
        match vint_decoded(data@, pos as int) {
            Option::Some(v) => {
                if i32::MIN <= v.0 <= i32::MAX {
                    r matches Ok(p) && p.0 == v.0 && p.1 == v.1
                } else {
                    r matches Err(e) && e == Error::DecodeFailure
                }
            },
            Option::None => r matches Err(e) && e == Error::Io,
        },
{
    match data.decode_vint64(pos) {
        Err(e) => Err(e),
        Ok((v, end)) => {
            if v < i32::MIN as i64 || v > i32::MAX as i64 {
                Err(Error::DecodeFailure)
            } else {
                Ok((v as i32, end))
            }
        },
    }
}

/// The metadata pairs starting at `pos`: `count` pairs of buffer-framed
/// strict UTF-8 strings, folded into `acc` in stream order.
pub open spec fn spec_read_metadata(
    s: Seq<u8>,
    pos: int,
    count: nat,
    acc: Map<Seq<char>, Seq<char>>,
) -> Result<(Map<Seq<char>, Seq<char>>, int), Error>
    decreases count,
{
    if count == 0 {
        Ok((acc, pos))
    } else {
        match spec_read_buf(s, pos) {
            Err(e) => Err(e),
            Ok((kb, p1)) => {
                if !valid_utf8(kb) {
                    Err(Error::BadEncoding)
                } else {
                    match spec_read_buf(s, p1) {
                        Err(e) => Err(e),
                        Ok((vb, p2)) => {
                            if !valid_utf8(vb) {
                                Err(Error::BadEncoding)
                            } else {
                                spec_read_metadata(
                                    s,
                                    p2,
                                    (count - 1) as nat,
                                    acc.insert(decode_utf8(kb), decode_utf8(vb)),
                                )
                            }
                        },
                    }
                }
            },
        }
    }
}

/// Reads `count` metadata pairs, appending them to `pairs`.
fn read_metadata(data: &Vec<u8>, pos: usize, count: u64) -> (r: Result<
    (Vec<(String, String)>, usize),
    Error,
>)
    ensures
        match spec_read_metadata(data@, pos as int, count as nat, Map::empty()) {
            Ok(p) => r matches Ok(q) && metadata_map(q.0@) == p.0 && q.1 == p.1,
            Err(e) => r matches Err(e2) && e2 == e,
        },
{
    let ghost start_call = spec_read_metadata(data@, pos as int, count as nat, Map::empty());
    let mut pairs: Vec<(String, String)> = Vec::new();
    let mut cur: usize = pos;
    let mut remaining: u64 = count;
    proof {
        assert(metadata_map(pairs@) =~= Map::<Seq<char>, Seq<char>>::empty());
    }
    while remaining > 0
        invariant
            start_call == spec_read_metadata(data@, pos as int, count as nat, Map::empty()),
            start_call == spec_read_metadata(
                data@,
                cur as int,
                remaining as nat,
                metadata_map(pairs@),
            ),
        decreases remaining,
    {
        let (kb, p1) = match read_buf(data, cur) {
            Ok(p) => p,
            Err(e) => {
                return Err(e);
            },
        };
        let key = match utf8_string(kb) {
            Some(s) => s,
            None => {
                return Err(Error::BadEncoding);
            },
        };
        let (vb, p2) = match read_buf(data, p1) {
            Ok(p) => p,
            Err(e) => {
                return Err(e);
            },
        };
        let value = match utf8_string(vb) {
            Some(s) => s,
            None => {
                return Err(Error::BadEncoding);
            },
        };
        proof {
            assert(pairs@.push((key, value)).drop_last() =~= pairs@);
        }
        pairs.push((key, value));
        cur = p2;
        remaining = remaining - 1;
    }
    Ok((pairs, cur))
}

/// The parsed header of the stream and the position just after it.
///
/// Consumed in order: the three magic bytes, the version byte, the key and
/// value type names, the two compression flag bytes, the codec identifier
/// when compression is enabled, the metadata count and pairs, and the
/// sixteen-byte sync marker.  Each check answers with its own error, and a
/// source too short for any field is a short read.
pub open spec fn spec_header(s: Seq<u8>) -> Result<(HeaderV, int), Error> {
    if s.len() < 3 {
        Err(Error::Io)
    } else if s.subrange(0, 3) != seq![0x53u8, 0x45u8, 0x51u8] {
        Err(Error::BadMagic)
    } else if s.len() < 4 {
        Err(Error::Io)
    } else {
        let version = s[3] as u16;
        if !(5 <= version <= 6) {
            Err(Error::VersionNotSupported)
        } else {
            match spec_read_string(s, 4) {
                Err(e) => Err(e),
                Ok((key_class, p1)) => match spec_read_string(s, p1) {
                    Err(e) => Err(e),
                    Ok((value_class, p2)) => {
                        if p2 + 2 > s.len() {
                            Err(Error::Io)
                        } else {
                            let f0 = s[p2];
                            let f1 = s[p2 + 1];
                            if f0 == 1 && f1 == 1 {
                                spec_header_codec(s, p2 + 2, version, CompressionType::Block, key_class, value_class)
                            } else if f0 == 1 && f1 == 0 {
                                spec_header_codec(s, p2 + 2, version, CompressionType::Record, key_class, value_class)
                            } else if f0 == 0 && f1 == 0 {
                                spec_header_tail(s, p2 + 2, version, CompressionType::Uncompressed, Option::None, key_class, value_class)
                            } else {
                                Err(Error::CompressionTypeUnknown)
                            }
                        }
                    },
                },
            }
        }
    }
}

/// The codec identifier of a compressed stream, then the rest of the header.
pub open spec fn spec_header_codec(
    s: Seq<u8>,
    pos: int,
    version: u16,
    ctype: CompressionType,
    key_class: Seq<char>,
    value_class: Seq<char>,
) -> Result<(HeaderV, int), Error> {
    match spec_read_string(s, pos) {
        Err(e) => Err(e),
        Ok((identifier, p)) => match codec_of(identifier) {
            Option::None => Err(Error::UnsupportedCodec),
            Option::Some(c) => spec_header_tail(
                s,
                p,
                version,
                ctype,
                Option::Some(c),
                key_class,
                value_class,
            ),
        },
    }
}

/// The metadata section and sync marker that close the header.
pub open spec fn spec_header_tail(
    s: Seq<u8>,
    pos: int,
    version: u16,
    ctype: CompressionType,
    ccodec: Option<Codec>,
    key_class: Seq<char>,
    value_class: Seq<char>,
) -> Result<(HeaderV, int), Error> {
    if pos + 4 > s.len() {
        Err(Error::Io)
    } else {
        let count = be_accumulate(s.subrange(pos, pos + 4));
        match spec_read_metadata(s, pos + 4, count, Map::empty()) {
            Err(e) => Err(e),
            Ok((metadata, p)) => {
                if p + 16 > s.len() {
                    Err(Error::Io)
                } else {
                    Ok(
                        (
                            HeaderV {
                                version,
                                compression_type: ctype,
                                compression_codec: ccodec,
                                key_class,
                                value_class,
                                metadata,
                                sync_marker: s.subrange(p, p + 16),
                            },
                            p + 16,
                        ),
                    )
                }
            },
        }
    }
}

/// Parses the header prologue, returning the header and the position of the
/// first record.
pub fn read_header(data: &Vec<u8>) -> (r: Result<(Header, usize), Error>)
    ensures
        match spec_header(data@) {
            Ok(p) => r matches Ok(q) && q.0@ == p.0 && q.1 == p.1,
            Err(e) => r matches Err(e2) && e2 == e,
        },
        r matches Ok(q) ==> q.0@.wf() && q.1 <= data@.len(),
{
    if data.len() < 3 {
        return Err(Error::Io);
    }
    if !(data[0] == 0x53 && data[1] == 0x45 && data[2] == 0x51) {
        proof {
            assert(data@.subrange(0, 3) != seq![0x53u8, 0x45u8, 0x51u8]);
        }
        return Err(Error::BadMagic);
    }
    proof {
        assert(data@.subrange(0, 3) =~= seq![0x53u8, 0x45u8, 0x51u8]);
    }
    if data.len() < 4 {
        return Err(Error::Io);
    }
    let version = data[3] as u16;
    if !(5 <= version && version <= 6) {
        return Err(Error::VersionNotSupported);
    }
    let (key_class, p1) = match read_string(data, 4) {
        Ok(p) => p,
        Err(e) => {
            return Err(e);
        },
    };
    let (value_class, p2) = match read_string(data, p1) {
        Ok(p) => p,
        Err(e) => {
            return Err(e);
        },
    };
    if p2 >= data.len() || data.len() - p2 < 2 {
        return Err(Error::Io);
    }
    let f0 = data[p2];
    let f1 = data[p2 + 1];
    let compression_type = if f0 == 1 && f1 == 1 {
        CompressionType::Block
    } else if f0 == 1 && f1 == 0 {
        CompressionType::Record
    } else if f0 == 0 && f1 == 0 {
        CompressionType::Uncompressed
    } else {
        return Err(Error::CompressionTypeUnknown);
    };
    let p3 = p2 + 2;
    let (compression_codec, p4) = if matches!(compression_type, CompressionType::Uncompressed) {
        (None, p3)
    } else {
        let (identifier, p) = match read_string(data, p3) {
            Ok(p) => p,
            Err(e) => {
                return Err(e);
            },
        };
        match codec(identifier.as_str()) {
            Some(c) => (Some(c), p),
            None => {
                return Err(Error::UnsupportedCodec);
            },
        }
    };
    if p4 >= data.len() || data.len() - p4 < 4 {
        return Err(Error::Io);
    }
    let count = be_u64_at(data, p4, 4);
    let (metadata, p5) = match read_metadata(data, p4 + 4, count) {
        Ok(p) => p,
        Err(e) => {
            return Err(e);
        },
    };
    if p5 >= data.len() || data.len() - p5 < 16 {
        return Err(Error::Io);
    }
    let sync_marker = bytes_at(data, p5, 16);
    Ok(
        (
            Header {
                version,
                compression_type,
                compression_codec,
                key_class,
                value_class,
                metadata,
                sync_marker,
            },
            p5 + 16,
        ),
    )
}

/// Whether two byte buffers hold the same bytes.
fn bytes_eq(a: &Vec<u8>, b: &Vec<u8>) -> (r: bool)
    ensures
        r == (a@ == b@),
{
    if a.len() != b.len() {
        return false;
    }
    let mut i: usize = 0;
    while i < a.len()
        invariant
            i <= a@.len(),
            a@.len() == b@.len(),
            forall|j: int| 0 <= j < i ==> a@[j] == b@[j],
        decreases a@.len() - i,
    {
        if a[i] != b[i] {
            return false;
        }
        i += 1;
    }
    proof {
        assert(a@ =~= b@);
    }
    true
}

/// One key/value record framed at `pos`, its total payload length `kv_len`
/// already read: a four-byte big-endian key length, then the key bytes, then
/// the value region, decompressed when the stream is record-compressed.
pub open spec fn spec_read_kv(h: HeaderV, s: Seq<u8>, pos: int, kv_len: int) -> Result<
    ((Seq<u8>, Seq<u8>), int),
    Error,
> {
    if pos + 4 > s.len() {
        Err(Error::Io)
    } else {
        let k = be_signed(s.subrange(pos, pos + 4));
        let body = pos + 4;
        if k < 0 || k > kv_len {
            Err(Error::DecodeFailure)
        } else if body + kv_len > s.len() {
            Err(Error::Io)
        } else {
            let key = s.subrange(body, body + k);
            let raw = s.subrange(body + k, body + kv_len);
            if h.compression_type is Record {
                match spec_decompress(h.compression_codec.unwrap(), raw) {
                    Option::Some(v) => Ok(((key, v), body + kv_len)),
                    Option::None => Err(Error::DecodeFailure),
                }
            } else {
                Ok(((key, raw), body + kv_len))
            }
        }
    }
}

/// Reads the key and value regions of one record whose payload length is
/// `kv_len`.
fn read_kv(h: &Header, data: &Vec<u8>, pos: usize, kv_len: i32) -> (r: Result<
    ((Vec<u8>, Vec<u8>), usize),
    Error,
>)
    requires
        h@.wf(),
        kv_len >= 0,
        pos <= data@.len(),
    ensures
        match spec_read_kv(h@, data@, pos as int, kv_len as int) {
            Ok(p) => r matches Ok(q) && q.0.0@ == p.0.0 && q.0.1@ == p.0.1 && q.1 == p.1 && q.1
                <= data@.len(),
            Err(e) => r matches Err(e2) && e2 == e,
        },
{
    if data.len() - pos < 4 {
        return Err(Error::Io);
    }
    let k = be_i32_at(data, pos);
    let body = pos + 4;
    if k < 0 || k > kv_len {
        return Err(Error::DecodeFailure);
    }
    if kv_len as usize > data.len() - body {
        return Err(Error::Io);
    }
    let key = bytes_at(data, body, k as usize);
    let raw = bytes_at(data, body + k as usize, (kv_len - k) as usize);
    proof {
        assert(raw@ =~= data@.subrange(body + k, body + kv_len));
    }
    if matches!(h.compression_type, CompressionType::Record) {
        match h.compression_codec {
            Some(c) => match decompressor(&c, &raw) {
                Ok(value) => Ok(((key, value), body + kv_len as usize)),
                Err(e) => Err(e),
            },
            None => {
                proof {
                    assert(false);
                }
                Err(Error::DecodeFailure)
            },
        }
    } else {
        Ok(((key, raw), body + kv_len as usize))
    }
}

/// The next record of a plain or record-compressed stream, starting at
/// `pos`.
///
/// A source exhausted where the four-byte record length should stand is
/// clean end-of-stream.  A length of -1 marks a synchronization point: the
/// sixteen bytes that follow must equal the header's sync marker, and the
/// true record length is then re-read.  Any other negative length is
/// malformed.
pub open spec fn spec_record_next(h: HeaderV, s: Seq<u8>, pos: int) -> Result<
    ((Seq<u8>, Seq<u8>), int),
    Error,
>
    decreases s.len() - pos,
{
    if pos + 4 > s.len() {
        Err(Error::Eof)
    } else {
        let l = be_signed(s.subrange(pos, pos + 4));
        let p = pos + 4;
        if l == -1 {
            if p + 16 > s.len() {
                Err(Error::Io)
            } else if s.subrange(p, p + 16) != h.sync_marker {
                Err(Error::SyncMarkerMismatch)
            } else {
                spec_record_next(h, s, p + 16)
            }
        } else if l < 0 {
            Err(Error::DecodeFailure)
        } else {
            spec_read_kv(h, s, p, l)
        }
    }
}

/// Reads the next record of a plain or record-compressed stream.
fn read_record(h: &Header, data: &Vec<u8>, pos: usize) -> (r: Result<
    ((Vec<u8>, Vec<u8>), usize),
    Error,
>)
    requires
        h@.wf(),
        pos <= data@.len(),
    ensures
        match spec_record_next(h@, data@, pos as int) {
            Ok(p) => r matches Ok(q) && q.0.0@ == p.0.0 && q.0.1@ == p.0.1 && q.1 == p.1 && q.1
                <= data@.len(),
            Err(e) => r matches Err(e2) && e2 == e,
        },
{
    let mut cur: usize = pos;
    loop
        invariant
            h@.wf(),
            cur <= data@.len(),
            spec_record_next(h@, data@, pos as int) == spec_record_next(h@, data@, cur as int),
        decreases data@.len() - cur,
    {
        if data.len() - cur < 4 {
            return Err(Error::Eof);
        }
        let l = be_i32_at(data, cur);
        let p = cur + 4;
        if l == -1 {
            if data.len() - p < 16 {
                return Err(Error::Io);
            }
            let marker = bytes_at(data, p, 16);
            if !bytes_eq(&marker, &h.sync_marker) {
                return Err(Error::SyncMarkerMismatch);
            }
            cur = p + 16;
        } else if l < 0 {
            return Err(Error::DecodeFailure);
        } else {
            return read_kv(h, data, p, l);
        }
    }
}

/// The views of a list of signed 64-bit values.
pub open spec fn int_seq(v: Seq<i64>) -> Seq<int> {
    Seq::new(v.len(), |i: int| v[i] as int)
}

/// The views of a list of byte buffers.
pub open spec fn bufs_view(v: Seq<Vec<u8>>) -> Seq<Seq<u8>> {
    Seq::new(v.len(), |i: int| v[i]@)
}

/// The views of a list of key/value byte buffer pairs.
pub open spec fn pairs_view(v: Seq<(Vec<u8>, Vec<u8>)>) -> Seq<(Seq<u8>, Seq<u8>)> {
    Seq::new(v.len(), |i: int| (v[i].0@, v[i].1@))
}

/// `count` variable-length integers decoded in order from `buf` starting at
/// `pos`, appended to `acc`, with the position just after them.  A negative
/// value is no byte length and malformed.
pub open spec fn spec_vint_list(buf: Seq<u8>, pos: int, count: nat, acc: Seq<int>) -> Result<
    (Seq<int>, int),
    Error,
>
    decreases count,
{
    if count == 0 {
        Ok((acc, pos))
    } else {
        match vint_decoded(buf, pos) {
            Option::None => Err(Error::Io),
            Option::Some((v, p)) => {
                if v < 0 {
                    Err(Error::DecodeFailure)
                } else {
                    spec_vint_list(buf, p, (count - 1) as nat, acc.push(v))
                }
            },
        }
    }
}

/// Decodes `count` variable-length integers from the start of `buf`.
fn vint_list(buf: &Vec<u8>, count: u64) -> (r: Result<Vec<i64>, Error>)
    ensures
        match spec_vint_list(buf@, 0, count as nat, Seq::empty()) {
            Ok(p) => r matches Ok(q) && int_seq(q@) == p.0,
            Err(e) => r matches Err(e2) && e2 == e,
        },
{
    let ghost start_call = spec_vint_list(buf@, 0, count as nat, Seq::empty());
    let mut out: Vec<i64> = Vec::new();
    let mut cur: usize = 0;
    let mut remaining: u64 = count;
    proof {
        assert(int_seq(out@) =~= Seq::<int>::empty());
    }
    while remaining > 0
        invariant
            start_call == spec_vint_list(buf@, 0, count as nat, Seq::empty()),
            start_call == spec_vint_list(buf@, cur as int, remaining as nat, int_seq(out@)),
        decreases remaining,
    {
        let (v, p) = match buf.decode_vint64(cur) {
            Ok(p) => p,
            Err(e) => {
                return Err(e);
            },
        };
        if v < 0 {
            return Err(Error::DecodeFailure);
        }
        proof {
            assert(int_seq(out@.push(v)) =~= int_seq(out@).push(v as int));
        }
        out.push(v);
        cur = p;
        remaining = remaining - 1;
    }
    Ok(out)
}

/// The sub-buffers of `buf` cut in order by the byte lengths `lens`,
/// appended to `acc`; bytes past the last cut are ignored.
pub open spec fn spec_slices(buf: Seq<u8>, lens: Seq<int>, pos: int, acc: Seq<Seq<u8>>) -> Result<
    Seq<Seq<u8>>,
    Error,
>
    decreases lens.len(),
{
    if lens.len() == 0 {
        Ok(acc)
    } else {
        let n = lens[0];
        if n < 0 {
            Err(Error::DecodeFailure)
        } else if pos + n > buf.len() {
            Err(Error::Io)
        } else {
            spec_slices(buf, lens.drop_first(), pos + n, acc.push(buf.subrange(pos, pos + n)))
        }
    }
}

proof fn lemma_spec_vint_list_len(buf: Seq<u8>, pos: int, count: nat, acc: Seq<int>)
    ensures
        spec_vint_list(buf, pos, count, acc) matches Ok(p) ==> p.0.len() == acc.len() + count,
    decreases count,
{
    if count > 0 {
        if let Option::Some((v, p)) = vint_decoded(buf, pos) {
            if v >= 0 {
                lemma_spec_vint_list_len(buf, p, (count - 1) as nat, acc.push(v));
            }
        }
    }
}

proof fn lemma_spec_slices_len(buf: Seq<u8>, lens: Seq<int>, pos: int, acc: Seq<Seq<u8>>)
    ensures
        spec_slices(buf, lens, pos, acc) matches Ok(r) ==> r.len() == acc.len() + lens.len(),
    decreases lens.len(),
{
    if lens.len() > 0 && lens[0] >= 0 && pos + lens[0] <= buf.len() {
        lemma_spec_slices_len(
            buf,
            lens.drop_first(),
            pos + lens[0],
            acc.push(buf.subrange(pos, pos + lens[0])),
        );
    }
}

/// Cuts `buf` into one sub-buffer per entry of `lens`.
fn slices(buf: &Vec<u8>, lens: &Vec<i64>) -> (r: Result<Vec<Vec<u8>>, Error>)
    ensures
        match spec_slices(buf@, int_seq(lens@), 0, Seq::empty()) {
            Ok(p) => r matches Ok(q) && bufs_view(q@) == p,
            Err(e) => r matches Err(e2) && e2 == e,
        },
{
    let ghost start_call = spec_slices(buf@, int_seq(lens@), 0, Seq::empty());
    let mut out: Vec<Vec<u8>> = Vec::new();
    let mut cur: usize = 0;
    let mut i: usize = 0;
    proof {
        assert(bufs_view(out@) =~= Seq::<Seq<u8>>::empty());
        assert(int_seq(lens@).skip(0) =~= int_seq(lens@));
    }
    while i < lens.len()
        invariant
            i <= lens@.len(),
            cur <= buf@.len(),
            start_call == spec_slices(buf@, int_seq(lens@), 0, Seq::empty()),
            start_call == spec_slices(
                buf@,
                int_seq(lens@).skip(i as int),
                cur as int,
                bufs_view(out@),
            ),
        decreases lens@.len() - i,
    {
        let n = lens[i];
        proof {
            assert(int_seq(lens@).skip(i as int)[0] == lens@[i as int] as int);
        }
        if n < 0 {
            return Err(Error::DecodeFailure);
        }
        if n as u64 > (buf.len() - cur) as u64 {
            return Err(Error::Io);
        }
        let n = n as usize;
        let piece = bytes_at(buf, cur, n);
        proof {
            assert(int_seq(lens@).skip(i as int).drop_first() =~= int_seq(lens@).skip(i + 1));
            assert(bufs_view(out@.push(piece)) =~= bufs_view(out@).push(piece@));
        }
        out.push(piece);
        cur = cur + n;
        i = i + 1;
    }
    proof {
        assert(int_seq(lens@).skip(lens@.len() as int) =~= Seq::<int>::empty());
    }
    Ok(out)
}

/// One whole block at `pos`: a variable-length record count, then four
/// buffer-framed, independently compressed sub-buffers — key lengths, keys,
/// value lengths, values.  The decompressed length lists cut the
/// decompressed key and value buffers into `cnt` spans each, and the spans
/// are paired up in order.
pub open spec fn spec_block_body(h: HeaderV, s: Seq<u8>, pos: int) -> Result<
    (Seq<(Seq<u8>, Seq<u8>)>, int),
    Error,
> {
    match vint_decoded(s, pos) {
        Option::None => Err(Error::Io),
        Option::Some((cnt, p0)) => {
            if cnt < 0 {
                Err(Error::DecodeFailure)
            } else {
                match spec_read_buf(s, p0) {
                    Err(e) => Err(e),
                    Ok((klc, p1)) => match spec_decompress(h.compression_codec.unwrap(), klc) {
                        Option::None => Err(Error::DecodeFailure),
                        Option::Some(klb) => match spec_vint_list(klb, 0, cnt as nat, Seq::empty()) {
                            Err(e) => Err(e),
                            Ok((klens, _)) => match spec_read_buf(s, p1) {
                                Err(e) => Err(e),
                                Ok((kc, p2)) => match spec_decompress(
                                    h.compression_codec.unwrap(),
                                    kc,
                                ) {
                                    Option::None => Err(Error::DecodeFailure),
                                    Option::Some(kb) => match spec_slices(kb, klens, 0, Seq::empty()) {
                                        Err(e) => Err(e),
                                        Ok(keys) => match spec_read_buf(s, p2) {
                                            Err(e) => Err(e),
                                            Ok((vlc, p3)) => match spec_decompress(
                                                h.compression_codec.unwrap(),
                                                vlc,
                                            ) {
                                                Option::None => Err(Error::DecodeFailure),
                                                Option::Some(vlb) => match spec_vint_list(
                                                    vlb,
                                                    0,
                                                    cnt as nat,
                                                    Seq::empty(),
                                                ) {
                                                    Err(e) => Err(e),
                                                    Ok((vlens, _)) => match spec_read_buf(s, p3) {
                                                        Err(e) => Err(e),
                                                        Ok((vc, p4)) => match spec_decompress(
                                                            h.compression_codec.unwrap(),
                                                            vc,
                                                        ) {
                                                            Option::None => Err(Error::DecodeFailure),
                                                            Option::Some(vb) => match spec_slices(
                                                                vb,
                                                                vlens,
                                                                0,
                                                                Seq::empty(),
                                                            ) {
                                                                Err(e) => Err(e),
                                                                Ok(vals) => Ok(
                                                                    (
                                                                        Seq::new(
                                                                            cnt as nat,
                                                                            |i: int|
                                                                                (keys[i], vals[i]),
                                                                        ),
                                                                        p4,
                                                                    ),
                                                                ),
                                                            },
                                                        },
                                                    },
                                                },
                                            },
                                        },
                                    },
                                },
                            },
                        },
                    },
                }
            }
        },
    }
}

proof fn lemma_spec_read_buf_pos(s: Seq<u8>, pos: int)
    ensures
        spec_read_buf(s, pos) matches Ok(p) ==> pos < p.1 <= s.len(),
{
}

proof fn lemma_spec_block_body_pos(h: HeaderV, s: Seq<u8>, pos: int)
    ensures
        spec_block_body(h, s, pos) matches Ok(p) ==> pos < p.1 <= s.len(),
{
    if let Option::Some((cnt, p0)) = vint_decoded(s, pos) {
        lemma_spec_read_buf_pos(s, p0);
        if let Ok((_, p1)) = spec_read_buf(s, p0) {
            lemma_spec_read_buf_pos(s, p1);
            if let Ok((_, p2)) = spec_read_buf(s, p1) {
                lemma_spec_read_buf_pos(s, p2);
                if let Ok((_, p3)) = spec_read_buf(s, p2) {
                    lemma_spec_read_buf_pos(s, p3);
                }
            }
        }
    }
}

/// Decodes the block at `pos` into its key/value byte pairs.
fn read_block_body(h: &Header, data: &Vec<u8>, pos: usize) -> (r: Result<
    (Vec<(Vec<u8>, Vec<u8>)>, usize),
    Error,
>)
    requires
        h@.wf(),
        !(h@.compression_type is Uncompressed),
        pos <= data@.len(),
    ensures
        match spec_block_body(h@, data@, pos as int) {
            Ok(p) => r matches Ok(q) && pairs_view(q.0@) == p.0 && q.1 == p.1 && pos < q.1
                <= data@.len(),
            Err(e) => r matches Err(e2) && e2 == e,
        },
{
    let cdc = match h.compression_codec {
        Some(c) => c,
        None => {
            proof {
                assert(false);
            }
            return Err(Error::DecodeFailure);
        },
    };
    let (cnt, p0) = match data.decode_vint64(pos) {
        Ok(p) => p,
        Err(e) => {
            return Err(e);
        },
    };
    if cnt < 0 {
        return Err(Error::DecodeFailure);
    }
    let (klc, p1) = match read_buf(data, p0) {
        Ok(p) => p,
        Err(e) => {
            return Err(e);
        },
    };
    let klb = match decompressor(&cdc, &klc) {
        Ok(b) => b,
        Err(e) => {
            return Err(e);
        },
    };
    let klens = match vint_list(&klb, cnt as u64) {
        Ok(l) => l,
        Err(e) => {
            return Err(e);
        },
    };
    let (kc, p2) = match read_buf(data, p1) {
        Ok(p) => p,
        Err(e) => {
            return Err(e);
        },
    };
    let kb = match decompressor(&cdc, &kc) {
        Ok(b) => b,
        Err(e) => {
            return Err(e);
        },
    };
    let keys = match slices(&kb, &klens) {
        Ok(k) => k,
        Err(e) => {
            return Err(e);
        },
    };
    let (vlc, p3) = match read_buf(data, p2) {
        Ok(p) => p,
        Err(e) => {
            return Err(e);
        },
    };
    let vlb = match decompressor(&cdc, &vlc) {
        Ok(b) => b,
        Err(e) => {
            return Err(e);
        },
    };
    let vlens = match vint_list(&vlb, cnt as u64) {
        Ok(l) => l,
        Err(e) => {
            return Err(e);
        },
    };
    let (vc, p4) = match read_buf(data, p3) {
        Ok(p) => p,
        Err(e) => {
            return Err(e);
        },
    };
    let vb = match decompressor(&cdc, &vc) {
        Ok(b) => b,
        Err(e) => {
            return Err(e);
        },
    };
    let vals = match slices(&vb, &vlens) {
        Ok(v) => v,
        Err(e) => {
            return Err(e);
        },
    };
    let ghost spec_result = spec_block_body(h@, data@, pos as int);
    let ghost spec_pairs = spec_result.unwrap().0;
    proof {
        let sklens = spec_vint_list(klb@, 0, cnt as nat, Seq::empty()).unwrap().0;
        let svlens = spec_vint_list(vlb@, 0, cnt as nat, Seq::empty()).unwrap().0;
        lemma_spec_slices_len(kb@, sklens, 0, Seq::empty());
        lemma_spec_slices_len(vb@, svlens, 0, Seq::empty());
        lemma_spec_vint_list_len(klb@, 0, cnt as nat, Seq::empty());
        lemma_spec_vint_list_len(vlb@, 0, cnt as nat, Seq::empty());
        lemma_spec_read_buf_pos(data@, p0 as int);
        lemma_spec_read_buf_pos(data@, p1 as int);
        lemma_spec_read_buf_pos(data@, p2 as int);
        lemma_spec_read_buf_pos(data@, p3 as int);
    }
    let mut pairs: Vec<(Vec<u8>, Vec<u8>)> = Vec::new();
    let mut i: usize = 0;
    proof {
        assert(pairs_view(pairs@) =~= Seq::<(Seq<u8>, Seq<u8>)>::empty());
    }
    while i < keys.len()
        invariant
            i <= keys@.len(),
            keys@.len() == vals@.len(),
            keys@.len() == spec_pairs.len(),
            forall|j: int|
                0 <= j < keys@.len() ==> #[trigger] spec_pairs[j] == (keys@[j]@, vals@[j]@),
            pairs_view(pairs@) =~= spec_pairs.take(i as int),
        decreases keys@.len() - i,
    {
        let kbuf = crate::util::bytes_at(&keys[i], 0, keys[i].len());
        let vbuf = crate::util::bytes_at(&vals[i], 0, vals[i].len());
        proof {
            assert(kbuf@ =~= keys@[i as int]@);
            assert(vbuf@ =~= vals@[i as int]@);
            assert(pairs_view(pairs@.push((kbuf, vbuf))) =~= pairs_view(pairs@).push(
                (kbuf@, vbuf@),
            ));
            assert(spec_pairs.take(i + 1) =~= spec_pairs.take(i as int).push(spec_pairs[i as int]));
        }
        pairs.push((kbuf, vbuf));
        i += 1;
    }
    proof {
        assert(spec_pairs.take(keys@.len() as int) =~= spec_pairs);
    }
    Ok((pairs, p4))
}

/// The next non-empty block of a block-compressed stream, starting at `pos`.
///
/// A source exhausted where the four-byte sync escape should stand is clean
/// end-of-stream.  A leading -1 marks a synchronization point whose sixteen
/// bytes must equal the header's sync marker.  A block of zero records falls
/// through to the next block.
pub open spec fn spec_block_next(h: HeaderV, s: Seq<u8>, pos: int) -> Result<
    (Seq<(Seq<u8>, Seq<u8>)>, int),
    Error,
>
    decreases s.len() - pos,
    via spec_block_next_decreases
{
    if pos + 4 > s.len() {
        Err(Error::Eof)
    } else {
        let l = be_signed(s.subrange(pos, pos + 4));
        let p = pos + 4;
        let body_start = if l == -1 {
            p + 16
        } else {
            p
        };
        if l == -1 && p + 16 > s.len() {
            Err(Error::Io)
        } else if l == -1 && s.subrange(p, p + 16) != h.sync_marker {
            Err(Error::SyncMarkerMismatch)
        } else {
            match spec_block_body(h, s, body_start) {
                Err(e) => Err(e),
                Ok((pairs, p2)) => {
                    if pairs.len() > 0 {
                        Ok((pairs, p2))
                    } else {
                        spec_block_next(h, s, p2)
                    }
                },
            }
        }
    }
}

#[via_fn]
proof fn spec_block_next_decreases(h: HeaderV, s: Seq<u8>, pos: int) {
    lemma_spec_block_body_pos(h, s, pos + 4);
    lemma_spec_block_body_pos(h, s, pos + 20);
}

/// Reads blocks from `pos` until one holds at least one record, and returns
/// its key/value byte pairs.
fn read_block(h: &Header, data: &Vec<u8>, pos: usize) -> (r: Result<
    (Vec<(Vec<u8>, Vec<u8>)>, usize),
    Error,
>)
    requires
        h@.wf(),
        h@.compression_type is Block,
        pos <= data@.len(),
    ensures
        match spec_block_next(h@, data@, pos as int) {
            Ok(p) => r matches Ok(q) && pairs_view(q.0@) == p.0 && q.0@.len() > 0 && q.1 == p.1
                && q.1 <= data@.len(),
            Err(e) => r matches Err(e2) && e2 == e,
        },
{
    let mut cur: usize = pos;
    loop
        invariant
            h@.wf(),
            h@.compression_type is Block,
            cur <= data@.len(),
            spec_block_next(h@, data@, pos as int) == spec_block_next(h@, data@, cur as int),
        decreases data@.len() - cur,
    {
        if data.len() - cur < 4 {
            return Err(Error::Eof);
        }
        let l = be_i32_at(data, cur);
        let p = cur + 4;
        let body_start: usize;
        if l == -1 {
            if data.len() - p < 16 {
                return Err(Error::Io);
            }
            let marker = bytes_at(data, p, 16);
            if !bytes_eq(&marker, &h.sync_marker) {
                return Err(Error::SyncMarkerMismatch);
            }
            body_start = p + 16;
        } else {
            body_start = p;
        }
        match read_block_body(h, data, body_start) {
            Err(e) => {
                return Err(e);
            },
            Ok((pairs, p2)) => {
                if pairs.len() > 0 {
                    proof {
                        assert(pairs_view(pairs@).len() == pairs@.len());
                    }
                    return Ok((pairs, p2));
                }
                cur = p2;
            },
        }
    }
}

/// What one pull takes from the reader state: the front of the pending
/// queue when a block is being drained, the next record of a plain or
/// record-compressed stream otherwise, or the first pair of the next
/// non-empty block.
pub open spec fn spec_pull(
    h: HeaderV,
    s: Seq<u8>,
    pos: int,
    pending: Seq<(Seq<u8>, Seq<u8>)>,
) -> Result<((Seq<u8>, Seq<u8>), Seq<(Seq<u8>, Seq<u8>)>, int), Error> {
    if pending.len() > 0 {
        Ok((pending[0], pending.drop_first(), pos))
    } else if !(h.compression_type is Block) {
        match spec_record_next(h, s, pos) {
            Ok((pair, p)) => Ok((pair, Seq::empty(), p)),
            Err(e) => Err(e),
        }
    } else {
        match spec_block_next(h, s, pos) {
            Ok((pairs, p)) => Ok((pairs[0], pairs.drop_first(), p)),
            Err(e) => Err(e),
        }
    }
}

/// A forward-only streaming reader over one sequence file held in memory.
///
/// The reader owns the byte source and consumes it strictly forward.  It
/// buffers key/value pairs only while a block-compressed block is being
/// drained, oldest first.  Once any mid-stream error has been surfaced, the
/// terminal latch is set and every later pull yields nothing.
#[derive(Debug)]
pub struct Reader<K: Writable, V: Writable> {
    /// Parsed header of the stream.
    pub header: Header,
    data: Vec<u8>,
    pos: usize,
    block_buffer: Vec<(Vec<u8>, Vec<u8>)>,
    is_error: bool,
    key_type: PhantomData<K>,
    value_type: PhantomData<V>,
}

impl<K: Writable, V: Writable> Reader<K, V> {
    /// The whole byte source the reader owns.
    pub closed spec fn source(&self) -> Seq<u8> {
        self.data@
    }

    /// View of the parsed header.
    pub closed spec fn header_view(&self) -> HeaderV {
        self.header@
    }

    /// Position of the next unread byte of the source.
    pub closed spec fn position(&self) -> int {
        self.pos as int
    }

    /// Pairs decoded from the current block and not yet delivered, oldest
    /// first.
    pub closed spec fn pending(&self) -> Seq<(Seq<u8>, Seq<u8>)> {
        pairs_view(self.block_buffer@)
    }

    /// Whether the terminal latch is set.
    pub closed spec fn terminal(&self) -> bool {
        self.is_error
    }

    /// The reader invariant: a well-formed header, a position inside the
    /// source, and a pending queue that is empty outside block compression.
    pub open spec fn wf(&self) -> bool {
        &&& self.header_view().wf()
        &&& 0 <= self.position() <= self.source().len()
        &&& (!(self.header_view().compression_type is Block) ==> self.pending().len() == 0)
    }

    /// Whether handing the raw byte pair to the key and value capabilities
    /// may answer a pull with `r`: a decoded pair, a surfaced error, or
    /// nothing when a capability reports clean exhaustion.
    pub open spec fn delivered(kb: Seq<u8>, vb: Seq<u8>, r: Option<Result<(K, V), Error>>) -> bool {
        match r {
            Option::Some(Ok((k, v))) => K::decodes_to(kb, Ok(k)) && V::decodes_to(vb, Ok(v)),
            Option::Some(Err(e)) => e != Error::Eof && (K::decodes_to(kb, Err(e)) || (exists|k: K|
                K::decodes_to(kb, Ok(k)) && V::decodes_to(vb, Err(e)))),
            Option::None => K::decodes_to(kb, Err(Error::Eof)) || (exists|k: K|
                K::decodes_to(kb, Ok(k)) && V::decodes_to(vb, Err(Error::Eof))),
        }
    }

    /// Creates a reader over a whole sequence file held in memory.
    ///
    /// The header prologue is parsed in full before the reader exists: a
    /// malformed prologue aborts construction with its error, and no reader
    /// is produced.
    pub fn new(data: Vec<u8>) -> (r: Result<Self, Error>)
        ensures
            match spec_header(data@) {
                Ok(p) => r matches Ok(reader) && reader.wf() && reader.header_view() == p.0
                    && reader.source() == data@ && reader.position() == p.1 && reader.pending()
                    == Seq::<(Seq<u8>, Seq<u8>)>::empty() && !reader.terminal(),
                Err(e) => r matches Err(e2) && e2 == e,
            },
    {
        match read_header(&data) {
            Err(e) => Err(e),
            Ok((header, pos)) => {
                let reader = Reader {
                    header,
                    data,
                    pos,
                    block_buffer: Vec::new(),
                    is_error: false,
                    key_type: PhantomData,
                    value_type: PhantomData,
                };
                proof {
                    assert(reader.pending() =~= Seq::<(Seq<u8>, Seq<u8>)>::empty());
                }
                Ok(reader)
            },
        }
    }

    /// Decodes one raw byte pair through the key and value capabilities,
    /// setting the terminal latch unless both succeed.
    fn deliver(&mut self, kb: Vec<u8>, vb: Vec<u8>) -> (r: Option<Result<(K, V), Error>>)
        requires
            !old(self).terminal(),
        ensures
            final(self).header == old(self).header,
            final(self).source() == old(self).source(),
            final(self).position() == old(self).position(),
            final(self).pending() == old(self).pending(),
            Self::delivered(kb@, vb@, r),
            final(self).terminal() == !(r matches Option::Some(Result::Ok(_))),
    {
        let k = match K::read(&kb) {
            Ok(k) => k,
            Err(e) => {
                self.is_error = true;
                if matches!(e, Error::Eof) {
                    return None;
                } else {
                    return Some(Err(e));
                }
            },
        };
        match V::read(&vb) {
            Ok(v) => Some(Ok((k, v))),
            Err(e) => {
                self.is_error = true;
                if matches!(e, Error::Eof) {
                    None
                } else {
                    Some(Err(e))
                }
            },
        }
    }

    /// Pulls the next key/value pair of the stream.
    ///
    /// Once the terminal latch is set — by a surfaced error or by clean
    /// exhaustion — every later pull yields nothing and reads no further
    /// bytes.  Otherwise one pull advances the reader by exactly one logical
    /// record.
    pub fn next(&mut self) -> (r: Option<Result<(K, V), Error>>)
        requires
            old(self).wf(),
        ensures
            final(self).wf(),
            final(self).header_view() == old(self).header_view(),
            final(self).source() == old(self).source(),
            old(self).terminal() ==> r is None && final(self).terminal() && final(self).position()
                == old(self).position() && final(self).pending() == old(self).pending(),
            !old(self).terminal() ==> match spec_pull(
                old(self).header_view(),
                old(self).source(),
                old(self).position(),
                old(self).pending(),
            ) {
                Ok(p) => {
                    &&& final(self).position() == p.2
                    &&& final(self).pending() == p.1
                    &&& Self::delivered(p.0.0, p.0.1, r)
                    &&& final(self).terminal() == !(r matches Option::Some(Result::Ok(_)))
                },
                Err(e) => final(self).terminal() && (if e == Error::Eof {
                    r is None
                } else {
                    r == Option::Some(Result::<(K, V), Error>::Err(e))
                }),
            },
    {
        if self.is_error {
            return None;
        }
        if self.block_buffer.len() > 0 {
            let ghost before = self.block_buffer@;
            let pair = self.block_buffer.remove(0);
            proof {
                assert(self.block_buffer@ =~= before.drop_first());
                assert(pairs_view(before.drop_first()) =~= pairs_view(before).drop_first());
            }
            return self.deliver(pair.0, pair.1);
        }
        if !matches!(self.header.compression_type, CompressionType::Block) {
            match read_record(&self.header, &self.data, self.pos) {
                Ok((pair, p)) => {
                    self.pos = p;
                    proof {
                        assert(self.pending() =~= Seq::<(Seq<u8>, Seq<u8>)>::empty());
                    }
                    self.deliver(pair.0, pair.1)
                },
                Err(e) => {
                    self.is_error = true;
                    if matches!(e, Error::Eof) {
                        None
                    } else {
                        Some(Err(e))
                    }
                },
            }
        } else {
            match read_block(&self.header, &self.data, self.pos) {
                Ok((pairs, p)) => {
                    self.pos = p;
                    self.block_buffer = pairs;
                    let ghost before = self.block_buffer@;
                    let pair = self.block_buffer.remove(0);
                    proof {
                        assert(self.block_buffer@ =~= before.drop_first());
                        assert(pairs_view(before.drop_first()) =~= pairs_view(
                            before,
                        ).drop_first());
                    }
                    self.deliver(pair.0, pair.1)
                },
                Err(e) => {
                    self.is_error = true;
                    if matches!(e, Error::Eof) {
                        None
                    } else {
                        Some(Err(e))
                    }
                },
            }
        }
    }
}

} // verus!
