//! The variable-length signed integer encoding used throughout the format.
//!
//! An encoded integer is one tag byte, possibly followed by up to eight
//! magnitude bytes in big-endian order.  Read as a signed byte `b`, the tag
//! means:
//!   - `b >= -112`: the value is `b` itself, one byte in all;
//!   - `b < -120`: `-119 - b` bytes in all, the decoded magnitude is negated
//!     by bitwise complement;
//!   - otherwise: `-111 - b` bytes in all, the magnitude is the value.

use vstd::prelude::*;

use crate::errors::Error;

verus! {

/// Total length in bytes of an encoded integer whose tag byte is `first`.
///
/// Tags below `0x80` are the non-negative one-byte values, tags from `0x90`
/// up are the one-byte values `-112..=-1`; the remaining tags announce
/// between one and eight magnitude bytes.
pub open spec fn vint_size(first: u8) -> int {
    if first < 0x80 || first >= 0x90 {
        1
    } else if first < 0x88 {
        137 - first
    } else {
        145 - first
    }
}

/// Whether the tag byte announces a complemented (negative) magnitude.
pub open spec fn vint_negative(first: u8) -> bool {
    (0x80 <= first && first < 0x88) || first >= 0x90
}

/// Big-endian accumulation of magnitude bytes.
pub open spec fn be_accumulate(s: Seq<u8>) -> nat
    decreases s.len(),
{
    if s.len() == 0 {
        0
    } else {
        (256 * be_accumulate(s.drop_last()) + s.last()) as nat
    }
}

/// 256 to the power `n`.
pub open spec fn pow256(n: nat) -> nat
    decreases n,
{
    if n == 0 {
        1
    } else {
        (256 * pow256((n - 1) as nat)) as nat
    }
}

pub proof fn lemma_pow256_increases(m: nat, n: nat)
    requires
        m <= n,
    ensures
        pow256(m) <= pow256(n),
    decreases n,
{
    if m < n {
        lemma_pow256_increases(m, (n - 1) as nat);
    }
}

/// `n` magnitude bytes accumulate to fewer than `256^n`.
pub proof fn lemma_be_accumulate_bound(s: Seq<u8>)
    ensures
        be_accumulate(s) < pow256(s.len()),
    decreases s.len(),
{
    if s.len() > 0 {
        lemma_be_accumulate_bound(s.drop_last());
    }
}

/// The values of the first few powers of 256.
pub proof fn lemma_pow256_values()
    ensures
        pow256(0) == 1,
        pow256(1) == 0x100,
        pow256(2) == 0x1_0000,
        pow256(4) == 0x1_0000_0000,
        pow256(8) == 0x1_0000_0000_0000_0000,
{
    reveal_with_fuel(pow256, 9);
}

/// The big-endian bytes `s`, reinterpreted as a two's-complement signed
/// value of `s.len()` bytes.
pub open spec fn be_signed(s: Seq<u8>) -> int {
    let acc = be_accumulate(s) as int;
    if 2 * acc < pow256(s.len()) {
        acc
    } else {
        acc - pow256(s.len())
    }
}

/// Big-endian accumulation of the `n` bytes at `pos`.
pub(crate) fn be_u64_at(data: &Vec<u8>, pos: usize, n: usize) -> (r: u64)
    requires
        n <= 8,
        pos + n <= data@.len(),
    ensures
        r == be_accumulate(data@.subrange(pos as int, pos + n)),
{
    let total = data.len();
    assert(pos + n <= total);
    let end = pos + n;
    let mut acc: u64 = 0;
    let mut i: usize = pos;
    proof {
        assert(data@.subrange(pos as int, pos as int) =~= Seq::<u8>::empty());
    }
    while i < end
        invariant
            pos <= i <= end,
            end == pos + n,
            n <= 8,
            end <= data@.len(),
            acc == be_accumulate(data@.subrange(pos as int, i as int)),
        decreases end - i,
    {
        proof {
            let done = data@.subrange(pos as int, i as int);
            lemma_be_accumulate_bound(done);
            lemma_pow256_increases(done.len(), 7);
            assert(pow256(7) == 0x100_0000_0000_0000) by {
                reveal_with_fuel(pow256, 8);
            }
            assert(data@.subrange(pos as int, i + 1).drop_last() =~= done);
        }
        acc = acc * 256 + data[i] as u64;
        i += 1;
    }
    acc
}

/// The signed 32-bit value of the four big-endian bytes at `pos`.
pub(crate) fn be_i32_at(data: &Vec<u8>, pos: usize) -> (r: i32)
    requires
        pos + 4 <= data@.len(),
    ensures
        r as int == be_signed(data@.subrange(pos as int, pos + 4)),
{
    let acc = be_u64_at(data, pos, 4);
    proof {
        lemma_be_accumulate_bound(data@.subrange(pos as int, pos + 4));
        lemma_pow256_values();
    }
    if acc < 0x8000_0000 {
        acc as i32
    } else {
        -((0xFFFF_FFFFu64 - acc) as i32) - 1
    }
}

/// The signed 64-bit value of the eight big-endian bytes at `pos`.
pub(crate) fn be_i64_at(data: &Vec<u8>, pos: usize) -> (r: i64)
    requires
        pos + 8 <= data@.len(),
    ensures
        r as int == be_signed(data@.subrange(pos as int, pos + 8)),
{
    let acc = be_u64_at(data, pos, 8);
    proof {
        lemma_be_accumulate_bound(data@.subrange(pos as int, pos + 8));
        lemma_pow256_values();
    }
    if acc < 0x8000_0000_0000_0000 {
        acc as i64
    } else {
        -((u64::MAX - acc) as i64) - 1
    }
}

/// The signed 16-bit value of the two big-endian bytes at `pos`.
pub(crate) fn be_i16_at(data: &Vec<u8>, pos: usize) -> (r: i16)
    requires
        pos + 2 <= data@.len(),
    ensures
        r as int == be_signed(data@.subrange(pos as int, pos + 2)),
{
    let acc = be_u64_at(data, pos, 2);
    proof {
        lemma_be_accumulate_bound(data@.subrange(pos as int, pos + 2));
        lemma_pow256_values();
    }
    if acc < 0x8000 {
        acc as i16
    } else {
        -((0xFFFFu64 - acc) as i16) - 1
    }
}

/// A copy of the `n` bytes at `pos`.
pub(crate) fn bytes_at(data: &Vec<u8>, pos: usize, n: usize) -> (r: Vec<u8>)
    requires
        pos + n <= data@.len(),
    ensures
        r@ == data@.subrange(pos as int, pos + n),
{
    let total = data.len();
    assert(pos + n <= total);
    let end = pos + n;
    let mut out: Vec<u8> = Vec::new();
    let mut i: usize = pos;
    while i < end
        invariant
            pos <= i <= end,
            end == pos + n,
            end <= data@.len(),
            out@ =~= data@.subrange(pos as int, i as int),
        decreases end - i,
    {
        out.push(data[i]);
        i += 1;
    }
    proof {
        assert(out@ =~= data@.subrange(pos as int, pos + n));
    }
    out
}

/// The decoded integer at position `pos` of `s` and the position just after
/// it, or `None` when fewer bytes remain than the tag announces.
pub open spec fn vint_decoded(s: Seq<u8>, pos: int) -> Option<(int, int)> {
    if 0 <= pos < s.len() && pos + vint_size(s[pos]) <= s.len() {
        let size = vint_size(s[pos]);
        let end = pos + size;
        let value = if size == 1 {
            if s[pos] < 0x80 {
                s[pos] as int
            } else {
                s[pos] - 256
            }
        } else {
            let acc = be_accumulate(s.subrange(pos + 1, end)) as int;
            let v = if acc < 0x8000_0000_0000_0000 {
                acc
            } else {
                acc - 0x1_0000_0000_0000_0000
            };
            if vint_negative(s[pos]) {
                -1 - v
            } else {
                v
            }
        };
        Some((value, end))
    } else {
        None
    }
}

/// Law: every one-byte encoding decodes to its own tag byte read as a signed
/// byte, covering exactly the values -112 through 127.
pub proof fn lemma_vint_single_byte(b: u8)
    requires
        b < 0x80 || b >= 0x90,
    ensures
        vint_decoded(seq![b], 0) == Some(
            (if b < 0x80 { b as int } else { b - 256 }, 1int),
        ),
{
}

/// Anything that hands out the variable-length integers embedded in it.
pub trait ZeroCompress {
    /// The bytes the integers are decoded from.
    spec fn bytes(&self) -> Seq<u8>;

    /// Decodes the integer starting at `pos`, returning it with the position
    /// just past its encoding.  A source that ends before the encoding does
    /// is a short read.
    fn decode_vint64(&self, pos: usize) -> (r: Result<(i64, usize), Error>)
        ensures
            match vint_decoded(self.bytes(), pos as int) {
                Some(v) => r matches Ok(p) && p.0 == v.0 && p.1 == v.1,
                None => r matches Err(e) && e == Error::Io,
            },
    ;
}

impl ZeroCompress for Vec<u8> {
    open spec fn bytes(&self) -> Seq<u8> {
        self@
    }

    fn decode_vint64(&self, pos: usize) -> (r: Result<(i64, usize), Error>) {
        if pos >= self.len() {
            return Err(Error::Io);
        }
        let first = self[pos];
        if first < 0x80 {
            return Ok((first as i64, pos + 1));
        }
        if first >= 0x90 {
            return Ok((first as i64 - 256, pos + 1));
        }
        let size: usize = if first < 0x88 {
            137 - first as usize
        } else {
            145 - first as usize
        };
        if self.len() - pos < size {
            return Err(Error::Io);
        }
        let end = pos + size;
        let acc = be_u64_at(self, pos + 1, size - 1);
        let v: i64 = if acc < 0x8000_0000_0000_0000 {
            acc as i64
        } else {
            -((u64::MAX - acc) as i64) - 1
        };
        if vint_negative_exec(first) {
            Ok((-1 - v, end))
        } else {
            Ok((v, end))
        }
    }
}

/// Whether two string slices hold the same characters.
pub(crate) fn str_eq(a: &str, b: &str) -> (r: bool)
    ensures
        r == (a@ == b@),
{
    let owned_a: String = a.to_owned();
    let owned_b: String = b.to_owned();
    owned_a == owned_b
}

/// Whether the tag byte announces a complemented magnitude.
fn vint_negative_exec(first: u8) -> (r: bool)
    ensures
        r == vint_negative(first),
{
    (0x80 <= first && first < 0x88) || first >= 0x90
}

} // verus!
