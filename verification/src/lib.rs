//! Streaming decoder for Hadoop sequence files.
//!
//! A sequence file is a header-prefixed binary container holding key/value
//! records, stored either plain, compressed per record, or compressed in
//! aggregated blocks.  The modules below decode the header prologue, the
//! variable-length integer encoding used throughout the format, the record
//! and block framing, and the typed values carried in each record.

use vstd::prelude::*;

pub mod compress;
pub mod errors;
pub mod reader;
pub mod text;
pub mod util;
pub mod writable;

pub use crate::compress::{Codec, CompressionType};
pub use crate::errors::Error;
pub use crate::reader::Reader;
pub use crate::text::Text;

use crate::util::str_eq;

verus! {

/// Raw key or value bytes, exactly as framed in the stream.
pub type ByteString = Vec<u8>;

/// Mathematical image of a parsed header.
pub struct HeaderV {
    /// Sequence file version.
    pub version: u16,
    /// Type of value compression.
    pub compression_type: CompressionType,
    /// Codec, present exactly when compression is enabled.
    pub compression_codec: Option<Codec>,
    /// Name of the key type.
    pub key_class: Seq<char>,
    /// Name of the value type.
    pub value_class: Seq<char>,
    /// Key/value metadata, keyed by metadata key.
    pub metadata: Map<Seq<char>, Seq<char>>,
    /// The sixteen-byte synchronization marker of the stream.
    pub sync_marker: Seq<u8>,
}

impl HeaderV {
    /// What every parsed header satisfies: a sixteen-byte sync marker, and a
    /// codec exactly when compression is enabled.
    pub open spec fn wf(&self) -> bool {
        &&& self.sync_marker.len() == 16
        &&& (self.compression_codec is Some <==> !(self.compression_type
            is Uncompressed))
    }
}

/// The mapping a list of metadata pairs denotes: every key maps to the value
/// of its last occurrence.
pub open spec fn metadata_map(pairs: Seq<(String, String)>) -> Map<Seq<char>, Seq<char>>
    decreases pairs.len(),
{
    if pairs.len() == 0 {
        Map::empty()
    } else {
        metadata_map(pairs.drop_last()).insert(pairs.last().0@, pairs.last().1@)
    }
}

proof fn lemma_metadata_map_found(pairs: Seq<(String, String)>, k: Seq<char>, i: int)
    requires
        0 <= i < pairs.len(),
        pairs[i].0@ == k,
        forall|j: int| i < j < pairs.len() ==> #[trigger] pairs[j].0@ != k,
    ensures
        metadata_map(pairs).contains_key(k),
        metadata_map(pairs)[k] == pairs[i].1@,
    decreases pairs.len(),
{
    if i < pairs.len() - 1 {
        lemma_metadata_map_found(pairs.drop_last(), k, i);
    }
}

proof fn lemma_metadata_map_absent(pairs: Seq<(String, String)>, k: Seq<char>)
    requires
        forall|j: int| 0 <= j < pairs.len() ==> #[trigger] pairs[j].0@ != k,
    ensures
        !metadata_map(pairs).contains_key(k),
    decreases pairs.len(),
{
    if pairs.len() > 0 {
        lemma_metadata_map_absent(pairs.drop_last(), k);
    }
}

/// Sequence file header: what the prologue of the stream declares about the
/// records that follow.
#[derive(Debug)]
pub struct Header {
    /// Sequence file version; versions five and six are supported.
    pub version: u16,
    /// Type of value compression.
    pub compression_type: CompressionType,
    /// Codec, present exactly when compression is enabled.
    pub compression_codec: Option<Codec>,
    /// Fully-qualified name of the key type, informational only.
    pub key_class: String,
    /// Fully-qualified name of the value type, informational only.
    pub value_class: String,
    /// Key/value metadata pairs, in stream order.
    pub metadata: Vec<(String, String)>,
    /// The sixteen-byte synchronization marker of the stream.
    pub sync_marker: Vec<u8>,
}

impl View for Header {
    type V = HeaderV;

    open spec fn view(&self) -> HeaderV {
        HeaderV {
            version: self.version,
            compression_type: self.compression_type,
            compression_codec: self.compression_codec,
            key_class: self.key_class@,
            value_class: self.value_class@,
            metadata: metadata_map(self.metadata@),
            sync_marker: self.sync_marker@,
        }
    }
}

impl Header {
    /// The metadata value stored under `key`, if any.
    pub fn metadata_get(&self, key: &str) -> (r: Option<&String>)
        ensures
            match r {
                Some(v) => self@.metadata.contains_key(key@) && v@ == self@.metadata[key@],
                None => !self@.metadata.contains_key(key@),
            },
    {
        let mut i: usize = self.metadata.len();
        while i > 0
            invariant
                i <= self.metadata@.len(),
                forall|j: int|
                    i <= j < self.metadata@.len() ==> #[trigger] self.metadata@[j].0@ != key@,
            decreases i,
        {
            i = i - 1;
            let pair = &self.metadata[i];
            if str_eq(pair.0.as_str(), key) {
                proof {
                    lemma_metadata_map_found(self.metadata@, key@, i as int);
                }
                return Some(&self.metadata[i].1);
            }
        }
        proof {
            lemma_metadata_map_absent(self.metadata@, key@);
        }
        None
    }
}

} // verus!
