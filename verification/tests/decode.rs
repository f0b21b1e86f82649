use std::io::Write;

use sequencefile::errors::Error;
use sequencefile::writable::Writable;
use sequencefile::{Codec, CompressionType, Reader, Text};

const SYNC: [u8; 16] = [
    0xA0, 0xA1, 0xA2, 0xA3, 0xA4, 0xA5, 0xA6, 0xA7, 0xB0, 0xB1, 0xB2, 0xB3, 0xB4, 0xB5, 0xB6, 0xB7,
];

fn put_vint(out: &mut Vec<u8>, i: i64) {
    if (-112..=127).contains(&i) {
        out.push(i as u8);
        return;
    }
    let mut len = -112i32;
    let mut value = i;
    if i < 0 {
        value ^= -1;
        len = -120;
    }
    let mut tmp = value;
    while tmp != 0 {
        tmp >>= 8;
        len -= 1;
    }
    out.push(len as u8);
    let len = if len < -120 { -(len + 120) } else { -(len + 112) };
    for idx in (1..=len).rev() {
        let shift = (idx - 1) * 8;
        out.push(((value >> shift) & 0xFF) as u8);
    }
}

fn put_str(out: &mut Vec<u8>, s: &str) {
    out.push(s.len() as u8);
    out.extend_from_slice(s.as_bytes());
}

fn put_i32(out: &mut Vec<u8>, v: i32) {
    out.extend_from_slice(&v.to_be_bytes());
}

fn codec_id(codec: Codec) -> &'static str {
    match codec {
        Codec::Default => "org.apache.hadoop.io.compress.DefaultCodec",
        Codec::Gzip => "org.apache.hadoop.io.compress.GzipCodec",
        Codec::Bzip2 => "org.apache.hadoop.io.compress.BZip2Codec",
    }
}

fn compress(codec: Codec, data: &[u8]) -> Vec<u8> {
    match codec {
        Codec::Default => {
            let mut e =
                flate2::write::ZlibEncoder::new(Vec::new(), flate2::Compression::default());
            e.write_all(data).unwrap();
            e.finish().unwrap()
        }
        Codec::Gzip => {
            let mut e = flate2::write::GzEncoder::new(Vec::new(), flate2::Compression::default());
            e.write_all(data).unwrap();
            e.finish().unwrap()
        }
        Codec::Bzip2 => {
            let mut e = bzip2::write::BzEncoder::new(Vec::new(), bzip2::Compression::default());
            e.write_all(data).unwrap();
            e.finish().unwrap()
        }
    }
}

fn header_bytes(flags: (u8, u8), codec: Option<&str>, metadata: &[(&str, &str)]) -> Vec<u8> {
    let mut out = b"SEQ".to_vec();
    out.push(6);
    put_str(&mut out, "org.apache.hadoop.io.LongWritable");
    put_str(&mut out, "org.apache.hadoop.io.Text");
    out.push(flags.0);
    out.push(flags.1);
    if let Some(id) = codec {
        put_str(&mut out, id);
    }
    out.extend_from_slice(&(metadata.len() as u32).to_be_bytes());
    for (k, v) in metadata {
        put_vint(&mut out, k.len() as i64);
        out.extend_from_slice(k.as_bytes());
        put_vint(&mut out, v.len() as i64);
        out.extend_from_slice(v.as_bytes());
    }
    out.extend_from_slice(&SYNC);
    out
}

fn text_bytes(s: &str) -> Vec<u8> {
    let mut out = Vec::new();
    put_vint(&mut out, s.len() as i64);
    out.extend_from_slice(s.as_bytes());
    out
}

fn letter(i: u8) -> String {
    String::from_utf8(vec![b'A' + i]).unwrap()
}

/// The 26 pairs (i, letter) in record framing, with a sync point before the
/// thirteenth record.
fn record_fixture(codec: Option<Codec>) -> Vec<u8> {
    let flags = if codec.is_some() { (1, 0) } else { (0, 0) };
    let mut out = header_bytes(flags, codec.map(codec_id), &[]);
    for i in 0..26u8 {
        if i == 13 {
            put_i32(&mut out, -1);
            out.extend_from_slice(&SYNC);
        }
        let key = (i as i64).to_be_bytes();
        let raw_value = text_bytes(&letter(i));
        let value = match codec {
            Some(c) => compress(c, &raw_value),
            None => raw_value,
        };
        put_i32(&mut out, (8 + value.len()) as i32);
        put_i32(&mut out, 8);
        out.extend_from_slice(&key);
        out.extend_from_slice(&value);
    }
    out
}

fn block_of(out: &mut Vec<u8>, codec: Codec, pairs: &[(Vec<u8>, Vec<u8>)]) {
    put_i32(out, -1);
    out.extend_from_slice(&SYNC);
    put_vint(out, pairs.len() as i64);
    let mut key_lens = Vec::new();
    let mut keys = Vec::new();
    let mut val_lens = Vec::new();
    let mut vals = Vec::new();
    for (k, v) in pairs {
        put_vint(&mut key_lens, k.len() as i64);
        keys.extend_from_slice(k);
        put_vint(&mut val_lens, v.len() as i64);
        vals.extend_from_slice(v);
    }
    for buf in [&key_lens, &keys, &val_lens, &vals] {
        let c = compress(codec, buf);
        put_vint(out, c.len() as i64);
        out.extend_from_slice(&c);
    }
}

/// The 26 pairs (i, letter) split over two compressed blocks.
fn block_fixture(codec: Codec) -> Vec<u8> {
    let mut out = header_bytes((1, 1), Some(codec_id(codec)), &[]);
    let pairs: Vec<(Vec<u8>, Vec<u8>)> = (0..26u8)
        .map(|i| ((i as i64).to_be_bytes().to_vec(), text_bytes(&letter(i))))
        .collect();
    block_of(&mut out, codec, &pairs[..13]);
    block_of(&mut out, codec, &pairs[13..]);
    out
}

fn main_read(data: Vec<u8>) -> Vec<(i64, String)> {
    let mut reader = Reader::<i64, Text>::new(data).unwrap();
    let mut out = Vec::new();
    while let Some(item) = reader.next() {
        let (k, v) = item.unwrap();
        out.push((k, v.to_string()));
    }
    out
}

fn check_abc(data: Vec<u8>) {
    let kvs = main_read(data);
    assert_eq!(26, kvs.len());
    assert_eq!((0, "A".to_string()), kvs[0]);
    assert_eq!((25, "Z".to_string()), kvs[25]);
    for (i, kv) in kvs.iter().enumerate() {
        assert_eq!((i as i64, letter(i as u8)), *kv);
    }
}

#[test]
fn abc_long_text_none() {
    check_abc(record_fixture(None));
}

#[test]
fn abc_long_text_deflate_record() {
    check_abc(record_fixture(Some(Codec::Default)));
}

#[test]
fn abc_long_text_deflate_block() {
    check_abc(block_fixture(Codec::Default));
}

#[test]
fn abc_long_text_gzip_record() {
    check_abc(record_fixture(Some(Codec::Gzip)));
}

#[test]
fn abc_long_text_gzip_block() {
    check_abc(block_fixture(Codec::Gzip));
}

#[test]
fn abc_long_text_bzip2_record() {
    check_abc(record_fixture(Some(Codec::Bzip2)));
}

#[test]
fn abc_long_text_bzip2_block() {
    check_abc(block_fixture(Codec::Bzip2));
}

#[test]
fn reads_metadata() {
    let data = header_bytes((0, 0), None, &[("a", "b"), ("y", "z")]);
    let sf = Reader::<Vec<u8>, Vec<u8>>::new(data).unwrap();

    println!("{:?}", sf.header.metadata);

    assert_eq!("b", sf.header.metadata_get("a").unwrap().as_str());
    assert_eq!("z", sf.header.metadata_get("y").unwrap().as_str());
}

#[test]
fn metadata_absent_key_is_none() {
    let data = header_bytes((0, 0), None, &[("a", "b")]);
    let sf = Reader::<Vec<u8>, Vec<u8>>::new(data).unwrap();
    assert!(sf.header.metadata_get("missing").is_none());
}

#[test]
#[should_panic(expected = "BadMagic")]
fn read_checks_magic() {
    let mut data = header_bytes((0, 0), None, &[]);
    data[0] = b'Q';
    match Reader::<Vec<u8>, Vec<u8>>::new(data) {
        Ok(val) => val,
        Err(err) => panic!("Failed to open sequence file: {:?}", err),
    };
}

#[test]
fn corrupt_magic_fails_construction() {
    let mut data = header_bytes((0, 0), None, &[]);
    data[1] = b'X';
    assert!(matches!(
        Reader::<Vec<u8>, Vec<u8>>::new(data),
        Err(Error::BadMagic)
    ));
}

#[test]
fn snappy_codec_is_unsupported() {
    let data = header_bytes((1, 0), Some("org.apache.hadoop.io.compress.SnappyCodec"), &[]);
    assert!(matches!(
        Reader::<Vec<u8>, Vec<u8>>::new(data),
        Err(Error::UnsupportedCodec)
    ));
}

#[test]
fn version_four_is_not_supported() {
    let mut data = header_bytes((0, 0), None, &[]);
    data[3] = 4;
    assert!(matches!(
        Reader::<Vec<u8>, Vec<u8>>::new(data),
        Err(Error::VersionNotSupported)
    ));
}

#[test]
fn unknown_flag_pair_is_rejected() {
    // (0, 1) is no valid (compression, block-compression) combination.
    let mut data = header_bytes((0, 0), None, &[]);
    let flag_pos = data.len() - 16 - 4 - 2;
    data[flag_pos + 1] = 1;
    assert!(matches!(
        Reader::<Vec<u8>, Vec<u8>>::new(data),
        Err(Error::CompressionTypeUnknown)
    ));
}

#[test]
fn invalid_utf8_in_metadata_is_bad_encoding() {
    let mut data = header_bytes((0, 0), None, &[]);
    let count_pos = data.len() - 16 - 4;
    data.truncate(count_pos);
    data.extend_from_slice(&1u32.to_be_bytes());
    put_vint(&mut data, 1);
    data.push(0xFF);
    put_vint(&mut data, 1);
    data.push(b'v');
    data.extend_from_slice(&SYNC);
    assert!(matches!(
        Reader::<Vec<u8>, Vec<u8>>::new(data),
        Err(Error::BadEncoding)
    ));
}

#[test]
fn truncated_header_is_an_io_error() {
    let data = header_bytes((0, 0), None, &[]);
    for n in [0usize, 2, 3, 5, data.len() - 1] {
        let cut = data[..n].to_vec();
        assert!(matches!(
            Reader::<Vec<u8>, Vec<u8>>::new(cut),
            Err(Error::Io)
        ));
    }
}

#[test]
fn clean_end_of_stream_yields_none() {
    let data = header_bytes((0, 0), None, &[]);
    let mut reader = Reader::<Vec<u8>, Vec<u8>>::new(data).unwrap();
    assert!(reader.next().is_none());
    assert!(reader.next().is_none());
}

#[test]
fn trailing_partial_length_is_clean_termination() {
    let mut data = record_fixture(None);
    data.extend_from_slice(&[0, 0]);
    let kvs = main_read(data);
    assert_eq!(26, kvs.len());
}

#[test]
fn sync_marker_mismatch_is_fatal_and_latches() {
    let mut data = header_bytes((0, 0), None, &[]);
    let value = text_bytes("A");
    put_i32(&mut data, (8 + value.len()) as i32);
    put_i32(&mut data, 8);
    data.extend_from_slice(&0i64.to_be_bytes());
    data.extend_from_slice(&value);
    put_i32(&mut data, -1);
    let mut wrong = SYNC;
    wrong[0] ^= 0xFF;
    data.extend_from_slice(&wrong);
    let mut reader = Reader::<i64, Text>::new(data).unwrap();
    assert!(matches!(reader.next(), Some(Ok((0, _)))));
    assert!(matches!(reader.next(), Some(Err(Error::SyncMarkerMismatch))));
    // Terminal latch: no repeated error, no resumption.
    assert!(reader.next().is_none());
    assert!(reader.next().is_none());
}

#[test]
fn corrupt_compressed_value_latches() {
    let mut data = header_bytes((1, 0), Some(codec_id(Codec::Default)), &[]);
    put_i32(&mut data, 8 + 4);
    put_i32(&mut data, 8);
    data.extend_from_slice(&0i64.to_be_bytes());
    data.extend_from_slice(&[0xDE, 0xAD, 0xBE, 0xEF]);
    let mut reader = Reader::<i64, Text>::new(data).unwrap();
    assert!(matches!(reader.next(), Some(Err(Error::DecodeFailure))));
    assert!(reader.next().is_none());
}

#[test]
fn empty_block_falls_through_to_the_next() {
    let mut out = header_bytes((1, 1), Some(codec_id(Codec::Default)), &[]);
    block_of(&mut out, Codec::Default, &[]);
    let pairs = vec![
        (1i64.to_be_bytes().to_vec(), text_bytes("x")),
        (2i64.to_be_bytes().to_vec(), text_bytes("y")),
    ];
    block_of(&mut out, Codec::Default, &pairs);
    let kvs = main_read(out);
    assert_eq!(vec![(1, "x".to_string()), (2, "y".to_string())], kvs);
}

#[test]
fn blocks_drain_oldest_pair_first() {
    let mut out = header_bytes((1, 1), Some(codec_id(Codec::Default)), &[]);
    let pairs = vec![
        (10i64.to_be_bytes().to_vec(), text_bytes("first")),
        (20i64.to_be_bytes().to_vec(), text_bytes("second")),
        (30i64.to_be_bytes().to_vec(), text_bytes("third")),
    ];
    block_of(&mut out, Codec::Default, &pairs);
    let kvs = main_read(out);
    assert_eq!(
        vec![
            (10, "first".to_string()),
            (20, "second".to_string()),
            (30, "third".to_string()),
        ],
        kvs
    );
}

#[test]
fn raw_byte_values_come_back_verbatim() {
    let mut data = header_bytes((0, 0), None, &[]);
    put_i32(&mut data, 5);
    put_i32(&mut data, 2);
    data.extend_from_slice(&[1, 2, 3, 4, 5]);
    let mut reader = Reader::<Vec<u8>, Vec<u8>>::new(data).unwrap();
    let (k, v) = reader.next().unwrap().unwrap();
    assert_eq!(vec![1, 2], k);
    assert_eq!(vec![3, 4, 5], v);
    assert!(reader.next().is_none());
}

#[test]
fn writable_integers_decode_big_endian() {
    assert_eq!(258u32, u32::read(&vec![0, 0, 1, 2]).unwrap());
    assert_eq!(-2i16, i16::read(&vec![0xFF, 0xFE]).unwrap());
    assert_eq!(
        -2i64,
        i64::read(&vec![0xFF, 0xFF, 0xFF, 0xFF, 0xFF, 0xFF, 0xFF, 0xFE]).unwrap()
    );
    assert_eq!(
        0x0102030405060708u64,
        u64::read(&vec![1, 2, 3, 4, 5, 6, 7, 8]).unwrap()
    );
    assert_eq!(-0x8000_0000i32, i32::read(&vec![0x80, 0, 0, 0]).unwrap());
    assert_eq!(0xFFFFu16, u16::read(&vec![0xFF, 0xFF]).unwrap());
    assert_eq!(7u8, u8::read(&vec![7]).unwrap());
    assert_eq!(-1i8, i8::read(&vec![0xFF]).unwrap());
    // Bytes past the encoding are ignored.
    assert_eq!(2u16, u16::read(&vec![0, 2, 99]).unwrap());
    // A short buffer is a short read.
    assert!(matches!(i64::read(&vec![1, 2, 3]), Err(Error::Io)));
}

#[test]
fn text_decodes_length_prefixed_utf8() {
    let t = Text::read(&text_bytes("hello")).unwrap();
    assert_eq!("hello", t.to_string());
    assert!(!t.is_empty());
    let empty = Text::read(&text_bytes("")).unwrap();
    assert!(empty.is_empty());
    assert_eq!("", empty.to_string());
}

#[test]
fn text_replaces_invalid_utf8() {
    let t = Text::read(&vec![2, 0xFF, 0xFE]).unwrap();
    assert_eq!("\u{FFFD}\u{FFFD}", t.to_string());
}

#[test]
fn text_with_negative_length_is_malformed() {
    // 0x9C is the one-byte encoding of -100.
    assert!(matches!(
        Text::read(&vec![0x9Cu8, 0, 0]),
        Err(Error::DecodeFailure)
    ));
}

#[test]
fn codec_resolution_matches_the_three_identifiers() {
    assert_eq!(
        Some(Codec::Default),
        sequencefile::compress::codec("org.apache.hadoop.io.compress.DefaultCodec")
    );
    assert_eq!(
        Some(Codec::Gzip),
        sequencefile::compress::codec("org.apache.hadoop.io.compress.GzipCodec")
    );
    assert_eq!(
        Some(Codec::Bzip2),
        sequencefile::compress::codec("org.apache.hadoop.io.compress.BZip2Codec")
    );
    assert_eq!(
        None,
        sequencefile::compress::codec("org.apache.hadoop.io.compress.SnappyCodec")
    );
    assert_eq!(None, sequencefile::compress::codec(""));
}

#[test]
fn header_reports_declared_fields() {
    let data = header_bytes((1, 1), Some(codec_id(Codec::Bzip2)), &[]);
    let sf = Reader::<Vec<u8>, Vec<u8>>::new(data).unwrap();
    assert_eq!(6, sf.header.version);
    assert_eq!(CompressionType::Block, sf.header.compression_type);
    assert_eq!(Some(Codec::Bzip2), sf.header.compression_codec);
    assert_eq!("org.apache.hadoop.io.LongWritable", sf.header.key_class);
    assert_eq!("org.apache.hadoop.io.Text", sf.header.value_class);
    assert_eq!(SYNC.to_vec(), sf.header.sync_marker);
}
