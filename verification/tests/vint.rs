use sequencefile::errors::Error;
use sequencefile::reader::read_vint;
use sequencefile::util::ZeroCompress;

#[test]
fn decodes_single_byte() {
    let buf = vec![0b0111_1111u8];

    assert_eq!(127, buf.decode_vint64(0).unwrap().0);
}

#[test]
fn decodes_multi_byte() {
    let buf = vec![0b1000_1101u8, 0b1000_0000, 0b0100_0000, 0b0010_1101];

    assert_eq!(8_405_037, buf.decode_vint64(0).unwrap().0);
}

#[test]
fn decodes_multi_byte_negative() {
    let buf = vec![0b1000_0101u8, 0b1000_0000, 0b0100_0000, 0b0010_1101];

    assert_eq!(-8_405_038, buf.decode_vint64(0).unwrap().0);
}

#[test]
fn single_byte_values_decode_to_themselves() {
    // Every one-byte encoding, -112..=127, is its own value.
    for v in -112i64..=127 {
        let buf = vec![v as u8];
        let (decoded, consumed) = buf.decode_vint64(0).unwrap();
        assert_eq!(v, decoded);
        assert_eq!(1, consumed);
    }
}

#[test]
fn reports_consumed_length() {
    let buf = vec![0u8, 0b1000_1101, 0b1000_0000, 0b0100_0000, 0b0010_1101, 9];
    let (decoded, consumed) = buf.decode_vint64(1).unwrap();
    assert_eq!(8_405_037, decoded);
    assert_eq!(5, consumed);
}

#[test]
fn short_read_is_an_io_error() {
    // The tag announces three magnitude bytes but only two follow.
    let buf = vec![0b1000_1100u8, 1, 2];
    assert!(matches!(buf.decode_vint64(0), Err(Error::Io)));
    let empty: Vec<u8> = Vec::new();
    assert!(matches!(empty.decode_vint64(0), Err(Error::Io)));
}

#[test]
fn read_vint_rejects_values_wider_than_32_bits() {
    // 0x8B announces five magnitude bytes: 0x01_00000000 exceeds i32.
    let buf = vec![0x8Bu8, 0x01, 0x00, 0x00, 0x00, 0x00];
    assert_eq!(0x1_0000_0000i64, buf.decode_vint64(0).unwrap().0);
    assert!(matches!(read_vint(&buf, 0), Err(Error::DecodeFailure)));
}

#[test]
fn read_vint_accepts_32_bit_values() {
    let buf = vec![0b1000_1101u8, 0b1000_0000, 0b0100_0000, 0b0010_1101];
    assert_eq!((8_405_037, 4), read_vint(&buf, 0).unwrap());
}
