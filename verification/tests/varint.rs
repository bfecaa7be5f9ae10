use blvm_primitives::serialization::varint::{decode_varint, encode_varint, VarIntError};
use blvm_primitives::SerializationError;

#[test]
fn test_encode_decode_round_trip() {
    let values = [0u64, 252, 253, 65535, 65536, 0xffffffff, 0x100000000, u64::MAX];
    for value in values {
        let encoded = encode_varint(value);
        let (decoded, len) = decode_varint(&encoded).unwrap();
        assert_eq!(decoded, value);
        assert_eq!(len, encoded.len());
    }
}

#[test]
fn varint_encodings_have_expected_bytes() {
    assert_eq!(encode_varint(0), vec![0x00]);
    assert_eq!(encode_varint(252), vec![0xfc]);
    assert_eq!(encode_varint(253), vec![0xfd, 0xfd, 0x00]);
    assert_eq!(encode_varint(0xffff), vec![0xfd, 0xff, 0xff]);
    assert_eq!(encode_varint(0x10000), vec![0xfe, 0x00, 0x00, 0x01, 0x00]);
    assert_eq!(encode_varint(0xffff_ffff), vec![0xfe, 0xff, 0xff, 0xff, 0xff]);
    assert_eq!(
        encode_varint(0x1_0000_0000),
        vec![0xff, 0x00, 0x00, 0x00, 0x00, 0x01, 0x00, 0x00, 0x00]
    );
}

#[test]
fn varint_decode_ignores_trailing_bytes() {
    assert_eq!(decode_varint(&[0x05, 0xaa, 0xbb]), Ok((5, 1)));
    assert_eq!(decode_varint(&[0xfd, 0x00, 0x01, 0x99]), Ok((256, 3)));
}

#[test]
fn varint_decode_insufficient_bytes() {
    let short = Err(SerializationError::VarInt(VarIntError::InsufficientBytes));
    assert_eq!(decode_varint(&[]), short);
    assert_eq!(decode_varint(&[0xfd, 0x01]), short);
    assert_eq!(decode_varint(&[0xfe, 0x01, 0x02, 0x03]), short);
    assert_eq!(decode_varint(&[0xff, 1, 2, 3, 4, 5, 6, 7]), short);
}

#[test]
fn varint_decode_rejects_non_canonical() {
    let bad = Err(SerializationError::VarInt(VarIntError::InvalidEncoding));
    assert_eq!(decode_varint(&[0xfd, 0xfc, 0x00]), bad);
    assert_eq!(decode_varint(&[0xfe, 0xff, 0xff, 0x00, 0x00]), bad);
    assert_eq!(decode_varint(&[0xff, 0xff, 0xff, 0xff, 0xff, 0, 0, 0, 0]), bad);
}

#[test]
fn varint_error_messages() {
    assert_eq!(VarIntError::InsufficientBytes.message(), "Insufficient bytes to decode VarInt");
    assert_eq!(VarIntError::InvalidEncoding.message(), "Invalid VarInt encoding");
    assert_eq!(VarIntError::ValueTooLarge.message(), "VarInt value too large");
    assert_eq!(
        SerializationError::UnsupportedSegwitFlag(7).message(),
        "Unsupported segwit transaction flag: 7"
    );
}
