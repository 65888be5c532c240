use leafdb::varint::{decode_varint, encode_varint};

#[test]
fn test_decode_varint() {
    assert_eq!(decode_varint(&[0x78]), (120, 1));
    assert_eq!(decode_varint(&[0x07]), (7, 1));
    assert_eq!(decode_varint(&[0x17]), (23, 1));
    assert_eq!(decode_varint(&[0x1b]), (27, 1));
    assert_eq!(decode_varint(&[0x81, 0x47]), (199, 2));
}

#[test]
fn test_varint_round_trip_values() {
    let values: Vec<i64> = vec![0, 1, 7, 120, 127, 128, 199, 300, 16383, 16384, 1 << 40, i64::MAX];
    for n in values {
        let e = encode_varint(n);
        assert_eq!(decode_varint(&e), (n, e.len()));
    }
}

#[test]
fn test_varint_encodings_are_minimal() {
    assert_eq!(encode_varint(0), vec![0x00]);
    assert_eq!(encode_varint(127), vec![0x7f]);
    assert_eq!(encode_varint(128), vec![0x81, 0x00]);
    assert_eq!(encode_varint(199), vec![0x81, 0x47]);
}

#[test]
fn test_varint_empty_buffer() {
    assert_eq!(decode_varint(&[]), (0, 0));
}

#[test]
fn test_varint_stops_after_nine_bytes() {
    let buf = [0xffu8; 12];
    assert_eq!(decode_varint(&buf), (i64::MAX, 9));
}

#[test]
fn test_varint_stops_at_buffer_end() {
    // Continuation bit set on the last available byte: decode is total and
    // consumes the whole buffer.
    assert_eq!(decode_varint(&[0x81, 0x81]), ((1 << 7) + 1, 2));
}
