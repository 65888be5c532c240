use leafdb::error::DbError;
use leafdb::value::{col_value, serial_type_size, ColType};

#[test]
fn test_serial_type_widths() {
    // The closed table: type code -> byte width.
    assert_eq!(serial_type_size(0), 0);
    assert_eq!(serial_type_size(1), 1);
    assert_eq!(serial_type_size(2), 2);
    assert_eq!(serial_type_size(3), 3);
    assert_eq!(serial_type_size(4), 4);
    assert_eq!(serial_type_size(5), 6);
    assert_eq!(serial_type_size(6), 8);
    assert_eq!(serial_type_size(7), 8);
    assert_eq!(serial_type_size(8), 0);
    assert_eq!(serial_type_size(9), 0);
}

#[test]
fn test_text_blob_length_formulas() {
    // Blob length is (code - 12) / 2, text length is (code - 13) / 2.
    assert_eq!(serial_type_size(12), 0);
    assert_eq!(serial_type_size(13), 0);
    assert_eq!(serial_type_size(14), 1);
    assert_eq!(serial_type_size(15), 1);
    assert_eq!(serial_type_size(23), 5);
    assert_eq!(serial_type_size(55), 21);
}

#[test]
fn test_constants_consume_no_bytes() {
    // Types 8 and 9 yield 0 and 1 regardless of the bytes at the cursor.
    let buf = [0xde, 0xad, 0xbe, 0xef];
    assert!(matches!(col_value(8, &buf, 0), Ok(ColType::Integer(0))));
    assert!(matches!(col_value(9, &buf, 0), Ok(ColType::Integer(1))));
    assert!(matches!(col_value(8, &buf, 4), Ok(ColType::Integer(0))));
}

#[test]
fn test_integer_columns_sign_extend() {
    assert!(matches!(col_value(1, &[0x2a], 0), Ok(ColType::Integer(42))));
    assert!(matches!(col_value(1, &[0xff], 0), Ok(ColType::Integer(-1))));
    assert!(matches!(col_value(2, &[0x01, 0x00], 0), Ok(ColType::Integer(256))));
    assert!(matches!(col_value(2, &[0x80, 0x00], 0), Ok(ColType::Integer(-32768))));
    assert!(matches!(col_value(3, &[0xff, 0xff, 0xff], 0), Ok(ColType::Integer(-1))));
    assert!(matches!(col_value(4, &[0x00, 0x01, 0x00, 0x00], 0), Ok(ColType::Integer(65536))));
    assert!(matches!(
        col_value(6, &[0x7f, 0xff, 0xff, 0xff, 0xff, 0xff, 0xff, 0xff], 0),
        Ok(ColType::Integer(i64::MAX))
    ));
}

#[test]
fn test_integer_column_at_offset() {
    let buf = [0x00, 0x00, 0x12, 0x34];
    assert!(matches!(col_value(2, &buf, 2), Ok(ColType::Integer(0x1234))));
}

#[test]
fn test_float_column_bits() {
    let bytes = 1.5f64.to_be_bytes();
    match col_value(7, &bytes, 0) {
        Ok(ColType::Float(bits)) => assert_eq!(f64::from_bits(bits), 1.5),
        other => panic!("expected a float column, got {:?}", other),
    }
}

#[test]
fn test_text_and_blob_columns() {
    let buf = b"hello";
    match col_value(23, buf, 0) {
        Ok(ColType::Text(s)) => assert_eq!(s, "hello"),
        other => panic!("expected a text column, got {:?}", other),
    }
    // Type 13 is the empty text, type 12 the empty blob: zero bytes consumed.
    assert!(matches!(col_value(13, buf, 5), Ok(ColType::Text(s)) if s.is_empty()));
    assert!(matches!(col_value(12, buf, 5), Ok(ColType::Blob(0))));
    assert!(matches!(col_value(16, buf, 0), Ok(ColType::Blob(2))));
}

#[test]
fn test_invalid_utf8_text_is_rejected() {
    let buf = [0xff, 0xfe];
    assert!(matches!(col_value(17, &buf, 0), Err(DbError::MalformedRecord)));
}
