use leafdb::error::DbError;
use leafdb::page::parse_page;
use leafdb::record::{decode_record, parse_cell_as_rows};
use leafdb::value::ColType;

#[test]
fn test_decode_record_two_columns() {
    // payload 6, rowid 7, header length 3, serial types [1, 17],
    // body: integer 42, text "hi".
    let cell = [6u8, 7, 3, 1, 17, 42, b'h', b'i'];
    let rec = decode_record(&cell, 0).unwrap();
    assert_eq!(rec.rowid, 7);
    assert_eq!(rec.values.len(), 2);
    assert!(matches!(rec.values[0], ColType::Integer(42)));
    match &rec.values[1] {
        ColType::Text(s) => assert_eq!(s, "hi"),
        other => panic!("expected text, got {:?}", other),
    }
}

#[test]
fn test_decode_record_at_offset() {
    let page = [0xaau8, 0xbb, 6, 7, 3, 1, 17, 42, b'h', b'i'];
    let rec = decode_record(&page, 2).unwrap();
    assert_eq!(rec.rowid, 7);
    assert!(matches!(rec.values[0], ColType::Integer(42)));
}

#[test]
fn test_decode_record_header_shorter_than_its_varint() {
    // Header length 0 is less than the single byte its varint occupies.
    let cell = [6u8, 7, 0];
    assert!(matches!(decode_record(&cell, 0), Err(DbError::MalformedRecord)));
}

#[test]
fn test_decode_record_reserved_serial_type() {
    let cell = [2u8, 1, 2, 10];
    assert!(matches!(decode_record(&cell, 0), Err(DbError::MalformedRecord)));
    let cell11 = [2u8, 1, 2, 11];
    assert!(matches!(decode_record(&cell11, 0), Err(DbError::MalformedRecord)));
}

#[test]
fn test_decode_record_truncated_body() {
    // Serial type 4 wants four bytes; only one follows.
    let cell = [6u8, 7, 2, 4, 0x01];
    assert!(matches!(decode_record(&cell, 0), Err(DbError::MalformedRecord)));
}

#[test]
fn test_decode_record_serial_list_overruns_header() {
    // Header length 2 admits one serial byte, but the serial varint
    // (0x81 0x00) takes two.
    let cell = [6u8, 7, 2, 0x81, 0x00];
    assert!(matches!(decode_record(&cell, 0), Err(DbError::MalformedRecord)));
}

#[test]
fn test_decode_record_offset_past_buffer() {
    let cell = [6u8, 7, 3];
    assert!(matches!(decode_record(&cell, 9), Err(DbError::MalformedRecord)));
}

#[test]
fn test_decode_record_empty_cell() {
    // A cell at the very end of the buffer decodes to an empty record.
    let rec = decode_record(&[], 0).unwrap();
    assert_eq!(rec.rowid, 0);
    assert_eq!(rec.values.len(), 0);
}

#[test]
fn test_parse_cell_as_rows_in_pointer_order() {
    // A non-first leaf-table page of 64 bytes with two one-column records.
    let mut page = vec![0u8; 64];
    page[0] = 0x0d;
    page[3] = 0;
    page[4] = 2; // cell count
    // Cell A at offset 40: rowid 1, integer 5.
    let cell_a = [4u8, 1, 2, 1, 5];
    // Cell B at offset 50: rowid 2, integer 9.
    let cell_b = [4u8, 2, 2, 1, 9];
    page[40..45].copy_from_slice(&cell_a);
    page[50..55].copy_from_slice(&cell_b);
    // Pointer array lists B before A: rows come back in pointer order.
    page[8] = 0;
    page[9] = 50;
    page[10] = 0;
    page[11] = 40;
    let p = parse_page(page, false).unwrap();
    let rows = parse_cell_as_rows(&p).unwrap();
    assert_eq!(rows.len(), 2);
    assert_eq!(rows[0].rowid, 2);
    assert!(matches!(rows[0].values[0], ColType::Integer(9)));
    assert_eq!(rows[1].rowid, 1);
    assert!(matches!(rows[1].values[0], ColType::Integer(5)));
}

#[test]
fn test_parse_cell_as_rows_one_bad_cell_fails_the_page() {
    let mut page = vec![0u8; 32];
    page[0] = 0x0d;
    page[4] = 1;
    page[8] = 0;
    page[9] = 20;
    // Cell at 20: reserved serial type 10.
    page[20..24].copy_from_slice(&[2u8, 1, 2, 10]);
    let p = parse_page(page, false).unwrap();
    assert!(matches!(parse_cell_as_rows(&p), Err(DbError::MalformedRecord)));
}
