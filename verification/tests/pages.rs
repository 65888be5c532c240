use leafdb::error::DbError;
use leafdb::page::{parse_dbinfo, parse_page, DbInfo};

fn header_with_encoding(encoding: u32) -> Vec<u8> {
    let mut h = vec![0u8; 100];
    h[16] = 0x10; // page size 4096
    h[17] = 0x00;
    h[56..60].copy_from_slice(&encoding.to_be_bytes());
    h
}

#[test]
fn test_parse_dbinfo_reads_page_size() {
    let h = header_with_encoding(1);
    assert_eq!(parse_dbinfo(&h), Ok(DbInfo { page_size: 4096, text_encoding: 1 }));
}

#[test]
fn test_unsupported_text_encoding_rejected() {
    // Any encoding code other than UTF-8 (1) fails before any page is
    // touched: the header alone decides.
    for enc in [0u32, 2, 3, 1000] {
        let h = header_with_encoding(enc);
        assert_eq!(parse_dbinfo(&h), Err(DbError::UnsupportedTextEncoding));
    }
}

#[test]
fn test_parse_page_header_fields() {
    let mut page = vec![0u8; 64];
    page[0] = 0x0d; // leaf table
    page[1] = 0x00;
    page[2] = 0x30; // first freeblock
    page[3] = 0x00;
    page[4] = 0x02; // two cells
    page[5] = 0x00;
    page[6] = 0x28; // content area start
    page[8] = 0x00;
    page[9] = 0x28;
    page[10] = 0x00;
    page[11] = 0x30;
    let p = parse_page(page, false).unwrap();
    assert_eq!(p.page_type, 0x0d);
    assert_eq!(p.freeblock_start, 0x30);
    assert_eq!(p.cell_count, 2);
    assert_eq!(p.cell_content_area, 0x28);
    assert_eq!(p.cell_offsets, vec![0x28, 0x30]);
}

#[test]
fn test_parse_page_first_page_header_at_100() {
    let mut page = vec![0u8; 160];
    page[100] = 0x0a; // leaf index is accepted too
    page[104] = 0x01; // one cell
    page[108] = 0x00;
    page[109] = 0x96; // cell offset 150, relative to the full page buffer
    let p = parse_page(page, true).unwrap();
    assert_eq!(p.page_type, 0x0a);
    assert_eq!(p.cell_count, 1);
    assert_eq!(p.cell_offsets, vec![150]);
}

#[test]
fn test_parse_page_rejects_interior_pages() {
    for t in [0x02u8, 0x05, 0x00, 0x42] {
        let mut page = vec![0u8; 32];
        page[0] = t;
        match parse_page(page, false) {
            Err(DbError::UnsupportedPageType) => {},
            other => panic!("expected an unsupported-page-type error, got {:?}", other),
        }
    }
}
