use leafdb::catalog::{find_column, project, SchemaCatalog};
use leafdb::error::DbError;
use leafdb::page::{parse_dbinfo, parse_page};
use leafdb::record::parse_cell_as_rows;
use leafdb::value::ColType;

/// A schema row: (object type, name, table name, root page, sql), with all
/// varints single-byte.
fn schema_cell(rowid: u8, name: &str, rootpage: u8, sql: &str) -> Vec<u8> {
    let mut body: Vec<u8> = Vec::new();
    let mut serials: Vec<u8> = Vec::new();
    for text in ["table", name, name] {
        serials.push((13 + 2 * text.len()) as u8);
        body.extend_from_slice(text.as_bytes());
    }
    serials.push(1);
    body.push(rootpage);
    serials.push((13 + 2 * sql.len()) as u8);
    body.extend_from_slice(sql.as_bytes());
    let header_len = (serials.len() + 1) as u8;
    let mut cell = vec![(header_len as usize + body.len()) as u8, rowid, header_len];
    cell.extend_from_slice(&serials);
    cell.extend_from_slice(&body);
    cell
}

/// A one-page database image whose root page holds the given schema cells.
fn root_page(cells: &[Vec<u8>]) -> Vec<u8> {
    let page_size = 512usize;
    let mut page = vec![0u8; page_size];
    page[16] = (page_size >> 8) as u8;
    page[17] = (page_size & 0xff) as u8;
    page[59] = 1; // text encoding: UTF-8
    page[100] = 0x0d;
    page[103] = 0;
    page[104] = cells.len() as u8;
    let mut tail = page_size;
    let mut ptr = 108usize;
    for cell in cells {
        tail -= cell.len();
        page[tail..tail + cell.len()].copy_from_slice(cell);
        page[ptr] = (tail >> 8) as u8;
        page[ptr + 1] = (tail & 0xff) as u8;
        ptr += 2;
    }
    page
}

fn build_catalog(cells: &[Vec<u8>]) -> SchemaCatalog {
    let image = root_page(cells);
    let db = parse_dbinfo(&image[0..100]).unwrap();
    assert_eq!(db.page_size, 512);
    let page = parse_page(image, true).unwrap();
    let rows = parse_cell_as_rows(&page).unwrap();
    SchemaCatalog::build(&rows).unwrap()
}

#[test]
fn test_schema_round_trip() {
    let cat = build_catalog(&[schema_cell(1, "t", 2, "CREATE TABLE t (a, b)")]);
    let entry = cat.lookup(&"t".to_string()).unwrap();
    assert_eq!(entry.table_name, "t");
    assert_eq!(entry.root_page, 2);
    let names: Vec<&str> = entry.columns.iter().map(|c| c.name.as_str()).collect();
    assert_eq!(names, vec!["a", "b"]);
}

#[test]
fn test_tables_display_space_joined_in_cell_order() {
    let cat = build_catalog(&[
        schema_cell(1, "apples", 2, "CREATE TABLE apples (id, name)"),
        schema_cell(2, "oranges", 3, "CREATE TABLE oranges (id)"),
        schema_cell(3, "grapes", 4, "CREATE TABLE grapes (id)"),
    ]);
    assert_eq!(cat.tables_display(), "apples oranges grapes");
}

#[test]
fn test_tables_display_single_table_no_separator() {
    let cat = build_catalog(&[schema_cell(1, "t", 2, "CREATE TABLE t (a)")]);
    assert_eq!(cat.tables_display(), "t");
}

#[test]
fn test_catalog_skips_non_table_objects() {
    let cat = build_catalog(&[
        schema_cell(1, "t", 2, "CREATE TABLE t (a)"),
        schema_cell(2, "v", 3, "CREATE VIEW v AS SELECT a FROM t"),
    ]);
    assert_eq!(cat.tables_display(), "t");
    assert!(matches!(cat.lookup(&"v".to_string()), Err(DbError::TableNotFound)));
}

#[test]
fn test_catalog_name_mismatch_is_inconsistency() {
    let image = root_page(&[schema_cell(1, "t", 2, "CREATE TABLE other (a)")]);
    let page = parse_page(image, true).unwrap();
    let rows = parse_cell_as_rows(&page).unwrap();
    assert!(matches!(SchemaCatalog::build(&rows), Err(DbError::SchemaInconsistency)));
}

#[test]
fn test_unknown_table_and_column_errors_are_distinct() {
    let cat = build_catalog(&[schema_cell(1, "t", 2, "CREATE TABLE t (a, b)")]);
    assert!(matches!(cat.lookup(&"missing".to_string()), Err(DbError::TableNotFound)));
    let entry = cat.lookup(&"t".to_string()).unwrap();
    assert!(matches!(find_column(&entry.columns, &"zz".to_string()), Err(DbError::ColumnNotFound)));
    assert_eq!(find_column(&entry.columns, &"b".to_string()), Ok(1));
}

/// A data row of two text columns.
fn data_cell(rowid: u8, a: &str, b: &str) -> Vec<u8> {
    let s1 = (13 + 2 * a.len()) as u8;
    let s2 = (13 + 2 * b.len()) as u8;
    let mut cell = vec![(3 + a.len() + b.len()) as u8, rowid, 3, s1, s2];
    cell.extend_from_slice(a.as_bytes());
    cell.extend_from_slice(b.as_bytes());
    cell
}

fn data_page(cells: &[Vec<u8>]) -> Vec<u8> {
    let page_size = 256usize;
    let mut page = vec![0u8; page_size];
    page[0] = 0x0d;
    page[4] = cells.len() as u8;
    let mut tail = page_size;
    let mut ptr = 8usize;
    for cell in cells {
        tail -= cell.len();
        page[tail..tail + cell.len()].copy_from_slice(cell);
        page[ptr] = (tail >> 8) as u8;
        page[ptr + 1] = (tail & 0xff) as u8;
        ptr += 2;
    }
    page
}

fn texts(vals: &[ColType]) -> Vec<String> {
    vals.iter()
        .map(|v| match v {
            ColType::Text(s) => s.clone(),
            other => panic!("expected text, got {:?}", other),
        })
        .collect()
}

#[test]
fn test_projection_request_order_and_row_order() {
    let cat = build_catalog(&[schema_cell(1, "t", 2, "CREATE TABLE t (a, b)")]);
    let entry = cat.lookup(&"t".to_string()).unwrap();
    let page = parse_page(data_page(&[data_cell(1, "x1", "y1"), data_cell(2, "x2", "y2")]), false)
        .unwrap();
    let rows = parse_cell_as_rows(&page).unwrap();
    // `SELECT b, a FROM t`: the `b` values come first, rows in cell order.
    let cols = vec!["b".to_string(), "a".to_string()];
    let out = project(entry, &rows, &cols).unwrap();
    assert_eq!(out.len(), 2);
    assert_eq!(texts(&out[0]), vec!["y1", "y2"]);
    assert_eq!(texts(&out[1]), vec!["x1", "x2"]);
}

#[test]
fn test_projection_unknown_column_fails() {
    let cat = build_catalog(&[schema_cell(1, "t", 2, "CREATE TABLE t (a, b)")]);
    let entry = cat.lookup(&"t".to_string()).unwrap();
    let page = parse_page(data_page(&[data_cell(1, "x1", "y1")]), false).unwrap();
    let rows = parse_cell_as_rows(&page).unwrap();
    let cols = vec!["a".to_string(), "nope".to_string()];
    assert!(matches!(project(entry, &rows, &cols), Err(DbError::ColumnNotFound)));
}

#[test]
fn test_duplicate_table_name_last_write_wins_in_place() {
    let cat = build_catalog(&[
        schema_cell(1, "t", 2, "CREATE TABLE t (a)"),
        schema_cell(2, "u", 3, "CREATE TABLE u (x)"),
        schema_cell(3, "t", 9, "CREATE TABLE t (c, d)"),
    ]);
    assert_eq!(cat.tables_display(), "t u");
    let entry = cat.lookup(&"t".to_string()).unwrap();
    assert_eq!(entry.root_page, 9);
    let names: Vec<&str> = entry.columns.iter().map(|c| c.name.as_str()).collect();
    assert_eq!(names, vec!["c", "d"]);
}

#[test]
fn test_select_statement_drives_projection() {
    let cat = build_catalog(&[schema_cell(1, "t", 2, "CREATE TABLE t (a, b)")]);
    let stmt = leafdb::parser::parse_select("SELECT b, a FROM t").unwrap();
    let entry = cat.lookup(&stmt.table).unwrap();
    assert_eq!(entry.root_page, 2);
    let page = parse_page(data_page(&[data_cell(1, "x1", "y1"), data_cell(2, "x2", "y2")]), false)
        .unwrap();
    let rows = parse_cell_as_rows(&page).unwrap();
    let out = project(entry, &rows, &stmt.columns).unwrap();
    assert_eq!(texts(&out[0]), vec!["y1", "y2"]);
    assert_eq!(texts(&out[1]), vec!["x1", "x2"]);
}
