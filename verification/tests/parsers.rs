use leafdb::parser::{parse_create, parse_select};

#[test]
fn test_parse_create_plain_columns() {
    let c = parse_create("CREATE TABLE t (a, b)").unwrap();
    assert_eq!(c.table, "t");
    assert_eq!(c.columns.len(), 2);
    assert_eq!(c.columns[0].name, "a");
    assert_eq!(c.columns[0].ty, None);
    assert_eq!(c.columns[1].name, "b");
    assert_eq!(c.columns[1].ty, None);
}

#[test]
fn test_parse_create_declared_types() {
    let c = parse_create("create table apples (id integer primary key, name text)").unwrap();
    assert_eq!(c.table, "apples");
    assert_eq!(c.columns.len(), 2);
    assert_eq!(c.columns[0].name, "id");
    assert_eq!(c.columns[0].ty.as_deref(), Some("integer"));
    assert_eq!(c.columns[1].name, "name");
    assert_eq!(c.columns[1].ty.as_deref(), Some("text"));
}

#[test]
fn test_parse_create_case_whitespace_semicolon() {
    let c = parse_create("  CrEaTe   TABLE\n numbers  ( n ) ; ").unwrap();
    assert_eq!(c.table, "numbers");
    assert_eq!(c.columns.len(), 1);
    assert_eq!(c.columns[0].name, "n");
}

#[test]
fn test_parse_create_skips_empty_chunks() {
    let c = parse_create("create table t (a,, b,)").unwrap();
    assert_eq!(c.columns.len(), 2);
    assert_eq!(c.columns[0].name, "a");
    assert_eq!(c.columns[1].name, "b");
}

#[test]
fn test_parse_create_rejects_other_statements() {
    assert!(parse_create("DROP TABLE t").is_err());
    assert!(parse_create("create table t").is_err());
    assert!(parse_create("create table (a)").is_err());
    assert!(parse_create("create table t (a) extra").is_err());
    assert!(parse_create("create table t (-a)").is_err());
}

#[test]
fn test_parse_select_columns_and_table() {
    let s = parse_select("SELECT name FROM apples").unwrap();
    assert_eq!(s.columns, vec!["name".to_string()]);
    assert_eq!(s.table, "apples");
    assert!(s.conditions.is_empty());
}

#[test]
fn test_parse_select_request_order_kept() {
    let s = parse_select("select b, a from t;").unwrap();
    assert_eq!(s.columns, vec!["b".to_string(), "a".to_string()]);
    assert_eq!(s.table, "t");
}

#[test]
fn test_parse_select_where_conditions() {
    let s = parse_select("select a, b from t where x = 5 and y != 'q z'").unwrap();
    assert_eq!(s.table, "t");
    assert_eq!(s.conditions.len(), 2);
    assert_eq!(s.conditions[0].column, "x");
    assert_eq!(s.conditions[0].op, "=");
    assert_eq!(s.conditions[0].value, "5");
    assert_eq!(s.conditions[1].column, "y");
    assert_eq!(s.conditions[1].op, "!=");
    assert_eq!(s.conditions[1].value, "q z");
}

#[test]
fn test_parse_select_comparison_operators() {
    let s = parse_select("select a from t where p <= 3 and q >= 4 and r < 5 and s > 6").unwrap();
    let ops: Vec<&str> = s.conditions.iter().map(|c| c.op.as_str()).collect();
    assert_eq!(ops, vec!["<=", ">=", "<", ">"]);
}

#[test]
fn test_parse_select_rejects_malformed() {
    assert!(parse_select("select from t").is_err());
    assert!(parse_select("selectx from t").is_err());
    assert!(parse_select("select a from t where").is_err());
    assert!(parse_select("select a from t where x ~ 3").is_err());
    assert!(parse_select("update t set a = 1").is_err());
}
