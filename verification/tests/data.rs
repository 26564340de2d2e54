use minisql::data::{Table, TableSchema};

fn strings(items: &[&str]) -> Vec<String> {
    items.iter().map(|s| s.to_string()).collect()
}

#[test]
fn schema_parse_splits_the_header() {
    let schema = TableSchema::parse("id,name,age");
    assert_eq!(schema.columns, strings(&["id", "name", "age"]));
    assert_eq!(schema.width(), 3);
    assert_eq!(schema.ordinals(), vec![0, 1, 2]);
    assert_eq!(schema.ordinal("id"), Some(0));
    assert_eq!(schema.ordinal("name"), Some(1));
    assert_eq!(schema.ordinal("age"), Some(2));
    assert_eq!(schema.ordinal("Age"), None);
    assert_eq!(schema.ordinal(""), None);
}

#[test]
fn schema_of_an_empty_header_has_one_nameless_column() {
    let schema = TableSchema::parse("");
    assert_eq!(schema.columns, strings(&[""]));
    assert_eq!(schema.width(), 1);
    assert_eq!(schema.ordinal(""), Some(0));
}

#[test]
fn schema_keeps_the_later_of_two_equal_names() {
    let schema = TableSchema::parse("a,b,a");
    assert_eq!(schema.ordinal("a"), Some(2));
    assert_eq!(schema.ordinal("b"), Some(1));
    assert_eq!(schema.width(), 2);
    assert_eq!(schema.ordinals(), vec![1, 2]);
    assert!(!schema.is_ordinal(0));
    assert!(schema.is_ordinal(1));
    assert!(schema.is_ordinal(2));
    assert!(!schema.is_ordinal(3));
}

#[test]
fn table_schema_ignores_white_space_at_the_end_of_the_header() {
    let table = Table {
        lines: strings(&["id,name,age \t\r", "1,Alice,30"]),
    };
    let schema = table.schema();
    assert_eq!(schema.columns, strings(&["id", "name", "age"]));
    assert_eq!(schema.ordinal("age"), Some(2));
    // white space elsewhere belongs to the names
    let table = Table {
        lines: strings(&[" id, name"]),
    };
    assert_eq!(table.schema().columns, strings(&[" id", " name"]));
}

#[test]
fn table_without_lines_has_the_schema_of_an_empty_header() {
    let table = Table { lines: vec![] };
    assert_eq!(table.schema().columns, strings(&[""]));
    assert_eq!(table.rows().len(), 0);
}

#[test]
fn table_rows_are_the_lines_after_the_header() {
    let table = Table {
        lines: strings(&["id,name", "1,Alice", "2,Bob"]),
    };
    assert_eq!(table.rows(), &strings(&["1,Alice", "2,Bob"])[..]);
    let table = Table {
        lines: strings(&["id,name"]),
    };
    assert_eq!(table.rows().len(), 0);
}
