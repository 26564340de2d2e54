use minisql::data::{table_file, temporary_file};

#[test]
fn table_file_is_under_the_tables_path() {
    assert_eq!(table_file("tables", "users"), "tables/users.csv");
    assert_eq!(table_file("/var/db/", "t"), "/var/db//t.csv");
    assert_eq!(table_file("", ""), "/.csv");
}

#[test]
fn temporary_file_stands_beside_the_table() {
    assert_eq!(temporary_file("tables", "users"), "tables/users.tmp");
    assert_eq!(temporary_file(".", "order_items"), "./order_items.tmp");
}
