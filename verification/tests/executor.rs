use minisql::ast::{Expression, SQLQuery, SelectQuery};
use minisql::data::{Table, TableSchema};
use minisql::errors::SQLError;
use minisql::executor::{
    can_execute, execute_delete, execute_insert, execute_query, execute_select, execute_update,
    get_selected_indices, output_results, project_row, resolve_columns, sort_results,
    try_execute_query, Outcome,
};
use minisql::lexer::tokenize;
use minisql::parser::parse;

fn strings(items: &[&str]) -> Vec<String> {
    items.iter().map(|s| s.to_string()).collect()
}

fn table(lines: &[&str]) -> Table {
    Table {
        lines: strings(lines),
    }
}

fn users() -> Table {
    table(&["id,name,age", "1,Alice,30", "2,Bob,25"])
}

fn people() -> Table {
    table(&[
        "id,name,city",
        "1,Dora,Rome",
        "2,Abel,Oslo",
        "3,Cleo,Rome",
        "4,Bert,Oslo",
        "5,Edna,Bern",
    ])
}

fn query(statement: &str) -> SQLQuery {
    parse(&tokenize(statement).unwrap()).unwrap()
}

fn run(statement: &str, table: &Table) -> Result<Outcome, SQLError> {
    let query = query(statement);
    assert!(can_execute(&query, table));
    execute_query(query, table)
}

fn rows(lines: &[&str]) -> Result<Outcome, SQLError> {
    Ok(Outcome::Rows(strings(lines)))
}

fn replace(lines: &[&str]) -> Result<Outcome, SQLError> {
    Ok(Outcome::Replace(strings(lines)))
}

fn append(line: &str) -> Result<Outcome, SQLError> {
    Ok(Outcome::Append(line.to_string()))
}

fn unknown_column(name: &str) -> Result<Outcome, SQLError> {
    Err(SQLError::InvalidColumn(format!(
        "Column '{}' does not exist",
        name
    )))
}

#[test]
fn select_with_where_and_order_by() {
    assert_eq!(
        run(
            "SELECT name,age FROM users WHERE age>25 ORDER BY age DESC;",
            &users()
        ),
        rows(&["name,age", "Alice,30"])
    );
}

#[test]
fn insert_with_column_list_leaves_other_columns_empty() {
    assert_eq!(
        run("INSERT INTO users (id,name) VALUES (3,'Carol');", &users()),
        append("3,Carol,")
    );
}

#[test]
fn delete_with_where_removes_matching_row() {
    assert_eq!(
        run("DELETE FROM users WHERE id=2;", &users()),
        replace(&["id,name,age", "1,Alice,30"])
    );
}

#[test]
fn select_all_gives_header_and_every_row() {
    assert_eq!(
        run("SELECT * FROM users", &users()),
        rows(&["id,name,age", "1,Alice,30", "2,Bob,25"])
    );
}

#[test]
fn select_columns_in_the_order_asked_for() {
    assert_eq!(
        run("SELECT age, id FROM users", &users()),
        rows(&["age,id", "30,1", "25,2"])
    );
    assert_eq!(
        run("SELECT name, name FROM users", &users()),
        rows(&["name,name", "Alice,Alice", "Bob,Bob"])
    );
}

#[test]
fn select_from_a_table_without_rows() {
    assert_eq!(run("SELECT * FROM t", &table(&["a,b"])), rows(&["a,b"]));
    assert_eq!(run("SELECT b FROM t", &table(&["a,b"])), rows(&["b"]));
    assert_eq!(run("SELECT * FROM t", &table(&[])), rows(&[""]));
}

#[test]
fn select_where_keeps_the_rows_that_match() {
    assert_eq!(
        run("SELECT name FROM people WHERE city = 'Rome'", &people()),
        rows(&["name", "Dora", "Cleo"])
    );
    assert_eq!(
        run("SELECT name FROM people WHERE city = 'Paris'", &people()),
        rows(&["name"])
    );
    assert_eq!(
        run("SELECT id FROM people WHERE name >= 'C'", &people()),
        rows(&["id", "1", "3", "5"])
    );
}

#[test]
fn select_where_on_a_column_that_is_not_selected() {
    assert_eq!(
        run("SELECT name FROM users WHERE id = 2", &users()),
        rows(&["name", "Bob"])
    );
}

#[test]
fn select_where_compares_text_not_numbers() {
    let t = table(&["n", "9", "10", "100", "25"]);
    assert_eq!(
        run("SELECT n FROM t WHERE n > 25", &t),
        rows(&["n", "9"])
    );
    assert_eq!(
        run("SELECT n FROM t WHERE n < 9", &t),
        rows(&["n", "10", "100", "25"])
    );
}

#[test]
fn select_order_by_sorts_by_text() {
    assert_eq!(
        run("SELECT name FROM people ORDER BY name", &people()),
        rows(&["name", "Abel", "Bert", "Cleo", "Dora", "Edna"])
    );
    assert_eq!(
        run("SELECT name FROM people ORDER BY name DESC", &people()),
        rows(&["name", "Edna", "Dora", "Cleo", "Bert", "Abel"])
    );
    let t = table(&["n", "9", "10", "100", "25"]);
    assert_eq!(
        run("SELECT n FROM t ORDER BY n", &t),
        rows(&["n", "10", "100", "25", "9"])
    );
}

#[test]
fn select_order_by_keeps_the_order_of_equal_keys() {
    assert_eq!(
        run("SELECT name, city FROM people ORDER BY city", &people()),
        rows(&[
            "name,city",
            "Edna,Bern",
            "Abel,Oslo",
            "Bert,Oslo",
            "Dora,Rome",
            "Cleo,Rome",
        ])
    );
    assert_eq!(
        run("SELECT name, city FROM people ORDER BY city DESC", &people()),
        rows(&[
            "name,city",
            "Dora,Rome",
            "Cleo,Rome",
            "Abel,Oslo",
            "Bert,Oslo",
            "Edna,Bern",
        ])
    );
}

#[test]
fn select_order_by_column_has_to_be_selected() {
    assert_eq!(
        run("SELECT name FROM people ORDER BY city", &people()),
        Err(SQLError::InvalidColumn(
            "Column 'city' is not in the selected columns".to_string()
        ))
    );
    assert_eq!(
        run("SELECT * FROM people ORDER BY city", &people()),
        rows(&[
            "id,name,city",
            "5,Edna,Bern",
            "2,Abel,Oslo",
            "4,Bert,Oslo",
            "1,Dora,Rome",
            "3,Cleo,Rome",
        ])
    );
}

#[test]
fn select_unknown_column_in_the_list() {
    assert_eq!(run("SELECT id, zip FROM users", &users()), unknown_column("zip"));
    assert_eq!(
        run("SELECT zip, town FROM users WHERE nope = 1 ORDER BY gone", &users()),
        unknown_column("zip")
    );
    // an asterisk beside other columns is taken as a name
    assert_eq!(run("SELECT *, id FROM users", &users()), unknown_column("*"));
    assert_eq!(run("SELECT id FROM t", &table(&[])), unknown_column("id"));
}

#[test]
fn select_unknown_column_in_where() {
    assert_eq!(
        run("SELECT id FROM users WHERE zip = 1", &users()),
        unknown_column("zip")
    );
    assert_eq!(
        run("SELECT id FROM users WHERE zip = 1 ORDER BY gone", &users()),
        unknown_column("zip")
    );
    // without a data row the predicate is never looked at
    assert_eq!(
        run("SELECT id FROM users WHERE zip = 1", &table(&["id,name,age"])),
        rows(&["id"])
    );
}

#[test]
fn select_unknown_column_in_order_by() {
    assert_eq!(
        run("SELECT id FROM users ORDER BY zip", &users()),
        unknown_column("zip")
    );
    assert_eq!(
        run("SELECT id FROM users ORDER BY zip", &table(&["id,name,age"])),
        unknown_column("zip")
    );
}

#[test]
fn select_unknown_operator() {
    assert_eq!(
        run("SELECT id FROM users WHERE id == 1", &users()),
        Err(SQLError::InvalidSyntax(
            "Unknown operator '=='".to_string()
        ))
    );
}

#[test]
fn select_with_an_expression_that_is_no_comparison() {
    let select = |where_clause: Expression| {
        SQLQuery::Select(SelectQuery {
            columns: strings(&["id"]),
            table: "users".to_string(),
            where_clause: Some(where_clause),
            order_by: None,
        })
    };
    let unsupported = || {
        Err(SQLError::InvalidSyntax(
            "Unsupported expression in WHERE clause".to_string(),
        ))
    };
    assert_eq!(
        execute_query(select(Expression::Literal("1".to_string())), &users()),
        unsupported()
    );
    assert_eq!(
        execute_query(select(Expression::Column("id".to_string())), &users()),
        unsupported()
    );
    assert_eq!(
        execute_query(
            select(Expression::BinaryOp {
                left: Box::new(Expression::Column("id".to_string())),
                op: "=".to_string(),
                right: Box::new(Expression::Column("age".to_string())),
            }),
            &users()
        ),
        unsupported()
    );
    // with the literal on the left the comparison is still one
    assert_eq!(
        execute_query(
            select(Expression::BinaryOp {
                left: Box::new(Expression::Literal("1".to_string())),
                op: "=".to_string(),
                right: Box::new(Expression::Column("id".to_string())),
            }),
            &users()
        ),
        rows(&["id", "1"])
    );
}

#[test]
fn select_never_changes_the_table() {
    for statement in [
        "SELECT * FROM users",
        "SELECT zip FROM users",
        "SELECT id FROM users WHERE zip = 1",
        "SELECT id FROM users ORDER BY zip",
        "SELECT id FROM users WHERE id = 1 ORDER BY id",
    ] {
        match run(statement, &users()) {
            Ok(Outcome::Rows(_)) | Err(_) => {}
            other => panic!("{:?}", other),
        }
    }
}

#[test]
fn insert_without_column_list_fills_every_column() {
    assert_eq!(
        run("INSERT INTO users VALUES (3, 'Carol', 41)", &users()),
        append("3,Carol,41")
    );
}

#[test]
fn insert_puts_values_at_the_ordinals_of_their_columns() {
    assert_eq!(
        run("INSERT INTO users (age, id) VALUES (41, 3)", &users()),
        append("3,,41")
    );
    assert_eq!(
        run("INSERT INTO users (name) VALUES ('')", &users()),
        append(",,")
    );
    // a column that is listed twice keeps its later value
    assert_eq!(
        run("INSERT INTO users (id, id) VALUES (3, 4)", &users()),
        append("4,,")
    );
}

#[test]
fn insert_then_select_all_shows_the_new_row_last() {
    let mut t = users();
    let before = match run("SELECT * FROM users", &t) {
        Ok(Outcome::Rows(lines)) => lines,
        other => panic!("{:?}", other),
    };
    let line = match run("INSERT INTO users (id,name) VALUES (3,'Carol');", &t) {
        Ok(Outcome::Append(line)) => line,
        other => panic!("{:?}", other),
    };
    t.lines.push(line);
    let mut expected = before;
    expected.push("3,Carol,".to_string());
    assert_eq!(run("SELECT * FROM users", &t), Ok(Outcome::Rows(expected)));
}

#[test]
fn insert_unknown_column() {
    assert_eq!(
        run("INSERT INTO users (id, zip) VALUES (3, 4)", &users()),
        unknown_column("zip")
    );
    // the columns are looked at before the number of values
    assert_eq!(
        run("INSERT INTO users (zip) VALUES (3, 4)", &users()),
        unknown_column("zip")
    );
}

#[test]
fn insert_with_the_wrong_number_of_values() {
    let mismatch = || {
        Err(SQLError::InvalidSyntax(
            "Number of columns and values do not match".to_string(),
        ))
    };
    assert_eq!(run("INSERT INTO users (id, name) VALUES (3)", &users()), mismatch());
    assert_eq!(run("INSERT INTO users (id) VALUES (3, 4)", &users()), mismatch());
    assert_eq!(run("INSERT INTO users VALUES (3, 4)", &users()), mismatch());
    assert_eq!(run("INSERT INTO users VALUES (3, 4, 5, 6)", &users()), mismatch());
}

#[test]
fn insert_into_a_table_without_lines() {
    assert_eq!(run("INSERT INTO t VALUES ('x')", &table(&[])), append("x"));
}

#[test]
fn update_with_where_changes_the_rows_that_match() {
    assert_eq!(
        run("UPDATE users SET age = 26 WHERE name = 'Bob'", &users()),
        replace(&["id,name,age", "1,Alice,30", "2,Bob,26"])
    );
    assert_eq!(
        run("UPDATE people SET city = 'Roma', id = 0 WHERE city = 'Rome'", &people()),
        replace(&[
            "id,name,city",
            "0,Dora,Roma",
            "2,Abel,Oslo",
            "0,Cleo,Roma",
            "4,Bert,Oslo",
            "5,Edna,Bern",
        ])
    );
    // of two assignments to one column the later stays
    assert_eq!(
        run("UPDATE users SET age = 1, age = 2 WHERE id = 1", &users()),
        replace(&["id,name,age", "1,Alice,2", "2,Bob,25"])
    );
}

#[test]
fn update_without_where_changes_no_row() {
    assert_eq!(
        run("UPDATE users SET age = 0", &users()),
        replace(&["id,name,age", "1,Alice,30", "2,Bob,25"])
    );
}

#[test]
fn update_keeps_header_and_other_rows_byte_for_byte() {
    let t = table(&["id,name,age  ", "1, Alice ,30,extra", "2,Bob,25", ",,", "3"]);
    assert_eq!(
        run("UPDATE users SET name = 'B' WHERE id = 2", &t),
        replace(&["id,name,age  ", "1, Alice ,30,extra", "2,B,25", ",,", "3"])
    );
}

#[test]
fn update_unknown_column() {
    assert_eq!(
        run("UPDATE users SET zip = 1 WHERE id = 1", &users()),
        unknown_column("zip")
    );
    assert_eq!(run("UPDATE users SET zip = 1", &users()), unknown_column("zip"));
    assert_eq!(
        run("UPDATE users SET age = 1 WHERE zip = 1", &users()),
        unknown_column("zip")
    );
    // the assignments are looked at before the predicate
    assert_eq!(
        run("UPDATE users SET zip = 1 WHERE town = 1", &users()),
        unknown_column("zip")
    );
    // without a data row the predicate is never looked at
    assert_eq!(
        run("UPDATE users SET age = 1 WHERE zip = 1", &table(&["id,name,age"])),
        replace(&["id,name,age"])
    );
}

#[test]
fn update_of_a_table_without_lines() {
    assert_eq!(
        run("UPDATE t SET a = 1", &table(&[])),
        unknown_column("a")
    );
    let empty = || {
        Err(SQLError::InvalidTable(
            "Table is empty or corrupted".to_string(),
        ))
    };
    let nameless = tokenize("UPDATE t SET a = 1").unwrap();
    let mut q = match parse(&nameless).unwrap() {
        SQLQuery::Update(q) => q,
        other => panic!("{:?}", other),
    };
    q.assignments[0].column = String::new();
    assert_eq!(execute_query(SQLQuery::Update(q), &table(&[])), empty());
    assert_eq!(run("DELETE FROM t", &table(&[])), empty());
    assert_eq!(run("DELETE FROM t WHERE a = 1", &table(&[])), empty());
}

#[test]
fn delete_keeps_the_other_rows_in_their_order() {
    assert_eq!(
        run("DELETE FROM people WHERE city = 'Oslo'", &people()),
        replace(&["id,name,city", "1,Dora,Rome", "3,Cleo,Rome", "5,Edna,Bern"])
    );
    assert_eq!(
        run("DELETE FROM people WHERE id > 2", &people()),
        replace(&["id,name,city", "1,Dora,Rome", "2,Abel,Oslo"])
    );
    assert_eq!(
        run("DELETE FROM people WHERE id >= 0", &people()),
        replace(&["id,name,city"])
    );
}

#[test]
fn delete_without_where_removes_no_row() {
    assert_eq!(
        run("DELETE FROM users", &users()),
        replace(&["id,name,age", "1,Alice,30", "2,Bob,25"])
    );
}

#[test]
fn delete_unknown_column() {
    assert_eq!(
        run("DELETE FROM users WHERE zip = 1", &users()),
        unknown_column("zip")
    );
    assert_eq!(
        run("DELETE FROM users WHERE zip = 1", &table(&["id,name,age"])),
        replace(&["id,name,age"])
    );
}

#[test]
fn rows_wider_than_the_header_keep_their_extra_fields() {
    let t = table(&["a,b", "1,2,3", "4,5,6,7"]);
    assert_eq!(run("SELECT * FROM t", &t), rows(&["a,b", "1,2", "4,5"]));
    assert_eq!(
        run("UPDATE t SET b = 0 WHERE a = 4", &t),
        replace(&["a,b", "1,2,3", "4,0,6,7"])
    );
}

#[test]
fn rows_too_short_for_the_statement_are_refused() {
    let t = table(&["id,name,age", "1,Alice,30", "2,Bob"]);
    // the short row is never asked for its third field
    assert_eq!(
        run("SELECT id, name FROM users", &t),
        rows(&["id,name", "1,Alice", "2,Bob"])
    );
    assert_eq!(
        run("SELECT age FROM users WHERE id = 1", &t),
        rows(&["age", "30"])
    );
    assert_eq!(
        run("UPDATE users SET age = 31 WHERE id = 1", &t),
        replace(&["id,name,age", "1,Alice,31", "2,Bob"])
    );
    assert_eq!(
        run("DELETE FROM users WHERE name = 'Bob'", &t),
        replace(&["id,name,age", "1,Alice,30"])
    );
    // it is asked here
    for statement in [
        "SELECT * FROM users",
        "SELECT age FROM users",
        "SELECT id FROM users WHERE age = 30",
        "UPDATE users SET age = 26 WHERE id = 2",
        "DELETE FROM users WHERE age = 30",
    ] {
        assert!(!can_execute(&query(statement), &t), "{}", statement);
        assert_eq!(try_execute_query(query(statement), &t), None, "{}", statement);
    }
    // a statement that fails before it reads a row is carried out
    assert_eq!(
        try_execute_query(query("SELECT zip FROM users"), &t),
        Some(unknown_column("zip"))
    );
    assert_eq!(
        try_execute_query(query("UPDATE users SET zip = 1 WHERE age = 1"), &t),
        Some(unknown_column("zip"))
    );
    // a scan that fails at the first row does not come to the short one
    assert_eq!(
        try_execute_query(query("SELECT age FROM users WHERE zip = 1"), &t),
        Some(unknown_column("zip"))
    );
    assert_eq!(
        try_execute_query(query("SELECT age FROM users WHERE age == 1"), &t),
        Some(Err(SQLError::InvalidSyntax(
            "Unknown operator '=='".to_string()
        )))
    );
    // the field is read before the operator is looked at
    let short_first = table(&["id,name,age", "2,Bob", "1,Alice,30"]);
    assert_eq!(
        try_execute_query(query("SELECT id FROM users WHERE age == 1"), &short_first),
        None
    );
    assert_eq!(
        try_execute_query(query("SELECT id FROM users WHERE zip == 1"), &short_first),
        Some(unknown_column("zip"))
    );
}

#[test]
fn try_execute_query_carries_out_what_it_can() {
    assert_eq!(
        try_execute_query(query("SELECT name FROM users WHERE id = 2"), &users()),
        Some(rows(&["name", "Bob"]))
    );
    assert_eq!(
        try_execute_query(query("DELETE FROM users WHERE id = 2"), &users()),
        Some(replace(&["id,name,age", "1,Alice,30"]))
    );
}

#[test]
fn header_with_a_repeated_name() {
    let t = table(&["a,b,a", "1,2,3", "4,5,6"]);
    assert_eq!(run("SELECT * FROM t", &t), rows(&["b,a", "2,3", "5,6"]));
    assert_eq!(run("SELECT a FROM t", &t), rows(&["a", "3", "6"]));
    assert_eq!(
        run("UPDATE t SET a = 0 WHERE b = 2", &t),
        replace(&["a,b,a", "1,2,0", "4,5,6"])
    );
    // the new row has a field for each name, which leaves no place for the last ordinal
    assert!(!can_execute(&query("INSERT INTO t (a) VALUES (1)"), &t));
    assert!(!can_execute(&query("INSERT INTO t VALUES (1, 2)"), &t));
    assert_eq!(run("INSERT INTO t (b) VALUES (1)", &t), append(",1"));
}

#[test]
fn header_with_white_space_at_its_end() {
    let t = table(&["id,name \r", "1,Alice"]);
    assert_eq!(
        run("SELECT name FROM t WHERE name = 'Alice'", &t),
        rows(&["name", "Alice"])
    );
    assert_eq!(
        run("DELETE FROM t WHERE name = 'Alice'", &t),
        replace(&["id,name \r"])
    );
}

#[test]
fn statements_on_a_given_schema() {
    let schema = TableSchema::parse("id,name,age");
    let data = strings(&["1,Alice,30", "2,Bob,25"]);
    let select = match query("SELECT name FROM users WHERE age < 30") {
        SQLQuery::Select(q) => q,
        other => panic!("{:?}", other),
    };
    assert_eq!(execute_select(&select, &schema, &data), Ok(strings(&["name", "Bob"])));
    let insert = match query("INSERT INTO users (name) VALUES ('Carol')") {
        SQLQuery::Insert(q) => q,
        other => panic!("{:?}", other),
    };
    assert_eq!(execute_insert(&insert, &schema), Ok(",Carol,".to_string()));
    let update = match query("UPDATE users SET name = 'A' WHERE id = 1") {
        SQLQuery::Update(q) => q,
        other => panic!("{:?}", other),
    };
    assert_eq!(
        execute_update(&update, &schema, &data),
        Ok(strings(&["1,A,30", "2,Bob,25"]))
    );
    let delete = match query("DELETE FROM users WHERE id = 1") {
        SQLQuery::Delete(q) => q,
        other => panic!("{:?}", other),
    };
    assert_eq!(execute_delete(&delete, &schema, &data), Ok(strings(&["2,Bob,25"])));
}

#[test]
fn selected_indices_and_columns() {
    let schema = TableSchema::parse("id,name,age");
    let select = |text: &str| match query(text) {
        SQLQuery::Select(q) => q,
        other => panic!("{:?}", other),
    };
    assert_eq!(get_selected_indices(&select("SELECT * FROM t"), &schema), Ok(vec![0, 1, 2]));
    assert_eq!(
        get_selected_indices(&select("SELECT age, id, age FROM t"), &schema),
        Ok(vec![2, 0, 2])
    );
    assert_eq!(
        get_selected_indices(&select("SELECT age, zip, town FROM t"), &schema),
        Err(SQLError::InvalidColumn(
            "Column 'zip' does not exist".to_string()
        ))
    );
    assert_eq!(resolve_columns(&strings(&["name", "id"]), &schema), Ok(vec![1, 0]));
    assert_eq!(resolve_columns(&strings(&[]), &schema), Ok(vec![]));
    assert_eq!(
        project_row(&strings(&["1", "Alice", "30"]), &vec![2, 2, 0]),
        strings(&["30", "30", "1"])
    );
}

#[test]
fn sort_and_output_of_results() {
    let schema = TableSchema::parse("id,name,age");
    let order = |text: &str| match query(text) {
        SQLQuery::Select(q) => q.order_by.unwrap(),
        other => panic!("{:?}", other),
    };
    let build = || -> Vec<Vec<String>> {
        vec![strings(&["30", "Alice"]), strings(&["25", "Bob"]), strings(&["41", "Carol"])]
    };
    let selected = vec![2, 1];
    let mut results = build();
    assert_eq!(
        sort_results(&mut results, &selected, &schema, &order("SELECT * FROM t ORDER BY age")),
        Ok(())
    );
    assert_eq!(
        results,
        vec![strings(&["25", "Bob"]), strings(&["30", "Alice"]), strings(&["41", "Carol"])]
    );
    let mut results = build();
    assert_eq!(
        sort_results(
            &mut results,
            &selected,
            &schema,
            &order("SELECT * FROM t ORDER BY name DESC")
        ),
        Ok(())
    );
    assert_eq!(
        results,
        vec![strings(&["41", "Carol"]), strings(&["25", "Bob"]), strings(&["30", "Alice"])]
    );
    let mut results = build();
    assert_eq!(
        sort_results(&mut results, &selected, &schema, &order("SELECT * FROM t ORDER BY id")),
        Err(SQLError::InvalidColumn(
            "Column 'id' is not in the selected columns".to_string()
        ))
    );
    assert_eq!(
        output_results(&selected, &schema, &build()),
        strings(&["age,name", "30,Alice", "25,Bob", "41,Carol"])
    );
    assert_eq!(output_results(&vec![], &schema, &vec![]), strings(&[""]));
}
