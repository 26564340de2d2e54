use minisql::ast::{
    Assignment, DeleteQuery, Expression, InsertQuery, OrderBy, SQLQuery, SelectQuery, UpdateQuery,
};
use minisql::errors::SQLError;
use minisql::lexer::{tokenize, Token};
use minisql::parser::parse;

fn parse_text(text: &str) -> Result<SQLQuery, SQLError> {
    parse(&tokenize(text).unwrap())
}

fn syntax_error(message: &str) -> Result<SQLQuery, SQLError> {
    Err(SQLError::InvalidSyntax(message.to_string()))
}

fn strings(items: &[&str]) -> Vec<String> {
    items.iter().map(|s| s.to_string()).collect()
}

fn comparison(column: &str, op: &str, literal: &str) -> Expression {
    Expression::BinaryOp {
        left: Box::new(Expression::Column(column.to_string())),
        op: op.to_string(),
        right: Box::new(Expression::Literal(literal.to_string())),
    }
}

#[test]
fn test_parse_select_simple() {
    let query = "SELECT id, name FROM users;";
    let tokens = tokenize(query).unwrap();
    let parsed_query = parse(&tokens).unwrap();

    if let SQLQuery::Select(select_query) = parsed_query {
        assert_eq!(select_query.columns, vec!["id", "name"]);
        assert_eq!(select_query.table, "users");
        assert!(select_query.where_clause.is_none());
        assert!(select_query.order_by.is_none());
    } else {
        panic!("Expected SELECT query");
    }
}

#[test]
fn test_parse_select_with_where() {
    let query = "SELECT * FROM customers WHERE age > 30;";
    let tokens = tokenize(query).unwrap();
    let parsed_query = parse(&tokens).unwrap();

    if let SQLQuery::Select(select_query) = parsed_query {
        assert_eq!(select_query.columns, vec!["*"]);
        assert_eq!(select_query.table, "customers");
        assert!(select_query.where_clause.is_some());
    } else {
        panic!("Expected SELECT query");
    }
}

#[test]
fn parse_select_with_every_clause() {
    assert_eq!(
        parse_text("SELECT name,age FROM users WHERE age>25 ORDER BY age DESC;"),
        Ok(SQLQuery::Select(SelectQuery {
            columns: strings(&["name", "age"]),
            table: "users".to_string(),
            where_clause: Some(comparison("age", ">", "25")),
            order_by: Some(OrderBy {
                column: "age".to_string(),
                ascending: false
            }),
        }))
    );
}

#[test]
fn parse_select_order_by_defaults_to_ascending() {
    for text in [
        "SELECT * FROM t ORDER BY a",
        "SELECT * FROM t ORDER BY a ASC",
        "select * from t order by a asc;",
    ] {
        assert_eq!(
            parse_text(text),
            Ok(SQLQuery::Select(SelectQuery {
                columns: strings(&["*"]),
                table: "t".to_string(),
                where_clause: None,
                order_by: Some(OrderBy {
                    column: "a".to_string(),
                    ascending: true
                }),
            }))
        );
    }
}

#[test]
fn parse_select_list_may_mix_names_and_asterisks() {
    assert_eq!(
        parse_text("SELECT *, a, * FROM t"),
        Ok(SQLQuery::Select(SelectQuery {
            columns: strings(&["*", "a", "*"]),
            table: "t".to_string(),
            where_clause: None,
            order_by: None,
        }))
    );
}

#[test]
fn parse_semicolon_is_optional_and_ends_the_statement() {
    let expected = || {
        Ok(SQLQuery::Delete(DeleteQuery {
            table: "t".to_string(),
            where_clause: None,
        }))
    };
    assert_eq!(parse_text("DELETE FROM t"), expected());
    assert_eq!(parse_text("DELETE FROM t;"), expected());
    // what follows the semicolon is not looked at
    assert_eq!(parse_text("DELETE FROM t; WHERE ) 12"), expected());
}

#[test]
fn parse_where_takes_any_operator_token() {
    assert_eq!(
        parse_text("DELETE FROM t WHERE a == 'x'"),
        Ok(SQLQuery::Delete(DeleteQuery {
            table: "t".to_string(),
            where_clause: Some(comparison("a", "==", "x")),
        }))
    );
}

#[test]
fn parse_insert_with_column_list() {
    assert_eq!(
        parse_text("INSERT INTO users (id,name) VALUES (3,'Carol');"),
        Ok(SQLQuery::Insert(InsertQuery {
            table: "users".to_string(),
            columns: strings(&["id", "name"]),
            values: strings(&["3", "Carol"]),
        }))
    );
}

#[test]
fn parse_insert_without_column_list() {
    assert_eq!(
        parse_text("insert into users values ('a', 2, '')"),
        Ok(SQLQuery::Insert(InsertQuery {
            table: "users".to_string(),
            columns: strings(&[]),
            values: strings(&["a", "2", ""]),
        }))
    );
}

#[test]
fn parse_update_with_assignments_and_where() {
    assert_eq!(
        parse_text("UPDATE users SET name='Bobby', age=26 WHERE id=2;"),
        Ok(SQLQuery::Update(UpdateQuery {
            table: "users".to_string(),
            assignments: vec![
                Assignment {
                    column: "name".to_string(),
                    value: "Bobby".to_string()
                },
                Assignment {
                    column: "age".to_string(),
                    value: "26".to_string()
                },
            ],
            where_clause: Some(comparison("id", "=", "2")),
        }))
    );
}

#[test]
fn parse_update_without_where() {
    assert_eq!(
        parse_text("UPDATE t SET a = 1"),
        Ok(SQLQuery::Update(UpdateQuery {
            table: "t".to_string(),
            assignments: vec![Assignment {
                column: "a".to_string(),
                value: "1".to_string()
            }],
            where_clause: None,
        }))
    );
}

#[test]
fn parse_delete_with_where() {
    assert_eq!(
        parse_text("DELETE FROM users WHERE id=2;"),
        Ok(SQLQuery::Delete(DeleteQuery {
            table: "users".to_string(),
            where_clause: Some(comparison("id", "=", "2")),
        }))
    );
}

#[test]
fn parse_needs_a_leading_statement_keyword() {
    assert_eq!(parse_text(""), syntax_error("Expected a SQL command"));
    assert_eq!(parse_text("users"), syntax_error("Expected a SQL command"));
    assert_eq!(parse_text("FROM users"), syntax_error("Expected a SQL command"));
    assert_eq!(parse_text("; SELECT * FROM t"), syntax_error("Expected a SQL command"));
    assert_eq!(parse(&[]), syntax_error("Expected a SQL command"));
}

#[test]
fn parse_select_errors() {
    assert_eq!(parse_text("SELECT"), syntax_error("Expected column name or '*'"));
    assert_eq!(parse_text("SELECT FROM t"), syntax_error("Expected column name or '*'"));
    assert_eq!(parse_text("SELECT a, FROM t"), syntax_error("Expected column name or '*'"));
    assert_eq!(parse_text("SELECT 1 FROM t"), syntax_error("Expected column name or '*'"));
    assert_eq!(parse_text("SELECT a"), syntax_error("Expected 'FROM' keyword"));
    assert_eq!(parse_text("SELECT a b FROM t"), syntax_error("Expected 'FROM' keyword"));
    assert_eq!(parse_text("SELECT a FROM"), syntax_error("Expected table name"));
    assert_eq!(parse_text("SELECT a FROM 'users'"), syntax_error("Expected table name"));
    assert_eq!(parse_text("SELECT a FROM select"), syntax_error("Expected table name"));
    assert_eq!(
        parse_text("SELECT a FROM t ORDER a"),
        syntax_error("Expected 'BY' after 'ORDER'")
    );
    assert_eq!(
        parse_text("SELECT a FROM t ORDER BY"),
        syntax_error("Expected column name in ORDER BY")
    );
    assert_eq!(
        parse_text("SELECT a FROM t ORDER BY 1"),
        syntax_error("Expected column name in ORDER BY")
    );
    assert_eq!(
        parse_text("SELECT a FROM t x"),
        syntax_error("Expected ';' at the end of query")
    );
    assert_eq!(
        parse_text("SELECT a FROM t ORDER BY a DESC b"),
        syntax_error("Expected ';' at the end of query")
    );
    assert_eq!(
        parse_text("SELECT a FROM t ORDER BY a WHERE a = 1"),
        syntax_error("Expected ';' at the end of query")
    );
}

#[test]
fn parse_where_errors() {
    assert_eq!(
        parse_text("SELECT a FROM t WHERE"),
        syntax_error("Expected column name in expression")
    );
    assert_eq!(
        parse_text("SELECT a FROM t WHERE 1 = a"),
        syntax_error("Expected column name in expression")
    );
    assert_eq!(
        parse_text("SELECT a FROM t WHERE a"),
        syntax_error("Expected operator in expression")
    );
    assert_eq!(
        parse_text("SELECT a FROM t WHERE a b"),
        syntax_error("Expected operator in expression")
    );
    assert_eq!(
        parse_text("SELECT a FROM t WHERE a ="),
        syntax_error("Expected literal value in expression")
    );
    assert_eq!(
        parse_text("SELECT a FROM t WHERE a = b"),
        syntax_error("Expected literal value in expression")
    );
    assert_eq!(
        parse_text("SELECT a FROM t WHERE a < > 1"),
        syntax_error("Expected literal value in expression")
    );
}

#[test]
fn parse_leaves_and_and_or_unused() {
    assert_eq!(
        parse_text("SELECT a FROM t WHERE a = 1 AND b = 2"),
        syntax_error("Expected ';' at the end of query")
    );
    assert_eq!(
        parse_text("DELETE FROM t WHERE a = 1 OR b = 2"),
        syntax_error("Expected ';' at the end of the query")
    );
    assert_eq!(
        parse_text("UPDATE t SET a = 1 WHERE NOT a = 1"),
        syntax_error("Expected column name in expression")
    );
}

#[test]
fn parse_insert_errors() {
    assert_eq!(parse_text("INSERT"), syntax_error("Expected 'INTO' keyword"));
    assert_eq!(parse_text("INSERT users"), syntax_error("Expected 'INTO' keyword"));
    assert_eq!(
        parse_text("INSERT INTO"),
        syntax_error("Expected table name after 'INTO'")
    );
    assert_eq!(
        parse_text("INSERT INTO (a) VALUES (1)"),
        syntax_error("Expected table name after 'INTO'")
    );
    assert_eq!(
        parse_text("INSERT INTO t ()"),
        syntax_error("Expected column name in column list")
    );
    assert_eq!(
        parse_text("INSERT INTO t (a,) VALUES (1)"),
        syntax_error("Expected column name in column list")
    );
    assert_eq!(
        parse_text("INSERT INTO t (a b) VALUES (1)"),
        syntax_error("Expected ',' or ')' in column list")
    );
    assert_eq!(
        parse_text("INSERT INTO t (a"),
        syntax_error("Expected ',' or ')' in column list")
    );
    assert_eq!(parse_text("INSERT INTO t"), syntax_error("Expected 'VALUES' keyword"));
    assert_eq!(
        parse_text("INSERT INTO t (a) (1)"),
        syntax_error("Expected 'VALUES' keyword")
    );
    assert_eq!(
        parse_text("INSERT INTO t VALUES 1"),
        syntax_error("Expected '(' before values list")
    );
    assert_eq!(
        parse_text("INSERT INTO t VALUES ()"),
        syntax_error("Expected literal value in values list")
    );
    assert_eq!(
        parse_text("INSERT INTO t VALUES (a)"),
        syntax_error("Expected literal value in values list")
    );
    assert_eq!(
        parse_text("INSERT INTO t VALUES (1,)"),
        syntax_error("Expected literal value in values list")
    );
    assert_eq!(
        parse_text("INSERT INTO t VALUES (1 2)"),
        syntax_error("Expected ',' or ')' in values list")
    );
    assert_eq!(
        parse_text("INSERT INTO t VALUES (1"),
        syntax_error("Expected ',' or ')' in values list")
    );
    assert_eq!(
        parse_text("INSERT INTO t VALUES (1) x"),
        syntax_error("Expected ';' at the end of the query")
    );
}

#[test]
fn parse_update_errors() {
    assert_eq!(
        parse_text("UPDATE"),
        syntax_error("Expected table name after 'UPDATE'")
    );
    assert_eq!(
        parse_text("UPDATE SET a = 1"),
        syntax_error("Expected table name after 'UPDATE'")
    );
    assert_eq!(parse_text("UPDATE t"), syntax_error("Expected 'SET' keyword"));
    assert_eq!(parse_text("UPDATE t a = 1"), syntax_error("Expected 'SET' keyword"));
    assert_eq!(
        parse_text("UPDATE t SET"),
        syntax_error("Expected column name in assignment")
    );
    assert_eq!(
        parse_text("UPDATE t SET a = 1,"),
        syntax_error("Expected column name in assignment")
    );
    assert_eq!(
        parse_text("UPDATE t SET a"),
        syntax_error("Expected '=' in assignment")
    );
    assert_eq!(
        parse_text("UPDATE t SET a < 1"),
        syntax_error("Expected '=' in assignment")
    );
    assert_eq!(
        parse_text("UPDATE t SET a == 1"),
        syntax_error("Expected '=' in assignment")
    );
    assert_eq!(
        parse_text("UPDATE t SET a ="),
        syntax_error("Expected literal value in assignment")
    );
    assert_eq!(
        parse_text("UPDATE t SET a = b"),
        syntax_error("Expected literal value in assignment")
    );
    assert_eq!(
        parse_text("UPDATE t SET a = 1 b = 2"),
        syntax_error("Expected ';' at the end of the query")
    );
}

#[test]
fn parse_delete_errors() {
    assert_eq!(
        parse_text("DELETE"),
        syntax_error("Expected 'FROM' keyword after 'DELETE'")
    );
    assert_eq!(
        parse_text("DELETE t"),
        syntax_error("Expected 'FROM' keyword after 'DELETE'")
    );
    assert_eq!(
        parse_text("DELETE FROM"),
        syntax_error("Expected table name after 'FROM'")
    );
    assert_eq!(
        parse_text("DELETE FROM 1"),
        syntax_error("Expected table name after 'FROM'")
    );
    assert_eq!(
        parse_text("DELETE FROM t ORDER BY a"),
        syntax_error("Expected ';' at the end of the query")
    );
}

#[test]
fn parse_tokens_without_end_token() {
    // the tokens need not come from the tokenizer
    let tokens = vec![
        Token::Keyword("DELETE".to_string()),
        Token::Keyword("FROM".to_string()),
        Token::Identifier("t".to_string()),
    ];
    assert_eq!(
        parse(&tokens),
        syntax_error("Expected ';' at the end of the query")
    );
    let tokens = vec![
        Token::Keyword("delete".to_string()),
        Token::Keyword("FROM".to_string()),
        Token::Identifier("t".to_string()),
        Token::EOF,
    ];
    assert_eq!(parse(&tokens), syntax_error("Expected a SQL command"));
}

#[test]
fn table_names_the_table_of_each_statement() {
    assert_eq!(parse_text("SELECT * FROM a").unwrap().table(), "a");
    assert_eq!(parse_text("INSERT INTO b VALUES (1)").unwrap().table(), "b");
    assert_eq!(parse_text("UPDATE c SET x = 1").unwrap().table(), "c");
    assert_eq!(parse_text("DELETE FROM d").unwrap().table(), "d");
}
