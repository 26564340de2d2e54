use minisql::errors::SQLError;
use minisql::lexer::{classify, scan, tokenize, word_token, CharClass, Token};

fn keyword(text: &str) -> Token {
    Token::Keyword(text.to_string())
}

fn identifier(text: &str) -> Token {
    Token::Identifier(text.to_string())
}

fn operator(text: &str) -> Token {
    Token::Operator(text.to_string())
}

fn literal(text: &str) -> Token {
    Token::Literal(text.to_string())
}

#[test]
fn tokenize_empty_text_is_end_token() {
    assert_eq!(tokenize(""), Ok(vec![Token::EOF]));
    assert_eq!(tokenize(" \t\r\n "), Ok(vec![Token::EOF]));
}

#[test]
fn tokenize_select_statement() {
    assert_eq!(
        tokenize("SELECT id, name FROM users;"),
        Ok(vec![
            keyword("SELECT"),
            identifier("id"),
            Token::Comma,
            identifier("name"),
            keyword("FROM"),
            identifier("users"),
            Token::Semicolon,
            Token::EOF,
        ])
    );
}

#[test]
fn tokenize_punctuation() {
    assert_eq!(
        tokenize(",;*()"),
        Ok(vec![
            Token::Comma,
            Token::Semicolon,
            Token::Asterisk,
            Token::OpenParen,
            Token::CloseParen,
            Token::EOF,
        ])
    );
}

#[test]
fn tokenize_operators_take_one_following_equals_sign() {
    assert_eq!(
        tokenize("= < > <= >="),
        Ok(vec![
            operator("="),
            operator("<"),
            operator(">"),
            operator("<="),
            operator(">="),
            Token::EOF,
        ])
    );
    assert_eq!(tokenize("=="), Ok(vec![operator("=="), Token::EOF]));
    assert_eq!(
        tokenize("==="),
        Ok(vec![operator("=="), operator("="), Token::EOF])
    );
    assert_eq!(
        tokenize("<>"),
        Ok(vec![operator("<"), operator(">"), Token::EOF])
    );
    assert_eq!(
        tokenize("=>"),
        Ok(vec![operator("="), operator(">"), Token::EOF])
    );
    assert_eq!(tokenize("a<"), Ok(vec![identifier("a"), operator("<"), Token::EOF]));
}

#[test]
fn tokenize_quoted_literal() {
    assert_eq!(
        tokenize("'Alice Smith' ''"),
        Ok(vec![literal("Alice Smith"), literal(""), Token::EOF])
    );
    assert_eq!(
        tokenize("'a,b;c' x"),
        Ok(vec![literal("a,b;c"), identifier("x"), Token::EOF])
    );
}

#[test]
fn tokenize_unclosed_quote_runs_to_the_end() {
    assert_eq!(tokenize("'abc"), Ok(vec![literal("abc"), Token::EOF]));
    assert_eq!(
        tokenize("x = 'abc def ;"),
        Ok(vec![
            identifier("x"),
            operator("="),
            literal("abc def ;"),
            Token::EOF
        ])
    );
    assert_eq!(tokenize("'"), Ok(vec![literal(""), Token::EOF]));
}

#[test]
fn tokenize_numbers_are_literals() {
    assert_eq!(
        tokenize("12345 007"),
        Ok(vec![literal("12345"), literal("007"), Token::EOF])
    );
    assert_eq!(
        tokenize("12ab"),
        Ok(vec![literal("12"), identifier("ab"), Token::EOF])
    );
    assert_eq!(tokenize("age>25"), Ok(vec![
        identifier("age"),
        operator(">"),
        literal("25"),
        Token::EOF
    ]));
}

#[test]
fn tokenize_identifiers_keep_their_case() {
    assert_eq!(
        tokenize("Users user_name1 a_"),
        Ok(vec![
            identifier("Users"),
            identifier("user_name1"),
            identifier("a_"),
            Token::EOF
        ])
    );
}

#[test]
fn tokenize_keywords_in_any_case() {
    assert_eq!(
        tokenize("select From wHeRe"),
        Ok(vec![
            keyword("SELECT"),
            keyword("FROM"),
            keyword("WHERE"),
            Token::EOF
        ])
    );
    let all = "SELECT FROM WHERE ORDER BY ASC DESC INSERT INTO VALUES UPDATE SET DELETE AND OR NOT";
    let expected = || {
        let mut tokens: Vec<Token> = all.split(' ').map(keyword).collect();
        tokens.push(Token::EOF);
        tokens
    };
    assert_eq!(tokenize(all), Ok(expected()));
    assert_eq!(tokenize(&all.to_lowercase()), Ok(expected()));
}

#[test]
fn tokenize_words_close_to_keywords_are_identifiers() {
    assert_eq!(
        tokenize("selects order_by fro"),
        Ok(vec![
            identifier("selects"),
            identifier("order_by"),
            identifier("fro"),
            Token::EOF
        ])
    );
}

#[test]
fn tokenize_letters_beyond_ascii() {
    assert_eq!(tokenize("café"), Ok(vec![identifier("café"), Token::EOF]));
    // a digit of another script continues a word but starts neither a word nor a number
    assert_eq!(tokenize("a\u{0663}"), Ok(vec![identifier("a\u{0663}"), Token::EOF]));
    assert_eq!(
        tokenize("\u{0663}"),
        Err(SQLError::InvalidSyntax(
            "Unexpected character: '\u{0663}'".to_string()
        ))
    );
}

#[test]
fn tokenize_unexpected_character() {
    assert_eq!(
        tokenize("SELECT #"),
        Err(SQLError::InvalidSyntax(
            "Unexpected character: '#'".to_string()
        ))
    );
    assert_eq!(
        tokenize("_x"),
        Err(SQLError::InvalidSyntax(
            "Unexpected character: '_'".to_string()
        ))
    );
    assert_eq!(
        tokenize("a - b ! c"),
        Err(SQLError::InvalidSyntax(
            "Unexpected character: '-'".to_string()
        ))
    );
    assert_eq!(
        tokenize("\"x\""),
        Err(SQLError::InvalidSyntax(
            "Unexpected character: '\"'".to_string()
        ))
    );
}

#[test]
fn tokenize_always_ends_with_the_end_token() {
    for text in ["", "a", "a b", "SELECT * FROM t;", "'open", "1 2 3"] {
        let tokens = tokenize(text).unwrap();
        assert_eq!(tokens.last(), Some(&Token::EOF));
        assert_eq!(tokens.iter().filter(|t| **t == Token::EOF).count(), 1);
    }
}

#[test]
fn classify_tells_letters_from_other_alphanumerics() {
    assert_eq!(
        classify("a1_ é\u{0663}"),
        vec![
            CharClass::Letter,
            CharClass::Numeral,
            CharClass::Other,
            CharClass::Other,
            CharClass::Letter,
            CharClass::Numeral,
        ]
    );
    assert_eq!(classify(""), Vec::<CharClass>::new());
}

#[test]
fn scan_goes_by_the_classes_given() {
    let classes = vec![CharClass::Letter, CharClass::Numeral, CharClass::Other, CharClass::Letter];
    assert_eq!(
        scan("ab,c", &classes),
        Ok(vec![identifier("ab"), Token::Comma, identifier("c"), Token::EOF])
    );
    // without a letter class nothing starts a word
    let none = vec![CharClass::Other, CharClass::Other];
    assert_eq!(
        scan("ab", &none),
        Err(SQLError::InvalidSyntax(
            "Unexpected character: 'a'".to_string()
        ))
    );
    // every word is an identifier to the scanner
    let word = vec![CharClass::Letter; 6];
    assert_eq!(scan("SELECT", &word), Ok(vec![identifier("SELECT"), Token::EOF]));
}

#[test]
fn word_token_goes_by_the_upper_case_form() {
    assert_eq!(
        word_token("select".to_string(), "SELECT".to_string()),
        keyword("SELECT")
    );
    assert_eq!(
        word_token("users".to_string(), "USERS".to_string()),
        identifier("users")
    );
    assert_eq!(
        word_token("Order".to_string(), "ORDER".to_string()),
        keyword("ORDER")
    );
}
