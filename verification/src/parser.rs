//! The parser: tokens to a statement tree.
//!
//! The grammar is given as specification functions over the tokens and a cursor
//! position. Each returns what it parsed together with the position after it, or
//! the syntax error of the first expectation that the tokens do not meet. The
//! executable parsers walk the tokens once, with one cursor that only moves
//! forward, and return exactly that.
//!
//! ```text
//! SELECT (col|*)(,(col|*))* FROM table [WHERE col op literal] [ORDER BY col [ASC|DESC]] [;]
//! INSERT INTO table [(col(,col)*)] VALUES (lit(,lit)*) [;]
//! UPDATE table SET col=lit(,col=lit)* [WHERE col op literal] [;]
//! DELETE FROM table [WHERE col op literal] [;]
//! ```

use vstd::prelude::*;
use crate::ast::{
    expr_view, Assignment, AssignmentView, DeleteQuery, DeleteView, ExprView, Expression, InsertQuery,
    InsertView, OrderBy, OrderByView, QueryView, SQLQuery, SelectQuery, SelectView, UpdateQuery,
    UpdateView,
};
use crate::errors::{syntax_error, ErrorView, SQLError};
use crate::lexer::{Token, TokenView};
use crate::text::text_eq;

verus! {

/// What a parser returns: the value and the position after it, or an error.
pub type Parsed<T> = Result<(T, int), ErrorView>;

/// The token at `pos`, if there is one.
pub open spec fn peek(tokens: Seq<TokenView>, pos: int) -> Option<TokenView> {
    if 0 <= pos < tokens.len() {
        Some(tokens[pos])
    } else {
        None
    }
}

/// Whether the keyword `word` stands at `pos`.
pub open spec fn at_keyword(tokens: Seq<TokenView>, pos: int, word: Seq<char>) -> bool {
    peek(tokens, pos) == Some(TokenView::Keyword(word))
}

/// The name of the identifier at `pos`, if one stands there.
pub open spec fn identifier_at(tokens: Seq<TokenView>, pos: int) -> Option<Seq<char>> {
    match peek(tokens, pos) {
        Some(TokenView::Identifier(name)) => Some(name),
        _ => None,
    }
}

/// The text of the literal at `pos`, if one stands there.
pub open spec fn literal_at(tokens: Seq<TokenView>, pos: int) -> Option<Seq<char>> {
    match peek(tokens, pos) {
        Some(TokenView::Literal(text)) => Some(text),
        _ => None,
    }
}

/// The operator at `pos`, if one stands there.
pub open spec fn operator_at(tokens: Seq<TokenView>, pos: int) -> Option<Seq<char>> {
    match peek(tokens, pos) {
        Some(TokenView::Operator(op)) => Some(op),
        _ => None,
    }
}

/// Whether a statement may end at `pos`: at a semicolon or at the end token.
pub open spec fn at_end(tokens: Seq<TokenView>, pos: int) -> bool {
    peek(tokens, pos) == Some(TokenView::Semicolon) || peek(tokens, pos) == Some(TokenView::EOF)
}

/// `items`, then what `rest` parsed; the error of `rest` if it is one.
pub open spec fn prefixed<T>(items: Seq<T>, rest: Parsed<Seq<T>>) -> Parsed<Seq<T>> {
    match rest {
        Ok((more, next)) => Ok((items + more, next)),
        Err(e) => Err(e),
    }
}

/// `(col|*)(,(col|*))*`: the names in order, `*` as the name `*`. Ends after the
/// last item that no comma follows.
pub open spec fn select_list(tokens: Seq<TokenView>, pos: int) -> Parsed<Seq<Seq<char>>>
    decreases tokens.len() - pos,
{
    let item = match peek(tokens, pos) {
        Some(TokenView::Asterisk) => Some("*"@),
        Some(TokenView::Identifier(name)) => Some(name),
        _ => None,
    };
    match item {
        Some(name) => {
            if peek(tokens, pos + 1) == Some(TokenView::Comma) {
                prefixed(seq![name], select_list(tokens, pos + 2))
            } else {
                Ok((seq![name], pos + 1))
            }
        },
        None => Err(syntax_error("Expected column name or '*'")),
    }
}

/// `col(,col)*` before a closing parenthesis, at which it ends.
pub open spec fn column_list(tokens: Seq<TokenView>, pos: int) -> Parsed<Seq<Seq<char>>>
    decreases tokens.len() - pos,
{
    match identifier_at(tokens, pos) {
        Some(name) => match peek(tokens, pos + 1) {
            Some(TokenView::Comma) => prefixed(seq![name], column_list(tokens, pos + 2)),
            Some(TokenView::CloseParen) => Ok((seq![name], pos + 1)),
            _ => Err(syntax_error("Expected ',' or ')' in column list")),
        },
        None => Err(syntax_error("Expected column name in column list")),
    }
}

/// `lit(,lit)*` before a closing parenthesis, at which it ends.
pub open spec fn values_list(tokens: Seq<TokenView>, pos: int) -> Parsed<Seq<Seq<char>>>
    decreases tokens.len() - pos,
{
    match literal_at(tokens, pos) {
        Some(text) => match peek(tokens, pos + 1) {
            Some(TokenView::Comma) => prefixed(seq![text], values_list(tokens, pos + 2)),
            Some(TokenView::CloseParen) => Ok((seq![text], pos + 1)),
            _ => Err(syntax_error("Expected ',' or ')' in values list")),
        },
        None => Err(syntax_error("Expected literal value in values list")),
    }
}

/// One `col=lit`.
pub open spec fn assignment(tokens: Seq<TokenView>, pos: int) -> Parsed<AssignmentView> {
    match identifier_at(tokens, pos) {
        Some(column) => {
            if peek(tokens, pos + 1) == Some(TokenView::Operator("="@)) {
                match literal_at(tokens, pos + 2) {
                    Some(value) => Ok((AssignmentView { column, value }, pos + 3)),
                    None => Err(syntax_error("Expected literal value in assignment")),
                }
            } else {
                Err(syntax_error("Expected '=' in assignment"))
            }
        },
        None => Err(syntax_error("Expected column name in assignment")),
    }
}

/// `col=lit(,col=lit)*`. Ends after the last assignment that no comma follows.
pub open spec fn assignments(tokens: Seq<TokenView>, pos: int) -> Parsed<Seq<AssignmentView>>
    decreases tokens.len() - pos,
{
    match assignment(tokens, pos) {
        Ok((first, next)) => {
            if peek(tokens, next) == Some(TokenView::Comma) {
                prefixed(seq![first], assignments(tokens, next + 1))
            } else {
                Ok((seq![first], next))
            }
        },
        Err(e) => Err(e),
    }
}

/// `col [ASC|DESC]`: ascending unless `DESC` follows.
pub open spec fn order_by(tokens: Seq<TokenView>, pos: int) -> Parsed<OrderByView> {
    match identifier_at(tokens, pos) {
        Some(column) => {
            if at_keyword(tokens, pos + 1, "ASC"@) {
                Ok((OrderByView { column, ascending: true }, pos + 2))
            } else if at_keyword(tokens, pos + 1, "DESC"@) {
                Ok((OrderByView { column, ascending: false }, pos + 2))
            } else {
                Ok((OrderByView { column, ascending: true }, pos + 1))
            }
        },
        None => Err(syntax_error("Expected column name in ORDER BY")),
    }
}

/// `col op literal`: one comparison of a column with a literal.
pub open spec fn expression(tokens: Seq<TokenView>, pos: int) -> Parsed<ExprView> {
    match identifier_at(tokens, pos) {
        Some(name) => match operator_at(tokens, pos + 1) {
            Some(op) => match literal_at(tokens, pos + 2) {
                Some(text) => Ok(
                    (
                        ExprView::BinaryOp {
                            left: Box::new(ExprView::Column(name)),
                            op,
                            right: Box::new(ExprView::Literal(text)),
                        },
                        pos + 3,
                    ),
                ),
                None => Err(syntax_error("Expected literal value in expression")),
            },
            None => Err(syntax_error("Expected operator in expression")),
        },
        None => Err(syntax_error("Expected column name in expression")),
    }
}

/// `[WHERE col op literal]`: nothing is consumed unless `WHERE` stands at `pos`.
pub open spec fn where_clause(tokens: Seq<TokenView>, pos: int) -> Parsed<Option<ExprView>> {
    if at_keyword(tokens, pos, "WHERE"@) {
        match expression(tokens, pos + 1) {
            Ok((e, next)) => Ok((Some(e), next)),
            Err(e) => Err(e),
        }
    } else {
        Ok((None, pos))
    }
}

/// `[ORDER BY col [ASC|DESC]]`: nothing is consumed unless `ORDER` stands at `pos`.
pub open spec fn order_clause(tokens: Seq<TokenView>, pos: int) -> Parsed<Option<OrderByView>> {
    if at_keyword(tokens, pos, "ORDER"@) {
        if at_keyword(tokens, pos + 1, "BY"@) {
            match order_by(tokens, pos + 2) {
                Ok((o, next)) => Ok((Some(o), next)),
                Err(e) => Err(e),
            }
        } else {
            Err(syntax_error("Expected 'BY' after 'ORDER'"))
        }
    } else {
        Ok((None, pos))
    }
}

/// `[(col(,col)*)]`: no columns unless an opening parenthesis stands at `pos`.
pub open spec fn column_clause(tokens: Seq<TokenView>, pos: int) -> Parsed<Seq<Seq<char>>> {
    if peek(tokens, pos) == Some(TokenView::OpenParen) {
        match column_list(tokens, pos + 1) {
            Ok((columns, next)) => {
                if peek(tokens, next) == Some(TokenView::CloseParen) {
                    Ok((columns, next + 1))
                } else {
                    Err(syntax_error("Expected ')' after column list"))
                }
            },
            Err(e) => Err(e),
        }
    } else {
        Ok((Seq::empty(), pos))
    }
}

/// The SELECT statement whose keyword stands at `pos`.
pub open spec fn select_statement(tokens: Seq<TokenView>, pos: int) -> Result<
    QueryView,
    ErrorView,
> {
    match select_list(tokens, pos + 1) {
        Ok((columns, from)) => {
            if !at_keyword(tokens, from, "FROM"@) {
                Err(syntax_error("Expected 'FROM' keyword"))
            } else {
                match identifier_at(tokens, from + 1) {
                    Some(table) => match where_clause(tokens, from + 2) {
                        Ok((where_clause, after_where)) => match order_clause(
                            tokens,
                            after_where,
                        ) {
                            Ok((order_by, end)) => {
                                if at_end(tokens, end) {
                                    Ok(
                                        QueryView::Select(
                                            SelectView { columns, table, where_clause, order_by },
                                        ),
                                    )
                                } else {
                                    Err(syntax_error("Expected ';' at the end of query"))
                                }
                            },
                            Err(e) => Err(e),
                        },
                        Err(e) => Err(e),
                    },
                    None => Err(syntax_error("Expected table name")),
                }
            }
        },
        Err(e) => Err(e),
    }
}

/// The INSERT statement whose keyword stands at `pos`.
pub open spec fn insert_statement(tokens: Seq<TokenView>, pos: int) -> Result<
    QueryView,
    ErrorView,
> {
    if !at_keyword(tokens, pos + 1, "INTO"@) {
        Err(syntax_error("Expected 'INTO' keyword"))
    } else {
        match identifier_at(tokens, pos + 2) {
            Some(table) => match column_clause(tokens, pos + 3) {
                Ok((columns, values)) => {
                    if !at_keyword(tokens, values, "VALUES"@) {
                        Err(syntax_error("Expected 'VALUES' keyword"))
                    } else if peek(tokens, values + 1) != Some(TokenView::OpenParen) {
                        Err(syntax_error("Expected '(' before values list"))
                    } else {
                        match values_list(tokens, values + 2) {
                            Ok((values, close)) => {
                                if peek(tokens, close) != Some(TokenView::CloseParen) {
                                    Err(syntax_error("Expected ')' after values list"))
                                } else if at_end(tokens, close + 1) {
                                    Ok(QueryView::Insert(InsertView { table, columns, values }))
                                } else {
                                    Err(syntax_error("Expected ';' at the end of the query"))
                                }
                            },
                            Err(e) => Err(e),
                        }
                    }
                },
                Err(e) => Err(e),
            },
            None => Err(syntax_error("Expected table name after 'INTO'")),
        }
    }
}

/// The UPDATE statement whose keyword stands at `pos`.
pub open spec fn update_statement(tokens: Seq<TokenView>, pos: int) -> Result<
    QueryView,
    ErrorView,
> {
    match identifier_at(tokens, pos + 1) {
        Some(table) => {
            if !at_keyword(tokens, pos + 2, "SET"@) {
                Err(syntax_error("Expected 'SET' keyword"))
            } else {
                match assignments(tokens, pos + 3) {
                    Ok((assignments, after)) => match where_clause(tokens, after) {
                        Ok((where_clause, end)) => {
                            if at_end(tokens, end) {
                                Ok(
                                    QueryView::Update(
                                        UpdateView { table, assignments, where_clause },
                                    ),
                                )
                            } else {
                                Err(syntax_error("Expected ';' at the end of the query"))
                            }
                        },
                        Err(e) => Err(e),
                    },
                    Err(e) => Err(e),
                }
            }
        },
        None => Err(syntax_error("Expected table name after 'UPDATE'")),
    }
}

/// The DELETE statement whose keyword stands at `pos`.
pub open spec fn delete_statement(tokens: Seq<TokenView>, pos: int) -> Result<
    QueryView,
    ErrorView,
> {
    if !at_keyword(tokens, pos + 1, "FROM"@) {
        Err(syntax_error("Expected 'FROM' keyword after 'DELETE'"))
    } else {
        match identifier_at(tokens, pos + 2) {
            Some(table) => match where_clause(tokens, pos + 3) {
                Ok((where_clause, end)) => {
                    if at_end(tokens, end) {
                        Ok(QueryView::Delete(DeleteView { table, where_clause }))
                    } else {
                        Err(syntax_error("Expected ';' at the end of the query"))
                    }
                },
                Err(e) => Err(e),
            },
            None => Err(syntax_error("Expected table name after 'FROM'")),
        }
    }
}

/// The statement that `tokens` spell: the first token chooses among the four
/// statements. What follows the semicolon is not looked at.
pub open spec fn statement(tokens: Seq<TokenView>) -> Result<QueryView, ErrorView> {
    if at_keyword(tokens, 0, "SELECT"@) {
        select_statement(tokens, 0)
    } else if at_keyword(tokens, 0, "INSERT"@) {
        insert_statement(tokens, 0)
    } else if at_keyword(tokens, 0, "UPDATE"@) {
        update_statement(tokens, 0)
    } else if at_keyword(tokens, 0, "DELETE"@) {
        delete_statement(tokens, 0)
    } else {
        Err(syntax_error("Expected a SQL command"))
    }
}

/// Whether the keyword `word` stands at the cursor.
fn keyword_at(tokens: &[Token], index: usize, word: &str) -> (r: bool)
    ensures
        r == at_keyword(tokens.deep_view(), index as int, word@),
        r ==> index < tokens.len(),
{
    match tokens.get(index) {
        Some(Token::Keyword(k)) => text_eq(k.as_str(), word),
        _ => false,
    }
}

/// Whether a comma stands at the cursor.
fn comma_at(tokens: &[Token], index: usize) -> (r: bool)
    ensures
        r == (peek(tokens.deep_view(), index as int) == Some(TokenView::Comma)),
{
    match tokens.get(index) {
        Some(Token::Comma) => true,
        _ => false,
    }
}

/// Whether an opening parenthesis stands at the cursor.
fn open_paren_at(tokens: &[Token], index: usize) -> (r: bool)
    ensures
        r == (peek(tokens.deep_view(), index as int) == Some(TokenView::OpenParen)),
{
    match tokens.get(index) {
        Some(Token::OpenParen) => true,
        _ => false,
    }
}

/// Whether a closing parenthesis stands at the cursor.
fn close_paren_at(tokens: &[Token], index: usize) -> (r: bool)
    ensures
        r == (peek(tokens.deep_view(), index as int) == Some(TokenView::CloseParen)),
{
    match tokens.get(index) {
        Some(Token::CloseParen) => true,
        _ => false,
    }
}

/// Whether a statement may end at the cursor.
fn end_at(tokens: &[Token], index: usize) -> (r: bool)
    ensures
        r == at_end(tokens.deep_view(), index as int),
{
    match tokens.get(index) {
        Some(Token::Semicolon) => true,
        Some(Token::EOF) => true,
        _ => false,
    }
}

/// The identifier at the cursor, which moves past it.
fn take_identifier(tokens: &[Token], index: &mut usize) -> (r: Option<String>)
    ensures
        match identifier_at(tokens.deep_view(), *old(index) as int) {
            Some(name) => r matches Some(s) && s@ == name && *final(index) == *old(index) + 1,
            None => r is None && *final(index) == *old(index),
        },
{
    match tokens.get(*index) {
        Some(Token::Identifier(name)) => {
            *index += 1;
            Some(name.clone())
        },
        _ => None,
    }
}

/// The literal at the cursor, which moves past it.
fn take_literal(tokens: &[Token], index: &mut usize) -> (r: Option<String>)
    ensures
        match literal_at(tokens.deep_view(), *old(index) as int) {
            Some(text) => r matches Some(s) && s@ == text && *final(index) == *old(index) + 1,
            None => r is None && *final(index) == *old(index),
        },
{
    match tokens.get(*index) {
        Some(Token::Literal(text)) => {
            *index += 1;
            Some(text.clone())
        },
        _ => None,
    }
}

/// The operator at the cursor, which moves past it.
fn take_operator(tokens: &[Token], index: &mut usize) -> (r: Option<String>)
    ensures
        match operator_at(tokens.deep_view(), *old(index) as int) {
            Some(op) => r matches Some(s) && s@ == op && *final(index) == *old(index) + 1,
            None => r is None && *final(index) == *old(index),
        },
{
    match tokens.get(*index) {
        Some(Token::Operator(op)) => {
            *index += 1;
            Some(op.clone())
        },
        _ => None,
    }
}

/// Parses `(col|*)(,(col|*))*` at the cursor.
fn parse_select_list(tokens: &[Token], index: &mut usize) -> (r: Result<Vec<String>, SQLError>)
    ensures
        match select_list(tokens.deep_view(), *old(index) as int) {
            Ok((columns, next)) => r matches Ok(v) && v.deep_view() == columns && *final(index)
                == next,
            Err(e) => r matches Err(x) && x@ == e,
        },
        *old(index) <= *final(index),
{
    let mut columns: Vec<String> = Vec::new();
    let ghost ts = tokens.deep_view();
    loop
        invariant
            ts == tokens.deep_view(),
            *old(index) <= *index,
            select_list(ts, *old(index) as int) == prefixed(
                columns.deep_view(),
                select_list(ts, *index as int),
            ),
        decreases tokens.len() - *index,
    {
        let ghost before = columns.deep_view();
        let ghost at = *index as int;
        let name = match tokens.get(*index) {
            Some(Token::Asterisk) => {
                *index += 1;
                "*".to_string()
            },
            Some(Token::Identifier(name)) => {
                *index += 1;
                name.clone()
            },
            _ => {
                return Err(SQLError::syntax("Expected column name or '*'"));
            },
        };
        proof {
            if let Ok((more, next)) = select_list(ts, at + 2) {
                assert(before + (seq![name@] + more) =~= before.push(name@) + more);
            }
        }
        columns.push(name);
        proof {
            assert(columns.deep_view() =~= before.push(name@));
        }
        if comma_at(tokens, *index) {
            *index += 1;
        } else {
            return Ok(columns);
        }
    }
}

/// Parses `col(,col)*` up to the closing parenthesis, where the cursor stops.
fn parse_column_list(tokens: &[Token], index: &mut usize) -> (r: Result<Vec<String>, SQLError>)
    ensures
        match column_list(tokens.deep_view(), *old(index) as int) {
            Ok((columns, next)) => r matches Ok(v) && v.deep_view() == columns && *final(index)
                == next,
            Err(e) => r matches Err(x) && x@ == e,
        },
        *old(index) <= *final(index),
{
    let mut columns: Vec<String> = Vec::new();
    let ghost ts = tokens.deep_view();
    loop
        invariant
            ts == tokens.deep_view(),
            *old(index) <= *index,
            column_list(ts, *old(index) as int) == prefixed(
                columns.deep_view(),
                column_list(ts, *index as int),
            ),
        decreases tokens.len() - *index,
    {
        let ghost before = columns.deep_view();
        let ghost at = *index as int;
        let name = match take_identifier(tokens, index) {
            Some(name) => name,
            None => {
                return Err(SQLError::syntax("Expected column name in column list"));
            },
        };
        proof {
            if let Ok((more, next)) = column_list(ts, at + 2) {
                assert(before + (seq![name@] + more) =~= before.push(name@) + more);
            }
        }
        columns.push(name);
        proof {
            assert(columns.deep_view() =~= before.push(name@));
        }
        if comma_at(tokens, *index) {
            *index += 1;
        } else if close_paren_at(tokens, *index) {
            return Ok(columns);
        } else {
            return Err(SQLError::syntax("Expected ',' or ')' in column list"));
        }
    }
}

/// Parses `lit(,lit)*` up to the closing parenthesis, where the cursor stops.
fn parse_values_list(tokens: &[Token], index: &mut usize) -> (r: Result<Vec<String>, SQLError>)
    ensures
        match values_list(tokens.deep_view(), *old(index) as int) {
            Ok((values, next)) => r matches Ok(v) && v.deep_view() == values && *final(index)
                == next,
            Err(e) => r matches Err(x) && x@ == e,
        },
        *old(index) <= *final(index),
{
    let mut values: Vec<String> = Vec::new();
    let ghost ts = tokens.deep_view();
    loop
        invariant
            ts == tokens.deep_view(),
            *old(index) <= *index,
            values_list(ts, *old(index) as int) == prefixed(
                values.deep_view(),
                values_list(ts, *index as int),
            ),
        decreases tokens.len() - *index,
    {
        let ghost before = values.deep_view();
        let ghost at = *index as int;
        let text = match take_literal(tokens, index) {
            Some(text) => text,
            None => {
                return Err(SQLError::syntax("Expected literal value in values list"));
            },
        };
        proof {
            if let Ok((more, next)) = values_list(ts, at + 2) {
                assert(before + (seq![text@] + more) =~= before.push(text@) + more);
            }
        }
        values.push(text);
        proof {
            assert(values.deep_view() =~= before.push(text@));
        }
        if comma_at(tokens, *index) {
            *index += 1;
        } else if close_paren_at(tokens, *index) {
            return Ok(values);
        } else {
            return Err(SQLError::syntax("Expected ',' or ')' in values list"));
        }
    }
}

/// Parses `col=lit(,col=lit)*` at the cursor.
fn parse_assignments(tokens: &[Token], index: &mut usize) -> (r: Result<
    Vec<Assignment>,
    SQLError,
>)
    ensures
        match assignments(tokens.deep_view(), *old(index) as int) {
            Ok((list, next)) => r matches Ok(v) && v.deep_view() == list && *final(index) == next,
            Err(e) => r matches Err(x) && x@ == e,
        },
        *old(index) <= *final(index),
{
    let mut list: Vec<Assignment> = Vec::new();
    let ghost ts = tokens.deep_view();
    loop
        invariant
            ts == tokens.deep_view(),
            *old(index) <= *index,
            assignments(ts, *old(index) as int) == prefixed(
                list.deep_view(),
                assignments(ts, *index as int),
            ),
        decreases tokens.len() - *index,
    {
        let ghost before = list.deep_view();
        let ghost at = *index as int;
        let column = match take_identifier(tokens, index) {
            Some(name) => name,
            None => {
                return Err(SQLError::syntax("Expected column name in assignment"));
            },
        };
        let assigns = match tokens.get(*index) {
            Some(Token::Operator(op)) => text_eq(op.as_str(), "="),
            _ => false,
        };
        if assigns {
            *index += 1;
        } else {
            return Err(SQLError::syntax("Expected '=' in assignment"));
        }
        let value = match take_literal(tokens, index) {
            Some(text) => text,
            None => {
                return Err(SQLError::syntax("Expected literal value in assignment"));
            },
        };
        let item = Assignment { column, value };
        proof {
            if let Ok((more, next)) = assignments(ts, at + 4) {
                assert(before + (seq![item@] + more) =~= before.push(item@) + more);
            }
        }
        list.push(item);
        proof {
            assert(list.deep_view() =~= before.push(item@));
        }
        if comma_at(tokens, *index) {
            *index += 1;
        } else {
            return Ok(list);
        }
    }
}

/// Parses `col [ASC|DESC]` at the cursor.
fn parse_order_by(tokens: &[Token], index: &mut usize) -> (r: Result<OrderBy, SQLError>)
    ensures
        match order_by(tokens.deep_view(), *old(index) as int) {
            Ok((o, next)) => r matches Ok(v) && v@ == o && *final(index) == next,
            Err(e) => r matches Err(x) && x@ == e,
        },
        *old(index) <= *final(index),
{
    let column = match take_identifier(tokens, index) {
        Some(name) => name,
        None => {
            return Err(SQLError::syntax("Expected column name in ORDER BY"));
        },
    };
    let ascending = if keyword_at(tokens, *index, "ASC") {
        *index += 1;
        true
    } else if keyword_at(tokens, *index, "DESC") {
        *index += 1;
        false
    } else {
        true
    };
    Ok(OrderBy { column, ascending })
}

/// Parses `col op literal` at the cursor.
fn parse_expression(tokens: &[Token], index: &mut usize) -> (r: Result<Expression, SQLError>)
    ensures
        match expression(tokens.deep_view(), *old(index) as int) {
            Ok((e, next)) => r matches Ok(v) && v@ == e && *final(index) == next,
            Err(e) => r matches Err(x) && x@ == e,
        },
        *old(index) <= *final(index),
{
    let left = match take_identifier(tokens, index) {
        Some(name) => Expression::Column(name),
        None => {
            return Err(SQLError::syntax("Expected column name in expression"));
        },
    };
    let op = match take_operator(tokens, index) {
        Some(op) => op,
        None => {
            return Err(SQLError::syntax("Expected operator in expression"));
        },
    };
    let right = match take_literal(tokens, index) {
        Some(text) => Expression::Literal(text),
        None => {
            return Err(SQLError::syntax("Expected literal value in expression"));
        },
    };
    proof {
        reveal_with_fuel(expr_view, 2);
    }
    Ok(Expression::BinaryOp { left: Box::new(left), op, right: Box::new(right) })
}

/// Parses the optional WHERE clause at the cursor.
fn parse_where(tokens: &[Token], index: &mut usize) -> (r: Result<Option<Expression>, SQLError>)
    ensures
        match where_clause(tokens.deep_view(), *old(index) as int) {
            Ok((w, next)) => r matches Ok(v) && v.deep_view() == w && *final(index) == next,
            Err(e) => r matches Err(x) && x@ == e,
        },
        *old(index) <= *final(index),
{
    if keyword_at(tokens, *index, "WHERE") {
        *index += 1;
        match parse_expression(tokens, index) {
            Ok(e) => Ok(Some(e)),
            Err(e) => Err(e),
        }
    } else {
        Ok(None)
    }
}

/// Parses the SELECT statement whose keyword stands at the cursor.
fn parse_select(tokens: &[Token], index: &mut usize) -> (r: Result<SQLQuery, SQLError>)
    requires
        *old(index) < tokens.len(),
    ensures
        match select_statement(tokens.deep_view(), *old(index) as int) {
            Ok(q) => r matches Ok(v) && v@ == q,
            Err(e) => r matches Err(x) && x@ == e,
        },
        *old(index) <= *final(index),
{
    *index += 1;
    let columns = match parse_select_list(tokens, index) {
        Ok(columns) => columns,
        Err(e) => {
            return Err(e);
        },
    };
    if keyword_at(tokens, *index, "FROM") {
        *index += 1;
    } else {
        return Err(SQLError::syntax("Expected 'FROM' keyword"));
    }
    let table = match take_identifier(tokens, index) {
        Some(name) => name,
        None => {
            return Err(SQLError::syntax("Expected table name"));
        },
    };
    let where_clause = match parse_where(tokens, index) {
        Ok(w) => w,
        Err(e) => {
            return Err(e);
        },
    };
    let order_by = if keyword_at(tokens, *index, "ORDER") {
        *index += 1;
        if keyword_at(tokens, *index, "BY") {
            *index += 1;
        } else {
            return Err(SQLError::syntax("Expected 'BY' after 'ORDER'"));
        }
        match parse_order_by(tokens, index) {
            Ok(o) => Some(o),
            Err(e) => {
                return Err(e);
            },
        }
    } else {
        None
    };
    if !end_at(tokens, *index) {
        return Err(SQLError::syntax("Expected ';' at the end of query"));
    }
    Ok(SQLQuery::Select(SelectQuery { columns, table, where_clause, order_by }))
}

/// Parses the INSERT statement whose keyword stands at the cursor.
fn parse_insert(tokens: &[Token], index: &mut usize) -> (r: Result<SQLQuery, SQLError>)
    requires
        *old(index) < tokens.len(),
    ensures
        match insert_statement(tokens.deep_view(), *old(index) as int) {
            Ok(q) => r matches Ok(v) && v@ == q,
            Err(e) => r matches Err(x) && x@ == e,
        },
        *old(index) <= *final(index),
{
    *index += 1;
    if keyword_at(tokens, *index, "INTO") {
        *index += 1;
    } else {
        return Err(SQLError::syntax("Expected 'INTO' keyword"));
    }
    let table = match take_identifier(tokens, index) {
        Some(name) => name,
        None => {
            return Err(SQLError::syntax("Expected table name after 'INTO'"));
        },
    };
    let columns = if open_paren_at(tokens, *index) {
        *index += 1;
        let columns = match parse_column_list(tokens, index) {
            Ok(columns) => columns,
            Err(e) => {
                return Err(e);
            },
        };
        if close_paren_at(tokens, *index) {
            *index += 1;
        } else {
            return Err(SQLError::syntax("Expected ')' after column list"));
        }
        columns
    } else {
        let none: Vec<String> = Vec::new();
        proof {
            assert(none.deep_view() =~= Seq::empty());
        }
        none
    };
    if keyword_at(tokens, *index, "VALUES") {
        *index += 1;
    } else {
        return Err(SQLError::syntax("Expected 'VALUES' keyword"));
    }
    if open_paren_at(tokens, *index) {
        *index += 1;
    } else {
        return Err(SQLError::syntax("Expected '(' before values list"));
    }
    let values = match parse_values_list(tokens, index) {
        Ok(values) => values,
        Err(e) => {
            return Err(e);
        },
    };
    if close_paren_at(tokens, *index) {
        *index += 1;
    } else {
        return Err(SQLError::syntax("Expected ')' after values list"));
    }
    if !end_at(tokens, *index) {
        return Err(SQLError::syntax("Expected ';' at the end of the query"));
    }
    Ok(SQLQuery::Insert(InsertQuery { table, columns, values }))
}

/// Parses the UPDATE statement whose keyword stands at the cursor.
fn parse_update(tokens: &[Token], index: &mut usize) -> (r: Result<SQLQuery, SQLError>)
    requires
        *old(index) < tokens.len(),
    ensures
        match update_statement(tokens.deep_view(), *old(index) as int) {
            Ok(q) => r matches Ok(v) && v@ == q,
            Err(e) => r matches Err(x) && x@ == e,
        },
        *old(index) <= *final(index),
{
    *index += 1;
    let table = match take_identifier(tokens, index) {
        Some(name) => name,
        None => {
            return Err(SQLError::syntax("Expected table name after 'UPDATE'"));
        },
    };
    if keyword_at(tokens, *index, "SET") {
        *index += 1;
    } else {
        return Err(SQLError::syntax("Expected 'SET' keyword"));
    }
    let assignments = match parse_assignments(tokens, index) {
        Ok(list) => list,
        Err(e) => {
            return Err(e);
        },
    };
    let where_clause = match parse_where(tokens, index) {
        Ok(w) => w,
        Err(e) => {
            return Err(e);
        },
    };
    if !end_at(tokens, *index) {
        return Err(SQLError::syntax("Expected ';' at the end of the query"));
    }
    Ok(SQLQuery::Update(UpdateQuery { table, assignments, where_clause }))
}

/// Parses the DELETE statement whose keyword stands at the cursor.
fn parse_delete(tokens: &[Token], index: &mut usize) -> (r: Result<SQLQuery, SQLError>)
    requires
        *old(index) < tokens.len(),
    ensures
        match delete_statement(tokens.deep_view(), *old(index) as int) {
            Ok(q) => r matches Ok(v) && v@ == q,
            Err(e) => r matches Err(x) && x@ == e,
        },
        *old(index) <= *final(index),
{
    *index += 1;
    if keyword_at(tokens, *index, "FROM") {
        *index += 1;
    } else {
        return Err(SQLError::syntax("Expected 'FROM' keyword after 'DELETE'"));
    }
    let table = match take_identifier(tokens, index) {
        Some(name) => name,
        None => {
            return Err(SQLError::syntax("Expected table name after 'FROM'"));
        },
    };
    let where_clause = match parse_where(tokens, index) {
        Ok(w) => w,
        Err(e) => {
            return Err(e);
        },
    };
    if !end_at(tokens, *index) {
        return Err(SQLError::syntax("Expected ';' at the end of the query"));
    }
    Ok(SQLQuery::Delete(DeleteQuery { table, where_clause }))
}

/// Parses one statement. The first token chooses the statement; the first
/// expectation that the tokens do not meet ends the parse with its syntax error.
pub fn parse(tokens: &[Token]) -> (r: Result<SQLQuery, SQLError>)
    ensures
        match statement(tokens.deep_view()) {
            Ok(q) => r matches Ok(v) && v@ == q,
            Err(e) => r matches Err(x) && x@ == e,
        },
{
    let mut index: usize = 0;
    if keyword_at(tokens, 0, "SELECT") {
        parse_select(tokens, &mut index)
    } else if keyword_at(tokens, 0, "INSERT") {
        parse_insert(tokens, &mut index)
    } else if keyword_at(tokens, 0, "UPDATE") {
        parse_update(tokens, &mut index)
    } else if keyword_at(tokens, 0, "DELETE") {
        parse_delete(tokens, &mut index)
    } else {
        Err(SQLError::syntax("Expected a SQL command"))
    }
}

} // verus!
