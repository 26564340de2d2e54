//! The WHERE clause: one comparison between a column of the row at hand and a
//! literal, both taken as text.

use vstd::prelude::*;
use crate::ast::{expr_view, ExprView, Expression};
use crate::data::{ordinal, TableSchema};
use crate::errors::{syntax_error, unknown_column, ErrorView, SQLError};
use crate::text::{precedes, text_eq, text_precedes};

verus! {

/// The value of an operand in a row: a literal is its text, a column is the
/// field at its ordinal.
pub open spec fn value_of(expr: ExprView, names: Seq<Seq<char>>, row: Seq<Seq<char>>) -> Result<
    Seq<char>,
    ErrorView,
> {
    match expr {
        ExprView::Literal(text) => Ok(text),
        ExprView::Column(name) => match ordinal(names, name) {
            Some(i) => Ok(row[i]),
            None => Err(unknown_column(name)),
        },
        ExprView::BinaryOp { .. } => Err(syntax_error("Unsupported expression")),
    }
}

/// Whether the row has the field that the operand reads.
pub open spec fn value_defined(expr: ExprView, names: Seq<Seq<char>>, row: Seq<Seq<char>>)
    -> bool {
    expr matches ExprView::Column(name) ==> (ordinal(names, name) matches Some(i) ==> i
        < row.len())
}

/// Whether the expression is one comparison of a column with a literal, in
/// either order.
pub open spec fn is_comparison(expr: ExprView) -> bool {
    expr matches ExprView::BinaryOp { left, op, right } && ((*left is Column && *right is Literal)
        || (*left is Literal && *right is Column))
}

/// The column that a comparison reads.
pub open spec fn column_of(expr: ExprView) -> Seq<char> {
    match expr {
        ExprView::BinaryOp { left, op, right } => match *left {
            ExprView::Column(name) => name,
            _ => match *right {
                ExprView::Column(name) => name,
                _ => Seq::empty(),
            },
        },
        _ => Seq::empty(),
    }
}

/// Whether `op` is one of `=`, `<`, `>`, `<=`, `>=`, `<>`.
pub open spec fn is_operator(op: Seq<char>) -> bool {
    op == "="@ || op == "<"@ || op == ">"@ || op == "<="@ || op == ">="@ || op == "<>"@
}

/// What the comparison `left op right` says, for one of the six operators.
/// Texts are ordered lexicographically, character by character; numbers get no
/// other treatment.
pub open spec fn compares(op: Seq<char>, left: Seq<char>, right: Seq<char>) -> bool {
    if op == "="@ {
        left == right
    } else if op == "<"@ {
        precedes(left, right)
    } else if op == ">"@ {
        precedes(right, left)
    } else if op == "<="@ {
        !precedes(right, left)
    } else if op == ">="@ {
        !precedes(left, right)
    } else {
        left != right
    }
}

/// The error for an operator that is none of the six.
pub open spec fn unknown_operator(op: Seq<char>) -> ErrorView {
    ErrorView::InvalidSyntax("Unknown operator '"@ + op + "'"@)
}

/// The error for an expression that is no comparison of a column with a
/// literal: one message where an operand is itself a comparison, another for
/// every other shape.
pub open spec fn shape_error(expr: ExprView) -> ErrorView {
    match expr {
        ExprView::BinaryOp { left, op, right } => if *left is BinaryOp || *right is BinaryOp {
            syntax_error("Unsupported expression")
        } else {
            syntax_error("Unsupported expression in WHERE clause")
        },
        _ => syntax_error("Unsupported expression in WHERE clause"),
    }
}

/// Why the predicate cannot be evaluated against a table with these columns,
/// if it cannot: it is no comparison of a column with a literal, or the table
/// lacks the column, or the operator is unknown. No row has a say in this.
pub open spec fn predicate_error(expr: ExprView, names: Seq<Seq<char>>) -> Option<ErrorView> {
    if !is_comparison(expr) {
        Some(shape_error(expr))
    } else if ordinal(names, column_of(expr)) is None {
        Some(unknown_column(column_of(expr)))
    } else if !is_operator(expr->op) {
        Some(unknown_operator(expr->op))
    } else {
        None
    }
}

/// Whether a predicate without error holds of `row`.
pub open spec fn holds(expr: ExprView, names: Seq<Seq<char>>, row: Seq<Seq<char>>) -> bool {
    match expr {
        ExprView::BinaryOp { left, op, right } => match (
            value_of(*left, names, row),
            value_of(*right, names, row),
        ) {
            (Ok(l), Ok(r)) => compares(op, l, r),
            _ => false,
        },
        _ => false,
    }
}

/// What evaluating the predicate against `row` gives.
pub open spec fn evaluate(expr: ExprView, names: Seq<Seq<char>>, row: Seq<Seq<char>>) -> Result<
    bool,
    ErrorView,
> {
    match predicate_error(expr, names) {
        Some(e) => Err(e),
        None => Ok(holds(expr, names, row)),
    }
}

/// Whether the row has the field that evaluating the predicate reads: the one
/// of its column, where the predicate is a comparison and the table has the
/// column.
pub open spec fn evaluate_defined(expr: ExprView, names: Seq<Seq<char>>, row: Seq<Seq<char>>)
    -> bool {
    is_comparison(expr) ==> (ordinal(names, column_of(expr)) matches Some(i) ==> i < row.len())
}

/// The value of an operand in a row.
pub fn get_value(expr: &Expression, schema: &TableSchema, row_values: &[String]) -> (r: Result<
    String,
    SQLError,
>)
    requires
        value_defined(expr@, schema@, row_values.deep_view()),
    ensures
        match value_of(expr@, schema@, row_values.deep_view()) {
            Ok(text) => r matches Ok(s) && s@ == text,
            Err(e) => r matches Err(x) && x@ == e,
        },
{
    match expr {
        Expression::Literal(text) => Ok(text.clone()),
        Expression::Column(name) => match schema.ordinal(name.as_str()) {
            Some(i) => {
                Ok(row_values[i].clone())
            },
            None => Err(SQLError::column_missing(name.as_str())),
        },
        Expression::BinaryOp { .. } => Err(SQLError::syntax("Unsupported expression")),
    }
}

/// What the comparison `left op right` says; a syntax error for an operator
/// that is none of the six.
pub fn compare(op: &str, left: &str, right: &str) -> (r: Result<bool, SQLError>)
    ensures
        match r {
            Ok(b) => is_operator(op@) && b == compares(op@, left@, right@),
            Err(e) => !is_operator(op@) && e@ == unknown_operator(op@),
        },
{
    if text_eq(op, "=") {
        Ok(text_eq(left, right))
    } else if text_eq(op, "<") {
        Ok(text_precedes(left, right))
    } else if text_eq(op, ">") {
        Ok(text_precedes(right, left))
    } else if text_eq(op, "<=") {
        Ok(!text_precedes(right, left))
    } else if text_eq(op, ">=") {
        Ok(!text_precedes(left, right))
    } else if text_eq(op, "<>") {
        Ok(!text_eq(left, right))
    } else {
        let mut m = "Unknown operator '".to_string();
        m.append(op);
        m.append("'");
        Err(SQLError::InvalidSyntax(m))
    }
}

/// Evaluates the predicate against a row. Only a comparison of a column with a
/// literal is a predicate; anything else is a syntax error, found here and not
/// by the parser.
pub fn evaluate_where_clause(expr: &Expression, schema: &TableSchema, row_values: &[String]) -> (r:
    Result<bool, SQLError>)
    requires
        evaluate_defined(expr@, schema@, row_values.deep_view()),
    ensures
        match evaluate(expr@, schema@, row_values.deep_view()) {
            Ok(b) => r == Ok::<bool, SQLError>(b),
            Err(e) => r matches Err(x) && x@ == e,
        },
{
    proof {
        reveal_with_fuel(expr_view, 2);
    }
    match expr {
        Expression::BinaryOp { left, op, right } => {
            match (&**left, &**right) {
                (Expression::Column(_), Expression::Literal(_)) => {},
                (Expression::Literal(_), Expression::Column(_)) => {},
                (Expression::BinaryOp { .. }, _) => {
                    return Err(SQLError::syntax("Unsupported expression"));
                },
                (_, Expression::BinaryOp { .. }) => {
                    return Err(SQLError::syntax("Unsupported expression"));
                },
                _ => {
                    return Err(SQLError::syntax("Unsupported expression in WHERE clause"));
                },
            }
            let left_value = match get_value(left, schema, row_values) {
                Ok(text) => text,
                Err(e) => {
                    return Err(e);
                },
            };
            let right_value = match get_value(right, schema, row_values) {
                Ok(text) => text,
                Err(e) => {
                    return Err(e);
                },
            };
            compare(op.as_str(), left_value.as_str(), right_value.as_str())
        },
        _ => Err(SQLError::syntax("Unsupported expression in WHERE clause")),
    }
}

} // verus!
