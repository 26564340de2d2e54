//! The spelling of a statement: the tokens that say it. Parsing the spelling
//! of a statement gives the statement back.

use vstd::prelude::*;
use crate::ast::{
    AssignmentView, DeleteView, ExprView, InsertView, OrderByView, QueryView, SelectView,
    UpdateView,
};
use crate::errors::ErrorView;
use crate::lexer::TokenView;
use crate::parser::{
    assignments, column_list, peek, select_list, statement, values_list, where_clause,
};

verus! {

/// The keyword token for a reserved word.
pub open spec fn word(text: &str) -> TokenView {
    TokenView::Keyword(text@)
}

/// The token for one item of a SELECT list.
pub open spec fn spell_column(name: Seq<char>) -> TokenView {
    if name == "*"@ {
        TokenView::Asterisk
    } else {
        TokenView::Identifier(name)
    }
}

/// The items of a SELECT list as tokens.
pub open spec fn select_items(columns: Seq<Seq<char>>) -> Seq<TokenView> {
    columns.map_values(|c: Seq<char>| spell_column(c))
}

/// Names as identifier tokens.
pub open spec fn identifiers(names: Seq<Seq<char>>) -> Seq<TokenView> {
    names.map_values(|n: Seq<char>| TokenView::Identifier(n))
}

/// Texts as literal tokens.
pub open spec fn literals(values: Seq<Seq<char>>) -> Seq<TokenView> {
    values.map_values(|v: Seq<char>| TokenView::Literal(v))
}

/// The items with a comma between neighbours.
pub open spec fn listed(items: Seq<TokenView>) -> Seq<TokenView>
    decreases items.len(),
{
    if items.len() <= 1 {
        items
    } else {
        seq![items[0], TokenView::Comma] + listed(items.drop_first())
    }
}

/// `col=lit`.
pub open spec fn spell_assignment(a: AssignmentView) -> Seq<TokenView> {
    seq![TokenView::Identifier(a.column), TokenView::Operator("="@), TokenView::Literal(a.value)]
}

/// `col=lit(,col=lit)*`.
pub open spec fn spell_assignments(list: Seq<AssignmentView>) -> Seq<TokenView>
    decreases list.len(),
{
    if list.len() == 0 {
        Seq::empty()
    } else if list.len() == 1 {
        spell_assignment(list[0])
    } else {
        spell_assignment(list[0]) + seq![TokenView::Comma] + spell_assignments(list.drop_first())
    }
}

/// Whether the expression is one that the grammar has: a column, an operator
/// and a literal, in this order.
pub open spec fn is_grammatical(e: ExprView) -> bool {
    e matches ExprView::BinaryOp { left, op, right } && *left is Column && *right is Literal
}

/// `[WHERE col op literal]`.
pub open spec fn spell_where(predicate: Option<ExprView>) -> Seq<TokenView> {
    match predicate {
        Some(ExprView::BinaryOp { left, op, right }) => match (*left, *right) {
            (ExprView::Column(name), ExprView::Literal(text)) => seq![
                word("WHERE"),
                TokenView::Identifier(name),
                TokenView::Operator(op),
                TokenView::Literal(text),
            ],
            _ => Seq::empty(),
        },
        _ => Seq::empty(),
    }
}

/// `[ORDER BY col [DESC]]`.
pub open spec fn spell_order(order: Option<OrderByView>) -> Seq<TokenView> {
    match order {
        Some(o) => if o.ascending {
            seq![word("ORDER"), word("BY"), TokenView::Identifier(o.column)]
        } else {
            seq![word("ORDER"), word("BY"), TokenView::Identifier(o.column), word("DESC")]
        },
        None => Seq::empty(),
    }
}

/// `[(col(,col)*)]`.
pub open spec fn spell_column_clause(columns: Seq<Seq<char>>) -> Seq<TokenView> {
    if columns.len() == 0 {
        Seq::empty()
    } else {
        seq![TokenView::OpenParen] + listed(identifiers(columns)) + seq![TokenView::CloseParen]
    }
}

/// The tokens that say the statement, without a semicolon.
pub open spec fn spell(query: QueryView) -> Seq<TokenView> {
    match query {
        QueryView::Select(q) => seq![word("SELECT")] + listed(select_items(q.columns)) + seq![
            word("FROM"),
            TokenView::Identifier(q.table),
        ] + spell_where(q.where_clause) + spell_order(q.order_by),
        QueryView::Insert(q) => seq![word("INSERT"), word("INTO"), TokenView::Identifier(q.table)]
            + spell_column_clause(q.columns) + seq![word("VALUES"), TokenView::OpenParen] + listed(
            literals(q.values),
        ) + seq![TokenView::CloseParen],
        QueryView::Update(q) => seq![word("UPDATE"), TokenView::Identifier(q.table), word("SET")]
            + spell_assignments(q.assignments) + spell_where(q.where_clause),
        QueryView::Delete(q) => seq![word("DELETE"), word("FROM"), TokenView::Identifier(q.table)]
            + spell_where(q.where_clause),
    }
}

/// Whether the statement is one that the grammar has: its lists hold an item
/// where the grammar asks for one, and its predicate, if it has one, compares
/// a column on the left with a literal on the right.
pub open spec fn in_grammar(query: QueryView) -> bool {
    match query {
        QueryView::Select(q) => q.columns.len() >= 1 && (q.where_clause matches Some(e)
            ==> is_grammatical(e)),
        QueryView::Insert(q) => q.values.len() >= 1,
        QueryView::Update(q) => q.assignments.len() >= 1 && (q.where_clause matches Some(e)
            ==> is_grammatical(e)),
        QueryView::Delete(q) => q.where_clause matches Some(e) ==> is_grammatical(e),
    }
}

/// The reserved words that the parser tells apart differ from each other.
proof fn lemma_words_differ()
    ensures
        "SELECT"@ != "INSERT"@,
        "SELECT"@ != "UPDATE"@,
        "SELECT"@ != "DELETE"@,
        "INSERT"@ != "UPDATE"@,
        "INSERT"@ != "DELETE"@,
        "UPDATE"@ != "DELETE"@,
        "ORDER"@ != "WHERE"@,
        "ASC"@ != "DESC"@,
{
    reveal_strlit("SELECT");
    reveal_strlit("INSERT");
    reveal_strlit("UPDATE");
    reveal_strlit("DELETE");
    reveal_strlit("ORDER");
    reveal_strlit("WHERE");
    reveal_strlit("ASC");
    reveal_strlit("DESC");
    assert("SELECT"@[0] == 'S');
    assert("INSERT"@[0] == 'I');
    assert("UPDATE"@[0] == 'U');
    assert("ORDER"@[0] == 'O');
    assert("ASC"@.len() == 3);
}

/// A SELECT list is parsed from its spelling, where no comma follows it.
proof fn lemma_select_list(tokens: Seq<TokenView>, pos: int, columns: Seq<Seq<char>>)
    requires
        columns.len() >= 1,
        0 <= pos,
        pos + listed(select_items(columns)).len() <= tokens.len(),
        tokens.subrange(pos, pos + listed(select_items(columns)).len()) == listed(
            select_items(columns),
        ),
        peek(tokens, pos + listed(select_items(columns)).len()) != Some(TokenView::Comma),
    ensures
        select_list(tokens, pos) == Ok::<(Seq<Seq<char>>, int), ErrorView>(
            (columns, pos + listed(select_items(columns)).len()),
        ),
    decreases columns.len(),
{
    let items = select_items(columns);
    let spelled = listed(items);
    assert(tokens[pos] == spelled[0]);
    if columns.len() == 1 {
        assert(columns =~= seq![columns[0]]);
    } else {
        let rest = columns.drop_first();
        assert(select_items(rest) =~= items.drop_first());
        assert(tokens[pos + 1] == spelled[1]);
        assert(tokens.subrange(pos + 2, pos + 2 + listed(select_items(rest)).len()) =~= listed(
            select_items(rest),
        )) by {
            let inner = listed(select_items(rest));
            assert forall|k: int| 0 <= k < inner.len() implies tokens[pos + 2 + k] == inner[k] by {
                assert(tokens[pos + 2 + k] == spelled[k + 2]);
            }
        }
        lemma_select_list(tokens, pos + 2, rest);
        assert(seq![columns[0]] + rest =~= columns);
    }
}

/// A column list is parsed from its spelling, where a closing parenthesis
/// follows it.
proof fn lemma_column_list(tokens: Seq<TokenView>, pos: int, columns: Seq<Seq<char>>)
    requires
        columns.len() >= 1,
        0 <= pos,
        pos + listed(identifiers(columns)).len() <= tokens.len(),
        tokens.subrange(pos, pos + listed(identifiers(columns)).len()) == listed(
            identifiers(columns),
        ),
        peek(tokens, pos + listed(identifiers(columns)).len()) == Some(TokenView::CloseParen),
    ensures
        column_list(tokens, pos) == Ok::<(Seq<Seq<char>>, int), ErrorView>(
            (columns, pos + listed(identifiers(columns)).len()),
        ),
    decreases columns.len(),
{
    let items = identifiers(columns);
    let spelled = listed(items);
    assert(tokens[pos] == spelled[0]);
    if columns.len() == 1 {
        assert(columns =~= seq![columns[0]]);
    } else {
        let rest = columns.drop_first();
        assert(identifiers(rest) =~= items.drop_first());
        assert(tokens[pos + 1] == spelled[1]);
        assert(tokens.subrange(pos + 2, pos + 2 + listed(identifiers(rest)).len()) =~= listed(
            identifiers(rest),
        )) by {
            let inner = listed(identifiers(rest));
            assert forall|k: int| 0 <= k < inner.len() implies tokens[pos + 2 + k] == inner[k] by {
                assert(tokens[pos + 2 + k] == spelled[k + 2]);
            }
        }
        lemma_column_list(tokens, pos + 2, rest);
        assert(seq![columns[0]] + rest =~= columns);
    }
}

/// A list of values is parsed from its spelling, where a closing parenthesis
/// follows it.
proof fn lemma_values_list(tokens: Seq<TokenView>, pos: int, values: Seq<Seq<char>>)
    requires
        values.len() >= 1,
        0 <= pos,
        pos + listed(literals(values)).len() <= tokens.len(),
        tokens.subrange(pos, pos + listed(literals(values)).len()) == listed(literals(values)),
        peek(tokens, pos + listed(literals(values)).len()) == Some(TokenView::CloseParen),
    ensures
        values_list(tokens, pos) == Ok::<(Seq<Seq<char>>, int), ErrorView>(
            (values, pos + listed(literals(values)).len()),
        ),
    decreases values.len(),
{
    let items = literals(values);
    let spelled = listed(items);
    assert(tokens[pos] == spelled[0]);
    if values.len() == 1 {
        assert(values =~= seq![values[0]]);
    } else {
        let rest = values.drop_first();
        assert(literals(rest) =~= items.drop_first());
        assert(tokens[pos + 1] == spelled[1]);
        assert(tokens.subrange(pos + 2, pos + 2 + listed(literals(rest)).len()) =~= listed(
            literals(rest),
        )) by {
            let inner = listed(literals(rest));
            assert forall|k: int| 0 <= k < inner.len() implies tokens[pos + 2 + k] == inner[k] by {
                assert(tokens[pos + 2 + k] == spelled[k + 2]);
            }
        }
        lemma_values_list(tokens, pos + 2, rest);
        assert(seq![values[0]] + rest =~= values);
    }
}

/// Assignments are parsed from their spelling, where no comma follows them.
proof fn lemma_assignments(tokens: Seq<TokenView>, pos: int, list: Seq<AssignmentView>)
    requires
        list.len() >= 1,
        0 <= pos,
        pos + spell_assignments(list).len() <= tokens.len(),
        tokens.subrange(pos, pos + spell_assignments(list).len()) == spell_assignments(list),
        peek(tokens, pos + spell_assignments(list).len()) != Some(TokenView::Comma),
    ensures
        assignments(tokens, pos) == Ok::<(Seq<AssignmentView>, int), ErrorView>(
            (list, pos + spell_assignments(list).len()),
        ),
    decreases list.len(),
{
    let spelled = spell_assignments(list);
    assert(tokens[pos] == spelled[0]);
    assert(tokens[pos + 1] == spelled[1]);
    assert(tokens[pos + 2] == spelled[2]);
    if list.len() == 1 {
        assert(list =~= seq![list[0]]);
    } else {
        let rest = list.drop_first();
        assert(tokens[pos + 3] == spelled[3]);
        assert(tokens.subrange(pos + 4, pos + 4 + spell_assignments(rest).len())
            =~= spell_assignments(rest)) by {
            let inner = spell_assignments(rest);
            assert forall|k: int| 0 <= k < inner.len() implies tokens[pos + 4 + k] == inner[k] by {
                assert(tokens[pos + 4 + k] == spelled[k + 4]);
            }
        }
        lemma_assignments(tokens, pos + 4, rest);
        assert(seq![list[0]] + rest =~= list);
    }
}

/// Whether `rest` can follow a statement: it starts with a semicolon or with
/// the end token.
pub open spec fn closes(rest: Seq<TokenView>) -> bool {
    rest.len() >= 1 && (rest[0] == TokenView::Semicolon || rest[0] == TokenView::EOF)
}

/// A SELECT statement is parsed from its spelling.
proof fn lemma_parse_select(q: SelectView, rest: Seq<TokenView>)
    requires
        in_grammar(QueryView::Select(q)),
        closes(rest),
    ensures
        statement(spell(QueryView::Select(q)) + rest) == Ok::<QueryView, ErrorView>(
            QueryView::Select(q),
        ),
{
    lemma_words_differ();
    let list = listed(select_items(q.columns));
    let tokens = spell(QueryView::Select(q)) + rest;
    let from = list.len() as int + 1;
    assert(tokens.subrange(1, from) =~= list);
    lemma_select_list(tokens, 1, q.columns);
}

/// An INSERT statement is parsed from its spelling.
proof fn lemma_parse_insert(q: InsertView, rest: Seq<TokenView>)
    requires
        in_grammar(QueryView::Insert(q)),
        closes(rest),
    ensures
        statement(spell(QueryView::Insert(q)) + rest) == Ok::<QueryView, ErrorView>(
            QueryView::Insert(q),
        ),
{
    lemma_words_differ();
    let columns = spell_column_clause(q.columns);
    let values = listed(literals(q.values));
    let tokens = spell(QueryView::Insert(q)) + rest;
    let after_columns = columns.len() as int + 3;
    let first_value: int = after_columns + 2;
    let close: int = first_value + values.len();
    assert(tokens.subrange(first_value, close) =~= values);
    if q.columns.len() > 0 {
        let names = listed(identifiers(q.columns));
        assert(tokens.subrange(4, names.len() as int + 4) =~= names);
        lemma_column_list(tokens, 4, q.columns);
    } else {
        assert(q.columns =~= Seq::empty());
    }
    lemma_values_list(tokens, first_value, q.values);
}

/// An UPDATE statement is parsed from its spelling.
proof fn lemma_parse_update(q: UpdateView, rest: Seq<TokenView>)
    requires
        in_grammar(QueryView::Update(q)),
        closes(rest),
    ensures
        statement(spell(QueryView::Update(q)) + rest) == Ok::<QueryView, ErrorView>(
            QueryView::Update(q),
        ),
{
    lemma_words_differ();
    let list = spell_assignments(q.assignments);
    let tokens = spell(QueryView::Update(q)) + rest;
    let after_list = list.len() as int + 3;
    assert(tokens.subrange(3, after_list) =~= list);
    lemma_assignments(tokens, 3, q.assignments);
}

/// A DELETE statement is parsed from its spelling.
proof fn lemma_parse_delete(q: DeleteView, rest: Seq<TokenView>)
    requires
        in_grammar(QueryView::Delete(q)),
        closes(rest),
    ensures
        statement(spell(QueryView::Delete(q)) + rest) == Ok::<QueryView, ErrorView>(
            QueryView::Delete(q),
        ),
{
    lemma_words_differ();
    let predicate = spell_where(q.where_clause);
    let end = predicate.len() as int + 3;
}

/// Every statement of the grammar is parsed from its spelling, followed by a
/// semicolon or by the end token and whatever comes behind.
pub proof fn lemma_parse_spelling(query: QueryView, rest: Seq<TokenView>)
    requires
        in_grammar(query),
        closes(rest),
    ensures
        statement(spell(query) + rest) == Ok::<QueryView, ErrorView>(query),
{
    match query {
        QueryView::Select(q) => lemma_parse_select(q, rest),
        QueryView::Insert(q) => lemma_parse_insert(q, rest),
        QueryView::Update(q) => lemma_parse_update(q, rest),
        QueryView::Delete(q) => lemma_parse_delete(q, rest),
    }
}

} // verus!
