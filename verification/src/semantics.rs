//! What the statements mean: for each of them, a function from the statement,
//! the column names and the data lines of a table to what comes out, and the
//! condition under which every row is long enough for it.
//!
//! The functions that take the column names work for any schema. Those that
//! take the lines of a table read the schema from its header line.

use vstd::prelude::*;
use crate::ast::{
    AssignmentView, DeleteView, ExprView, InsertView, OrderByView, QueryView, SelectView,
    UpdateView,
};
use crate::data::{ordinal, ordinals, rows_of, schema_of, width};
use crate::errors::{syntax_error, unknown_column, ErrorView};
use crate::predicate::{evaluate_defined, holds, predicate_error};
use crate::sort::sorted;
use crate::text::{join, split};

verus! {

/// The first of `columns` that the table does not have, if there is one.
pub open spec fn first_unknown(columns: Seq<Seq<char>>, names: Seq<Seq<char>>) -> Option<
    Seq<char>,
>
    decreases columns.len(),
{
    if columns.len() == 0 {
        None
    } else if ordinal(names, columns[0]) is None {
        Some(columns[0])
    } else {
        first_unknown(columns.drop_first(), names)
    }
}

/// The ordinal of each of `columns`, all of which the table has.
pub open spec fn ordinals_of(columns: Seq<Seq<char>>, names: Seq<Seq<char>>) -> Seq<int> {
    columns.map_values(|c: Seq<char>| ordinal(names, c).unwrap())
}

/// The ordinals that a SELECT list asks for: all of them, ascending, for a lone
/// `*`; else the ordinal of each name in the order of the list.
pub open spec fn selected_ordinals(columns: Seq<Seq<char>>, names: Seq<Seq<char>>) -> Result<
    Seq<int>,
    ErrorView,
> {
    if columns.len() == 1 && columns[0] == "*"@ {
        Ok(ordinals(names))
    } else {
        match first_unknown(columns, names) {
            Some(c) => Err(unknown_column(c)),
            None => Ok(ordinals_of(columns, names)),
        }
    }
}

/// Ordinals as mathematical integers.
pub open spec fn as_ints(ordinals: Seq<usize>) -> Seq<int> {
    ordinals.map_values(|o: usize| o as int)
}

/// Whether the row has a field at each of the ordinals.
pub open spec fn fits(row: Seq<Seq<char>>, needed: Seq<int>) -> bool {
    forall|k: int| 0 <= k < needed.len() ==> 0 <= #[trigger] needed[k] < row.len()
}

/// The fields of the row at the given ordinals, in their order.
pub open spec fn project(row: Seq<Seq<char>>, selected: Seq<int>) -> Seq<Seq<char>> {
    selected.map_values(|o: int| row[o])
}

/// Whether the statement picks the row: where there is a predicate, if it
/// holds; where there is none, as `otherwise` says. SELECT takes every row
/// without a predicate, UPDATE and DELETE take none.
pub open spec fn picks(
    predicate: Option<ExprView>,
    names: Seq<Seq<char>>,
    row: Seq<Seq<char>>,
    otherwise: bool,
) -> bool {
    match predicate {
        Some(e) => holds(e, names, row),
        None => otherwise,
    }
}

/// Why the predicate of a statement cannot be evaluated, if it has one that
/// cannot.
pub open spec fn fault(predicate: Option<ExprView>, names: Seq<Seq<char>>) -> Option<ErrorView> {
    match predicate {
        Some(e) => predicate_error(e, names),
        None => None,
    }
}

/// The error that a scan of `count` rows ends in, if it does: that of the
/// predicate, met at the first row. Without rows the predicate is never
/// evaluated.
pub open spec fn scan_error(predicate: Option<ExprView>, names: Seq<Seq<char>>, count: nat)
    -> Option<ErrorView> {
    if count > 0 {
        fault(predicate, names)
    } else {
        None
    }
}

/// Whether the row has the field that the predicate of a statement reads, if
/// it has a predicate.
pub open spec fn readable(predicate: Option<ExprView>, names: Seq<Seq<char>>, row: Seq<Seq<char>>)
    -> bool {
    predicate matches Some(e) ==> evaluate_defined(e, names, row)
}

/// Whether a scan can read what it needs from a line: the field of the
/// predicate's column, and the fields at `needed` if the statement picks the
/// row.
pub open spec fn line_defined(
    predicate: Option<ExprView>,
    names: Seq<Seq<char>>,
    needed: Seq<int>,
    otherwise: bool,
    line: Seq<char>,
) -> bool {
    let row = split(line, ',');
    &&& readable(predicate, names, row)
    &&& fault(predicate, names) is None && picks(predicate, names, row, otherwise) ==> fits(
        row,
        needed,
    )
}

/// Whether a scan can read what it needs from every line it comes to. A scan
/// that ends in an error comes to the first line only.
pub open spec fn scan_defined(
    predicate: Option<ExprView>,
    names: Seq<Seq<char>>,
    needed: Seq<int>,
    otherwise: bool,
    lines: Seq<Seq<char>>,
) -> bool {
    forall|i: int|
        0 <= i < lines.len() && (i == 0 || fault(predicate, names) is None) ==> line_defined(
            predicate,
            names,
            needed,
            otherwise,
            #[trigger] lines[i],
        )
}

/// The lines that a statement with this predicate picks.
pub open spec fn picked(predicate: Option<ExprView>, names: Seq<Seq<char>>, otherwise: bool)
    -> spec_fn(Seq<char>) -> bool {
    |line: Seq<char>| picks(predicate, names, split(line, ','), otherwise)
}

/// The lines that a statement with this predicate does not pick.
pub open spec fn not_picked(predicate: Option<ExprView>, names: Seq<Seq<char>>, otherwise: bool)
    -> spec_fn(Seq<char>) -> bool {
    |line: Seq<char>| !picks(predicate, names, split(line, ','), otherwise)
}

/// A line to its fields at the given ordinals.
pub open spec fn projection(selected: Seq<int>) -> spec_fn(Seq<char>) -> Seq<Seq<char>> {
    |line: Seq<char>| project(split(line, ','), selected)
}

/// A row to its line.
pub open spec fn joined() -> spec_fn(Seq<Seq<char>>) -> Seq<char> {
    |row: Seq<Seq<char>>| join(row, ',')
}

/// The first place of `ordinal` among the selected ordinals, if it has one.
pub open spec fn position(selected: Seq<int>, ordinal: int) -> Option<int>
    decreases selected.len(),
{
    if selected.len() == 0 {
        None
    } else {
        match position(selected.drop_last(), ordinal) {
            Some(p) => Some(p),
            None => if selected.last() == ordinal {
                Some(selected.len() - 1)
            } else {
                None
            },
        }
    }
}

/// The error for an ORDER BY column that the SELECT list leaves out.
pub open spec fn not_selected(name: Seq<char>) -> ErrorView {
    ErrorView::InvalidColumn("Column '"@ + name + "' is not in the selected columns"@)
}

/// The field by which the selected rows are sorted: the first place in the
/// SELECT list of the column that ORDER BY names.
pub open spec fn sort_position(order: OrderByView, selected: Seq<int>, names: Seq<Seq<char>>)
    -> Result<int, ErrorView> {
    match ordinal(names, order.column) {
        Some(o) => match position(selected, o) {
            Some(p) => Ok(p),
            None => Err(not_selected(order.column)),
        },
        None => Err(unknown_column(order.column)),
    }
}

/// The selected rows in the order of the result.
pub open spec fn ordered(
    order: Option<OrderByView>,
    selected: Seq<int>,
    names: Seq<Seq<char>>,
    found: Seq<Seq<Seq<char>>>,
) -> Result<Seq<Seq<Seq<char>>>, ErrorView> {
    match order {
        Some(o) => match sort_position(o, selected, names) {
            Ok(p) => Ok(sorted(found, p, o.ascending)),
            Err(e) => Err(e),
        },
        None => Ok(found),
    }
}

/// The names of the selected columns.
pub open spec fn headings(selected: Seq<int>, names: Seq<Seq<char>>) -> Seq<Seq<char>> {
    selected.map_values(|o: int| names[o])
}

/// The lines of a result: the names of the selected columns, then the rows.
pub open spec fn output(selected: Seq<int>, names: Seq<Seq<char>>, found: Seq<Seq<Seq<char>>>)
    -> Seq<Seq<char>> {
    seq![join(headings(selected, names), ',')] + found.map_values(joined())
}

/// What a SELECT prints for a table with the columns `names` and the data
/// lines `rows`: the header of the selected columns, then each row that the
/// predicate keeps, cut down to the selected columns; in the order of the
/// table, or sorted where ORDER BY asks for it.
pub open spec fn select_output(q: SelectView, names: Seq<Seq<char>>, rows: Seq<Seq<char>>)
    -> Result<Seq<Seq<char>>, ErrorView> {
    match selected_ordinals(q.columns, names) {
        Ok(selected) => match scan_error(q.where_clause, names, rows.len()) {
            Some(e) => Err(e),
            None => {
                let found = rows.filter(picked(q.where_clause, names, true)).map_values(
                    projection(selected),
                );
                match ordered(q.order_by, selected, names, found) {
                    Ok(sorted) => Ok(output(selected, names, sorted)),
                    Err(e) => Err(e),
                }
            },
        },
        Err(e) => Err(e),
    }
}

/// Whether a SELECT finds in every row the fields that it reads there.
pub open spec fn select_defined(q: SelectView, names: Seq<Seq<char>>, rows: Seq<Seq<char>>)
    -> bool {
    selected_ordinals(q.columns, names) matches Ok(selected) ==> scan_defined(
        q.where_clause,
        names,
        selected,
        true,
        rows,
    )
}

/// `row` with each of `values` put at the ordinal of the same place in
/// `places`, one after another: a later value replaces an earlier one at the
/// same ordinal.
pub open spec fn filled(row: Seq<Seq<char>>, places: Seq<int>, values: Seq<Seq<char>>) -> Seq<
    Seq<char>,
>
    decreases places.len(),
{
    if places.len() == 0 {
        row
    } else {
        filled(row, places.drop_last(), values).update(places.last(), values[places.len() - 1])
    }
}

/// The columns that the assignments name.
pub open spec fn targets(assignments: Seq<AssignmentView>) -> Seq<Seq<char>> {
    assignments.map_values(|a: AssignmentView| a.column)
}

/// The values that the assignments give.
pub open spec fn new_values(assignments: Seq<AssignmentView>) -> Seq<Seq<char>> {
    assignments.map_values(|a: AssignmentView| a.value)
}

/// The names of all columns, by ascending ordinal.
pub open spec fn all_columns(names: Seq<Seq<char>>) -> Seq<Seq<char>> {
    headings(ordinals(names), names)
}

/// The columns that an INSERT fills: those it lists, or all where it lists
/// none.
pub open spec fn insert_columns(q: InsertView, names: Seq<Seq<char>>) -> Seq<Seq<char>> {
    if q.columns.len() == 0 {
        all_columns(names)
    } else {
        q.columns
    }
}

/// A row of empty fields, one for each column.
pub open spec fn blank_row(names: Seq<Seq<char>>) -> Seq<Seq<char>> {
    Seq::new(width(names), |i: int| Seq::<char>::empty())
}

/// The error for an INSERT with more or fewer values than columns.
pub open spec fn count_mismatch() -> ErrorView {
    syntax_error("Number of columns and values do not match")
}

/// The line that an INSERT appends: a row as wide as the schema, empty but
/// for the listed columns, which hold the values in the order given.
pub open spec fn insert_line(q: InsertView, names: Seq<Seq<char>>) -> Result<
    Seq<char>,
    ErrorView,
> {
    let columns = insert_columns(q, names);
    match first_unknown(columns, names) {
        Some(c) => Err(unknown_column(c)),
        None => if columns.len() != q.values.len() {
            Err(count_mismatch())
        } else {
            Ok(join(filled(blank_row(names), ordinals_of(columns, names), q.values), ','))
        },
    }
}

/// Whether each column that an INSERT fills has its place in the new row.
/// It has, unless the header repeats a name.
pub open spec fn insert_defined(q: InsertView, names: Seq<Seq<char>>) -> bool {
    let columns = insert_columns(q, names);
    first_unknown(columns, names) is None && columns.len() == q.values.len() ==> fits(
        blank_row(names),
        ordinals_of(columns, names),
    )
}

/// A data line after an UPDATE: with the assignments made if the statement
/// picks the row, else as it was.
pub open spec fn updated(q: UpdateView, names: Seq<Seq<char>>) -> spec_fn(Seq<char>) -> Seq<
    char,
> {
    |line: Seq<char>|
        if picks(q.where_clause, names, split(line, ','), false) {
            join(
                filled(
                    split(line, ','),
                    ordinals_of(targets(q.assignments), names),
                    new_values(q.assignments),
                ),
                ',',
            )
        } else {
            line
        }
}

/// The data lines after an UPDATE. Without a WHERE clause no row changes.
pub open spec fn update_rows(q: UpdateView, names: Seq<Seq<char>>, rows: Seq<Seq<char>>)
    -> Result<Seq<Seq<char>>, ErrorView> {
    match first_unknown(targets(q.assignments), names) {
        Some(c) => Err(unknown_column(c)),
        None => match scan_error(q.where_clause, names, rows.len()) {
            Some(e) => Err(e),
            None => Ok(rows.map_values(updated(q, names))),
        },
    }
}

/// Whether an UPDATE finds in every row the fields that it reads or writes
/// there.
pub open spec fn update_defined(q: UpdateView, names: Seq<Seq<char>>, rows: Seq<Seq<char>>)
    -> bool {
    first_unknown(targets(q.assignments), names) is None ==> scan_defined(
        q.where_clause,
        names,
        ordinals_of(targets(q.assignments), names),
        false,
        rows,
    )
}

/// The data lines after a DELETE: those that the statement does not pick, in
/// their order. Without a WHERE clause no row goes.
pub open spec fn delete_rows(q: DeleteView, names: Seq<Seq<char>>, rows: Seq<Seq<char>>)
    -> Result<Seq<Seq<char>>, ErrorView> {
    match scan_error(q.where_clause, names, rows.len()) {
        Some(e) => Err(e),
        None => Ok(rows.filter(not_picked(q.where_clause, names, false))),
    }
}

/// Whether a DELETE finds in every row the field that its predicate reads.
pub open spec fn delete_defined(q: DeleteView, names: Seq<Seq<char>>, rows: Seq<Seq<char>>)
    -> bool {
    scan_defined(q.where_clause, names, Seq::empty(), false, rows)
}

/// Where the first occurrence of an ordinal stands: at `p` if no earlier place
/// holds it and `p` does; nowhere if no place holds it.
pub proof fn lemma_position_found(selected: Seq<int>, ordinal: int, p: int)
    requires
        0 <= p <= selected.len(),
        position(selected.take(p), ordinal) is None,
        p < selected.len() ==> selected[p] == ordinal,
    ensures
        position(selected, ordinal) == if p < selected.len() {
            Some(p)
        } else {
            None
        },
    decreases selected.len(),
{
    if p == selected.len() {
        assert(selected.take(p) =~= selected);
    } else if p < selected.len() - 1 {
        assert(selected.drop_last().take(p) =~= selected.take(p));
        lemma_position_found(selected.drop_last(), ordinal, p);
    }
}

/// What a statement asks its caller to do, over sequences of characters.
pub enum OutcomeView {
    Rows(Seq<Seq<char>>),
    Append(Seq<char>),
    Replace(Seq<Seq<char>>),
}

/// The error for a table without a header line.
pub open spec fn empty_table() -> ErrorView {
    ErrorView::InvalidTable("Table is empty or corrupted"@)
}

/// The lines of a rewritten table: the header as it was, then the new data
/// lines. A table without a header cannot be rewritten.
pub open spec fn rewritten(lines: Seq<Seq<char>>, rows: Result<Seq<Seq<char>>, ErrorView>)
    -> Result<OutcomeView, ErrorView> {
    match rows {
        Ok(rows) => if lines.len() == 0 {
            Err(empty_table())
        } else {
            Ok(OutcomeView::Replace(seq![lines[0]] + rows))
        },
        Err(e) => Err(e),
    }
}

/// What a statement makes of the table with the given lines.
pub open spec fn outcome_of(query: QueryView, lines: Seq<Seq<char>>) -> Result<
    OutcomeView,
    ErrorView,
> {
    let names = schema_of(lines);
    let rows = rows_of(lines);
    match query {
        QueryView::Select(q) => match select_output(q, names, rows) {
            Ok(out) => Ok(OutcomeView::Rows(out)),
            Err(e) => Err(e),
        },
        QueryView::Insert(q) => match insert_line(q, names) {
            Ok(line) => Ok(OutcomeView::Append(line)),
            Err(e) => Err(e),
        },
        QueryView::Update(q) => rewritten(lines, update_rows(q, names, rows)),
        QueryView::Delete(q) => rewritten(lines, delete_rows(q, names, rows)),
    }
}

/// Whether the statement finds in the table every field that it reads or
/// writes: whether no row that it comes to is too short for it.
pub open spec fn query_defined(query: QueryView, lines: Seq<Seq<char>>) -> bool {
    let names = schema_of(lines);
    let rows = rows_of(lines);
    match query {
        QueryView::Select(q) => select_defined(q, names, rows),
        QueryView::Insert(q) => insert_defined(q, names),
        QueryView::Update(q) => update_defined(q, names, rows),
        QueryView::Delete(q) => delete_defined(q, names, rows),
    }
}

} // verus!
