//! The executor: carries out a statement on the lines of a table.
//!
//! SELECT gives the lines to print, INSERT the line to append, UPDATE and
//! DELETE the lines that replace the table. Nothing here touches a file: the
//! caller reads the lines, and writes what comes back.

use vstd::prelude::*;
use crate::ast::{
    Assignment, DeleteQuery, Expression, InsertQuery, OrderBy, SQLQuery, SelectQuery, UpdateQuery,
};
use crate::data::{ordinal, Table, TableSchema};
use crate::errors::{unknown_column, ErrorView, SQLError};
use crate::predicate::evaluate_where_clause;
use crate::semantics::{
    as_ints, blank_row, delete_defined, delete_rows, fault, filled, first_unknown, fits, headings,
    insert_defined, insert_line, lemma_position_found, line_defined, new_values, not_picked,
    ordered, ordinals_of, outcome_of, output, picked, picks, position, project, projection,
    query_defined, readable, rewritten, scan_defined, scan_error, select_defined, select_output,
    selected_ordinals, targets, update_defined, update_rows, updated, OutcomeView,
};
use crate::sort::sort_rows;
use crate::text::{join, join_fields, lemma_join_split, split_fields, text_eq};

verus! {

/// What a statement asks its caller to do.
#[derive(Debug, PartialEq, Eq)]
pub enum Outcome {
    /// SELECT: print these lines, the header first.
    Rows(Vec<String>),
    /// INSERT: append this line to the table.
    Append(String),
    /// UPDATE and DELETE: replace the lines of the table by these, the header
    /// first.
    Replace(Vec<String>),
}

impl View for Outcome {
    type V = OutcomeView;

    open spec fn view(&self) -> OutcomeView {
        match self {
            Outcome::Rows(lines) => OutcomeView::Rows(lines.deep_view()),
            Outcome::Append(line) => OutcomeView::Append(line@),
            Outcome::Replace(lines) => OutcomeView::Replace(lines.deep_view()),
        }
    }
}

/// The ordinal of each of `columns`; the error of the first that the table
/// does not have.
pub fn resolve_columns(columns: &Vec<String>, schema: &TableSchema) -> (r: Result<
    Vec<usize>,
    SQLError,
>)
    ensures
        match first_unknown(columns.deep_view(), schema@) {
            Some(c) => r matches Err(x) && x@ == unknown_column(c),
            None => r matches Ok(v) && as_ints(v@) == ordinals_of(columns.deep_view(), schema@)
                && forall|k: int| 0 <= k < v.len() ==> #[trigger] v[k] < schema.columns.len(),
        },
{
    let ghost all = columns.deep_view();
    let mut indices: Vec<usize> = Vec::new();
    let mut i: usize = 0;
    proof {
        assert(all.skip(0) =~= all);
    }
    while i < columns.len()
        invariant
            i <= columns.len(),
            all == columns.deep_view(),
            first_unknown(all, schema@) == first_unknown(all.skip(i as int), schema@),
            indices.len() == i,
            forall|k: int| 0 <= k < i ==> ordinal(schema@, #[trigger] all[k]) == Some(
                indices[k] as int,
            ),
            forall|k: int| 0 <= k < i ==> #[trigger] indices[k] < schema.columns.len(),
        decreases columns.len() - i,
    {
        proof {
            assert(all.skip(i as int).drop_first() =~= all.skip(i + 1));
        }
        match schema.ordinal(columns[i].as_str()) {
            Some(o) => {
                indices.push(o);
            },
            None => {
                return Err(SQLError::column_missing(columns[i].as_str()));
            },
        }
        i += 1;
    }
    Ok(indices)
}

/// The ordinals that the SELECT list asks for.
pub fn get_selected_indices(select_query: &SelectQuery, schema: &TableSchema) -> (r: Result<
    Vec<usize>,
    SQLError,
>)
    ensures
        match selected_ordinals(select_query@.columns, schema@) {
            Ok(selected) => r matches Ok(v) && as_ints(v@) == selected && forall|k: int|
                0 <= k < v.len() ==> #[trigger] v[k] < schema.columns.len(),
            Err(e) => r matches Err(x) && x@ == e,
        },
{
    if select_query.columns.len() == 1 && text_eq(select_query.columns[0].as_str(), "*") {
        Ok(schema.ordinals())
    } else {
        resolve_columns(&select_query.columns, schema)
    }
}

/// The fields of the row at the given ordinals, in their order.
pub fn project_row(fields: &Vec<String>, selected: &Vec<usize>) -> (r: Vec<String>)
    requires
        fits(fields.deep_view(), as_ints(selected@)),
    ensures
        r.deep_view() == project(fields.deep_view(), as_ints(selected@)),
{
    let mut r: Vec<String> = Vec::new();
    let mut k: usize = 0;
    while k < selected.len()
        invariant
            k <= selected.len(),
            fits(fields.deep_view(), as_ints(selected@)),
            r.len() == k,
            forall|m: int| 0 <= m < k ==> (#[trigger] r[m])@ == fields[selected[m] as int]@,
        decreases selected.len() - k,
    {
        assert(as_ints(selected@)[k as int] == selected[k as int]);
        r.push(fields[selected[k]].clone());
        k += 1;
    }
    r
}

/// Sorts the selected rows by the column that ORDER BY names, which has to be
/// among the selected ones.
pub fn sort_results(
    results: &mut Vec<Vec<String>>,
    selected_indices: &Vec<usize>,
    schema: &TableSchema,
    order_by: &OrderBy,
) -> (r: Result<(), SQLError>)
    requires
        forall|i: int|
            0 <= i < old(results).len() ==> (#[trigger] old(results)[i]).len()
                == selected_indices.len(),
    ensures
        match ordered(
            Some(order_by@),
            as_ints(selected_indices@),
            schema@,
            old(results).deep_view(),
        ) {
            Ok(rows) => r is Ok && final(results).deep_view() == rows,
            Err(e) => r matches Err(x) && x@ == e && *final(results) == *old(results),
        },
{
    let order_idx = match schema.ordinal(order_by.column.as_str()) {
        Some(o) => o,
        None => {
            return Err(SQLError::column_missing(order_by.column.as_str()));
        },
    };
    let ghost selected = as_ints(selected_indices@);
    let mut p: usize = 0;
    while p < selected_indices.len() && selected_indices[p] != order_idx
        invariant
            p <= selected_indices.len(),
            selected == as_ints(selected_indices@),
            position(selected.take(p as int), order_idx as int) is None,
        decreases selected_indices.len() - p,
    {
        proof {
            assert(selected.take(p + 1).drop_last() =~= selected.take(p as int));
        }
        p += 1;
    }
    proof {
        lemma_position_found(selected, order_idx as int, p as int);
    }
    if p == selected_indices.len() {
        let mut m = "Column '".to_string();
        m.append(order_by.column.as_str());
        m.append("' is not in the selected columns");
        return Err(SQLError::InvalidColumn(m));
    }
    sort_rows(results, p, order_by.ascending);
    Ok(())
}

/// The lines of a result: the names of the selected columns, then the rows,
/// each with commas between its fields.
pub fn output_results(
    selected_indices: &Vec<usize>,
    schema: &TableSchema,
    results: &Vec<Vec<String>>,
) -> (lines: Vec<String>)
    requires
        forall|k: int|
            0 <= k < selected_indices.len() ==> #[trigger] selected_indices[k]
                < schema.columns.len(),
    ensures
        lines.deep_view() == output(as_ints(selected_indices@), schema@, results.deep_view()),
{
    let names = column_names(selected_indices, schema);
    let mut lines: Vec<String> = Vec::new();
    lines.push(join_fields(&names));
    let mut i: usize = 0;
    while i < results.len()
        invariant
            i <= results.len(),
            lines.len() == i + 1,
            lines[0]@ == join(headings(as_ints(selected_indices@), schema@), ','),
            forall|m: int|
                0 <= m < i ==> (#[trigger] lines[m + 1])@ == join(results[m].deep_view(), ','),
        decreases results.len() - i,
    {
        lines.push(join_fields(&results[i]));
        i += 1;
    }
    proof {
        let expected = output(as_ints(selected_indices@), schema@, results.deep_view());
        assert forall|m: int| 0 <= m < expected.len() implies lines.deep_view()[m]
            == expected[m] by {
            if m > 0 {
                assert(lines[m - 1 + 1]@ == join(results[m - 1].deep_view(), ','));
            }
        }
    }
    lines
}

/// Whether the statement picks the row; the error of its predicate.
fn picks_row(
    predicate: &Option<Expression>,
    schema: &TableSchema,
    fields: &Vec<String>,
    otherwise: bool,
) -> (r: Result<bool, SQLError>)
    requires
        readable(predicate.deep_view(), schema@, fields.deep_view()),
    ensures
        match fault(predicate.deep_view(), schema@) {
            Some(e) => r matches Err(x) && x@ == e,
            None => r == Ok::<bool, SQLError>(
                picks(predicate.deep_view(), schema@, fields.deep_view(), otherwise),
            ),
        },
{
    match predicate {
        Some(e) => {
            let row_values = fields.as_slice();
            evaluate_where_clause(e, schema, row_values)
        },
        None => Ok(otherwise),
    }
}

/// Scans the data lines for a SELECT: keeps the rows that the predicate holds
/// of, cuts each down to the selected columns, sorts them where ORDER BY asks
/// for it, and gives the lines of the result.
pub fn process_rows(
    rows: &[String],
    schema: &TableSchema,
    select_query: &SelectQuery,
    selected_indices: &Vec<usize>,
) -> (r: Result<Vec<String>, SQLError>)
    requires
        selected_ordinals(select_query@.columns, schema@) == Ok::<Seq<int>, ErrorView>(
            as_ints(selected_indices@),
        ),
        forall|k: int|
            0 <= k < selected_indices.len() ==> #[trigger] selected_indices[k]
                < schema.columns.len(),
        select_defined(select_query@, schema@, rows.deep_view()),
    ensures
        match select_output(select_query@, schema@, rows.deep_view()) {
            Ok(lines) => r matches Ok(v) && v.deep_view() == lines,
            Err(e) => r matches Err(x) && x@ == e,
        },
{
    let ghost lines = rows.deep_view();
    let ghost names = schema@;
    let ghost predicate = select_query@.where_clause;
    let ghost selected = as_ints(selected_indices@);
    let ghost keep = picked(predicate, names, true);
    let ghost cut = projection(selected);
    let mut results: Vec<Vec<String>> = Vec::new();
    let mut i: usize = 0;
    while i < rows.len()
        invariant
            i <= rows.len(),
            lines == rows.deep_view(),
            names == schema@,
            predicate == select_query@.where_clause,
            selected == as_ints(selected_indices@),
            selected_ordinals(select_query@.columns, names) == Ok::<Seq<int>, ErrorView>(selected),
            keep == picked(predicate, names, true),
            cut == projection(selected),
            scan_defined(predicate, names, selected, true, lines),
            scan_error(predicate, names, i as nat) is None,
            results.deep_view() == lines.take(i as int).filter(keep).map_values(cut),
            forall|k: int|
                0 <= k < results.len() ==> (#[trigger] results[k]).len()
                    == selected_indices.len(),
        decreases rows.len() - i,
    {
        let fields = split_fields(rows[i].as_str());
        proof {
            assert(lines.take(i + 1) =~= lines.take(i as int).push(lines[i as int]));
            Seq::lemma_filter_push(lines.take(i as int), lines[i as int], keep);
        }
        let wanted = match picks_row(&select_query.where_clause, schema, &fields, true) {
            Ok(b) => b,
            Err(e) => {
                return Err(e);
            },
        };
        if wanted {
            let ghost kept = lines.take(i as int).filter(keep);
            let values = project_row(&fields, selected_indices);
            proof {
                assert(kept.push(lines[i as int]).map_values(cut) =~= kept.map_values(cut).push(
                    values.deep_view(),
                ));
                assert(values.deep_view().len() == selected_indices.len());
            }
            results.push(values);
        }
        i += 1;
    }
    proof {
        assert(lines.take(i as int) =~= lines);
    }
    if let Some(order_by) = &select_query.order_by {
        match sort_results(&mut results, selected_indices, schema, order_by) {
            Ok(()) => {},
            Err(e) => {
                return Err(e);
            },
        }
    }
    Ok(output_results(selected_indices, schema, &results))
}

/// Carries out a SELECT on a table with the given schema and data lines, and
/// gives the lines to print.
pub fn execute_select(select_query: &SelectQuery, schema: &TableSchema, rows: &[String]) -> (r:
    Result<Vec<String>, SQLError>)
    requires
        select_defined(select_query@, schema@, rows.deep_view()),
    ensures
        match select_output(select_query@, schema@, rows.deep_view()) {
            Ok(lines) => r matches Ok(v) && v.deep_view() == lines,
            Err(e) => r matches Err(x) && x@ == e,
        },
{
    let selected_indices = match get_selected_indices(select_query, schema) {
        Ok(v) => v,
        Err(e) => {
            return Err(e);
        },
    };
    process_rows(rows, schema, select_query, &selected_indices)
}

/// The names of the columns at the given ordinals.
fn column_names(selected_indices: &Vec<usize>, schema: &TableSchema) -> (names: Vec<String>)
    requires
        forall|k: int|
            0 <= k < selected_indices.len() ==> #[trigger] selected_indices[k]
                < schema.columns.len(),
    ensures
        names.deep_view() == headings(as_ints(selected_indices@), schema@),
{
    let mut names: Vec<String> = Vec::new();
    let mut k: usize = 0;
    while k < selected_indices.len()
        invariant
            k <= selected_indices.len(),
            forall|m: int|
                0 <= m < selected_indices.len() ==> #[trigger] selected_indices[m]
                    < schema.columns.len(),
            names.len() == k,
            forall|m: int|
                0 <= m < k ==> (#[trigger] names[m])@ == schema@[selected_indices[m] as int],
        decreases selected_indices.len() - k,
    {
        names.push(schema.columns[selected_indices[k]].clone());
        k += 1;
    }
    names
}

/// Puts each of `values` at the ordinal of the same place in `places`.
fn fill(fields: &mut Vec<String>, places: &Vec<usize>, values: &Vec<String>)
    requires
        places.len() <= values.len(),
        fits(old(fields).deep_view(), as_ints(places@)),
    ensures
        final(fields).deep_view() == filled(
            old(fields).deep_view(),
            as_ints(places@),
            values.deep_view(),
        ),
{
    let ghost start = fields.deep_view();
    let ghost all = as_ints(places@);
    let mut k: usize = 0;
    while k < places.len()
        invariant
            k <= places.len() <= values.len(),
            all == as_ints(places@),
            fits(start, all),
            fields.len() == start.len(),
            fields.deep_view() == filled(start, all.take(k as int), values.deep_view()),
        decreases places.len() - k,
    {
        proof {
            assert(all.take(k + 1).drop_last() =~= all.take(k as int));
            assert(all.take(k + 1).last() == places[k as int]);
        }
        fields[places[k]] = values[k].clone();
        k += 1;
    }
    proof {
        assert(all.take(k as int) =~= all);
    }
}

/// The line that an INSERT appends to a table with the given schema.
pub fn execute_insert(insert_query: &InsertQuery, schema: &TableSchema) -> (r: Result<
    String,
    SQLError,
>)
    requires
        insert_defined(insert_query@, schema@),
    ensures
        match insert_line(insert_query@, schema@) {
            Ok(line) => r matches Ok(s) && s@ == line,
            Err(e) => r matches Err(x) && x@ == e,
        },
{
    let all: Vec<String>;
    let columns_to_insert = if insert_query.columns.len() == 0 {
        all = column_names(&schema.ordinals(), schema);
        &all
    } else {
        &insert_query.columns
    };
    let places = match resolve_columns(columns_to_insert, schema) {
        Ok(v) => v,
        Err(e) => {
            return Err(e);
        },
    };
    if columns_to_insert.len() != insert_query.values.len() {
        return Err(SQLError::syntax("Number of columns and values do not match"));
    }
    let num_columns = schema.width();
    let mut new_row: Vec<String> = Vec::new();
    while new_row.len() < num_columns
        invariant
            new_row.len() <= num_columns,
            forall|m: int| 0 <= m < new_row.len() ==> (#[trigger] new_row[m])@ == Seq::<
                char,
            >::empty(),
        decreases num_columns - new_row.len(),
    {
        new_row.push(String::new());
    }
    proof {
        assert(new_row.deep_view() =~= blank_row(schema@));
    }
    fill(&mut new_row, &places, &insert_query.values);
    Ok(join_fields(&new_row))
}

/// The columns and the values of the assignments, each in the order given.
fn unzip(assignments: &Vec<Assignment>) -> (r: (Vec<String>, Vec<String>))
    ensures
        r.0.deep_view() == targets(assignments.deep_view()),
        r.1.deep_view() == new_values(assignments.deep_view()),
{
    let mut columns: Vec<String> = Vec::new();
    let mut values: Vec<String> = Vec::new();
    let mut k: usize = 0;
    while k < assignments.len()
        invariant
            k <= assignments.len(),
            columns.len() == k,
            values.len() == k,
            forall|m: int| 0 <= m < k ==> (#[trigger] columns[m])@ == assignments[m].column@,
            forall|m: int| 0 <= m < k ==> (#[trigger] values[m])@ == assignments[m].value@,
        decreases assignments.len() - k,
    {
        columns.push(assignments[k].column.clone());
        values.push(assignments[k].value.clone());
        k += 1;
    }
    (columns, values)
}

/// The data lines after an UPDATE of a table with the given schema and data
/// lines. Every assigned column has to exist. A row that the predicate holds of
/// gets the new values; every other row stays as it is, and so does every row
/// where there is no predicate.
pub fn execute_update(update_query: &UpdateQuery, schema: &TableSchema, rows: &[String]) -> (r:
    Result<Vec<String>, SQLError>)
    requires
        update_defined(update_query@, schema@, rows.deep_view()),
    ensures
        match update_rows(update_query@, schema@, rows.deep_view()) {
            Ok(lines) => r matches Ok(v) && v.deep_view() == lines,
            Err(e) => r matches Err(x) && x@ == e,
        },
{
    let (columns, values) = unzip(&update_query.assignments);
    let places = match resolve_columns(&columns, schema) {
        Ok(v) => v,
        Err(e) => {
            return Err(e);
        },
    };
    let ghost lines = rows.deep_view();
    let ghost names = schema@;
    let ghost q = update_query@;
    let ghost needed = as_ints(places@);
    let mut out: Vec<String> = Vec::new();
    let mut i: usize = 0;
    proof {
        assert(places@.len() == needed.len());
        assert(values.deep_view().len() == values.len());
    }
    while i < rows.len()
        invariant
            i <= rows.len(),
            lines == rows.deep_view(),
            names == schema@,
            q == update_query@,
            needed == as_ints(places@),
            needed == ordinals_of(targets(q.assignments), names),
            values.deep_view() == new_values(q.assignments),
            places.len() == values.len(),
            first_unknown(targets(q.assignments), names) is None,
            scan_defined(q.where_clause, names, needed, false, lines),
            scan_error(q.where_clause, names, i as nat) is None,
            out.len() == i,
            forall|k: int| 0 <= k < i ==> (#[trigger] out[k])@ == updated(q, names)(lines[k]),
        decreases rows.len() - i,
    {
        let mut fields = split_fields(rows[i].as_str());
        proof {
            lemma_join_split(lines[i as int], ',');
        }
        let should_update = match picks_row(&update_query.where_clause, schema, &fields, false) {
            Ok(b) => b,
            Err(e) => {
                return Err(e);
            },
        };
        if should_update {
            fill(&mut fields, &places, &values);
        }
        out.push(join_fields(&fields));
        i += 1;
    }
    Ok(out)
}

/// The data lines after a DELETE from a table with the given schema and data
/// lines: the rows that the predicate does not hold of, in their order; all of
/// them where there is no predicate.
pub fn execute_delete(delete_query: &DeleteQuery, schema: &TableSchema, rows: &[String]) -> (r:
    Result<Vec<String>, SQLError>)
    requires
        delete_defined(delete_query@, schema@, rows.deep_view()),
    ensures
        match delete_rows(delete_query@, schema@, rows.deep_view()) {
            Ok(lines) => r matches Ok(v) && v.deep_view() == lines,
            Err(e) => r matches Err(x) && x@ == e,
        },
{
    let ghost lines = rows.deep_view();
    let ghost names = schema@;
    let ghost q = delete_query@;
    let ghost stay = not_picked(q.where_clause, names, false);
    let mut out: Vec<String> = Vec::new();
    let mut i: usize = 0;
    while i < rows.len()
        invariant
            i <= rows.len(),
            lines == rows.deep_view(),
            names == schema@,
            q == delete_query@,
            stay == not_picked(q.where_clause, names, false),
            scan_defined(q.where_clause, names, Seq::empty(), false, lines),
            scan_error(q.where_clause, names, i as nat) is None,
            out.deep_view() == lines.take(i as int).filter(stay),
        decreases rows.len() - i,
    {
        let fields = split_fields(rows[i].as_str());
        proof {
            assert(lines.take(i + 1) =~= lines.take(i as int).push(lines[i as int]));
            Seq::lemma_filter_push(lines.take(i as int), lines[i as int], stay);
            lemma_join_split(lines[i as int], ',');
        }
        let should_delete = match picks_row(&delete_query.where_clause, schema, &fields, false) {
            Ok(b) => b,
            Err(e) => {
                return Err(e);
            },
        };
        if !should_delete {
            let line = join_fields(&fields);
            out.push(line);
        }
        i += 1;
    }
    proof {
        assert(lines.take(i as int) =~= lines);
    }
    Ok(out)
}

/// The header line, then the data lines; an error for a table without a
/// header.
fn rewrite(table: &Table, rows: Vec<String>) -> (r: Result<Outcome, SQLError>)
    ensures
        match rewritten(table@, Ok(rows.deep_view())) {
            Ok(o) => r matches Ok(v) && v@ == o,
            Err(e) => r matches Err(x) && x@ == e,
        },
{
    if table.lines.len() == 0 {
        return Err(SQLError::InvalidTable("Table is empty or corrupted".to_string()));
    }
    let mut lines: Vec<String> = Vec::new();
    lines.push(table.lines[0].clone());
    let mut rows = rows;
    let ghost tail = rows.deep_view();
    lines.append(&mut rows);
    proof {
        assert(lines.deep_view() =~= seq![table@[0]] + tail);
    }
    Ok(Outcome::Replace(lines))
}

/// Carries out a statement on a table. Nothing is written: the outcome says
/// what to print, to append, or to put in place of the table.
pub fn execute_query(query: SQLQuery, table: &Table) -> (r: Result<Outcome, SQLError>)
    requires
        query_defined(query@, table@),
    ensures
        match outcome_of(query@, table@) {
            Ok(o) => r matches Ok(v) && v@ == o,
            Err(e) => r matches Err(x) && x@ == e,
        },
{
    let schema = table.schema();
    let rows = table.rows();
    match query {
        SQLQuery::Select(select_query) => match execute_select(&select_query, &schema, rows) {
            Ok(lines) => Ok(Outcome::Rows(lines)),
            Err(e) => Err(e),
        },
        SQLQuery::Insert(insert_query) => match execute_insert(&insert_query, &schema) {
            Ok(line) => Ok(Outcome::Append(line)),
            Err(e) => Err(e),
        },
        SQLQuery::Update(update_query) => match execute_update(&update_query, &schema, rows) {
            Ok(lines) => rewrite(table, lines),
            Err(e) => Err(e),
        },
        SQLQuery::Delete(delete_query) => match execute_delete(&delete_query, &schema, rows) {
            Ok(lines) => rewrite(table, lines),
            Err(e) => Err(e),
        },
    }
}

/// The ordinal of the field that evaluating the predicate reads in a row, if
/// it reads one.
fn field_read(predicate: &Option<Expression>, schema: &TableSchema) -> (r: Option<usize>)
    ensures
        forall|row: Seq<Seq<char>>| #[trigger]
            readable(predicate.deep_view(), schema@, row) <==> (r matches Some(i) ==> i
                < row.len()),
{
    proof {
        reveal_with_fuel(crate::ast::expr_view, 2);
    }
    let r = match predicate {
        Some(Expression::BinaryOp { left, op, right }) => match (&**left, &**right) {
            (Expression::Column(name), Expression::Literal(_)) => schema.ordinal(name.as_str()),
            (Expression::Literal(_), Expression::Column(name)) => schema.ordinal(name.as_str()),
            _ => None,
        },
        _ => None,
    };
    r
}

/// The largest of the ordinals, if there is any.
fn largest(needed: &Vec<usize>) -> (r: Option<usize>)
    ensures
        forall|row: Seq<Seq<char>>| #[trigger]
            fits(row, as_ints(needed@)) <==> (r matches Some(m) ==> m < row.len()),
{
    let mut r: Option<usize> = None;
    let mut k: usize = 0;
    while k < needed.len()
        invariant
            k <= needed.len(),
            k > 0 ==> r is Some,
            forall|m: int| 0 <= m < k ==> #[trigger] needed[m] <= r.unwrap(),
            r is Some ==> exists|m: int| 0 <= m < k && #[trigger] needed[m] == r.unwrap(),
        decreases needed.len() - k,
    {
        let larger = match r {
            Some(top) => needed[k] > top,
            None => true,
        };
        if larger {
            r = Some(needed[k]);
        }
        k += 1;
    }
    proof {
        let all = as_ints(needed@);
        assert forall|row: Seq<Seq<char>>| #[trigger]
            fits(row, all) <==> (r matches Some(m) ==> m < row.len()) by {
            if let Some(top) = r {
                let w = choose|m: int| 0 <= m < needed.len() && #[trigger] needed[m] == top;
                assert(all[w] == top);
            }
        }
    }
    r
}

/// Whether a scan can read what it needs from every line it comes to.
fn scan_is_defined(
    predicate: &Option<Expression>,
    schema: &TableSchema,
    needed: &Vec<usize>,
    otherwise: bool,
    rows: &[String],
) -> (r: bool)
    ensures
        r == scan_defined(
            predicate.deep_view(),
            schema@,
            as_ints(needed@),
            otherwise,
            rows.deep_view(),
        ),
{
    let ghost lines = rows.deep_view();
    let ghost names = schema@;
    let ghost wanted = as_ints(needed@);
    let ghost p = predicate.deep_view();
    let read = field_read(predicate, schema);
    let top = largest(needed);
    let mut i: usize = 0;
    while i < rows.len()
        invariant
            i <= rows.len(),
            lines == rows.deep_view(),
            names == schema@,
            wanted == as_ints(needed@),
            p == predicate.deep_view(),
            forall|row: Seq<Seq<char>>| #[trigger]
                readable(p, names, row) <==> (read matches Some(o) ==> o < row.len()),
            forall|row: Seq<Seq<char>>| #[trigger]
                fits(row, wanted) <==> (top matches Some(m) ==> m < row.len()),
            i > 0 ==> fault(p, names) is None,
            forall|k: int|
                0 <= k < i ==> line_defined(p, names, wanted, otherwise, #[trigger] lines[k]),
        decreases rows.len() - i,
    {
        let fields = split_fields(rows[i].as_str());
        proof {
            assert(lines[i as int] == rows[i as int]@);
        }
        if let Some(o) = read {
            if o >= fields.len() {
                return false;
            }
        }
        match picks_row(predicate, schema, &fields, otherwise) {
            Ok(picked) => {
                if picked {
                    if let Some(m) = top {
                        if m >= fields.len() {
                            return false;
                        }
                    }
                }
            },
            Err(_) => {
                return true;
            },
        }
        i += 1;
    }
    true
}

/// Whether the statement finds in the table every field that it reads or
/// writes.
pub fn can_execute(query: &SQLQuery, table: &Table) -> (r: bool)
    ensures
        r == query_defined(query@, table@),
{
    let schema = table.schema();
    let rows = table.rows();
    match query {
        SQLQuery::Select(q) => match get_selected_indices(q, &schema) {
            Ok(selected) => scan_is_defined(&q.where_clause, &schema, &selected, true, rows),
            Err(_) => true,
        },
        SQLQuery::Insert(q) => {
            let all: Vec<String>;
            let columns = if q.columns.len() == 0 {
                all = column_names(&schema.ordinals(), &schema);
                &all
            } else {
                &q.columns
            };
            match resolve_columns(columns, &schema) {
                Ok(places) => {
                    if columns.len() != q.values.len() {
                        true
                    } else {
                        let width = schema.width();
                        let top = largest(&places);
                        match top {
                            Some(m) => m < width,
                            None => true,
                        }
                    }
                },
                Err(_) => true,
            }
        },
        SQLQuery::Update(q) => {
            let (columns, _) = unzip(&q.assignments);
            match resolve_columns(&columns, &schema) {
                Ok(places) => scan_is_defined(&q.where_clause, &schema, &places, false, rows),
                Err(_) => true,
            }
        },
        SQLQuery::Delete(q) => {
            let none: Vec<usize> = Vec::new();
            scan_is_defined(&q.where_clause, &schema, &none, false, rows)
        },
    }
}

/// Carries out a statement on a table, if the table has every field that the
/// statement reads or writes; `None` where a row is too short for it.
pub fn try_execute_query(query: SQLQuery, table: &Table) -> (r: Option<Result<Outcome, SQLError>>)
    ensures
        r is Some <==> query_defined(query@, table@),
        r matches Some(done) ==> match outcome_of(query@, table@) {
            Ok(o) => done matches Ok(v) && v@ == o,
            Err(e) => done matches Err(x) && x@ == e,
        },
{
    if can_execute(&query, table) {
        Some(execute_query(query, table))
    } else {
        None
    }
}

} // verus!
