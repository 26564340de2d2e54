//! What holds of every statement and every table.

use vstd::prelude::*;
use crate::ast::{DeleteView, ExprView, InsertView, QueryView, SelectView, UpdateView};
use crate::data::{lemma_ordinal, lemma_ordinals_distinct, ordinal, ordinals, rows_of, schema_of};
use crate::errors::{unknown_column, ErrorView};
use crate::predicate::{column_of, is_comparison};
use crate::semantics::{
    blank_row, delete_rows, filled, first_unknown, fits, headings, insert_columns, insert_line,
    new_values, not_picked, ordinals_of, outcome_of, output, picked, picks, project, projection,
    scan_error, select_output, selected_ordinals, sort_position, targets, update_rows, OutcomeView,
};
use crate::sort::{
    is_ordered, lemma_sorted_is_ordered, lemma_sorted_is_permutation, lemma_sorted_is_stable,
    sorted, with_key,
};
use crate::text::{free_of, join, lemma_split_join, split};

verus! {

/// A filter that every element passes keeps the sequence as it is.
pub proof fn lemma_filter_all<A>(s: Seq<A>, p: spec_fn(A) -> bool)
    requires
        forall|i: int| 0 <= i < s.len() ==> p(#[trigger] s[i]),
    ensures
        s.filter(p) == s,
    decreases s.len(),
{
    reveal(Seq::filter);
    if s.len() > 0 {
        lemma_filter_all(s.drop_last(), p);
    }
}

/// The first unknown column is one of the columns, unknown to the table, and
/// there is one as soon as any column is unknown.
pub proof fn lemma_first_unknown(columns: Seq<Seq<char>>, names: Seq<Seq<char>>)
    ensures
        match first_unknown(columns, names) {
            Some(c) => columns.contains(c) && ordinal(names, c) is None,
            None => forall|i: int|
                0 <= i < columns.len() ==> ordinal(names, #[trigger] columns[i]) is Some,
        },
    decreases columns.len(),
{
    if columns.len() > 0 {
        if ordinal(names, columns[0]) is Some {
            let rest = columns.drop_first();
            lemma_first_unknown(rest, names);
            match first_unknown(rest, names) {
                Some(c) => {
                    let i = choose|i: int| 0 <= i < rest.len() && rest[i] == c;
                    assert(columns[i + 1] == c);
                },
                None => {
                    assert forall|i: int| 0 <= i < columns.len() implies ordinal(
                        names,
                        #[trigger] columns[i],
                    ) is Some by {
                        if i > 0 {
                            assert(rest[i - 1] == columns[i]);
                        }
                    }
                },
            }
        }
    }
}

/// A SELECT without WHERE and ORDER BY prints the names of the selected
/// columns and then every data row of the table, cut down to these columns,
/// in the order of the table.
pub proof fn lemma_select_all_rows(q: SelectView, names: Seq<Seq<char>>, rows: Seq<Seq<char>>)
    requires
        q.where_clause is None,
        q.order_by is None,
    ensures
        match selected_ordinals(q.columns, names) {
            Ok(selected) => select_output(q, names, rows) matches Ok(out) && out.len()
                == rows.len() + 1 && out[0] == join(headings(selected, names), ',')
                && forall|i: int|
                0 <= i < rows.len() ==> #[trigger] out[i + 1] == join(
                    project(split(rows[i], ','), selected),
                    ',',
                ),
            Err(e) => select_output(q, names, rows) == Err::<Seq<Seq<char>>, ErrorView>(e),
        },
{
    if let Ok(selected) = selected_ordinals(q.columns, names) {
        let keep = picked(q.where_clause, names, true);
        lemma_filter_all(rows, keep);
    }
}

/// Filling keeps the length of the row.
pub proof fn lemma_filled_len(row: Seq<Seq<char>>, places: Seq<int>, values: Seq<Seq<char>>)
    requires
        fits(row, places),
    ensures
        filled(row, places, values).len() == row.len(),
    decreases places.len(),
{
    if places.len() > 0 {
        let front = places.drop_last();
        lemma_filled_len(row, front, values);
    }
}

/// Filling leaves a field as it was where no place names its ordinal.
pub proof fn lemma_filled_elsewhere(
    row: Seq<Seq<char>>,
    places: Seq<int>,
    values: Seq<Seq<char>>,
    o: int,
)
    requires
        fits(row, places),
        0 <= o < row.len(),
        forall|k: int| 0 <= k < places.len() ==> places[k] != o,
    ensures
        filled(row, places, values)[o] == row[o],
    decreases places.len(),
{
    if places.len() > 0 {
        let front = places.drop_last();
        lemma_filled_elsewhere(row, front, values, o);
        lemma_filled_len(row, front, values);
    }
}

/// Filling puts the value of a place at its ordinal, unless a later place
/// names the same ordinal.
pub proof fn lemma_filled_at(
    row: Seq<Seq<char>>,
    places: Seq<int>,
    values: Seq<Seq<char>>,
    k: int,
)
    requires
        fits(row, places),
        0 <= k < places.len(),
        forall|l: int| k < l < places.len() ==> places[l] != places[k],
    ensures
        filled(row, places, values)[places[k]] == values[k],
    decreases places.len(),
{
    let front = places.drop_last();
    lemma_filled_len(row, front, values);
    if k < places.len() - 1 {
        lemma_filled_at(row, front, values, k);
    }
}

/// Every field of a filled row is free of a separator that neither the row
/// nor the values held.
pub proof fn lemma_filled_free_of(
    row: Seq<Seq<char>>,
    places: Seq<int>,
    values: Seq<Seq<char>>,
    sep: char,
)
    requires
        fits(row, places),
        places.len() <= values.len(),
        free_of(row, sep),
        free_of(values, sep),
    ensures
        free_of(filled(row, places, values), sep),
        filled(row, places, values).len() == row.len(),
    decreases places.len(),
{
    if places.len() > 0 {
        let front = places.drop_last();
        lemma_filled_free_of(row, front, values, sep);
    }
}

/// After an INSERT, `SELECT *` shows the new row last: its output is the
/// output from before and then the line that the INSERT appended. The new row
/// holds, at the ordinal of each listed column, the value given for it, and
/// the empty text at every other ordinal.
///
/// This is stated for a table with a header whose names differ from each
/// other, and for values without a comma: a comma in a value would split it
/// into two fields when the line is read again.
pub proof fn lemma_insert_then_select_all(
    q: InsertView,
    star: SelectView,
    lines: Seq<Seq<char>>,
)
    requires
        lines.len() > 0,
        schema_of(lines).no_duplicates(),
        free_of(q.values, ','),
        insert_line(q, schema_of(lines)) is Ok,
        star.columns == seq!["*"@],
        star.where_clause is None,
        star.order_by is None,
    ensures
        ({
            let names = schema_of(lines);
            let line = insert_line(q, names)->Ok_0;
            let places = ordinals_of(insert_columns(q, names), names);
            let row = split(line, ',');
            &&& schema_of(lines.push(line)) == names
            &&& rows_of(lines.push(line)) == rows_of(lines).push(line)
            &&& select_output(star, names, rows_of(lines)) matches Ok(before)
            &&& select_output(star, names, rows_of(lines.push(line))) == Ok::<
                Seq<Seq<char>>,
                ErrorView,
            >(before.push(line))
            &&& row.len() == names.len()
            &&& forall|o: int|
                0 <= o < row.len() && (forall|k: int| 0 <= k < places.len() ==> places[k] != o)
                    ==> #[trigger] row[o] == Seq::<char>::empty()
            &&& forall|k: int|
                0 <= k < places.len() && (forall|l: int| k < l < places.len() ==> places[l]
                    != places[k]) ==> row[#[trigger] places[k]] == q.values[k]
        }),
{
    let names = schema_of(lines);
    let line = insert_line(q, names)->Ok_0;
    let columns = insert_columns(q, names);
    let places = ordinals_of(columns, names);
    let blank = blank_row(names);
    let new_row = filled(blank, places, q.values);
    let rows = rows_of(lines);
    // the schema is that of a header without repeated names
    lemma_ordinals_distinct(names, names.len() as int);
    // every listed column has its place in the new row
    lemma_first_unknown(columns, names);
    assert forall|k: int| 0 <= k < places.len() implies 0 <= #[trigger] places[k]
        < blank.len() by {
        lemma_ordinal(names, columns[k]);
    }
    // the new row comes back from its line
    lemma_filled_free_of(blank, places, q.values, ',');
    lemma_split_join(new_row, ',');
    assert forall|o: int|
        0 <= o < new_row.len() && (forall|k: int|
            0 <= k < places.len() ==> places[k] != o) implies #[trigger] new_row[o] == Seq::<
        char,
    >::empty() by {
        lemma_filled_elsewhere(blank, places, q.values, o);
    }
    assert forall|k: int|
        0 <= k < places.len() && (forall|l: int|
            k < l < places.len() ==> places[l] != places[k]) implies new_row[#[trigger] places[k]]
        == q.values[k] by {
        lemma_filled_at(blank, places, q.values, k);
    }
    // SELECT * on the table before and after the INSERT
    let selected = ordinals(names);
    lemma_select_all_rows(star, names, rows);
    lemma_select_all_rows(star, names, rows.push(line));
    let before = select_output(star, names, rows)->Ok_0;
    let out = select_output(star, names, rows.push(line))->Ok_0;
    assert(project(new_row, selected) =~= new_row);
    assert(out =~= before.push(line)) by {
        assert forall|i: int| 0 <= i < out.len() implies out[i] == before.push(line)[i] by {
            if 0 < i {
                assert(out[(i - 1) + 1] == join(
                    project(split(rows.push(line)[i - 1], ','), selected),
                    ',',
                ));
            }
        }
    }
}

/// An UPDATE keeps the number of lines and the header. A data line that its
/// predicate holds of comes out with the new values at the ordinals of the
/// assigned columns; every other data line comes out as it was. Without a
/// WHERE clause every line comes out as it was.
pub proof fn lemma_update_outcome(q: UpdateView, lines: Seq<Seq<char>>)
    requires
        outcome_of(QueryView::Update(q), lines) is Ok,
    ensures
        ({
            let names = schema_of(lines);
            &&& outcome_of(QueryView::Update(q), lines) matches Ok(OutcomeView::Replace(out))
            &&& out.len() == lines.len()
            &&& out[0] == lines[0]
            &&& forall|i: int|
                1 <= i < lines.len() ==> #[trigger] out[i] == if picks(
                    q.where_clause,
                    names,
                    split(lines[i], ','),
                    false,
                ) {
                    join(
                        filled(
                            split(lines[i], ','),
                            ordinals_of(targets(q.assignments), names),
                            new_values(q.assignments),
                        ),
                        ',',
                    )
                } else {
                    lines[i]
                }
            &&& q.where_clause is None ==> out == lines
        }),
{
}

/// A DELETE keeps the header and, in their order, exactly the data lines that
/// its predicate does not hold of. Without a WHERE clause it keeps every
/// line.
pub proof fn lemma_delete_outcome(q: DeleteView, lines: Seq<Seq<char>>)
    requires
        outcome_of(QueryView::Delete(q), lines) is Ok,
    ensures
        ({
            let names = schema_of(lines);
            let stay = not_picked(q.where_clause, names, false);
            &&& outcome_of(QueryView::Delete(q), lines) matches Ok(OutcomeView::Replace(out))
            &&& out[0] == lines[0]
            &&& out.skip(1) == lines.skip(1).filter(stay)
            &&& forall|i: int| 1 <= i < out.len() ==> stay(#[trigger] out[i])
            &&& forall|i: int|
                1 <= i < lines.len() && stay(lines[i]) ==> out.skip(1).contains(
                    #[trigger] lines[i],
                )
            &&& q.where_clause is None ==> out == lines
        }),
{
    let names = schema_of(lines);
    let rows = rows_of(lines);
    let stay = not_picked(q.where_clause, names, false);
    let kept = delete_rows(q, names, rows)->Ok_0;
    let out = seq![lines[0]] + kept;
    assert(out.skip(1) =~= kept);
    assert forall|i: int| 1 <= i < lines.len() && stay(lines[i]) implies out.skip(1).contains(
        #[trigger] lines[i],
    ) by {
        rows.lemma_filter_contains(stay, i - 1);
    }
    if q.where_clause is None {
        lemma_filter_all(rows, stay);
    }
}

/// A SELECT with ORDER BY prints the rows that the same SELECT finds without
/// it, sorted by the text of the named column: no row stands behind one that
/// it sorts before, every row is there as often as it was found, and rows
/// with equal text in that column stand in the order of the table.
pub proof fn lemma_select_sorted(
    q: SelectView,
    names: Seq<Seq<char>>,
    rows: Seq<Seq<char>>,
    key: Seq<char>,
)
    requires
        q.order_by is Some,
        select_output(q, names, rows) is Ok,
    ensures
        ({
            let order = q.order_by.unwrap();
            let selected = selected_ordinals(q.columns, names)->Ok_0;
            let found = rows.filter(picked(q.where_clause, names, true)).map_values(
                projection(selected),
            );
            let p = sort_position(order, selected, names)->Ok_0;
            let result = sorted(found, p, order.ascending);
            &&& sort_position(order, selected, names) is Ok
            &&& select_output(q, names, rows) == Ok::<Seq<Seq<char>>, ErrorView>(
                output(selected, names, result),
            )
            &&& is_ordered(result, p, order.ascending)
            &&& result.to_multiset() == found.to_multiset()
            &&& result.filter(with_key(p, key)) == found.filter(with_key(p, key))
        }),
{
    let order = q.order_by.unwrap();
    let selected = selected_ordinals(q.columns, names)->Ok_0;
    let found = rows.filter(picked(q.where_clause, names, true)).map_values(projection(selected));
    let p = sort_position(order, selected, names)->Ok_0;
    lemma_sorted_is_ordered(found, p, order.ascending);
    lemma_sorted_is_permutation(found, p, order.ascending);
    lemma_sorted_is_stable(found, p, order.ascending, key);
}

/// A SELECT list that names a column which the table does not have ends in
/// the error of the first such column, whatever else the statement says.
pub proof fn lemma_unknown_selected_column(
    q: SelectView,
    names: Seq<Seq<char>>,
    rows: Seq<Seq<char>>,
    i: int,
)
    requires
        0 <= i < q.columns.len(),
        ordinal(names, q.columns[i]) is None,
        !(q.columns.len() == 1 && q.columns[0] == "*"@),
    ensures
        first_unknown(q.columns, names) matches Some(c) && select_output(q, names, rows) == Err::<
            Seq<Seq<char>>,
            ErrorView,
        >(unknown_column(c)),
{
    lemma_first_unknown(q.columns, names);
}

/// Whether the predicate compares a column that the table does not have.
pub open spec fn reads_unknown_column(predicate: Option<ExprView>, names: Seq<Seq<char>>) -> bool {
    predicate matches Some(e) && is_comparison(e) && ordinal(names, column_of(e)) is None
}

/// A predicate on a column that the table does not have ends a SELECT on a
/// table with at least one data row in the error of that column, once the
/// SELECT list has passed. A table without data rows never meets the predicate.
pub proof fn lemma_unknown_predicate_column_in_select(
    q: SelectView,
    names: Seq<Seq<char>>,
    rows: Seq<Seq<char>>,
)
    requires
        reads_unknown_column(q.where_clause, names),
        selected_ordinals(q.columns, names) is Ok,
        rows.len() > 0,
    ensures
        select_output(q, names, rows) == Err::<Seq<Seq<char>>, ErrorView>(
            unknown_column(column_of(q.where_clause.unwrap())),
        ),
{
}

/// A predicate on a column that the table does not have ends an UPDATE of a
/// table with at least one data row in the error of that column, once the
/// assignments have passed.
pub proof fn lemma_unknown_predicate_column_in_update(
    q: UpdateView,
    names: Seq<Seq<char>>,
    rows: Seq<Seq<char>>,
)
    requires
        reads_unknown_column(q.where_clause, names),
        first_unknown(targets(q.assignments), names) is None,
        rows.len() > 0,
    ensures
        update_rows(q, names, rows) == Err::<Seq<Seq<char>>, ErrorView>(
            unknown_column(column_of(q.where_clause.unwrap())),
        ),
{
}

/// A predicate on a column that the table does not have ends a DELETE from a
/// table with at least one data row in the error of that column.
pub proof fn lemma_unknown_predicate_column_in_delete(
    q: DeleteView,
    names: Seq<Seq<char>>,
    rows: Seq<Seq<char>>,
)
    requires
        reads_unknown_column(q.where_clause, names),
        rows.len() > 0,
    ensures
        delete_rows(q, names, rows) == Err::<Seq<Seq<char>>, ErrorView>(
            unknown_column(column_of(q.where_clause.unwrap())),
        ),
{
}

/// An ORDER BY on a column that the table does not have ends a SELECT in the
/// error of that column, once the SELECT list and the scan have passed.
pub proof fn lemma_unknown_order_column(q: SelectView, names: Seq<Seq<char>>, rows: Seq<Seq<char>>)
    requires
        q.order_by matches Some(o) && ordinal(names, o.column) is None,
        selected_ordinals(q.columns, names) is Ok,
        scan_error(q.where_clause, names, rows.len()) is None,
    ensures
        select_output(q, names, rows) == Err::<Seq<Seq<char>>, ErrorView>(
            unknown_column(q.order_by.unwrap().column),
        ),
{
}

/// A statement that ends in an error has no outcome, and a SELECT has no
/// other outcome than lines to print: neither changes the table.
pub proof fn lemma_select_changes_nothing(q: SelectView, lines: Seq<Seq<char>>)
    ensures
        outcome_of(QueryView::Select(q), lines) matches Ok(o) ==> o is Rows,
{
}

} // verus!
