//! Tables as the lines of their files, and the schema that the header line gives.

use vstd::prelude::*;
use crate::text::{split, split_fields, text_eq};

verus! {

/// What `str::trim_end` leaves of `s`: `s` without the white space at its end,
/// where white space is what Unicode calls so.
pub uninterp spec fn trim_end(s: Seq<char>) -> Seq<char>;

/// Taken on trust: `str::trim_end` of the standard library returns a slice that
/// depends on the characters of its argument alone. `trim_end` names its
/// characters; which characters are white space is left to the standard
/// library.
pub assume_specification<'a>[ str::trim_end ](s: &'a str) -> (r: &'a str)
    ensures
        r@ == trim_end(s@),
;

/// The ordinal of the column `name`: the position of the last header field of
/// that name. A name that occurs twice keeps its later position only.
pub open spec fn ordinal(names: Seq<Seq<char>>, name: Seq<char>) -> Option<int>
    decreases names.len(),
{
    if names.len() == 0 {
        None
    } else if names.last() == name {
        Some(names.len() - 1)
    } else {
        ordinal(names.drop_last(), name)
    }
}

/// Whether `i` is the ordinal of a column: no later header field has its name.
pub open spec fn is_ordinal(names: Seq<Seq<char>>, i: int) -> bool {
    0 <= i < names.len() && ordinal(names, names[i]) == Some(i)
}

/// The ordinals below `n`, ascending.
pub open spec fn ordinals_below(names: Seq<Seq<char>>, n: int) -> Seq<int>
    decreases n,
{
    if n <= 0 {
        Seq::empty()
    } else if is_ordinal(names, n - 1) {
        ordinals_below(names, n - 1).push(n - 1)
    } else {
        ordinals_below(names, n - 1)
    }
}

/// All ordinals of the schema, ascending.
pub open spec fn ordinals(names: Seq<Seq<char>>) -> Seq<int> {
    ordinals_below(names, names.len() as int)
}

/// The number of columns: of different names in the header.
pub open spec fn width(names: Seq<Seq<char>>) -> nat {
    ordinals(names).len()
}

/// What `ordinal` finds: the last position that holds the name, and nothing if
/// no position holds it.
pub proof fn lemma_ordinal(names: Seq<Seq<char>>, name: Seq<char>)
    ensures
        match ordinal(names, name) {
            Some(i) => 0 <= i < names.len() && names[i] == name && forall|j: int|
                i < j < names.len() ==> names[j] != name,
            None => forall|j: int| 0 <= j < names.len() ==> names[j] != name,
        },
    decreases names.len(),
{
    if names.len() > 0 && names.last() != name {
        let front = names.drop_last();
        lemma_ordinal(front, name);
        assert forall|j: int| 0 <= j < front.len() implies front[j] == names[j] by {}
    }
}

/// The position `i` is the ordinal of `name` if it holds the name and no later
/// position does.
pub proof fn lemma_ordinal_is(names: Seq<Seq<char>>, name: Seq<char>, i: int)
    requires
        0 <= i < names.len(),
        names[i] == name,
        forall|j: int| i < j < names.len() ==> names[j] != name,
    ensures
        ordinal(names, name) == Some(i),
{
    lemma_ordinal(names, name);
}

/// The ordinals below `n` are the positions below `n` that are ordinals, each
/// once and in ascending order.
pub proof fn lemma_ordinals_below(names: Seq<Seq<char>>, n: int)
    requires
        0 <= n <= names.len(),
    ensures
        ordinals_below(names, n).len() <= n,
        forall|k: int|
            0 <= k < ordinals_below(names, n).len() ==> 0 <= #[trigger] ordinals_below(names, n)[k]
                < n && is_ordinal(names, ordinals_below(names, n)[k]),
        forall|k: int, l: int|
            0 <= k < l < ordinals_below(names, n).len() ==> ordinals_below(names, n)[k]
                < ordinals_below(names, n)[l],
        forall|i: int|
            0 <= i < n && is_ordinal(names, i) ==> ordinals_below(names, n).contains(i),
    decreases n,
{
    if n > 0 {
        lemma_ordinals_below(names, n - 1);
        let before = ordinals_below(names, n - 1);
        let all = ordinals_below(names, n);
        assert forall|i: int| 0 <= i < n && is_ordinal(names, i) implies all.contains(i) by {
            if i < n - 1 {
                let k = choose|k: int| 0 <= k < before.len() && before[k] == i;
                assert(all[k] == i);
            } else {
                assert(all[all.len() - 1] == i);
            }
        }
    }
}

/// In a header without repeated names every position is an ordinal, and each
/// name has the position at which it stands.
pub proof fn lemma_ordinals_distinct(names: Seq<Seq<char>>, n: int)
    requires
        names.no_duplicates(),
        0 <= n <= names.len(),
    ensures
        ordinals_below(names, n) == Seq::new(n as nat, |i: int| i),
        forall|i: int| 0 <= i < names.len() ==> ordinal(names, #[trigger] names[i]) == Some(i),
    decreases n,
{
    assert forall|i: int| 0 <= i < names.len() implies ordinal(names, #[trigger] names[i])
        == Some(i) by {
        lemma_ordinal_is(names, names[i], i);
    }
    if n > 0 {
        lemma_ordinals_distinct(names, n - 1);
    }
}

/// The columns of a table: the fields of its header line, in order. The ordinal
/// of a column is the position of its name; rows are read by ordinal.
#[derive(Debug, PartialEq, Eq)]
pub struct TableSchema {
    pub columns: Vec<String>,
}

impl View for TableSchema {
    type V = Seq<Seq<char>>;

    open spec fn view(&self) -> Seq<Seq<char>> {
        self.columns.deep_view()
    }
}

impl TableSchema {
    /// The schema that a header line gives, once the white space at its end is
    /// taken off: one column for each comma-separated field.
    pub fn parse(header: &str) -> (schema: TableSchema)
        ensures
            schema@ == split(header@, ','),
    {
        TableSchema { columns: split_fields(header) }
    }

    /// The ordinal of the column `name`, if the table has it.
    pub fn ordinal(&self, name: &str) -> (r: Option<usize>)
        ensures
            match ordinal(self@, name@) {
                Some(i) => r == Some(i as usize) && 0 <= i < self.columns.len(),
                None => r is None,
            },
    {
        let mut i: usize = self.columns.len();
        while i > 0
            invariant
                i <= self.columns.len(),
                forall|j: int| i <= j < self.columns.len() ==> self@[j] != name@,
            decreases i,
        {
            i -= 1;
            if text_eq(self.columns[i].as_str(), name) {
                proof {
                    lemma_ordinal_is(self@, name@, i as int);
                }
                return Some(i);
            }
        }
        proof {
            lemma_ordinal(self@, name@);
        }
        None
    }

    /// Whether `i` is the ordinal of a column.
    pub fn is_ordinal(&self, i: usize) -> (r: bool)
        ensures
            r == is_ordinal(self@, i as int),
    {
        if i < self.columns.len() {
            let found = self.ordinal(self.columns[i].as_str());
            match found {
                Some(o) => o == i,
                None => false,
            }
        } else {
            false
        }
    }

    /// All ordinals, ascending.
    pub fn ordinals(&self) -> (r: Vec<usize>)
        ensures
            r@.map_values(|o: usize| o as int) == ordinals(self@),
            forall|k: int| 0 <= k < r.len() ==> r[k] < self.columns.len(),
    {
        let mut r: Vec<usize> = Vec::new();
        let mut i: usize = 0;
        while i < self.columns.len()
            invariant
                i <= self.columns.len(),
                r@.map_values(|o: usize| o as int) == ordinals_below(self@, i as int),
                forall|k: int| 0 <= k < r.len() ==> r[k] < self.columns.len(),
            decreases self.columns.len() - i,
        {
            if self.is_ordinal(i) {
                r.push(i);
            }
            i += 1;
        }
        r
    }

    /// The number of columns.
    pub fn width(&self) -> (r: usize)
        ensures
            r == width(self@),
    {
        let all = self.ordinals();
        all.len()
    }
}

/// The lines of a table file. The first line is the header; every other line is
/// a row of comma-separated fields.
#[derive(Debug, PartialEq, Eq)]
pub struct Table {
    pub lines: Vec<String>,
}

impl View for Table {
    type V = Seq<Seq<char>>;

    open spec fn view(&self) -> Seq<Seq<char>> {
        self.lines.deep_view()
    }
}

/// The header line of a table; the empty line where the file holds no line.
pub open spec fn header_of(lines: Seq<Seq<char>>) -> Seq<char> {
    if lines.len() > 0 {
        lines[0]
    } else {
        Seq::empty()
    }
}

/// The column names of a table: the fields of its header line without the white
/// space at its end.
pub open spec fn schema_of(lines: Seq<Seq<char>>) -> Seq<Seq<char>> {
    split(trim_end(header_of(lines)), ',')
}

/// The data lines of a table: all but the header.
pub open spec fn rows_of(lines: Seq<Seq<char>>) -> Seq<Seq<char>> {
    if lines.len() > 0 {
        lines.skip(1)
    } else {
        lines
    }
}

impl Table {
    /// The schema that the header line gives.
    pub fn schema(&self) -> (schema: TableSchema)
        ensures
            schema@ == schema_of(self@),
    {
        if self.lines.len() > 0 {
            TableSchema::parse(self.lines[0].as_str().trim_end())
        } else {
            proof {
                reveal_strlit("");
                assert(""@ =~= Seq::<char>::empty());
            }
            TableSchema::parse("".trim_end())
        }
    }

    /// The data lines.
    pub fn rows(&self) -> (rows: &[String])
        ensures
            rows.deep_view() == rows_of(self@),
    {
        let all = self.lines.as_slice();
        let rows = if all.len() > 0 {
            vstd::slice::slice_subrange(all, 1, all.len())
        } else {
            all
        };
        rows
    }
}

/// The path of the file that holds a table: `<tables_path>/<table>.csv`.
pub open spec fn table_path(tables_path: Seq<char>, table: Seq<char>) -> Seq<char> {
    tables_path + "/"@ + table + ".csv"@
}

/// The path of the file in which a table is rewritten before it replaces the
/// old one: `<tables_path>/<table>.tmp`.
pub open spec fn temporary_path(tables_path: Seq<char>, table: Seq<char>) -> Seq<char> {
    tables_path + "/"@ + table + ".tmp"@
}

/// The path of the file that holds a table.
pub fn table_file(tables_path: &str, table: &str) -> (path: String)
    ensures
        path@ == table_path(tables_path@, table@),
{
    let mut path = tables_path.to_string();
    path.append("/");
    path.append(table);
    path.append(".csv");
    path
}

/// The path of the file in which a table is rewritten.
pub fn temporary_file(tables_path: &str, table: &str) -> (path: String)
    ensures
        path@ == temporary_path(tables_path@, table@),
{
    let mut path = tables_path.to_string();
    path.append("/");
    path.append(table);
    path.append(".tmp");
    path
}

} // verus!
