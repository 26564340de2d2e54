//! Stable sorting of rows by the text of one field.

use vstd::prelude::*;
use vstd::seq_lib::*;
use crate::text::{
    lemma_precedes_asymmetric, lemma_precedes_irreflexive, lemma_precedes_total,
    lemma_precedes_transitive, precedes, text_precedes,
};

verus! {

/// Whether a row with key `a` has to stand before a row with key `b`.
pub open spec fn before(a: Seq<char>, b: Seq<char>, ascending: bool) -> bool {
    if ascending {
        precedes(a, b)
    } else {
        precedes(b, a)
    }
}

/// Where a row with key `key` goes into the sorted `rows`: behind every row
/// that does not have to stand after it.
pub open spec fn insertion_point(
    rows: Seq<Seq<Seq<char>>>,
    key: Seq<char>,
    pos: int,
    ascending: bool,
) -> int
    decreases rows.len(),
{
    if rows.len() > 0 && before(key, rows.last()[pos], ascending) {
        insertion_point(rows.drop_last(), key, pos, ascending)
    } else {
        rows.len() as int
    }
}

/// `rows` sorted by the field at `pos`, in lexicographic order of its text or in
/// the reverse of it. Rows with equal keys keep the order they had.
pub open spec fn sorted(rows: Seq<Seq<Seq<char>>>, pos: int, ascending: bool) -> Seq<
    Seq<Seq<char>>,
>
    decreases rows.len(),
{
    if rows.len() == 0 {
        rows
    } else {
        let front = sorted(rows.drop_last(), pos, ascending);
        front.insert(insertion_point(front, rows.last()[pos], pos, ascending), rows.last())
    }
}

/// Whether no row has to stand before an earlier one.
pub open spec fn is_ordered(rows: Seq<Seq<Seq<char>>>, pos: int, ascending: bool) -> bool {
    forall|i: int, j: int|
        0 <= i < j < rows.len() ==> !before(
            (#[trigger] rows[j])[pos],
            (#[trigger] rows[i])[pos],
            ascending,
        )
}

/// The rows whose field at `pos` is `key`.
pub open spec fn with_key(pos: int, key: Seq<char>) -> spec_fn(Seq<Seq<char>>) -> bool {
    |row: Seq<Seq<char>>| row[pos] == key
}

/// The insertion point lies within the rows; the rows from it on have to stand
/// after the key, and the row before it does not.
pub proof fn lemma_insertion_point(
    rows: Seq<Seq<Seq<char>>>,
    key: Seq<char>,
    pos: int,
    ascending: bool,
)
    ensures
        0 <= insertion_point(rows, key, pos, ascending) <= rows.len(),
        forall|k: int|
            insertion_point(rows, key, pos, ascending) <= k < rows.len() ==> before(
                key,
                (#[trigger] rows[k])[pos],
                ascending,
            ),
        insertion_point(rows, key, pos, ascending) > 0 ==> !before(
            key,
            rows[insertion_point(rows, key, pos, ascending) - 1][pos],
            ascending,
        ),
    decreases rows.len(),
{
    if rows.len() > 0 && before(key, rows.last()[pos], ascending) {
        lemma_insertion_point(rows.drop_last(), key, pos, ascending);
        let j = insertion_point(rows, key, pos, ascending);
        assert forall|k: int| j <= k < rows.len() implies before(
            key,
            (#[trigger] rows[k])[pos],
            ascending,
        ) by {
            if k < rows.len() - 1 {
                assert(rows.drop_last()[k] == rows[k]);
            }
        }
        if j > 0 {
            assert(rows.drop_last()[j - 1] == rows[j - 1]);
        }
    }
}

/// If `c` need not stand after `b`, nor `b` after `a`, then `c` need not stand
/// after `a`.
pub proof fn lemma_not_before_transitive(
    a: Seq<char>,
    b: Seq<char>,
    c: Seq<char>,
    ascending: bool,
)
    requires
        !before(b, a, ascending),
        !before(c, b, ascending),
    ensures
        !before(c, a, ascending),
{
    lemma_precedes_total(a, b);
    lemma_precedes_total(b, c);
    if ascending {
        if precedes(c, a) {
            if a != b && b != c {
                lemma_precedes_transitive(b, c, a);
            }
        }
    } else {
        if precedes(a, c) {
            if a != b && b != c {
                lemma_precedes_transitive(a, c, b);
            }
        }
    }
}

/// Sorted rows are in order: no row has to stand before an earlier one.
pub proof fn lemma_sorted_is_ordered(rows: Seq<Seq<Seq<char>>>, pos: int, ascending: bool)
    ensures
        is_ordered(sorted(rows, pos, ascending), pos, ascending),
        sorted(rows, pos, ascending).len() == rows.len(),
    decreases rows.len(),
{
    if rows.len() > 0 {
        let front = sorted(rows.drop_last(), pos, ascending);
        let row = rows.last();
        let key = row[pos];
        let j = insertion_point(front, key, pos, ascending);
        let all = sorted(rows, pos, ascending);
        lemma_sorted_is_ordered(rows.drop_last(), pos, ascending);
        lemma_insertion_point(front, key, pos, ascending);
        assert(all == front.insert(j, row));
        assert forall|a: int, b: int| 0 <= a < b < all.len() implies !before(
            (#[trigger] all[b])[pos],
            (#[trigger] all[a])[pos],
            ascending,
        ) by {
            if b < j {
                assert(all[a] == front[a] && all[b] == front[b]);
            } else if b == j {
                assert(all[a] == front[a]);
                // front[a] does not come after front[j - 1], which does not come after the row
                if a < j - 1 {
                    assert(!before(front[j - 1][pos], front[a][pos], ascending));
                    lemma_not_before_transitive(front[a][pos], front[j - 1][pos], key, ascending);
                }
            } else if a < j {
                assert(all[a] == front[a] && all[b] == front[b - 1]);
            } else if a == j {
                assert(all[b] == front[b - 1]);
                assert(before(key, front[b - 1][pos], ascending));
                lemma_precedes_asymmetric(key, front[b - 1][pos]);
            } else {
                assert(all[a] == front[a - 1] && all[b] == front[b - 1]);
            }
        }
    }
}

/// Sorting keeps the rows: each row occurs as often as before.
pub proof fn lemma_sorted_is_permutation(rows: Seq<Seq<Seq<char>>>, pos: int, ascending: bool)
    ensures
        sorted(rows, pos, ascending).to_multiset() == rows.to_multiset(),
    decreases rows.len(),
{
    if rows.len() > 0 {
        let front = sorted(rows.drop_last(), pos, ascending);
        let row = rows.last();
        let j = insertion_point(front, row[pos], pos, ascending);
        lemma_sorted_is_permutation(rows.drop_last(), pos, ascending);
        lemma_insertion_point(front, row[pos], pos, ascending);
        to_multiset_insert(front, j, row);
        to_multiset_build(rows.drop_last(), row);
        assert(rows.drop_last().push(row) =~= rows);
    }
}

/// Sorting is stable: the rows with one key stand in the order they had.
pub proof fn lemma_sorted_is_stable(
    rows: Seq<Seq<Seq<char>>>,
    pos: int,
    ascending: bool,
    key: Seq<char>,
)
    ensures
        sorted(rows, pos, ascending).filter(with_key(pos, key)) == rows.filter(with_key(pos, key)),
    decreases rows.len(),
{
    if rows.len() > 0 {
        let p = with_key(pos, key);
        let front = sorted(rows.drop_last(), pos, ascending);
        let row = rows.last();
        let j = insertion_point(front, row[pos], pos, ascending);
        lemma_sorted_is_stable(rows.drop_last(), pos, ascending, key);
        lemma_insertion_point(front, row[pos], pos, ascending);
        let head = front.subrange(0, j);
        let tail = front.subrange(j, front.len() as int);
        assert(front =~= head + tail);
        assert(front.insert(j, row) =~= head.push(row) + tail);
        Seq::filter_distributes_over_add(head, tail, p);
        Seq::filter_distributes_over_add(head.push(row), tail, p);
        Seq::lemma_filter_push(head, row, p);
        Seq::lemma_filter_push(rows.drop_last(), row, p);
        assert(rows.drop_last().push(row) =~= rows);
        if p(row) {
            // every row behind the insertion point has another key
            assert forall|k: int| 0 <= k < tail.len() implies !p(#[trigger] tail[k]) by {
                assert(tail[k] == front[j + k]);
                assert(before(row[pos], front[j + k][pos], ascending));
                lemma_precedes_irreflexive(key);
            }
            tail.lemma_all_neg_filter_empty(p);
            assert(head.filter(p).push(row) + tail.filter(p) =~= (head.filter(p) + tail.filter(
                p,
            )).push(row));
        }
    }
}

/// Whether `a` and `b` hold, for every key, the same rows with that key in the
/// same order.
pub open spec fn same_by_key(a: Seq<Seq<Seq<char>>>, b: Seq<Seq<Seq<char>>>, pos: int) -> bool {
    forall|key: Seq<char>| #[trigger] a.filter(with_key(pos, key)) == b.filter(with_key(pos, key))
}

/// The last row of `rows` has the key of the last row of `other`, if both are
/// in order and hold the same rows by key.
proof fn lemma_last_keys_agree(
    rows: Seq<Seq<Seq<char>>>,
    other: Seq<Seq<Seq<char>>>,
    pos: int,
    ascending: bool,
)
    requires
        rows.len() > 0,
        other.len() > 0,
        is_ordered(rows, pos, ascending),
        same_by_key(rows, other, pos),
    ensures
        !before(rows.last()[pos], other.last()[pos], ascending),
{
    // the last row of `other` stands somewhere in `rows`, not behind the last
    let y = other.last();
    let p = with_key(pos, y[pos]);
    other.lemma_filter_contains(p, other.len() - 1);
    assert(rows.filter(p) == other.filter(p));
    rows.lemma_filter_contains_rev(p, y);
    let i = choose|i: int| 0 <= i < rows.len() && rows[i] == y;
    if i < rows.len() - 1 {
        assert(!before(rows[rows.len() - 1][pos], rows[i][pos], ascending));
    } else {
        lemma_precedes_irreflexive(y[pos]);
    }
}

/// Two arrangements that are both in order and hold the same rows by key are
/// one and the same.
pub proof fn lemma_ordered_is_unique(
    a: Seq<Seq<Seq<char>>>,
    b: Seq<Seq<Seq<char>>>,
    pos: int,
    ascending: bool,
)
    requires
        is_ordered(a, pos, ascending),
        is_ordered(b, pos, ascending),
        same_by_key(a, b, pos),
    ensures
        a == b,
    decreases a.len(),
{
    reveal(Seq::filter);
    if a.len() == 0 {
        if b.len() > 0 {
            let p = with_key(pos, b[0][pos]);
            b.lemma_filter_contains(p, 0);
            assert(a.filter(p) == b.filter(p));
        }
        assert(a =~= b);
    } else if b.len() == 0 {
        let p = with_key(pos, a[0][pos]);
        a.lemma_filter_contains(p, 0);
        assert(a.filter(p) == b.filter(p));
    } else {
        let x = a.last();
        let y = b.last();
        assert(same_by_key(b, a, pos)) by {
            assert forall|key: Seq<char>| #[trigger]
                b.filter(with_key(pos, key)) == a.filter(with_key(pos, key)) by {
                assert(a.filter(with_key(pos, key)) == b.filter(with_key(pos, key)));
            }
        }
        lemma_last_keys_agree(a, b, pos, ascending);
        lemma_last_keys_agree(b, a, pos, ascending);
        lemma_precedes_total(x[pos], y[pos]);
        assert(x[pos] == y[pos]);
        let p = with_key(pos, x[pos]);
        assert(a.filter(p) == b.filter(p));
        assert(a.filter(p).last() == x);
        assert(b.filter(p).last() == y);
        assert(x == y);
        let front_a = a.drop_last();
        let front_b = b.drop_last();
        assert forall|key: Seq<char>| #[trigger]
            front_a.filter(with_key(pos, key)) == front_b.filter(with_key(pos, key)) by {
            let q = with_key(pos, key);
            assert(a.filter(q) == b.filter(q));
            if q(x) {
                assert(a.filter(q).drop_last() == front_a.filter(q));
                assert(b.filter(q).drop_last() == front_b.filter(q));
            }
        }
        assert(is_ordered(front_a, pos, ascending)) by {
            assert forall|i: int, j: int| 0 <= i < j < front_a.len() implies !before(
                (#[trigger] front_a[j])[pos],
                (#[trigger] front_a[i])[pos],
                ascending,
            ) by {
                assert(front_a[i] == a[i] && front_a[j] == a[j]);
            }
        }
        assert(is_ordered(front_b, pos, ascending)) by {
            assert forall|i: int, j: int| 0 <= i < j < front_b.len() implies !before(
                (#[trigger] front_b[j])[pos],
                (#[trigger] front_b[i])[pos],
                ascending,
            ) by {
                assert(front_b[i] == b[i] && front_b[j] == b[j]);
            }
        }
        lemma_ordered_is_unique(front_a, front_b, pos, ascending);
        assert(a =~= front_a.push(x));
        assert(b =~= front_b.push(y));
    }
}

/// Sorting gives the one arrangement of the rows that is in order and keeps,
/// for every key, the rows with that key in the order they had.
pub proof fn lemma_sorted_is_unique(
    rows: Seq<Seq<Seq<char>>>,
    out: Seq<Seq<Seq<char>>>,
    pos: int,
    ascending: bool,
)
    requires
        is_ordered(out, pos, ascending),
        same_by_key(out, rows, pos),
    ensures
        out == sorted(rows, pos, ascending),
{
    let all = sorted(rows, pos, ascending);
    lemma_sorted_is_ordered(rows, pos, ascending);
    assert forall|key: Seq<char>| #[trigger]
        out.filter(with_key(pos, key)) == all.filter(with_key(pos, key)) by {
        lemma_sorted_is_stable(rows, pos, ascending, key);
        assert(out.filter(with_key(pos, key)) == rows.filter(with_key(pos, key)));
    }
    lemma_ordered_is_unique(out, all, pos, ascending);
}

/// Whether a row with key `a` has to stand before a row with key `b`.
pub fn stands_before(a: &str, b: &str, ascending: bool) -> (r: bool)
    ensures
        r == before(a@, b@, ascending),
{
    if ascending {
        text_precedes(a, b)
    } else {
        text_precedes(b, a)
    }
}

/// Rows in order stay in order with one more row in front that no row has to
/// stand before.
pub proof fn lemma_prepend_keeps_order(
    row: Seq<Seq<char>>,
    rows: Seq<Seq<Seq<char>>>,
    pos: int,
    ascending: bool,
)
    requires
        is_ordered(rows, pos, ascending),
        rows.len() > 0 ==> !before(rows[0][pos], row[pos], ascending),
    ensures
        is_ordered(seq![row] + rows, pos, ascending),
{
    let all = seq![row] + rows;
    assert forall|i: int, j: int| 0 <= i < j < all.len() implies !before(
        (#[trigger] all[j])[pos],
        (#[trigger] all[i])[pos],
        ascending,
    ) by {
        assert(all[j] == rows[j - 1]);
        if i > 0 {
            assert(all[i] == rows[i - 1]);
        } else if j > 1 {
            assert(!before(rows[j - 1][pos], rows[0][pos], ascending));
            lemma_not_before_transitive(row[pos], rows[0][pos], rows[j - 1][pos], ascending);
        }
    }
}

/// Merges two arrangements that are in order into one. Of two rows with equal
/// keys the one from `left` comes first.
fn merge(left: Vec<Vec<String>>, right: Vec<Vec<String>>, pos: usize, ascending: bool) -> (out:
    Vec<Vec<String>>)
    requires
        left.len() + right.len() <= usize::MAX,
        forall|i: int| 0 <= i < left.len() ==> pos < (#[trigger] left[i]).len(),
        forall|i: int| 0 <= i < right.len() ==> pos < (#[trigger] right[i]).len(),
        is_ordered(left.deep_view(), pos as int, ascending),
        is_ordered(right.deep_view(), pos as int, ascending),
    ensures
        forall|i: int| 0 <= i < out.len() ==> pos < (#[trigger] out[i]).len(),
        is_ordered(out.deep_view(), pos as int, ascending),
        forall|key: Seq<char>| #[trigger]
            out.deep_view().filter(with_key(pos as int, key)) == left.deep_view().filter(
                with_key(pos as int, key),
            ) + right.deep_view().filter(with_key(pos as int, key)),
{
    let ghost l_rows = left.deep_view();
    let ghost r_rows = right.deep_view();
    let ghost l_all = left@;
    let ghost r_all = right@;
    let mut left = left;
    let mut right = right;
    let n = left.len() + right.len();
    // the rows are put in from the back, over empty rows that hold their places
    let mut out: Vec<Vec<String>> = Vec::new();
    while out.len() < n
        invariant
            out.len() <= n,
        decreases n - out.len(),
    {
        out.push(Vec::new());
    }
    let mut k: usize = n;
    proof {
        assert(out.deep_view().skip(k as int) =~= Seq::empty());
        assert(l_rows.skip(l_rows.len() as int) =~= Seq::empty());
        assert(r_rows.skip(r_rows.len() as int) =~= Seq::empty());
        assert forall|key: Seq<char>| #[trigger]
            out.deep_view().skip(k as int).filter(with_key(pos as int, key)) == l_rows.skip(
                left.len() as int,
            ).filter(with_key(pos as int, key)) + r_rows.skip(right.len() as int).filter(
                with_key(pos as int, key),
            ) by {
            reveal(Seq::filter);
        }
    }
    while k > 0
        invariant
            l_rows.len() == l_all.len(),
            r_rows.len() == r_all.len(),
            forall|m: int| 0 <= m < l_all.len() ==> #[trigger] l_rows[m] == l_all[m].deep_view(),
            forall|m: int| 0 <= m < r_all.len() ==> #[trigger] r_rows[m] == r_all[m].deep_view(),
            forall|m: int| 0 <= m < l_all.len() ==> pos < (#[trigger] l_all[m]).len(),
            forall|m: int| 0 <= m < r_all.len() ==> pos < (#[trigger] r_all[m]).len(),
            is_ordered(l_rows, pos as int, ascending),
            is_ordered(r_rows, pos as int, ascending),
            left.len() <= l_all.len(),
            right.len() <= r_all.len(),
            left@ == l_all.take(left.len() as int),
            right@ == r_all.take(right.len() as int),
            k == left.len() + right.len(),
            out.len() == n,
            n == l_all.len() + r_all.len(),
            forall|m: int| k <= m < n ==> pos < (#[trigger] out[m]).len(),
            is_ordered(out.deep_view().skip(k as int), pos as int, ascending),
            k < n && left.len() > 0 ==> !before(
                out.deep_view()[k as int][pos as int],
                l_rows[left.len() - 1][pos as int],
                ascending,
            ),
            k < n && right.len() > 0 ==> !before(
                out.deep_view()[k as int][pos as int],
                r_rows[right.len() - 1][pos as int],
                ascending,
            ),
            forall|a: int, b: int|
                left.len() <= a < l_all.len() && 0 <= b < right.len() ==> before(
                    (#[trigger] r_rows[b])[pos as int],
                    (#[trigger] l_rows[a])[pos as int],
                    ascending,
                ),
            forall|key: Seq<char>| #[trigger]
                out.deep_view().skip(k as int).filter(with_key(pos as int, key)) == l_rows.skip(
                    left.len() as int,
                ).filter(with_key(pos as int, key)) + r_rows.skip(right.len() as int).filter(
                    with_key(pos as int, key),
                ),
        decreases k,
    {
        let ghost i = left.len() as int;
        let ghost j = right.len() as int;
        let ghost tail = out.deep_view().skip(k as int);
        let take_right = if left.len() == 0 {
            true
        } else if right.len() == 0 {
            false
        } else {
            let a = &left[left.len() - 1];
            let b = &right[right.len() - 1];
            proof {
                assert(*a == l_all[i - 1] && *b == r_all[j - 1]);
                assert(l_rows[i - 1] == l_all[i - 1].deep_view());
                assert(r_rows[j - 1] == r_all[j - 1].deep_view());
                assert(a.deep_view()[pos as int] == a[pos as int]@);
                assert(b.deep_view()[pos as int] == b[pos as int]@);
            }
            !stands_before(b[pos].as_str(), a[pos].as_str(), ascending)
        };
        let row = if take_right {
            right.pop().unwrap()
        } else {
            left.pop().unwrap()
        };
        let ghost moved = row.deep_view();
        proof {
            if take_right {
                assert(row == r_all[j - 1]);
                assert(moved == r_rows[j - 1]);
                assert(right@ =~= r_all.take(j - 1));
                assert(r_rows.skip(j - 1) =~= seq![moved] + r_rows.skip(j));
                // no row that came from `left` has the key of this row
                assert forall|key: Seq<char>| #[trigger]
                    (seq![moved] + tail).filter(with_key(pos as int, key)) == l_rows.skip(
                        i,
                    ).filter(with_key(pos as int, key)) + r_rows.skip(j - 1).filter(
                        with_key(pos as int, key),
                    ) by {
                    let p = with_key(pos as int, key);
                    assert(tail.filter(p) == l_rows.skip(i).filter(p) + r_rows.skip(j).filter(p));
                    tail.lemma_filter_prepend(moved, p);
                    r_rows.skip(j).lemma_filter_prepend(moved, p);
                    if p(moved) {
                        assert forall|a: int| 0 <= a < l_rows.skip(i).len() implies !p(
                            #[trigger] l_rows.skip(i)[a],
                        ) by {
                            assert(before(
                                r_rows[j - 1][pos as int],
                                l_rows[i + a][pos as int],
                                ascending,
                            ));
                            lemma_precedes_irreflexive(key);
                        }
                        l_rows.skip(i).lemma_all_neg_filter_empty(p);
                        assert(l_rows.skip(i).filter(p) =~= Seq::empty());
                        assert(seq![moved] + (l_rows.skip(i).filter(p) + r_rows.skip(j).filter(p))
                            =~= l_rows.skip(i).filter(p) + (seq![moved] + r_rows.skip(j).filter(
                            p,
                        )));
                    } else {
                        assert(Seq::<Seq<Seq<char>>>::empty() + tail.filter(p) =~= tail.filter(p));
                        assert(Seq::<Seq<Seq<char>>>::empty() + r_rows.skip(j).filter(p)
                            =~= r_rows.skip(j).filter(p));
                    }
                }
                if j - 1 > 0 {
                    assert(!before(r_rows[j - 1][pos as int], r_rows[j - 2][pos as int], ascending));
                }
            } else {
                assert(row == l_all[i - 1]);
                assert(moved == l_rows[i - 1]);
                assert(left@ =~= l_all.take(i - 1));
                assert(l_rows.skip(i - 1) =~= seq![moved] + l_rows.skip(i));
                assert forall|key: Seq<char>| #[trigger]
                    (seq![moved] + tail).filter(with_key(pos as int, key)) == l_rows.skip(
                        i - 1,
                    ).filter(with_key(pos as int, key)) + r_rows.skip(j).filter(
                        with_key(pos as int, key),
                    ) by {
                    let p = with_key(pos as int, key);
                    assert(tail.filter(p) == l_rows.skip(i).filter(p) + r_rows.skip(j).filter(p));
                    tail.lemma_filter_prepend(moved, p);
                    l_rows.skip(i).lemma_filter_prepend(moved, p);
                    if p(moved) {
                        assert(seq![moved] + (l_rows.skip(i).filter(p) + r_rows.skip(j).filter(p))
                            =~= (seq![moved] + l_rows.skip(i).filter(p)) + r_rows.skip(j).filter(
                            p,
                        ));
                    } else {
                        assert(Seq::<Seq<Seq<char>>>::empty() + tail.filter(p) =~= tail.filter(p));
                        assert(Seq::<Seq<Seq<char>>>::empty() + l_rows.skip(i).filter(p)
                            =~= l_rows.skip(i).filter(p));
                    }
                }
                // every row that `right` still holds stands before this row
                assert forall|a: int, b: int|
                    i - 1 <= a < l_all.len() && 0 <= b < j implies before(
                    (#[trigger] r_rows[b])[pos as int],
                    (#[trigger] l_rows[a])[pos as int],
                    ascending,
                ) by {
                    if a == i - 1 {
                        let last = r_rows[j - 1][pos as int];
                        assert(before(last, moved[pos as int], ascending));
                        if b < j - 1 {
                            assert(!before(last, r_rows[b][pos as int], ascending));
                            lemma_precedes_total(r_rows[b][pos as int], last);
                            if r_rows[b][pos as int] != last {
                                if ascending {
                                    lemma_precedes_transitive(
                                        r_rows[b][pos as int],
                                        last,
                                        moved[pos as int],
                                    );
                                } else {
                                    lemma_precedes_transitive(
                                        moved[pos as int],
                                        last,
                                        r_rows[b][pos as int],
                                    );
                                }
                            }
                        }
                    }
                }
                if j > 0 {
                    lemma_precedes_asymmetric(r_rows[j - 1][pos as int], moved[pos as int]);
                }
                if i - 1 > 0 {
                    assert(!before(l_rows[i - 1][pos as int], l_rows[i - 2][pos as int], ascending));
                }
            }
            if k < n {
                assert(tail[0] == out.deep_view()[k as int]);
            }
            lemma_prepend_keeps_order(moved, tail, pos as int, ascending);
        }
        k -= 1;
        let ghost before_out = out.deep_view();
        out[k] = row;
        proof {
            assert(out.deep_view().skip(k as int) =~= seq![moved] + tail) by {
                assert forall|m: int| 0 <= m < n - k implies out.deep_view().skip(k as int)[m] == (
                seq![moved] + tail)[m] by {
                    if m > 0 {
                        assert(out.deep_view()[k + m] == before_out[k + m]);
                    }
                }
            }
        }
    }
    proof {
        assert(out.deep_view().skip(0) =~= out.deep_view());
        assert(l_rows.skip(0) =~= l_rows);
        assert(r_rows.skip(0) =~= r_rows);
    }
    out
}

/// The rows sorted by the field at `pos`.
fn merge_sort(rows: Vec<Vec<String>>, pos: usize, ascending: bool) -> (out: Vec<Vec<String>>)
    requires
        forall|i: int| 0 <= i < rows.len() ==> pos < (#[trigger] rows[i]).len(),
    ensures
        out.deep_view() == sorted(rows.deep_view(), pos as int, ascending),
        forall|i: int| 0 <= i < out.len() ==> pos < (#[trigger] out[i]).len(),
    decreases rows.len(),
{
    let ghost all = rows.deep_view();
    let n = rows.len();
    if n <= 1 {
        proof {
            if n == 1 {
                assert(all.drop_last() =~= Seq::empty());
                assert(sorted(all.drop_last(), pos as int, ascending) =~= Seq::empty());
                assert(Seq::<Seq<Seq<char>>>::empty().insert(0, all.last()) =~= all);
            }
        }
        return rows;
    }
    let mut left = rows;
    let right = left.split_off(n / 2);
    let ghost l_rows = left.deep_view();
    let ghost r_rows = right.deep_view();
    proof {
        assert(all =~= l_rows + r_rows);
    }
    let left = merge_sort(left, pos, ascending);
    let right = merge_sort(right, pos, ascending);
    proof {
        lemma_sorted_is_ordered(l_rows, pos as int, ascending);
        lemma_sorted_is_ordered(r_rows, pos as int, ascending);
    }
    let out = merge(left, right, pos, ascending);
    proof {
        assert forall|key: Seq<char>| #[trigger]
            out.deep_view().filter(with_key(pos as int, key)) == all.filter(
                with_key(pos as int, key),
            ) by {
            let p = with_key(pos as int, key);
            lemma_sorted_is_stable(l_rows, pos as int, ascending, key);
            lemma_sorted_is_stable(r_rows, pos as int, ascending, key);
            Seq::filter_distributes_over_add(l_rows, r_rows, p);
            assert(out.deep_view().filter(p) == left.deep_view().filter(p)
                + right.deep_view().filter(p));
        }
        lemma_sorted_is_unique(all, out.deep_view(), pos as int, ascending);
    }
    out
}

/// Sorts `rows` by the field at `pos`, in lexicographic order of its text or in
/// the reverse of it. Rows with equal keys keep the order they had.
pub fn sort_rows(rows: &mut Vec<Vec<String>>, pos: usize, ascending: bool)
    requires
        forall|i: int| 0 <= i < old(rows).len() ==> pos < (#[trigger] old(rows)[i]).len(),
    ensures
        final(rows).deep_view() == sorted(old(rows).deep_view(), pos as int, ascending),
{
    let mut taken: Vec<Vec<String>> = Vec::new();
    core::mem::swap(rows, &mut taken);
    let mut done = merge_sort(taken, pos, ascending);
    core::mem::swap(rows, &mut done);
}

} // verus!
