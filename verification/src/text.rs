//! Text as sequences of characters: decoding, ordering, and the comma-separated
//! line format of the table files.

use vstd::prelude::*;
use vstd::std_specs::iter::IteratorSpec;

verus! {

/// Two texts with the same first character are equal if the rest of them is.
proof fn lemma_same_rest(a: Seq<char>, b: Seq<char>)
    requires
        a.len() > 0,
        b.len() > 0,
        a[0] == b[0],
    ensures
        (a == b) == (a.drop_first() == b.drop_first()),
{
    if a.drop_first() == b.drop_first() {
        assert(a =~= seq![a[0]] + a.drop_first());
        assert(b =~= seq![b[0]] + b.drop_first());
    }
}

/// Whether `a` and `b` hold the same characters.
pub fn text_eq(a: &str, b: &str) -> (r: bool)
    ensures
        r == (a@ == b@),
{
    let mut x = a.chars();
    let mut y = b.chars();
    loop
        invariant
            x.obeys_prophetic_iter_laws(),
            y.obeys_prophetic_iter_laws(),
            x.decrease() is Some,
            (a@ == b@) == (x.remaining() == y.remaining()),
        decreases x.decrease()->0,
    {
        let ghost xs = x.remaining();
        let ghost ys = y.remaining();
        let c = x.next();
        let d = y.next();
        match (c, d) {
            (None, None) => {
                assert(xs =~= ys);
                return true;
            },
            (Some(c), Some(d)) => {
                if c != d {
                    return false;
                }
                assert((xs == ys) == (xs.drop_first() == ys.drop_first())) by {
                    lemma_same_rest(xs, ys);
                }
            },
            _ => {
                return false;
            },
        }
    }
}

/// The characters of `s`, in order.
pub fn chars_of(s: &str) -> (chars: Vec<char>)
    ensures
        chars@ == s@,
{
    let mut chars: Vec<char> = Vec::new();
    for c in it: s.chars()
        invariant
            it.seq() == s@,
            chars@ == it.seq().take(it.index() as int),
    {
        chars.push(c);
    }
    chars
}

/// The characters `from..to` of `s` as an owned string.
pub fn slice_of(s: &str, from: usize, to: usize) -> (r: String)
    requires
        from <= to <= s@.len(),
    ensures
        r@ == s@.subrange(from as int, to as int),
{
    s.substring_char(from, to).to_owned()
}

/// Lexicographic order on text by code point: `a` sorts strictly before `b`.
pub open spec fn precedes(a: Seq<char>, b: Seq<char>) -> bool
    decreases a.len(),
{
    if b.len() == 0 {
        false
    } else if a.len() == 0 {
        true
    } else if a[0] != b[0] {
        a[0] < b[0]
    } else {
        precedes(a.drop_first(), b.drop_first())
    }
}

/// Nothing sorts before itself.
pub proof fn lemma_precedes_irreflexive(a: Seq<char>)
    ensures
        !precedes(a, a),
    decreases a.len(),
{
    if a.len() > 0 {
        lemma_precedes_irreflexive(a.drop_first());
    }
}

/// Two texts never sort before each other.
pub proof fn lemma_precedes_asymmetric(a: Seq<char>, b: Seq<char>)
    ensures
        !(precedes(a, b) && precedes(b, a)),
    decreases a.len(),
{
    if a.len() > 0 && b.len() > 0 && a[0] == b[0] {
        lemma_precedes_asymmetric(a.drop_first(), b.drop_first());
    }
}

/// Of two different texts one sorts before the other.
pub proof fn lemma_precedes_total(a: Seq<char>, b: Seq<char>)
    ensures
        a == b || precedes(a, b) || precedes(b, a),
    decreases a.len(),
{
    if a.len() > 0 && b.len() > 0 && a[0] == b[0] {
        lemma_precedes_total(a.drop_first(), b.drop_first());
        if a.drop_first() == b.drop_first() {
            assert(a =~= seq![a[0]] + a.drop_first());
        }
    }
}

/// The order is transitive.
pub proof fn lemma_precedes_transitive(a: Seq<char>, b: Seq<char>, c: Seq<char>)
    requires
        precedes(a, b),
        precedes(b, c),
    ensures
        precedes(a, c),
    decreases a.len(),
{
    if a.len() > 0 && a[0] == b[0] && b[0] == c[0] {
        lemma_precedes_transitive(a.drop_first(), b.drop_first(), c.drop_first());
    }
}

/// Whether `a` sorts strictly before `b`.
pub fn text_precedes(a: &str, b: &str) -> (r: bool)
    ensures
        r == precedes(a@, b@),
{
    let mut x = a.chars();
    let mut y = b.chars();
    loop
        invariant
            x.obeys_prophetic_iter_laws(),
            y.obeys_prophetic_iter_laws(),
            x.decrease() is Some,
            precedes(a@, b@) == precedes(x.remaining(), y.remaining()),
        decreases x.decrease()->0,
    {
        let d = y.next();
        let c = x.next();
        match (c, d) {
            (_, None) => {
                return false;
            },
            (None, Some(_)) => {
                return true;
            },
            (Some(c), Some(d)) => {
                if c != d {
                    return c < d;
                }
            },
        }
    }
}

/// Number of characters of `s` before its first `sep`; all of them if it has none.
pub open spec fn first_field_len(s: Seq<char>, sep: char) -> int
    decreases s.len(),
{
    if s.len() == 0 || s[0] == sep {
        0
    } else {
        1 + first_field_len(s.drop_first(), sep)
    }
}

/// The fields of `s`: the pieces between separators, in order. A text without a
/// separator is one field, and so is the empty text.
pub open spec fn split(s: Seq<char>, sep: char) -> Seq<Seq<char>>
    decreases s.len(),
{
    let n = first_field_len(s, sep);
    if 0 <= n < s.len() {
        seq![s.take(n)] + split(s.skip(n + 1), sep)
    } else {
        seq![s]
    }
}

/// The fields written one after another with `sep` between neighbours.
pub open spec fn join(parts: Seq<Seq<char>>, sep: char) -> Seq<char>
    decreases parts.len(),
{
    if parts.len() == 0 {
        Seq::empty()
    } else if parts.len() == 1 {
        parts[0]
    } else {
        join(parts.drop_last(), sep) + seq![sep] + parts.last()
    }
}

/// Whether no field holds the separator.
pub open spec fn free_of(parts: Seq<Seq<char>>, sep: char) -> bool {
    forall|i: int| 0 <= i < parts.len() ==> !(#[trigger] parts[i]).contains(sep)
}

/// `first_field_len` is the position of the first separator.
pub proof fn lemma_first_field_len(s: Seq<char>, sep: char, n: int)
    requires
        0 <= n <= s.len(),
        forall|k: int| 0 <= k < n ==> s[k] != sep,
        n == s.len() || s[n] == sep,
    ensures
        first_field_len(s, sep) == n,
    decreases n,
{
    if n > 0 {
        lemma_first_field_len(s.drop_first(), sep, n - 1);
    }
}

/// What `first_field_len` returns: a position within `s`, with no separator
/// before it and a separator at it unless it is the end.
pub proof fn lemma_first_field_len_bounds(s: Seq<char>, sep: char)
    ensures
        0 <= first_field_len(s, sep) <= s.len(),
        forall|k: int| 0 <= k < first_field_len(s, sep) ==> s[k] != sep,
        first_field_len(s, sep) < s.len() ==> s[first_field_len(s, sep)] == sep,
    decreases s.len(),
{
    if !(s.len() == 0 || s[0] == sep) {
        let t = s.drop_first();
        lemma_first_field_len_bounds(t, sep);
        assert forall|k: int| 0 <= k < first_field_len(s, sep) implies s[k] != sep by {
            if k > 0 {
                assert(s[k] == t[k - 1]);
            }
        }
    }
}

/// Joining with one more field in front.
pub proof fn lemma_join_prepend(first: Seq<char>, rest: Seq<Seq<char>>, sep: char)
    requires
        rest.len() > 0,
    ensures
        join(seq![first] + rest, sep) == first + seq![sep] + join(rest, sep),
    decreases rest.len(),
{
    let all = seq![first] + rest;
    if rest.len() == 1 {
        assert(all.drop_last() =~= seq![first]);
        assert(join(seq![first], sep) == first);
    } else {
        lemma_join_prepend(first, rest.drop_last(), sep);
        assert(all.drop_last() =~= seq![first] + rest.drop_last());
    }
}

/// Splitting loses nothing: the fields joined again are the text.
pub proof fn lemma_join_split(s: Seq<char>, sep: char)
    ensures
        join(split(s, sep), sep) == s,
        split(s, sep).len() >= 1,
        free_of(split(s, sep), sep),
    decreases s.len(),
{
    let n = first_field_len(s, sep);
    lemma_first_field_len_bounds(s, sep);
    if n < s.len() {
        let rest = s.skip(n + 1);
        lemma_join_split(rest, sep);
        lemma_join_prepend(s.take(n), split(rest, sep), sep);
    }
}

/// Fields without a separator come back from their joined text.
pub proof fn lemma_split_join(parts: Seq<Seq<char>>, sep: char)
    requires
        parts.len() >= 1,
        free_of(parts, sep),
    ensures
        split(join(parts, sep), sep) == parts,
    decreases parts.len(),
{
    let first = parts[0];
    if parts.len() == 1 {
        lemma_first_field_len(first, sep, first.len() as int);
    } else {
        let rest = parts.drop_first();
        assert(parts =~= seq![first] + rest);
        lemma_join_prepend(first, rest, sep);
        let s = join(parts, sep);
        lemma_first_field_len(s, sep, first.len() as int);
        assert(s.take(first.len() as int) =~= first);
        assert(s.skip(first.len() as int + 1) =~= join(rest, sep));
        lemma_split_join(rest, sep);
    }
}

/// The fields of a comma-separated line.
pub fn split_fields(line: &str) -> (fields: Vec<String>)
    ensures
        fields.deep_view() == split(line@, ','),
{
    let chars = chars_of(line);
    let mut fields: Vec<String> = Vec::new();
    let mut start: usize = 0;
    let mut i: usize = 0;
    proof {
        assert(line@.skip(0) =~= line@);
    }
    while i < chars.len()
        invariant
            chars@ == line@,
            start <= i <= chars.len(),
            forall|k: int| start <= k < i ==> chars[k] != ',',
            split(line@, ',') == fields.deep_view() + split(line@.skip(start as int), ','),
        decreases chars.len() - i,
    {
        if chars[i] == ',' {
            let field = slice_of(line, start, i);
            proof {
                let tail = line@.skip(start as int);
                lemma_first_field_len(tail, ',', i - start);
                assert(tail.take(i - start) =~= field@);
                assert(tail.skip(i - start + 1) =~= line@.skip(i + 1));
            }
            fields.push(field);
            start = i + 1;
        }
        i += 1;
    }
    let field = slice_of(line, start, chars.len());
    proof {
        let tail = line@.skip(start as int);
        lemma_first_field_len(tail, ',', tail.len() as int);
    }
    fields.push(field);
    fields
}

/// The fields written as one comma-separated line.
pub fn join_fields(fields: &Vec<String>) -> (line: String)
    ensures
        line@ == join(fields.deep_view(), ','),
{
    let mut line = String::new();
    let mut i: usize = 0;
    proof {
        reveal_strlit(",");
    }
    while i < fields.len()
        invariant
            i <= fields.len(),
            ","@ == seq![','],
            line@ == join(fields.deep_view().take(i as int), ','),
        decreases fields.len() - i,
    {
        if i > 0 {
            line.append(",");
        }
        line.append(fields[i].as_str());
        proof {
            let done = fields.deep_view().take(i + 1);
            assert(done.drop_last() =~= fields.deep_view().take(i as int));
        }
        i += 1;
    }
    proof {
        assert(fields.deep_view().take(i as int) =~= fields.deep_view());
    }
    line
}

} // verus!
