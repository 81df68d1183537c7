//! Stable ordering of report rows by text keys.
use vstd::prelude::*;
use crate::text::chars;

verus! {

/// Texts in the order of `str`'s `Ord`: char by char, by code point, a prefix first.
pub open spec fn lex_lt(a: Seq<char>, b: Seq<char>) -> bool
    decreases a.len(),
{
    if a.len() == 0 {
        b.len() > 0
    } else if b.len() == 0 {
        false
    } else if a[0] != b[0] {
        a[0] < b[0]
    } else {
        lex_lt(a.drop_first(), b.drop_first())
    }
}

/// One part of a sort key: a text or an integer.
pub enum Field {
    Text(String),
    Number(i64),
}

/// A key part as a value.
pub enum Part {
    Text(Seq<char>),
    Number(int),
}

/// The value of a key part.
pub open spec fn part_view(f: Field) -> Part {
    match f {
        Field::Text(s) => Part::Text(s@),
        Field::Number(n) => Part::Number(n as int),
    }
}

/// Key parts in order: texts as `str` orders them, integers by value (a text before an integer,
/// which keys of one report never compare).
pub open spec fn part_lt(a: Part, b: Part) -> bool {
    match (a, b) {
        (Part::Text(x), Part::Text(y)) => lex_lt(x, y),
        (Part::Number(x), Part::Number(y)) => x < y,
        (Part::Text(_), Part::Number(_)) => true,
        (Part::Number(_), Part::Text(_)) => false,
    }
}

/// Keys in lexicographic order (the `Ord` of tuples).
pub open spec fn keys_lt(a: Seq<Part>, b: Seq<Part>) -> bool
    decreases a.len(),
{
    if a.len() == 0 {
        b.len() > 0
    } else if b.len() == 0 {
        false
    } else if a[0] != b[0] {
        part_lt(a[0], b[0])
    } else {
        keys_lt(a.drop_first(), b.drop_first())
    }
}

/// Row `i` goes before row `j`: its key is smaller (larger when `descending`), or the keys are
/// equal and it came first (a stable sort).
pub open spec fn ahead(keys: Seq<Seq<Part>>, descending: bool, i: int, j: int) -> bool {
    if keys[i] == keys[j] {
        i < j
    } else if descending {
        keys_lt(keys[j], keys[i])
    } else {
        keys_lt(keys[i], keys[j])
    }
}

/// `idx` lists every row once, each row ahead of the rows after it.
pub open spec fn arranged(keys: Seq<Seq<Part>>, descending: bool, idx: Seq<usize>) -> bool {
    &&& idx.len() == keys.len()
    &&& forall|k: int| 0 <= k < idx.len() ==> #[trigger] idx[k] < keys.len()
    &&& forall|i: int| 0 <= i < keys.len() ==> #[trigger] idx.contains(i as usize)
    &&& forall|a: int, b: int|
        0 <= a < b < idx.len() ==> ahead(keys, descending, #[trigger] idx[a] as int, #[trigger] idx[b] as int)
}

/// The order of the rows: the one arrangement of them.
pub open spec fn ordering(keys: Seq<Seq<Part>>, descending: bool) -> Seq<usize> {
    choose|idx: Seq<usize>| arranged(keys, descending, idx)
}

/// The keys of rows as values.
pub open spec fn key_views(keys: Seq<Vec<Field>>) -> Seq<Seq<Part>> {
    keys.map_values(|k: Vec<Field>| k@.map_values(|f: Field| part_view(f)))
}

pub proof fn lemma_part_irreflexive(a: Part)
    ensures
        !part_lt(a, a),
{
    if let Part::Text(x) = a {
        lemma_lex_irreflexive(x);
    }
}

pub proof fn lemma_part_transitive(a: Part, b: Part, c: Part)
    requires
        part_lt(a, b),
        part_lt(b, c),
    ensures
        part_lt(a, c),
{
    match (a, b, c) {
        (Part::Text(x), Part::Text(y), Part::Text(z)) => lemma_lex_transitive(x, y, z),
        _ => {},
    }
}

pub proof fn lemma_part_total(a: Part, b: Part)
    requires
        a != b,
    ensures
        part_lt(a, b) || part_lt(b, a),
{
    match (a, b) {
        (Part::Text(x), Part::Text(y)) => lemma_lex_total(x, y),
        _ => {},
    }
}

pub proof fn lemma_lex_irreflexive(a: Seq<char>)
    ensures
        !lex_lt(a, a),
    decreases a.len(),
{
    if a.len() > 0 {
        lemma_lex_irreflexive(a.drop_first());
    }
}

pub proof fn lemma_lex_transitive(a: Seq<char>, b: Seq<char>, c: Seq<char>)
    requires
        lex_lt(a, b),
        lex_lt(b, c),
    ensures
        lex_lt(a, c),
    decreases a.len(),
{
    if a.len() > 0 && b.len() > 0 && c.len() > 0 {
        if a[0] == b[0] && b[0] == c[0] {
            lemma_lex_transitive(a.drop_first(), b.drop_first(), c.drop_first());
        }
    }
}

pub proof fn lemma_lex_total(a: Seq<char>, b: Seq<char>)
    requires
        a != b,
    ensures
        lex_lt(a, b) || lex_lt(b, a),
    decreases a.len(),
{
    if a.len() > 0 && b.len() > 0 && a[0] == b[0] {
        if a.drop_first() == b.drop_first() {
            assert(a == seq![a[0]] + a.drop_first());
            assert(b == seq![b[0]] + b.drop_first());
        }
        lemma_lex_total(a.drop_first(), b.drop_first());
    } else if a.len() == 0 && b.len() == 0 {
        assert(a == b);
    }
}

pub proof fn lemma_keys_irreflexive(a: Seq<Part>)
    ensures
        !keys_lt(a, a),
    decreases a.len(),
{
    if a.len() > 0 {
        lemma_keys_irreflexive(a.drop_first());
    }
}

pub proof fn lemma_keys_transitive(a: Seq<Part>, b: Seq<Part>, c: Seq<Part>)
    requires
        keys_lt(a, b),
        keys_lt(b, c),
    ensures
        keys_lt(a, c),
    decreases a.len(),
{
    if a.len() > 0 && b.len() > 0 && c.len() > 0 {
        if a[0] == b[0] && b[0] == c[0] {
            lemma_keys_transitive(a.drop_first(), b.drop_first(), c.drop_first());
        } else if a[0] == b[0] {
        } else if b[0] == c[0] {
        } else {
            lemma_part_transitive(a[0], b[0], c[0]);
            if a[0] == c[0] {
                lemma_part_transitive(a[0], b[0], a[0]);
                lemma_part_irreflexive(a[0]);
            }
        }
    }
}

pub proof fn lemma_keys_total(a: Seq<Part>, b: Seq<Part>)
    requires
        a != b,
    ensures
        keys_lt(a, b) || keys_lt(b, a),
    decreases a.len(),
{
    if a.len() > 0 && b.len() > 0 && a[0] == b[0] {
        if a.drop_first() == b.drop_first() {
            assert(a == seq![a[0]] + a.drop_first());
            assert(b == seq![b[0]] + b.drop_first());
        }
        lemma_keys_total(a.drop_first(), b.drop_first());
    } else if a.len() > 0 && b.len() > 0 {
        lemma_part_total(a[0], b[0]);
    } else if a.len() == 0 && b.len() == 0 {
        assert(a == b);
    }
}

/// `ahead` is a strict total order on the rows.
pub proof fn lemma_ahead_order(keys: Seq<Seq<Part>>, descending: bool)
    ensures
        forall|i: int| !#[trigger] ahead(keys, descending, i, i),
        forall|i: int, j: int|
            i != j ==> #[trigger] ahead(keys, descending, i, j) || #[trigger] ahead(
                keys,
                descending,
                j,
                i,
            ),
        forall|i: int, j: int|
            #[trigger] ahead(keys, descending, i, j) ==> !#[trigger] ahead(keys, descending, j, i),
        forall|i: int, j: int, k: int|
            #[trigger] ahead(keys, descending, i, j) && #[trigger] ahead(keys, descending, j, k)
                ==> ahead(keys, descending, i, k),
{
    assert forall|i: int, j: int| i != j implies #[trigger] ahead(keys, descending, i, j) || #[trigger] ahead(keys, descending, j, i) by {
        if keys[i] != keys[j] {
            lemma_keys_total(keys[i], keys[j]);
        }
    }
    assert forall|i: int, j: int| #[trigger] ahead(keys, descending, i, j) implies !#[trigger] ahead(keys, descending, j, i) by {
        if keys[i] != keys[j] {
            if keys_lt(keys[i], keys[j]) && keys_lt(keys[j], keys[i]) {
                lemma_keys_transitive(keys[i], keys[j], keys[i]);
                lemma_keys_irreflexive(keys[i]);
            }
        }
    }
    assert forall|i: int, j: int, k: int| #[trigger] ahead(keys, descending, i, j) && #[trigger] ahead(keys, descending, j, k)
        implies ahead(keys, descending, i, k) by {
        if keys[i] == keys[j] && keys[j] == keys[k] {
        } else if keys[i] == keys[j] {
        } else if keys[j] == keys[k] {
        } else {
            if descending {
                lemma_keys_transitive(keys[k], keys[j], keys[i]);
                if keys[i] == keys[k] {
                    lemma_keys_irreflexive(keys[i]);
                }
            } else {
                lemma_keys_transitive(keys[i], keys[j], keys[k]);
                if keys[i] == keys[k] {
                    lemma_keys_irreflexive(keys[i]);
                }
            }
        }
    }
}

/// Where row `i` goes among the arranged rows `prev`, looking from position `q`: before the first
/// row it is ahead of, else at the end.
pub open spec fn insert_at(keys: Seq<Seq<Part>>, descending: bool, prev: Seq<usize>, i: int, q: int) -> int
    decreases prev.len() - q,
{
    if q < 0 || q >= prev.len() {
        prev.len() as int
    } else if ahead(keys, descending, i, prev[q] as int) {
        q
    } else {
        insert_at(keys, descending, prev, i, q + 1)
    }
}

proof fn lemma_insert_at(keys: Seq<Seq<Part>>, descending: bool, prev: Seq<usize>, i: int, q: int)
    requires
        0 <= q <= prev.len(),
    ensures
        q <= insert_at(keys, descending, prev, i, q) <= prev.len(),
        forall|r: int|
            q <= r < insert_at(keys, descending, prev, i, q) ==> !ahead(keys, descending, i, #[trigger] prev[r] as int),
        insert_at(keys, descending, prev, i, q) < prev.len() ==> ahead(
            keys,
            descending,
            i,
            prev[insert_at(keys, descending, prev, i, q)] as int,
        ),
    decreases prev.len() - q,
{
    if q < prev.len() && !ahead(keys, descending, i, prev[q] as int) {
        lemma_insert_at(keys, descending, prev, i, q + 1);
    }
}

/// Rows that fit in `usize` always have an arrangement.
pub proof fn lemma_arrangement_exists(keys: Seq<Seq<Part>>, descending: bool)
    requires
        keys.len() <= usize::MAX,
    ensures
        arranged(keys, descending, ordering(keys, descending)),
{
    let idx = arrangement(keys, descending);
}

/// An arrangement of the rows, built by inserting one row after another.
proof fn arrangement(keys: Seq<Seq<Part>>, descending: bool) -> (idx: Seq<usize>)
    requires
        keys.len() <= usize::MAX,
    ensures
        arranged(keys, descending, idx),
    decreases keys.len(),
{
    lemma_ahead_order(keys, descending);
    if keys.len() == 0 {
        Seq::empty()
    } else {
        let n = keys.len() - 1;
        let before = keys.drop_last();
        let prev = arrangement(before, descending);
        assert forall|a: int, b: int| 0 <= a < n && 0 <= b < n implies ahead(before, descending, a, b) == ahead(
            keys,
            descending,
            a,
            b,
        ) by {}
        let i = n as usize;
        lemma_insert_at(keys, descending, prev, n, 0);
        let p = insert_at(keys, descending, prev, n, 0);
        let idx = prev.take(p).push(i).add(prev.skip(p));
        assert forall|k: int| 0 <= k < idx.len() implies #[trigger] idx[k] < keys.len() by {
            if k < p {
                assert(idx[k] == prev[k]);
            } else if k > p {
                assert(idx[k] == prev[k - 1]);
            }
        }
        assert forall|v: int| 0 <= v < keys.len() implies #[trigger] idx.contains(v as usize) by {
            if v == n {
                assert(idx[p] == i);
            } else {
                assert(prev.contains(v as usize));
                let k = choose|k: int| 0 <= k < prev.len() && prev[k] == v as usize;
                if k < p {
                    assert(idx[k] == prev[k]);
                } else {
                    assert(idx[k + 1] == prev[k]);
                }
            }
        }
        assert forall|r: int| 0 <= r < p implies ahead(keys, descending, #[trigger] prev[r] as int, n) by {
            assert(!ahead(keys, descending, n, prev[r] as int));
            assert(prev[r] < n);
        }
        assert forall|r: int| p <= r < prev.len() implies ahead(keys, descending, n, #[trigger] prev[r] as int) by {
            if r > p {
                assert(ahead(before, descending, prev[p] as int, prev[r] as int));
            }
        }
        assert forall|a: int, b: int| 0 <= a < b < idx.len() implies ahead(
            keys,
            descending,
            #[trigger] idx[a] as int,
            #[trigger] idx[b] as int,
        ) by {
            if b < p {
                assert(idx[a] == prev[a] && idx[b] == prev[b]);
                assert(ahead(before, descending, prev[a] as int, prev[b] as int));
            } else if b == p {
                assert(idx[a] == prev[a]);
            } else if a == p {
                assert(idx[b] == prev[b - 1]);
            } else if a < p {
                assert(idx[a] == prev[a] && idx[b] == prev[b - 1]);
                assert(ahead(before, descending, prev[a] as int, prev[b - 1] as int));
            } else {
                assert(idx[a] == prev[a - 1] && idx[b] == prev[b - 1]);
                assert(ahead(before, descending, prev[a - 1] as int, prev[b - 1] as int));
            }
        }
        idx
    }
}

/// Keeping some rows of an ordered list keeps them in order.
pub proof fn lemma_filter_ahead(keys: Seq<Seq<Part>>, descending: bool, s: Seq<usize>, q: spec_fn(usize) -> bool)
    requires
        forall|a: int, b: int| 0 <= a < b < s.len() ==> ahead(keys, descending, #[trigger] s[a] as int, #[trigger] s[b] as int),
    ensures
        forall|a: int, b: int|
            0 <= a < b < s.filter(q).len() ==> ahead(
                keys,
                descending,
                #[trigger] s.filter(q)[a] as int,
                #[trigger] s.filter(q)[b] as int,
            ),
    decreases s.len(),
{
    if s.len() > 0 {
        let rest = s.drop_last();
        let last = s.last();
        assert forall|a: int, b: int| 0 <= a < b < rest.len() implies ahead(keys, descending, #[trigger] rest[a] as int, #[trigger] rest[b] as int) by {
            assert(rest[a] == s[a] && rest[b] == s[b]);
        }
        lemma_filter_ahead(keys, descending, rest, q);
        crate::text::lemma_filter_step(s, s.len() - 1, q);
        assert(s.take(s.len() - 1) == rest);
        assert(s.take(s.len() as int) == s);
        if q(last) {
            let f = rest.filter(q);
            assert forall|a: int| 0 <= a < f.len() implies ahead(keys, descending, #[trigger] f[a] as int, last as int) by {
                assert(f.contains(f[a]));
                rest.lemma_filter_contains_rev(q, f[a]);
                let k = choose|k: int| 0 <= k < rest.len() && rest[k] == f[a];
                assert(s[k] == f[a]);
                assert(s[s.len() - 1] == last);
            }
            assert forall|a: int, b: int| 0 <= a < b < s.filter(q).len() implies ahead(
                keys,
                descending,
                #[trigger] s.filter(q)[a] as int,
                #[trigger] s.filter(q)[b] as int,
            ) by {
                assert(s.filter(q) == f.push(last));
                if b < f.len() {
                    assert(s.filter(q)[a] == f[a] && s.filter(q)[b] == f[b]);
                } else {
                    assert(s.filter(q)[a] == f[a] && s.filter(q)[b] == last);
                }
            }
        }
    }
}

/// The order of the first `m` rows is the order of all rows with the others left out: rows
/// after them never change how they are ordered among themselves.
pub proof fn lemma_ordering_prefix(keys: Seq<Seq<Part>>, descending: bool, m: int)
    requires
        0 <= m <= keys.len(),
        keys.len() <= usize::MAX,
    ensures
        ordering(keys.take(m), descending) == ordering(keys, descending).filter(|i: usize| (i as int) < m),
{
    let front = keys.take(m);
    let q = |i: usize| (i as int) < m;
    lemma_arrangement_exists(keys, descending);
    lemma_arrangement_exists(front, descending);
    let x = ordering(keys, descending);
    let z = ordering(front, descending);
    let y = x.filter(q);
    lemma_filter_ahead(keys, descending, x, q);
    assert forall|v: usize| y.contains(v) <==> z.contains(v) by {
        if y.contains(v) {
            x.lemma_filter_contains_rev(q, v);
            let k = choose|k: int| 0 <= k < y.len() && y[k] == v;
            x.lemma_filter_pred(q, k);
            assert(z.contains(v as int as usize));
        }
        if z.contains(v) {
            let k = choose|k: int| 0 <= k < z.len() && z[k] == v;
            assert(z[k] < front.len());
            assert(x.contains(v as int as usize));
            let j = choose|j: int| 0 <= j < x.len() && x[j] == v;
            x.lemma_filter_contains(q, j);
        }
    }
    assert forall|a: int, b: int| 0 <= a < b < y.len() implies ahead(front, descending, #[trigger] y[a] as int, #[trigger] y[b] as int) by {
        x.lemma_filter_pred(q, a);
        x.lemma_filter_pred(q, b);
        assert(ahead(keys, descending, y[a] as int, y[b] as int));
        assert(front[y[a] as int] == keys[y[a] as int]);
        assert(front[y[b] as int] == keys[y[b] as int]);
    }
    lemma_ahead_order(front, descending);
    lemma_same_order(front, descending, y, z);
}

/// In an arrangement the keys never go against the order: ascending keys never fall, descending
/// keys never rise.
pub proof fn lemma_arranged_sorted(keys: Seq<Seq<Part>>, descending: bool, idx: Seq<usize>)
    requires
        arranged(keys, descending, idx),
    ensures
        forall|a: int, b: int|
            0 <= a < b < idx.len() ==> if descending {
                !keys_lt(keys[#[trigger] idx[a] as int], keys[#[trigger] idx[b] as int])
            } else {
                !keys_lt(keys[idx[b] as int], keys[idx[a] as int])
            },
{
    assert forall|a: int, b: int| 0 <= a < b < idx.len() implies if descending {
        !keys_lt(keys[#[trigger] idx[a] as int], keys[#[trigger] idx[b] as int])
    } else {
        !keys_lt(keys[idx[b] as int], keys[idx[a] as int])
    } by {
        let x = keys[idx[a] as int];
        let y = keys[idx[b] as int];
        assert(ahead(keys, descending, idx[a] as int, idx[b] as int));
        if x == y {
            lemma_keys_irreflexive(x);
        } else if descending {
            if keys_lt(x, y) {
                lemma_keys_transitive(x, y, x);
                lemma_keys_irreflexive(x);
            }
        } else {
            if keys_lt(y, x) {
                lemma_keys_transitive(x, y, x);
                lemma_keys_irreflexive(x);
            }
        }
    }
}

/// There is only one arrangement of the rows.
pub proof fn lemma_arranged_unique(
    keys: Seq<Seq<Part>>,
    descending: bool,
    x: Seq<usize>,
    y: Seq<usize>,
)
    requires
        arranged(keys, descending, x),
        arranged(keys, descending, y),
    ensures
        x == y,
{
    lemma_ahead_order(keys, descending);
    assert forall|v: usize| x.contains(v) <==> y.contains(v) by {
        if x.contains(v) {
            let k = choose|k: int| 0 <= k < x.len() && x[k] == v;
            assert(x[k] < keys.len());
            assert(y.contains(v as int as usize));
        }
        if y.contains(v) {
            let k = choose|k: int| 0 <= k < y.len() && y[k] == v;
            assert(y[k] < keys.len());
            assert(x.contains(v as int as usize));
        }
    }
    lemma_same_order(keys, descending, x, y);
}

/// Two lists holding the same rows once each, each strictly in `ahead` order, are equal.
proof fn lemma_same_order(keys: Seq<Seq<Part>>, descending: bool, x: Seq<usize>, y: Seq<usize>)
    requires
        forall|v: usize| x.contains(v) <==> y.contains(v),
        forall|a: int, b: int|
            0 <= a < b < x.len() ==> ahead(keys, descending, #[trigger] x[a] as int, #[trigger] x[b] as int),
        forall|a: int, b: int|
            0 <= a < b < y.len() ==> ahead(keys, descending, #[trigger] y[a] as int, #[trigger] y[b] as int),
        forall|i: int| !#[trigger] ahead(keys, descending, i, i),
        forall|i: int, j: int|
            #[trigger] ahead(keys, descending, i, j) ==> !#[trigger] ahead(keys, descending, j, i),
    ensures
        x == y,
    decreases x.len(),
{
    if x.len() > 0 && y.len() == 0 {
        assert(y.contains(x[0]));
    }
    if y.len() > 0 && x.len() == 0 {
        assert(x.contains(y[0]));
    }
    if x.len() > 0 {
        let f = x[0];
        let g = y[0];
        if f != g {
            assert(y.contains(f));
            let j = choose|j: int| 0 <= j < y.len() && y[j] == f;
            assert(x.contains(g));
            let i = choose|i: int| 0 <= i < x.len() && x[i] == g;
            assert(j != 0);
            assert(i != 0);
            assert(ahead(keys, descending, x[0] as int, x[i] as int));
            assert(ahead(keys, descending, y[0] as int, y[j] as int));
        }
        let x2 = x.drop_first();
        let y2 = y.drop_first();
        assert forall|v: usize| x2.contains(v) <==> y2.contains(v) by {
            if x2.contains(v) {
                let i = choose|i: int| 0 <= i < x2.len() && x2[i] == v;
                assert(x[i + 1] == v);
                assert(v != f) by {
                    assert(ahead(keys, descending, x[0] as int, x[i + 1] as int));
                }
                assert(y.contains(v));
                let j = choose|j: int| 0 <= j < y.len() && y[j] == v;
                assert(j != 0);
                assert(y2[j - 1] == v);
            }
            if y2.contains(v) {
                let j = choose|j: int| 0 <= j < y2.len() && y2[j] == v;
                assert(y[j + 1] == v);
                assert(v != g) by {
                    assert(ahead(keys, descending, y[0] as int, y[j + 1] as int));
                }
                assert(x.contains(v));
                let i = choose|i: int| 0 <= i < x.len() && x[i] == v;
                assert(i != 0);
                assert(x2[i - 1] == v);
            }
        }
        assert forall|a: int, b: int| 0 <= a < b < x2.len() implies ahead(keys, descending, #[trigger] x2[a] as int, #[trigger] x2[b] as int) by {
            assert(x2[a] == x[a + 1] && x2[b] == x[b + 1]);
        }
        assert forall|a: int, b: int| 0 <= a < b < y2.len() implies ahead(keys, descending, #[trigger] y2[a] as int, #[trigger] y2[b] as int) by {
            assert(y2[a] == y[a + 1] && y2[b] == y[b + 1]);
        }
        lemma_same_order(keys, descending, x2, y2);
        assert(x == seq![f] + x2);
        assert(y == seq![g] + y2);
    } else {
        assert(x == y);
    }
}

/// Whether `a` comes before `b` in `str` order.
pub fn text_less(a: &str, b: &str) -> (r: bool)
    ensures
        r == lex_lt(a@, b@),
{
    let x = chars(a);
    let y = chars(b);
    let mut i: usize = 0;
    assert(a@.skip(0) == a@ && b@.skip(0) == b@);
    while i < x.len() && i < y.len() && x[i] == y[i]
        invariant
            x@ == a@,
            y@ == b@,
            i <= x@.len(),
            i <= y@.len(),
            lex_lt(a@, b@) == lex_lt(a@.skip(i as int), b@.skip(i as int)),
        decreases x@.len() - i,
    {
        assert(a@.skip(i as int).drop_first() == a@.skip(i as int + 1));
        assert(b@.skip(i as int).drop_first() == b@.skip(i as int + 1));
        i = i + 1;
    }
    if i == x.len() {
        i < y.len()
    } else if i == y.len() {
        false
    } else {
        x[i] < y[i]
    }
}

/// Whether the key part `a` comes before the key part `b`.
pub fn field_less(a: &Field, b: &Field) -> (r: bool)
    ensures
        r == part_lt(part_view(*a), part_view(*b)),
{
    match (a, b) {
        (Field::Text(x), Field::Text(y)) => text_less(x.as_str(), y.as_str()),
        (Field::Number(x), Field::Number(y)) => *x < *y,
        (Field::Text(_), Field::Number(_)) => true,
        (Field::Number(_), Field::Text(_)) => false,
    }
}

/// Whether two key parts are equal.
pub fn field_equal(a: &Field, b: &Field) -> (r: bool)
    ensures
        r == (part_view(*a) == part_view(*b)),
{
    match (a, b) {
        (Field::Text(x), Field::Text(y)) => *x == *y,
        (Field::Number(x), Field::Number(y)) => *x == *y,
        _ => false,
    }
}

/// Whether the key `a` comes before the key `b`.
pub fn keys_less(a: &Vec<Field>, b: &Vec<Field>) -> (r: bool)
    ensures
        r == keys_lt(a@.map_values(|f: Field| part_view(f)), b@.map_values(|f: Field| part_view(f))),
{
    let ghost av = a@.map_values(|f: Field| part_view(f));
    let ghost bv = b@.map_values(|f: Field| part_view(f));
    let mut i: usize = 0;
    assert(av.skip(0) == av && bv.skip(0) == bv);
    while i < a.len() && i < b.len() && field_equal(&a[i], &b[i])
        invariant
            av == a@.map_values(|f: Field| part_view(f)),
            bv == b@.map_values(|f: Field| part_view(f)),
            i <= a@.len(),
            i <= b@.len(),
            keys_lt(av, bv) == keys_lt(av.skip(i as int), bv.skip(i as int)),
        decreases a@.len() - i,
    {
        assert(av.skip(i as int).drop_first() == av.skip(i as int + 1));
        assert(bv.skip(i as int).drop_first() == bv.skip(i as int + 1));
        i = i + 1;
    }
    if i == a.len() {
        i < b.len()
    } else if i == b.len() {
        false
    } else {
        field_less(&a[i], &b[i])
    }
}

/// The order of the rows with the given keys: ascending or descending by key, rows with equal
/// keys in their first order.
pub fn order(keys: &Vec<Vec<Field>>, descending: bool) -> (idx: Vec<usize>)
    ensures
        idx@ == ordering(key_views(keys@), descending),
        arranged(key_views(keys@), descending, idx@),
{
    let ghost kv = key_views(keys@);
    proof {
        lemma_ahead_order(kv, descending);
    }
    let n = keys.len();
    let mut idx: Vec<usize> = Vec::new();
    for i in 0..n
        invariant
            n == keys@.len(),
            kv == key_views(keys@),
            kv.len() == n,
            idx@.len() == i,
            forall|k: int| 0 <= k < idx@.len() ==> #[trigger] idx@[k] < i,
            forall|v: int| 0 <= v < i ==> #[trigger] idx@.contains(v as usize),
            forall|a: int, b: int|
                0 <= a < b < idx@.len() ==> ahead(kv, descending, #[trigger] idx@[a] as int, #[trigger] idx@[b] as int),
            forall|i: int| !#[trigger] ahead(kv, descending, i, i),
            forall|i: int, j: int|
                i != j ==> #[trigger] ahead(kv, descending, i, j) || #[trigger] ahead(kv, descending, j, i),
            forall|i: int, j: int|
                #[trigger] ahead(kv, descending, i, j) ==> !#[trigger] ahead(kv, descending, j, i),
            forall|i: int, j: int, k: int|
                #[trigger] ahead(kv, descending, i, j) && #[trigger] ahead(kv, descending, j, k)
                    ==> ahead(kv, descending, i, k),
    {
        let mut p: usize = 0;
        while p < idx.len()
            invariant
                n == keys@.len(),
                kv == key_views(keys@),
                kv.len() == n,
                i < n,
                p <= idx@.len(),
                forall|k: int| 0 <= k < idx@.len() ==> #[trigger] idx@[k] < i,
                forall|q: int| 0 <= q < p ==> ahead(kv, descending, #[trigger] idx@[q] as int, i as int),
            ensures
                p <= idx@.len(),
                forall|q: int| 0 <= q < p ==> ahead(kv, descending, #[trigger] idx@[q] as int, i as int),
                p < idx@.len() ==> ahead(kv, descending, i as int, idx@[p as int] as int),
            decreases idx@.len() - p,
        {
            let j = idx[p];
            assert(kv[i as int] == keys@[i as int]@.map_values(|f: Field| part_view(f)));
            assert(kv[j as int] == keys@[j as int]@.map_values(|f: Field| part_view(f)));
            let goes_first = if descending {
                keys_less(&keys[j], &keys[i])
            } else {
                keys_less(&keys[i], &keys[j])
            };
            if goes_first {
                proof {
                    assert(kv[i as int] != kv[j as int]) by {
                        if kv[i as int] == kv[j as int] {
                            lemma_keys_irreflexive(kv[i as int]);
                        }
                    }
                }
                break;
            }
            proof {
                if kv[i as int] != kv[j as int] {
                    lemma_keys_total(kv[i as int], kv[j as int]);
                }
            }
            p = p + 1;
        }
        let ghost before = idx@;
        idx.insert(p, i);
        proof {
            assert(idx@ == before.take(p as int).push(i).add(before.skip(p as int)));
            assert forall|k: int| 0 <= k < idx@.len() implies #[trigger] idx@[k] < i + 1 by {
                if k < p {
                    assert(idx@[k] == before[k]);
                } else if k > p {
                    assert(idx@[k] == before[k - 1]);
                }
            }
            assert forall|v: int| 0 <= v < i + 1 implies #[trigger] idx@.contains(v as usize) by {
                if v == i {
                    assert(idx@[p as int] == i);
                } else {
                    assert(before.contains(v as usize));
                    let k = choose|k: int| 0 <= k < before.len() && before[k] == v as usize;
                    if k < p {
                        assert(idx@[k] == before[k]);
                    } else {
                        assert(idx@[k + 1] == before[k]);
                    }
                }
            }
            assert forall|a: int, b: int| 0 <= a < b < idx@.len() implies ahead(kv, descending, #[trigger] idx@[a] as int, #[trigger] idx@[b] as int) by {
                if b < p {
                    assert(idx@[a] == before[a] && idx@[b] == before[b]);
                } else if b == p {
                    assert(idx@[a] == before[a]);
                } else if a == p {
                    assert(idx@[b] == before[b - 1]);
                    if b - 1 > p {
                        assert(ahead(kv, descending, before[p as int] as int, before[b - 1] as int));
                    }
                } else if a < p {
                    assert(idx@[a] == before[a] && idx@[b] == before[b - 1]);
                } else {
                    assert(idx@[a] == before[a - 1] && idx@[b] == before[b - 1]);
                }
            }
        }
    }
    proof {
        assert(arranged(kv, descending, idx@));
        lemma_arranged_unique(kv, descending, idx@, ordering(kv, descending));
    }
    idx
}

} // verus!
