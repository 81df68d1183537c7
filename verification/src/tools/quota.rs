//! Compute and network quotas of a region: use against limit, exhausted ones marked, sorted.
use vstd::prelude::*;
use crate::json::{int_of, member, member_of, str_of, Json};
use crate::order::{
    key_views, keys_lt, lemma_arranged_sorted, lemma_arrangement_exists, lemma_lex_irreflexive, lex_lt, order, ordering,
    Field, Part,
};
use crate::text::{lemma_map_push, same_text, signed, signed_of, views};
use crate::tools::{name_view, report, report_of, same, text, text_at};

verus! {

/// A usage carries its use and its limit as integers.
pub open spec fn counted(item: Json) -> bool {
    &&& int_of(member(item, "currentValue"@)) is Some
    &&& int_of(member(item, "limit"@)) is Some
}

/// The line of a usage of the kind `kind`.
pub open spec fn line_of(kind: Seq<char>, item: Json) -> Seq<char> {
    let current = int_of(member(item, "currentValue"@)).unwrap();
    let limit = int_of(member(item, "limit"@)).unwrap();
    kind + "  "@ + text_at(item, "/name/localizedValue"@) + "  "@ + signed(current as int) + "/"@ + signed(
        limit as int,
    ) + " "@ + text_at(item, "/unit"@) + (if limit > 0 && current >= limit {
        "  (вичерпано)"@
    } else {
        ""@
    })
}

/// The kind filter lets the kind `k` through: there is none, or it names `k` (ASCII case ignored).
pub open spec fn includes(kind: Option<Seq<char>>, k: Seq<char>) -> bool {
    match kind {
        Some(x) => same_text(x, k),
        None => true,
    }
}

/// The key a text is sorted by: the text itself.
pub open spec fn text_key(t: Seq<char>) -> Seq<Part> {
    seq![Part::Text(t)]
}

/// Texts in `str` order.
pub open spec fn sorted_texts(lines: Seq<Seq<char>>) -> Seq<Seq<char>> {
    ordering(lines.map_values(|t: Seq<char>| text_key(t)), false).map_values(|i: usize| lines[i as int])
}

/// Sorted texts are the same texts, each once, never falling in `str` order.
pub proof fn lemma_sorted_texts(lines: Seq<Seq<char>>)
    requires
        lines.len() <= usize::MAX,
    ensures
        ({
            let keys = lines.map_values(|t: Seq<char>| text_key(t));
            let idx = ordering(keys, false);
            let sorted = sorted_texts(lines);
            &&& sorted.len() == lines.len()
            &&& forall|i: int| 0 <= i < lines.len() ==> #[trigger] idx.contains(i as usize)
            &&& forall|k: int| 0 <= k < sorted.len() ==> #[trigger] idx[k] < lines.len() && sorted[k] == lines[idx[k] as int]
            &&& forall|a: int, b: int| 0 <= a < b < sorted.len() ==> !lex_lt(#[trigger] sorted[b], #[trigger] sorted[a])
        }),
{
    let keys = lines.map_values(|t: Seq<char>| text_key(t));
    lemma_arrangement_exists(keys, false);
    let idx = ordering(keys, false);
    lemma_arranged_sorted(keys, false, idx);
    let sorted = sorted_texts(lines);
    assert forall|a: int, b: int| 0 <= a < b < sorted.len() implies !lex_lt(#[trigger] sorted[b], #[trigger] sorted[a]) by {
        let x = sorted[a];
        let y = sorted[b];
        assert(x == lines[idx[a] as int] && y == lines[idx[b] as int]);
        assert(!keys_lt(keys[idx[b] as int], keys[idx[a] as int]));
        assert(keys[idx[a] as int] == seq![Part::Text(x)]);
        assert(keys[idx[b] as int] == seq![Part::Text(y)]);
        if x == y {
            lemma_lex_irreflexive(x);
        } else {
            assert(seq![Part::Text(y)][0] != seq![Part::Text(x)][0]);
        }
    }
}

/// The lines of the usages of one kind, where the filter lets that kind through.
pub open spec fn kind_lines(items: Seq<Json>, kind: Option<Seq<char>>, k: Seq<char>) -> Seq<Seq<char>> {
    if includes(kind, k) {
        items.map_values(|x: Json| line_of(k, x))
    } else {
        Seq::empty()
    }
}

/// The report on the quotas: compute and network lines together, sorted as texts.
pub open spec fn table_of(compute: Seq<Json>, network: Seq<Json>, kind: Option<Seq<char>>) -> Seq<char> {
    report(
        sorted_texts(kind_lines(compute, kind, "compute"@) + kind_lines(network, kind, "network"@)),
        "Квот не знайдено."@,
    )
}

/// The usages of a kind that the report reads carry their numbers.
pub open spec fn all_counted(items: Seq<Json>, kind: Option<Seq<char>>, k: Seq<char>) -> bool {
    includes(kind, k) ==> forall|i: int| 0 <= i < items.len() ==> counted(#[trigger] items[i])
}

/// The line of a usage: kind, name, use/limit and unit, marked where the limit is reached.
pub fn line(kind: &str, item: &Json) -> (r: String)
    requires
        counted(*item),
    ensures
        r@ == line_of(kind@, *item),
{
    let current = match member_of(item, "currentValue") {
        Some(Json::Number { integer: Some(n), .. }) => *n,
        _ => {
            assert(false);
            0
        },
    };
    let limit = match member_of(item, "limit") {
        Some(Json::Number { integer: Some(n), .. }) => *n,
        _ => {
            assert(false);
            0
        },
    };
    let mut r = String::from_str(kind);
    r.append("  ");
    r.append(text(item, "/name/localizedValue"));
    r.append("  ");
    let c = signed_of(current);
    r.append(c.as_str());
    r.append("/");
    let l = signed_of(limit);
    r.append(l.as_str());
    r.append(" ");
    r.append(text(item, "/unit"));
    if limit > 0 && current >= limit {
        r.append("  (вичерпано)");
    } else {
        r.append("");
    }
    r
}

/// Whether the kind filter lets the kind `k` through.
pub fn wants(kind: Option<&str>, k: &str) -> (r: bool)
    ensures
        r == includes(name_view(kind), k@),
{
    match kind {
        Some(x) => same(x, k),
        None => true,
    }
}

/// Texts in `str` order.
pub fn sort_texts(lines: &Vec<String>) -> (r: Vec<String>)
    ensures
        views(r@) == sorted_texts(views(lines@)),
{
    let ghost v = views(lines@);
    let n = lines.len();
    let mut keys: Vec<Vec<Field>> = Vec::new();
    for i in 0..n
        invariant
            n == lines@.len(),
            v == views(lines@),
            key_views(keys@) == v.take(i as int).map_values(|t: Seq<char>| text_key(t)),
    {
        let mut key: Vec<Field> = Vec::new();
        key.push(Field::Text(lines[i].clone()));
        let ghost before = keys@;
        keys.push(key);
        proof {
            assert(key@.map_values(|f: Field| crate::order::part_view(f)) == text_key(v[i as int]));
            assert(key_views(keys@) == key_views(before).push(text_key(v[i as int])));
            assert(v.take(i as int + 1).map_values(|t: Seq<char>| text_key(t))
                == v.take(i as int).map_values(|t: Seq<char>| text_key(t)).push(text_key(v[i as int])));
        }
    }
    assert(v.take(n as int) == v);
    let idx = order(&keys, false);
    let ghost f = |i: usize| v[i as int];
    let mut r: Vec<String> = Vec::new();
    for k in 0..n
        invariant
            n == idx@.len(),
            n == lines@.len(),
            v == views(lines@),
            f == (|i: usize| v[i as int]),
            forall|j: int| 0 <= j < n ==> #[trigger] idx@[j] < n,
            views(r@) == idx@.take(k as int).map_values(f),
    {
        let ghost before = r@;
        r.push(lines[idx[k]].clone());
        assert(views(r@) == views(before).push(v[idx@[k as int] as int]));
        assert(idx@.take(k as int + 1) == idx@.take(k as int).push(idx@[k as int]));
        assert(idx@.take(k as int + 1).map_values(f) == idx@.take(k as int).map_values(f).push(f(idx@[k as int])));
    }
    assert(idx@.take(n as int) == idx@);
    r
}

/// Appends the lines of the usages of the kind `k`.
fn push_lines(lines: &mut Vec<String>, items: &Vec<Json>, k: &str)
    requires
        forall|i: int| 0 <= i < items@.len() ==> counted(#[trigger] items@[i]),
    ensures
        views(final(lines)@) == views(old(lines)@) + items@.map_values(|x: Json| line_of(k@, x)),
{
    let ghost start = views(lines@);
    let ghost f = |x: Json| line_of(k@, x);
    let n = items.len();
    for i in 0..n
        invariant
            n == items@.len(),
            forall|j: int| 0 <= j < items@.len() ==> counted(#[trigger] items@[j]),
            f == (|x: Json| line_of(k@, x)),
            views(lines@) == start + items@.take(i as int).map_values(f),
    {
        let ghost before = lines@;
        lines.push(line(k, &items[i]));
        proof {
            assert(views(lines@) == views(before).push(f(items@[i as int])));
            assert(items@.take(i as int + 1) == items@.take(i as int).push(items@[i as int]));
            lemma_map_push(items@.take(i as int), items@[i as int], f);
        }
    }
    assert(items@.take(n as int) == items@);
}

/// The quotas of the kinds the filter lets through, one sorted line each.
pub fn table(compute: &Vec<Json>, network: &Vec<Json>, kind: Option<&str>) -> (r: String)
    requires
        all_counted(compute@, name_view(kind), "compute"@),
        all_counted(network@, name_view(kind), "network"@),
    ensures
        r@ == table_of(compute@, network@, name_view(kind)),
{
    let mut lines: Vec<String> = Vec::new();
    if wants(kind, "compute") {
        push_lines(&mut lines, compute, "compute");
    }
    if wants(kind, "network") {
        push_lines(&mut lines, network, "network");
    }
    assert(views(lines@) == kind_lines(compute@, name_view(kind), "compute"@) + kind_lines(
        network@,
        name_view(kind),
        "network"@,
    ));
    let sorted = sort_texts(&lines);
    report_of(&sorted, "Квот не знайдено.")
}

/// The path of a provider's usages in a region.
pub fn usages(subscription: &str, provider: &str, region: &str, api_version: &str) -> (r: String)
    ensures
        r@ == subscription@ + "/providers/"@ + provider@ + "/locations/"@ + region@ + "/usages?api-version="@
            + api_version@,
{
    let mut r = String::from_str(subscription);
    r.append("/providers/");
    r.append(provider);
    r.append("/locations/");
    r.append(region);
    r.append("/usages?api-version=");
    r.append(api_version);
    r
}

/// The region a quota report is asked for, or the answer that it must be given.
pub fn region(arguments: &Json) -> (r: Result<&str, String>)
    ensures
        match r {
            Ok(x) => str_of(member(*arguments, "region"@)) == Some(x@),
            Err(e) => str_of(member(*arguments, "region"@)) is None && e@
                == "Аргумент region обов'язковий, напр. eastus."@,
        },
{
    match member_of(arguments, "region") {
        Some(Json::Str(s)) => Ok(s.as_str()),
        _ => Err(String::from_str("Аргумент region обов'язковий, напр. eastus.")),
    }
}

} // verus!
