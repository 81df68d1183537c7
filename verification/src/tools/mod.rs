//! What every tool shares: reading resource ids and JSON fields, the order of rows, and the reply.
use vstd::prelude::*;
use crate::json::{
    bool_of, member, member_of, owned, pointer, pointer_in, push_render, render, str_of, Json,
};
use crate::order::{
    ahead, key_views, keys_lt, lemma_arranged_sorted, lemma_arrangement_exists, order, ordering, Field, Part,
};
use crate::text::{
    chars, join, join_all, lemma_filter_step, lemma_split_nonempty, lowercase, pieces, same_range, same_text,
    split, to_lower, views,
};

pub mod account;
pub mod advisor;
pub mod catalog;
pub mod costs;
pub mod disks;
pub mod dnszones;
pub mod firewall;
pub mod nics;
pub mod nsgrules;
pub mod pricing;
pub mod pubips;
pub mod quota;
pub mod skus;
pub mod snapshots;
pub mod support;
pub mod vms;
pub mod vnets;

pub use catalog::list;

verus! {

/// The first index `j` at which `segs[j]` is `key`, ASCII case ignored.
pub open spec fn first_same(segs: Seq<Seq<char>>, key: Seq<char>, j: int) -> bool {
    &&& 0 <= j < segs.len()
    &&& same_text(segs[j], key)
    &&& forall|k: int| 0 <= k < j ==> !same_text(#[trigger] segs[k], key)
}

/// The segment of a resource id that follows the segment `key` (ASCII case ignored), or `-`.
pub open spec fn part_of(id: Seq<char>, key: Seq<char>) -> Seq<char> {
    let segs = split(id, '/');
    if exists|j: int| first_same(segs, key, j) {
        let j = choose|j: int| first_same(segs, key, j);
        if j + 1 < segs.len() {
            segs[j + 1]
        } else {
            "-"@
        }
    } else {
        "-"@
    }
}

/// The last segment of a resource id.
pub open spec fn last_of(id: Seq<char>) -> Seq<char> {
    split(id, '/').last()
}

/// The string at a JSON pointer, or `-`.
pub open spec fn text_at(v: Json, p: Seq<char>) -> Seq<char> {
    match str_of(pointer(v, p)) {
        Some(s) => s,
        None => "-"@,
    }
}

/// Any value at a JSON pointer as text: a string as it is, another value as JSON, or `-`.
pub open spec fn shown_at(v: Json, p: Seq<char>) -> Seq<char> {
    match pointer(v, p) {
        Some(Json::Str(s)) => s@,
        Some(x) => render(x),
        None => "-"@,
    }
}

/// The key rows are sorted by: the resource group, then the name, both lowercased.
pub open spec fn sort_key(item: Json) -> Seq<Part> {
    seq![
        Part::Text(lowercase(part_of(text_at(item, "/id"@), "resourceGroups"@))),
        Part::Text(lowercase(text_at(item, "/name"@))),
    ]
}

/// The items in the order of the reports: by group, then by name; equal keys keep their order.
pub open spec fn by_group(items: Seq<Json>) -> Seq<Json> {
    ordering(items.map_values(|x: Json| sort_key(x)), false).map_values(|i: usize| items[i as int])
}

/// A name filter as a value.
pub open spec fn name_view(name: Option<&str>) -> Option<Seq<char>> {
    match name {
        Some(n) => Some(n@),
        None => None,
    }
}

/// The item passes a name filter: no filter, or its name is the filter's (ASCII case ignored).
pub open spec fn named(name: Option<Seq<char>>, item: Json) -> bool {
    match name {
        Some(n) => same_text(text_at(item, "/name"@), n),
        None => true,
    }
}

/// A report: its lines, or the given sentence when there are none.
pub open spec fn report(lines: Seq<Seq<char>>, none: Seq<char>) -> Seq<char> {
    if lines.len() == 0 {
        none
    } else {
        join(lines, "\n"@)
    }
}

/// References seen as values.
pub open spec fn derefs(r: Seq<&Json>) -> Seq<Json> {
    r.map_values(|x: &Json| *x)
}

/// The segment of a resource id after the segment `key` (ASCII case ignored), or `-`: for
/// `.../resourceGroups/demo-rg/...` and `resourceGroups` it is `demo-rg`.
pub fn part<'a>(id: &'a str, key: &str) -> (r: &'a str)
    ensures
        r@ == part_of(id@, key@),
{
    let v = chars(id);
    let w = chars(key);
    let ranges = pieces(&v, '/');
    let ghost segs = split(id@, '/');
    let n = ranges.len();
    let mut j: usize = 0;
    while j < n
        invariant
            v@ == id@,
            w@ == key@,
            segs == split(id@, '/'),
            n == ranges@.len(),
            n == segs.len(),
            j <= n,
            forall|k: int| 0 <= k < ranges@.len() ==> #[trigger] ranges@[k].0 <= ranges@[k].1 <= v@.len(),
            forall|k: int|
                0 <= k < ranges@.len() ==> v@.subrange(ranges@[k].0 as int, ranges@[k].1 as int)
                    == #[trigger] split(v@, '/')[k],
            forall|k: int| 0 <= k < j ==> !same_text(#[trigger] segs[k], key@),
        decreases n - j,
    {
        let (a, b) = ranges[j];
        assert(v@.subrange(a as int, b as int) == segs[j as int]);
        if same_range(&v, a, b, &w) {
            assert(first_same(segs, key@, j as int));
            proof {
                let c = choose|c: int| first_same(segs, key@, c);
                assert(c == j) by {
                    if c < j {
                        assert(!same_text(segs[c], key@));
                    }
                    if c > j {
                        assert(!same_text(segs[j as int], key@));
                    }
                }
            }
            if j + 1 < n {
                let (c, d) = ranges[j + 1];
                assert(v@.subrange(c as int, d as int) == segs[j + 1]);
                return id.substring_char(c, d);
            } else {
                return "-";
            }
        }
        j = j + 1;
    }
    "-"
}

/// The last segment of a resource id: for `.../networkInterfaces/nic1` it is `nic1`.
pub fn last<'a>(id: &'a str) -> (r: &'a str)
    ensures
        r@ == last_of(id@),
{
    let v = chars(id);
    let ranges = pieces(&v, '/');
    proof {
        lemma_split_nonempty(v@, '/');
    }
    let n = ranges.len();
    let (a, b) = ranges[n - 1];
    assert(v@.subrange(a as int, b as int) == split(v@, '/')[n - 1]);
    id.substring_char(a, b)
}

/// The string at a JSON pointer, or `-` where there is none.
pub fn text<'a>(value: &'a Json, pointer: &str) -> (r: &'a str)
    ensures
        r@ == text_at(*value, pointer@),
{
    match pointer_in(value, pointer) {
        Some(Json::Str(s)) => s.as_str(),
        _ => "-",
    }
}

/// Any value at a JSON pointer as text: a string as it is, a number or another value as JSON,
/// `-` where there is none.
pub fn shown(value: &Json, pointer: &str) -> (r: String)
    ensures
        r@ == shown_at(*value, pointer@),
{
    match pointer_in(value, pointer) {
        Some(Json::Str(s)) => s.clone(),
        Some(item) => {
            let mut r = String::new();
            push_render(&mut r, item);
            r
        },
        None => String::from_str("-"),
    }
}

/// Whether two names are the same when ASCII case is ignored.
pub fn same(left: &str, right: &str) -> (r: bool)
    ensures
        r == same_text(left@, right@),
{
    let v = chars(left);
    let w = chars(right);
    let n = v.len();
    assert(v@.subrange(0, n as int) == v@);
    same_range(&v, 0, n, &w)
}

/// The items in report order: by resource group, then by name, both lowercased; items with
/// equal keys keep their order.
pub fn sorted<'a>(items: &'a Vec<Json>) -> (r: Vec<&'a Json>)
    ensures
        derefs(r@) == by_group(items@),
        forall|k: int| 0 <= k < r@.len() ==> items@.contains(*#[trigger] r@[k]),
{
    let n = items.len();
    let mut keys: Vec<Vec<Field>> = Vec::new();
    for i in 0..n
        invariant
            n == items@.len(),
            key_views(keys@) == items@.take(i as int).map_values(|x: Json| sort_key(x)),
    {
        let item = &items[i];
        let group = to_lower(part(text(item, "/id"), "resourceGroups"));
        let name = to_lower(text(item, "/name"));
        let mut key: Vec<Field> = Vec::new();
        key.push(Field::Text(group));
        key.push(Field::Text(name));
        let ghost before = keys@;
        keys.push(key);
        proof {
            assert(key@.map_values(|f: Field| crate::order::part_view(f)) == sort_key(items@[i as int]));
            assert(key_views(keys@) == key_views(before).push(key@.map_values(|f: Field| crate::order::part_view(f))));
            assert(items@.take(i as int + 1).map_values(|x: Json| sort_key(x))
                == items@.take(i as int).map_values(|x: Json| sort_key(x)).push(sort_key(items@[i as int])));
        }
    }
    assert(items@.take(n as int) == items@);
    let idx = order(&keys, false);
    let mut r: Vec<&'a Json> = Vec::new();
    for k in 0..n
        invariant
            n == items@.len(),
            idx@.len() == n,
            forall|j: int| 0 <= j < n ==> #[trigger] idx@[j] < n,
            derefs(r@) == idx@.take(k as int).map_values(|i: usize| items@[i as int]),
            forall|j: int| 0 <= j < r@.len() ==> items@.contains(*#[trigger] r@[j]),
    {
        let ghost before = r@;
        r.push(&items[idx[k]]);
        assert(items@.contains(items@[idx@[k as int] as int]));
        assert(idx@.take(k as int + 1) == idx@.take(k as int).push(idx@[k as int]));
        assert(derefs(r@) == derefs(before).push(items@[idx@[k as int] as int]));
        assert(idx@.take(k as int + 1).map_values(|i: usize| items@[i as int])
            == idx@.take(k as int).map_values(|i: usize| items@[i as int]).push(items@[idx@[k as int] as int]));
    }
    assert(idx@.take(n as int) == idx@);
    r
}

/// The key of an item ordered by its lowercased name.
pub open spec fn name_key(item: Json) -> Seq<Part> {
    seq![Part::Text(lowercase(text_at(item, "/name"@)))]
}

/// The items in the order that keys give them: ascending, or descending, by key, items with equal
/// keys in their first order.
pub open spec fn in_order(items: Seq<Json>, keys: Seq<Seq<Part>>, descending: bool) -> Seq<Json> {
    ordering(keys, descending).map_values(|i: usize| items[i as int])
}

/// References to the items, in their order.
pub fn refs<'a>(items: &'a Vec<Json>) -> (r: Vec<&'a Json>)
    ensures
        derefs(r@) == items@,
{
    let mut r: Vec<&'a Json> = Vec::new();
    let n = items.len();
    for i in 0..n
        invariant
            n == items@.len(),
            derefs(r@) == items@.take(i as int),
    {
        let ghost before = r@;
        r.push(&items[i]);
        assert(derefs(r@) == derefs(before).push(items@[i as int]));
        assert(items@.take(i as int + 1) == items@.take(i as int).push(items@[i as int]));
    }
    assert(items@.take(n as int) == items@);
    r
}

/// The items in the order of their keys (one key per item): ascending or descending, items with
/// equal keys in their first order.
pub fn arrange<'a>(items: &Vec<&'a Json>, keys: &Vec<Vec<Field>>, descending: bool) -> (r: Vec<&'a Json>)
    requires
        keys@.len() == items@.len(),
    ensures
        derefs(r@) == in_order(derefs(items@), key_views(keys@), descending),
{
    let idx = order(keys, descending);
    let ghost whole = derefs(items@);
    let ghost f = |i: usize| whole[i as int];
    let n = idx.len();
    let mut r: Vec<&'a Json> = Vec::new();
    for k in 0..n
        invariant
            n == idx@.len(),
            n == items@.len(),
            whole == derefs(items@),
            f == (|i: usize| whole[i as int]),
            forall|j: int| 0 <= j < n ==> #[trigger] idx@[j] < n,
            derefs(r@) == idx@.take(k as int).map_values(f),
    {
        let ghost before = r@;
        r.push(items[idx[k]]);
        assert(derefs(r@) == derefs(before).push(whole[idx@[k as int] as int]));
        assert(idx@.take(k as int + 1) == idx@.take(k as int).push(idx@[k as int]));
        assert(idx@.take(k as int + 1).map_values(f) == idx@.take(k as int).map_values(f).push(f(idx@[k as int])));
    }
    assert(idx@.take(n as int) == idx@);
    r
}

/// Reports list their rows by resource group, then by name, both lowercased: each item comes
/// once, the keys never fall, and items with equal keys keep their first order.
pub proof fn lemma_report_order(items: Seq<Json>)
    requires
        items.len() <= usize::MAX,
    ensures
        ({
            let keys = items.map_values(|x: Json| sort_key(x));
            let idx = ordering(keys, false);
            let rows = by_group(items);
            &&& rows.len() == items.len()
            &&& forall|i: int| 0 <= i < items.len() ==> #[trigger] idx.contains(i as usize)
            &&& forall|k: int| 0 <= k < rows.len() ==> #[trigger] idx[k] < items.len() && rows[k] == items[idx[k] as int]
            &&& forall|a: int, b: int|
                0 <= a < b < rows.len() ==> !keys_lt(sort_key(#[trigger] rows[b]), sort_key(#[trigger] rows[a]))
            &&& forall|a: int, b: int|
                0 <= a < b < rows.len() && sort_key(#[trigger] rows[a]) == sort_key(#[trigger] rows[b]) ==> idx[a] < idx[b]
        }),
{
    let keys = items.map_values(|x: Json| sort_key(x));
    lemma_arrangement_exists(keys, false);
    let idx = ordering(keys, false);
    lemma_arranged_sorted(keys, false, idx);
    let rows = by_group(items);
    assert forall|a: int, b: int| 0 <= a < b < rows.len() implies !keys_lt(sort_key(#[trigger] rows[b]), sort_key(#[trigger] rows[a])) by {
        assert(rows[a] == items[idx[a] as int] && rows[b] == items[idx[b] as int]);
        assert(!keys_lt(keys[idx[b] as int], keys[idx[a] as int]));
    }
    assert forall|a: int, b: int|
        0 <= a < b < rows.len() && sort_key(#[trigger] rows[a]) == sort_key(#[trigger] rows[b]) implies idx[a] < idx[b] by {
        assert(rows[a] == items[idx[a] as int] && rows[b] == items[idx[b] as int]);
        assert(ahead(keys, false, idx[a] as int, idx[b] as int));
    }
}

/// Whether an item passes a name filter.
pub fn is_named(name: Option<&str>, item: &Json) -> (r: bool)
    ensures
        r == named(name_view(name), *item),
{
    match name {
        Some(n) => same(text(item, "/name"), n),
        None => true,
    }
}

/// The items in report order that pass a name filter.
pub fn chosen<'a>(items: &'a Vec<Json>, name: Option<&str>) -> (r: Vec<&'a Json>)
    ensures
        derefs(r@) == by_group(items@).filter(|x: Json| named(name_view(name), x)),
        forall|k: int|
            0 <= k < r@.len() ==> items@.contains(*#[trigger] r@[k]) && named(name_view(name), *r@[k]),
{
    let all = sorted(items);
    let ghost pred = |x: Json| named(name_view(name), x);
    let ghost whole = derefs(all@);
    let mut r: Vec<&'a Json> = Vec::new();
    let n = all.len();
    for i in 0..n
        invariant
            n == all@.len(),
            whole == derefs(all@),
            whole == by_group(items@),
            pred == (|x: Json| named(name_view(name), x)),
            derefs(r@) == whole.take(i as int).filter(pred),
            forall|k: int| 0 <= k < all@.len() ==> items@.contains(*#[trigger] all@[k]),
            forall|k: int|
                0 <= k < r@.len() ==> items@.contains(*#[trigger] r@[k]) && named(name_view(name), *r@[k]),
    {
        proof {
            lemma_filter_step(whole, i as int, pred);
        }
        let item = all[i];
        if is_named(name, item) {
            let ghost before = r@;
            assert(items@.contains(*all@[i as int]));
            r.push(item);
            assert(derefs(r@) == derefs(before).push(*item));
        }
    }
    assert(whole.take(n as int) == whole);
    r
}

/// A report: the lines joined, or the given sentence when there are none.
pub fn report_of(lines: &Vec<String>, none: &str) -> (r: String)
    ensures
        r@ == report(views(lines@), none@),
{
    if lines.len() == 0 {
        String::from_str(none)
    } else {
        join_all(lines, "\n")
    }
}

/// A report made of blocks: the blocks separated by empty lines, or the given sentence when
/// there are none.
pub open spec fn blocks_report(blocks: Seq<Seq<char>>, none: Seq<char>) -> Seq<char> {
    if blocks.len() == 0 {
        none
    } else {
        join(blocks, "\n\n"@)
    }
}

/// A report made of blocks: the blocks separated by empty lines, or the given sentence when
/// there are none.
pub fn blocks_of(blocks: &Vec<String>, none: &str) -> (r: String)
    ensures
        r@ == blocks_report(views(blocks@), none@),
{
    if blocks.len() == 0 {
        String::from_str(none)
    } else {
        join_all(blocks, "\n\n")
    }
}

/// Whether a tool was asked to skip its cache (`refresh`, false when absent).
pub fn refresh(arguments: &Json) -> (r: bool)
    ensures
        r == match bool_of(member(*arguments, "refresh"@)) {
            Some(b) => b,
            None => false,
        },
{
    flag(arguments, "refresh")
}

/// A boolean argument, false when absent or not a boolean.
pub fn flag(arguments: &Json, key: &str) -> (r: bool)
    ensures
        r == match bool_of(member(*arguments, key@)) {
            Some(b) => b,
            None => false,
        },
{
    match member_of(arguments, key) {
        Some(Json::Bool(b)) => *b,
        _ => false,
    }
}

/// The string of a member, if it is a string.
pub fn member_text<'a>(value: &'a Json, key: &str) -> (r: Option<&'a str>)
    ensures
        match r {
            Some(s) => str_of(member(*value, key@)) == Some(s@),
            None => str_of(member(*value, key@)) is None,
        },
{
    match member_of(value, key) {
        Some(Json::Str(s)) => Some(s.as_str()),
        _ => None,
    }
}

/// The subscription path of a subscription id: `/subscriptions/<id>`.
pub fn subscription(id: &str) -> (r: String)
    ensures
        r@ == "/subscriptions/"@ + id@,
{
    let mut r = String::from_str("/subscriptions/");
    r.append(id);
    r
}

/// The scope of a tool: the resource group `group` of the subscription where the arguments name
/// one, else the whole subscription.
pub fn scope(subscription: &str, arguments: &Json) -> (r: String)
    ensures
        r@ == match str_of(member(*arguments, "group"@)) {
            Some(g) => subscription@ + "/resourceGroups/"@ + g,
            None => subscription@,
        },
{
    let mut r = String::from_str(subscription);
    match member_text(arguments, "group") {
        Some(group) => {
            r.append("/resourceGroups/");
            r.append(group);
        },
        None => {},
    }
    r
}

/// The answer of a tool call: its text, marked as an error or not.
pub fn reply(result: Result<String, String>) -> (r: Json)
    ensures
        ({
            let (text, failed) = match result {
                Ok(t) => (t@, false),
                Err(t) => (t@, true),
            };
            &&& r matches Json::Object(m)
            &&& m@.len() == 2
            &&& m@[0].0@ == "content"@
            &&& m@[0].1 matches Json::Array(content)
            &&& content@.len() == 1
            &&& content@[0] matches Json::Object(item)
            &&& item@.len() == 2
            &&& item@[0].0@ == "text"@
            &&& item@[0].1 matches Json::Str(t)
            &&& t@ == text
            &&& item@[1].0@ == "type"@
            &&& item@[1].1 matches Json::Str(k)
            &&& k@ == "text"@
            &&& m@[1].0@ == "isError"@
            &&& m@[1].1 == Json::Bool(failed)
        }),
{
    let (text, failed) = match result {
        Ok(t) => (t, false),
        Err(t) => (t, true),
    };
    let mut item: Vec<(String, Json)> = Vec::new();
    item.push((String::from_str("text"), Json::Str(text)));
    item.push((String::from_str("type"), Json::Str(String::from_str("text"))));
    let mut content: Vec<Json> = Vec::new();
    content.push(Json::Object(item));
    let mut m: Vec<(String, Json)> = Vec::new();
    m.push((String::from_str("content"), Json::Array(content)));
    m.push((String::from_str("isError"), Json::Bool(failed)));
    Json::Object(m)
}

} // verus!
