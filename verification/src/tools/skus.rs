//! The VM sizes of a region: family, vCPUs and memory, ordered by name.
use vstd::prelude::*;
use crate::json::{items_or_none, member, member_of, Json};
use crate::order::{key_views, Field};
use crate::text::{lemma_filter_step, lemma_map_push, lowercase, same_text, to_lower, views};
use crate::tools::{arrange, derefs, in_order, name_key, name_view, report, report_of, same, text, text_at};

verus! {

/// The value of the first capability named `name`, if there is one.
pub open spec fn first_capability(caps: Seq<Json>, name: Seq<char>) -> Option<Seq<char>>
    decreases caps.len(),
{
    if caps.len() == 0 {
        None
    } else if text_at(caps[0], "/name"@) == name {
        Some(text_at(caps[0], "/value"@))
    } else {
        first_capability(caps.drop_first(), name)
    }
}

/// The value of a SKU's capability `name`, or `-`.
pub open spec fn capability_of(sku: Json, name: Seq<char>) -> Seq<char> {
    match first_capability(items_or_none(member(sku, "capabilities"@)), name) {
        Some(v) => v,
        None => "-"@,
    }
}

/// The line of a SKU.
pub open spec fn line_of(sku: Json) -> Seq<char> {
    text_at(sku, "/name"@) + "  family="@ + text_at(sku, "/family"@) + "  vcpu="@ + capability_of(sku, "vCPUs"@)
        + "  ram="@ + capability_of(sku, "MemoryGB"@) + " ГБ"@
}

/// A SKU is shown: it is a VM size, and its name is the size asked for (ASCII case ignored)
/// where one is.
pub open spec fn shown_sku(size: Option<Seq<char>>, sku: Json) -> bool {
    &&& text_at(sku, "/resourceType"@) == "virtualMachines"@
    &&& match size {
        Some(s) => same_text(text_at(sku, "/name"@), s),
        None => true,
    }
}

/// The report on the VM sizes, by lowercased name (equal names keep their order).
pub open spec fn table_of(skus: Seq<Json>, size: Option<Seq<char>>) -> Seq<char> {
    let kept = skus.filter(|x: Json| shown_sku(size, x));
    report(
        in_order(kept, kept.map_values(|x: Json| name_key(x)), false).map_values(|x: Json| line_of(x)),
        "Типів VM не знайдено."@,
    )
}

/// The value of a SKU's capability `name`, or `-` where it has none.
pub fn capability<'a>(sku: &'a Json, name: &str) -> (r: &'a str)
    ensures
        r@ == capability_of(*sku, name@),
{
    let wanted = String::from_str(name);
    match member_of(sku, "capabilities") {
        Some(Json::Array(caps)) => {
            let n = caps.len();
            let mut i: usize = 0;
            assert(caps@.skip(0) == caps@);
            while i < n
                invariant
                    n == caps@.len(),
                    i <= n,
                    wanted@ == name@,
                    member(*sku, "capabilities"@) == Some(Json::Array(*caps)),
                    first_capability(caps@, name@) == first_capability(caps@.skip(i as int), name@),
                decreases n - i,
            {
                assert(caps@.skip(i as int).drop_first() == caps@.skip(i as int + 1));
                assert(caps@.skip(i as int)[0] == caps@[i as int]);
                if String::from_str(text(&caps[i], "/name")) == wanted {
                    assert(text_at(caps@[i as int], "/name"@) == name@);
                    assert(first_capability(caps@.skip(i as int), name@) == Some(text_at(caps@[i as int], "/value"@)));
                    assert(items_or_none(member(*sku, "capabilities"@)) == caps@);
                    return text(&caps[i], "/value");
                }
                i = i + 1;
            }
            "-"
        },
        _ => "-",
    }
}

/// The line of a SKU: name, family, vCPUs and memory.
pub fn line(sku: &Json) -> (r: String)
    ensures
        r@ == line_of(*sku),
{
    let mut r = String::from_str(text(sku, "/name"));
    r.append("  family=");
    r.append(text(sku, "/family"));
    r.append("  vcpu=");
    r.append(capability(sku, "vCPUs"));
    r.append("  ram=");
    r.append(capability(sku, "MemoryGB"));
    r.append(" ГБ");
    r
}

/// Whether a SKU is shown: a VM size, of the size asked for where one is.
pub fn is_shown(size: Option<&str>, sku: &Json) -> (r: bool)
    ensures
        r == shown_sku(name_view(size), *sku),
{
    if String::from_str(text(sku, "/resourceType")) == String::from_str("virtualMachines") {
        match size {
            Some(s) => same(text(sku, "/name"), s),
            None => true,
        }
    } else {
        false
    }
}

/// The VM sizes, those of the size `size` where one is given, by name, one line each.
pub fn table(skus: &Vec<Json>, size: Option<&str>) -> (r: String)
    ensures
        r@ == table_of(skus@, name_view(size)),
{
    let ghost pred = |x: Json| shown_sku(name_view(size), x);
    let ghost g = |x: Json| name_key(x);
    let mut kept: Vec<&Json> = Vec::new();
    let mut keys: Vec<Vec<Field>> = Vec::new();
    let n = skus.len();
    for i in 0..n
        invariant
            n == skus@.len(),
            pred == (|x: Json| shown_sku(name_view(size), x)),
            g == (|x: Json| name_key(x)),
            derefs(kept@) == skus@.take(i as int).filter(pred),
            key_views(keys@) == derefs(kept@).map_values(g),
    {
        proof {
            lemma_filter_step(skus@, i as int, pred);
        }
        let sku = &skus[i];
        if is_shown(size, sku) {
            let mut key: Vec<Field> = Vec::new();
            key.push(Field::Text(to_lower(text(sku, "/name"))));
            let ghost kept_before = kept@;
            let ghost keys_before = keys@;
            kept.push(sku);
            keys.push(key);
            proof {
                assert(key@.map_values(|f: Field| crate::order::part_view(f)) == name_key(*sku));
                assert(derefs(kept@) == derefs(kept_before).push(*sku));
                assert(key_views(keys@) == key_views(keys_before).push(name_key(*sku)));
                lemma_map_push(derefs(kept_before), *sku, g);
            }
        }
    }
    assert(skus@.take(n as int) == skus@);
    let items = arrange(&kept, &keys, false);
    let ghost f = |x: Json| line_of(x);
    let mut lines: Vec<String> = Vec::new();
    let m = items.len();
    for i in 0..m
        invariant
            m == items@.len(),
            f == (|x: Json| line_of(x)),
            views(lines@) == derefs(items@).take(i as int).map_values(f),
    {
        let ghost before = lines@;
        lines.push(line(items[i]));
        proof {
            assert(views(lines@) == views(before).push(f(*items@[i as int])));
            assert(derefs(items@).take(i as int + 1) == derefs(items@).take(i as int).push(*items@[i as int]));
            lemma_map_push(derefs(items@).take(i as int), *items@[i as int], f);
        }
    }
    assert(derefs(items@).take(m as int) == derefs(items@));
    report_of(&lines, "Типів VM не знайдено.")
}

} // verus!
