//! Virtual networks with their subnets: address spaces, subnet prefixes and the NSG of each subnet.
use vstd::prelude::*;
use crate::json::{field, field_of, items_or_none, member, member_of, pointer, pointer_in, str_of, Json};
use crate::order::{key_views, Field};
use crate::text::{lemma_filter_step, lemma_map_push, lowercase, to_lower, views};
use crate::tools::vms::{joined, joined_of};
use crate::tools::{
    arrange, by_group, chosen, derefs, in_order, last, last_of, name_key, name_view, named, part, part_of, refs,
    report, report_of, text, text_at,
};

verus! {

/// The texts among the items (`filter_map(as_str)`).
pub open spec fn strings_of(items: Seq<Json>) -> Seq<Seq<char>> {
    items.filter(|x: Json| x is Str).map_values(|x: Json| str_of(Some(x)).unwrap())
}

/// The texts of the array at a JSON pointer joined with commas, or `-`.
pub open spec fn joined_at(v: Json, p: Seq<char>) -> Seq<char> {
    joined_of(strings_of(items_or_none(pointer(v, p))))
}

/// The address prefix of a subnet: its one prefix, else its prefixes joined.
pub open spec fn prefix_of(subnet: Json) -> Seq<char> {
    let one = text_at(subnet, "/properties/addressPrefix"@);
    if one == "-"@ {
        joined_at(subnet, "/properties/addressPrefixes"@)
    } else {
        one
    }
}

/// The line of a network and one of its subnets (or none).
pub open spec fn line_of(vnet: Json, subnet: Option<Json>) -> Seq<char> {
    text_at(vnet, "/name"@) + "  "@ + lowercase(part_of(text_at(vnet, "/id"@), "resourceGroups"@)) + "  "@
        + joined_at(vnet, "/properties/addressSpace/addressPrefixes"@) + "  subnet="@ + match subnet {
        Some(s) => text_at(s, "/name"@),
        None => "-"@,
    } + "  prefix="@ + match subnet {
        Some(s) => prefix_of(s),
        None => "-"@,
    } + "  nsg="@ + match subnet {
        Some(s) => last_of(text_at(s, "/properties/networkSecurityGroup/id"@)),
        None => "-"@,
    }
}

/// The subnets of a network.
pub open spec fn subnets_of(vnet: Json) -> Seq<Json> {
    items_or_none(field(member(vnet, "properties"@), "subnets"@))
}

/// The lines of a network: one per subnet by lowercased name, or one without a subnet.
pub open spec fn vnet_lines_of(vnet: Json) -> Seq<Seq<char>> {
    let subs = subnets_of(vnet);
    if subs.len() == 0 {
        seq![line_of(vnet, None)]
    } else {
        in_order(subs, subs.map_values(|s: Json| name_key(s)), false).map_values(|s: Json| line_of(vnet, Some(s)))
    }
}

/// The report on the networks that pass the name filter, in report order.
pub open spec fn table_of(vnets: Seq<Json>, name: Option<Seq<char>>) -> Seq<char> {
    report(
        by_group(vnets).filter(|x: Json| named(name, x)).map_values(|v: Json| vnet_lines_of(v)).flatten(),
        "Мереж не знайдено."@,
    )
}

/// The texts of the array at a JSON pointer joined with commas, or `-` where there are none.
pub fn joined_texts(value: &Json, pointer: &str) -> (r: String)
    ensures
        r@ == joined_at(*value, pointer@),
{
    let mut items: Vec<String> = Vec::new();
    match pointer_in(value, pointer) {
        Some(Json::Array(a)) => {
            let ghost pred = |x: Json| x is Str;
            let ghost f = |x: Json| str_of(Some(x)).unwrap();
            let n = a.len();
            for i in 0..n
                invariant
                    n == a@.len(),
                    pred == (|x: Json| x is Str),
                    f == (|x: Json| str_of(Some(x)).unwrap()),
                    views(items@) == a@.take(i as int).filter(pred).map_values(f),
            {
                proof {
                    lemma_filter_step(a@, i as int, pred);
                }
                match &a[i] {
                    Json::Str(s) => {
                        let ghost before = items@;
                        items.push(s.clone());
                        proof {
                            lemma_map_push(a@.take(i as int).filter(pred), a@[i as int], f);
                            assert(views(items@) == views(before).push(f(a@[i as int])));
                        }
                    },
                    _ => {},
                }
            }
            assert(a@.take(n as int) == a@);
        },
        _ => {},
    }
    joined(&items)
}

/// The address prefix of a subnet: its one prefix, else its prefixes joined.
pub fn prefix(subnet: &Json) -> (r: String)
    ensures
        r@ == prefix_of(*subnet),
{
    let one = text(subnet, "/properties/addressPrefix");
    if String::from_str(one) == String::from_str("-") {
        joined_texts(subnet, "/properties/addressPrefixes")
    } else {
        String::from_str(one)
    }
}

/// The line of a network and a subnet: name, group, address space, subnet, prefix and NSG.
pub fn line(vnet: &Json, subnet: Option<&Json>) -> (r: String)
    ensures
        r@ == line_of(*vnet, crate::json::owned(subnet)),
{
    let mut r = String::from_str(text(vnet, "/name"));
    r.append("  ");
    let group = to_lower(part(text(vnet, "/id"), "resourceGroups"));
    r.append(group.as_str());
    r.append("  ");
    let space = joined_texts(vnet, "/properties/addressSpace/addressPrefixes");
    r.append(space.as_str());
    r.append("  subnet=");
    match subnet {
        Some(s) => r.append(text(s, "/name")),
        None => r.append("-"),
    }
    r.append("  prefix=");
    match subnet {
        Some(s) => {
            let p = prefix(s);
            r.append(p.as_str());
        },
        None => r.append("-"),
    }
    r.append("  nsg=");
    match subnet {
        Some(s) => r.append(last(text(s, "/properties/networkSecurityGroup/id"))),
        None => r.append("-"),
    }
    r
}

/// The lines of a network: one per subnet, by lowercased subnet name, or one without a subnet.
pub fn vnet_lines(vnet: &Json) -> (r: Vec<String>)
    ensures
        views(r@) == vnet_lines_of(*vnet),
{
    let subs: Vec<&Json> = match field_of(member_of(vnet, "properties"), "subnets") {
        Some(Json::Array(a)) => refs(a),
        _ => Vec::new(),
    };
    assert(derefs(subs@) == subnets_of(*vnet));
    let mut r: Vec<String> = Vec::new();
    if subs.len() == 0 {
        r.push(line(vnet, None));
        assert(views(r@) == seq![line_of(*vnet, None)]);
        return r;
    }
    let ghost whole = derefs(subs@);
    let n = subs.len();
    let mut keys: Vec<Vec<Field>> = Vec::new();
    for i in 0..n
        invariant
            n == subs@.len(),
            whole == derefs(subs@),
            key_views(keys@) == whole.take(i as int).map_values(|s: Json| name_key(s)),
    {
        let mut key: Vec<Field> = Vec::new();
        key.push(Field::Text(to_lower(text(subs[i], "/name"))));
        let ghost before = keys@;
        keys.push(key);
        proof {
            assert(key@.map_values(|f: Field| crate::order::part_view(f)) == name_key(whole[i as int]));
            assert(key_views(keys@) == key_views(before).push(name_key(whole[i as int])));
            assert(whole.take(i as int + 1).map_values(|s: Json| name_key(s))
                == whole.take(i as int).map_values(|s: Json| name_key(s)).push(name_key(whole[i as int])));
        }
    }
    assert(whole.take(n as int) == whole);
    let items = arrange(&subs, &keys, false);
    let ghost f = |s: Json| line_of(*vnet, Some(s));
    let m = items.len();
    for i in 0..m
        invariant
            m == items@.len(),
            f == (|s: Json| line_of(*vnet, Some(s))),
            views(r@) == derefs(items@).take(i as int).map_values(f),
    {
        let ghost before = r@;
        r.push(line(vnet, Some(items[i])));
        proof {
            assert(views(r@) == views(before).push(f(*items@[i as int])));
            assert(derefs(items@).take(i as int + 1) == derefs(items@).take(i as int).push(*items@[i as int]));
            lemma_map_push(derefs(items@).take(i as int), *items@[i as int], f);
        }
    }
    assert(derefs(items@).take(m as int) == derefs(items@));
    r
}

/// The networks in report order, those whose name is `name` where one is given, each with its
/// subnets.
pub fn table(vnets: &Vec<Json>, name: Option<&str>) -> (r: String)
    ensures
        r@ == table_of(vnets@, name_view(name)),
{
    let items = chosen(vnets, name);
    let ghost g = |v: Json| vnet_lines_of(v);
    let mut lines: Vec<String> = Vec::new();
    let n = items.len();
    for i in 0..n
        invariant
            n == items@.len(),
            g == (|v: Json| vnet_lines_of(v)),
            views(lines@) == derefs(items@).take(i as int).map_values(g).flatten(),
    {
        let mut more = vnet_lines(items[i]);
        let ghost before = lines@;
        let ghost added = more@;
        lines.append(&mut more);
        proof {
            let s = derefs(items@).take(i as int).map_values(g);
            assert(derefs(items@).take(i as int + 1) == derefs(items@).take(i as int).push(*items@[i as int]));
            lemma_map_push(derefs(items@).take(i as int), *items@[i as int], g);
            s.lemma_flatten_push(g(*items@[i as int]));
            assert(views(lines@) == views(before) + views(added));
        }
    }
    assert(derefs(items@).take(n as int) == derefs(items@));
    report_of(&lines, "Мереж не знайдено.")
}

} // verus!
