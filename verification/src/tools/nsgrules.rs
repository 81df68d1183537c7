//! Network security groups: where they are attached, the ports open from anywhere, and the rules
//! by direction and priority.
use vstd::prelude::*;
use crate::json::{field, field_of, int_of, items_or_none, member, member_of, owned, pointer, pointer_in, str_of, Json};
use crate::order::{
    key_views, keys_lt, lemma_arranged_sorted, lemma_arrangement_exists, lemma_ordering_prefix, order, ordering,
    part_view, Field, Part,
};
use crate::text::{
    chars, join, join_all, lemma_filter_step, lemma_map_filter, lemma_map_push, lemma_split_whole, pad_left, pad_right, pieces, push_pad_left,
    push_pad_right, signed, signed_of, split, to_upper, uppercase, views,
};
use crate::tools::{
    by_group, chosen, derefs, is_named, last, last_of, lemma_report_order, name_view, named, part, part_of, report,
    report_of, sort_key, text,
    text_at,
};

verus! {

/// How an attached subnet or interface is shown: `network/subnet` for a subnet, else the last
/// segment of its id.
pub open spec fn short_of(id: Seq<char>) -> Seq<char> {
    if part_of(id, "subnets"@) == "-"@ {
        last_of(id)
    } else {
        part_of(id, "virtualNetworks"@) + "/"@ + part_of(id, "subnets"@)
    }
}

/// The resources of kind `key` the group is attached to.
pub open spec fn attached_items(nsg: Json, key: Seq<char>) -> Seq<Json> {
    items_or_none(field(member(nsg, "properties"@), key))
}

/// Every attached resource of kind `key` has a string id.
pub open spec fn attached_ok(nsg: Json, key: Seq<char>) -> bool {
    forall|x: Json| attached_items(nsg, key).contains(x) ==> str_of(#[trigger] member(x, "id"@)) is Some
}

/// The attached resources of kind `key`, or `-`.
pub open spec fn attached_of(nsg: Json, key: Seq<char>) -> Seq<char> {
    let ids = attached_items(nsg, key).map_values(|x: Json| short_of(str_of(member(x, "id"@)).unwrap()));
    if ids.len() == 0 {
        "-"@
    } else {
        join(ids, ", "@)
    }
}

/// The list `many` of a rule's properties.
pub open spec fn list_items(props: Option<Json>, many: Seq<char>) -> Seq<Json> {
    items_or_none(field(props, many))
}

/// Every item of the list `many` is a string.
pub open spec fn list_ok(props: Option<Json>, many: Seq<char>) -> bool {
    forall|x: Json| #[trigger] list_items(props, many).contains(x) ==> str_of(Some(x)) is Some
}

/// A range of a rule: the items of its list `many`, then its single value `one`, joined with
/// commas; `-` when there are none.
pub open spec fn ranges_of(props: Option<Json>, one: Seq<char>, many: Seq<char>) -> Seq<char> {
    let items = list_items(props, many).map_values(|x: Json| str_of(Some(x)).unwrap());
    let all = match str_of(field(props, one)) {
        Some(s) => items.push(s),
        None => items,
    };
    if all.len() == 0 {
        "-"@
    } else {
        join(all, ","@)
    }
}

/// The properties of a rule.
pub open spec fn props_of(rule: Json) -> Option<Json> {
    member(rule, "properties"@)
}

/// A rule has what its line shows: an integer priority, text direction, access, protocol and
/// name, and text lists of ranges.
pub open spec fn line_ok(rule: Json) -> bool {
    let props = props_of(rule);
    &&& int_of(field(props, "priority"@)) is Some
    &&& str_of(field(props, "direction"@)) is Some
    &&& str_of(field(props, "access"@)) is Some
    &&& str_of(field(props, "protocol"@)) is Some
    &&& str_of(member(rule, "name"@)) is Some
    &&& list_ok(props, "sourceAddressPrefixes"@)
    &&& list_ok(props, "sourcePortRanges"@)
    &&& list_ok(props, "destinationAddressPrefixes"@)
    &&& list_ok(props, "destinationPortRanges"@)
}

/// The line of a rule: priority, direction, access, protocol, source and destination, name, and
/// whether it is a default rule.
pub open spec fn line_of(rule: Json, default: bool) -> Seq<char> {
    let props = props_of(rule);
    "  "@ + pad_left(signed(int_of(field(props, "priority"@)).unwrap() as int), 5) + " "@ + pad_right(
        str_of(field(props, "direction"@)).unwrap(),
        8,
    ) + " "@ + pad_right(str_of(field(props, "access"@)).unwrap(), 5) + " "@ + pad_right(
        uppercase(str_of(field(props, "protocol"@)).unwrap()),
        4,
    ) + " "@ + ranges_of(props, "sourceAddressPrefix"@, "sourceAddressPrefixes"@) + ":"@ + ranges_of(
        props,
        "sourcePortRange"@,
        "sourcePortRanges"@,
    ) + " -> "@ + ranges_of(props, "destinationAddressPrefix"@, "destinationAddressPrefixes"@) + ":"@
        + ranges_of(props, "destinationPortRange"@, "destinationPortRanges"@) + "  "@ + str_of(
        member(rule, "name"@),
    ).unwrap() + (if default {
        " (типове)"@
    } else {
        ""@
    })
}

/// A source that means any address.
pub open spec fn open_source(s: Seq<char>) -> bool {
    s == "*"@ || s == "Internet"@ || s == "0.0.0.0/0"@ || s == "Any"@
}

/// An inbound rule that allows traffic from any source.
pub open spec fn is_open(rule: Json) -> bool {
    let props = props_of(rule);
    let from = split(ranges_of(props, "sourceAddressPrefix"@, "sourceAddressPrefixes"@), ',');
    &&& str_of(field(props, "direction"@)) == Some("Inbound"@)
    &&& str_of(field(props, "access"@)) == Some("Allow"@)
    &&& exists|k: int| 0 <= k < from.len() && open_source(#[trigger] from[k])
}

/// A group whose only rule is inbound and allowing, from one source `src` (no list of sources,
/// no comma), reports its ports as open exactly when that source means any address: `*`,
/// `Internet`, `0.0.0.0/0` or `Any`. Then the summary is `ports/PROTOCOL`, else `-`.
pub proof fn lemma_open_sources(nsg: Json, src: Seq<char>)
    requires
        all_rules(nsg).len() == 1,
        str_of(field(props_of(all_rules(nsg)[0]), "direction"@)) == Some("Inbound"@),
        str_of(field(props_of(all_rules(nsg)[0]), "access"@)) == Some("Allow"@),
        str_of(field(props_of(all_rules(nsg)[0]), "sourceAddressPrefix"@)) == Some(src),
        list_items(props_of(all_rules(nsg)[0]), "sourceAddressPrefixes"@).len() == 0,
        forall|i: int| 0 <= i < src.len() ==> src[i] != ',',
    ensures
        ({
            let props = props_of(all_rules(nsg)[0]);
            open_of(nsg) == if src == "*"@ || src == "Internet"@ || src == "0.0.0.0/0"@ || src == "Any"@ {
                ranges_of(props, "destinationPortRange"@, "destinationPortRanges"@) + "/"@ + uppercase(
                    str_of(field(props, "protocol"@)).unwrap(),
                )
            } else {
                "-"@
            }
        }),
{
    let rule = all_rules(nsg)[0];
    let props = props_of(rule);
    let items = list_items(props, "sourceAddressPrefixes"@).map_values(|x: Json| str_of(Some(x)).unwrap());
    assert(items =~= Seq::<Seq<char>>::empty());
    assert(items.push(src) =~= seq![src]);
    assert(ranges_of(props, "sourceAddressPrefix"@, "sourceAddressPrefixes"@) == src);
    lemma_split_whole(src, ',');
    let from = split(src, ',');
    assert(from == seq![src]);
    let wide = src == "*"@ || src == "Internet"@ || src == "0.0.0.0/0"@ || src == "Any"@;
    if wide {
        assert(open_source(from[0]));
    }
    assert(is_open(rule) == wide);
    let pred = |r: Json| is_open(r);
    let rules = all_rules(nsg);
    reveal(Seq::filter);
    assert(rules.drop_last() =~= Seq::<Json>::empty());
    assert(rules.drop_last().filter(pred) =~= Seq::<Json>::empty());
    if wide {
        assert(rules.filter(pred) =~= seq![rule]);
        assert(rules.filter(pred).map_values(|r: Json| open_item(r)) =~= seq![open_item(rule)]);
    } else {
        assert(rules.filter(pred) =~= Seq::<Json>::empty());
    }
}

/// What an open rule opens: its destination ports and its protocol.
pub open spec fn open_item(rule: Json) -> Seq<char> {
    let props = props_of(rule);
    ranges_of(props, "destinationPortRange"@, "destinationPortRanges"@) + "/"@ + uppercase(
        str_of(field(props, "protocol"@)).unwrap(),
    )
}

/// All rules of a group: its own, then the default ones.
pub open spec fn all_rules(nsg: Json) -> Seq<Json> {
    items_or_none(pointer(nsg, "/properties/securityRules"@)) + items_or_none(
        pointer(nsg, "/properties/defaultSecurityRules"@),
    )
}

/// A rule has what the summary of open ports reads.
pub open spec fn open_ok(rule: Json) -> bool {
    &&& list_ok(props_of(rule), "sourceAddressPrefixes"@)
    &&& is_open(rule) ==> list_ok(props_of(rule), "destinationPortRanges"@) && str_of(
        field(props_of(rule), "protocol"@),
    ) is Some
}

/// The ports open from any source (priorities not considered), or `-`.
pub open spec fn open_of(nsg: Json) -> Seq<char> {
    let items = all_rules(nsg).filter(|r: Json| is_open(r)).map_values(|r: Json| open_item(r));
    if items.len() == 0 {
        "-"@
    } else {
        join(items, ", "@)
    }
}

/// The rules shown for a group, each marked whether it is a default rule.
pub open spec fn shown_rules(nsg: Json, custom: bool) -> Seq<(Json, bool)> {
    items_or_none(pointer(nsg, "/properties/securityRules"@)).map_values(|r: Json| (r, false)) + if custom {
        Seq::empty()
    } else {
        items_or_none(pointer(nsg, "/properties/defaultSecurityRules"@)).map_values(|r: Json| (r, true))
    }
}

/// A rule's place: by direction, then priority.
pub open spec fn rule_key(rule: Json) -> Seq<Part> {
    let props = props_of(rule);
    seq![
        Part::Text(str_of(field(props, "direction"@)).unwrap()),
        Part::Number(int_of(field(props, "priority"@)).unwrap() as int),
    ]
}

/// The rules shown for a group in their order: by direction, then priority; equal ones in their
/// first order.
pub open spec fn ordered_rules(nsg: Json, custom: bool) -> Seq<(Json, bool)> {
    let rules = shown_rules(nsg, custom);
    ordering(rules.map_values(|t: (Json, bool)| rule_key(t.0)), false).map_values(|i: usize| rules[i as int])
}

/// The first line of a group.
pub open spec fn head_of(nsg: Json) -> Seq<char> {
    text_at(nsg, "/name"@) + "  "@ + part_of(text_at(nsg, "/id"@), "resourceGroups"@) + "  підмережі: "@
        + attached_of(nsg, "subnets"@) + "  NIC: "@ + attached_of(nsg, "networkInterfaces"@)
}

/// The lines of a group.
pub open spec fn nsg_lines(nsg: Json, custom: bool) -> Seq<Seq<char>> {
    seq![head_of(nsg), "  відкрито ззовні: "@ + open_of(nsg)] + ordered_rules(nsg, custom).map_values(
        |t: (Json, bool)| line_of(t.0, t.1),
    )
}

/// A group has all that its lines read.
pub open spec fn nsg_ok(nsg: Json, custom: bool) -> bool {
    &&& attached_ok(nsg, "subnets"@)
    &&& attached_ok(nsg, "networkInterfaces"@)
    &&& forall|r: Json| all_rules(nsg).contains(r) ==> #[trigger] open_ok(r)
    &&& forall|t: (Json, bool)| shown_rules(nsg, custom).contains(t) ==> #[trigger] line_ok(t.0)
}

/// With `custom`, a group's report is its report without `custom` with the lines of the default
/// rules taken out: the same head and open ports, then the group's own rules in the same order.
/// Either way the rules come by direction, then priority, never falling; and with `custom` no
/// default rule is listed.
pub proof fn lemma_custom_hides_defaults(nsg: Json)
    requires
        shown_rules(nsg, false).len() <= usize::MAX,
    ensures
        ordered_rules(nsg, true) == ordered_rules(nsg, false).filter(|t: (Json, bool)| !t.1),
        nsg_lines(nsg, true) == seq![head_of(nsg), "  відкрито ззовні: "@ + open_of(nsg)] + ordered_rules(
            nsg,
            false,
        ).filter(|t: (Json, bool)| !t.1).map_values(|t: (Json, bool)| line_of(t.0, t.1)),
        forall|k: int| 0 <= k < ordered_rules(nsg, true).len() ==> !(#[trigger] ordered_rules(nsg, true)[k]).1,
        forall|c: bool, a: int, b: int|
            0 <= a < b < ordered_rules(nsg, c).len() ==> !keys_lt(
                rule_key((#[trigger] ordered_rules(nsg, c)[b]).0),
                rule_key((#[trigger] ordered_rules(nsg, c)[a]).0),
            ),
{
    let all = shown_rules(nsg, false);
    let own = shown_rules(nsg, true);
    let m = items_or_none(pointer(nsg, "/properties/securityRules"@)).len() as int;
    assert(own =~= all.take(m));
    let kf = all.map_values(|t: (Json, bool)| rule_key(t.0));
    let kt = own.map_values(|t: (Json, bool)| rule_key(t.0));
    assert(kt =~= kf.take(m));
    lemma_ordering_prefix(kf, false, m);
    lemma_arrangement_exists(kf, false);
    lemma_arrangement_exists(kt, false);
    let x = ordering(kf, false);
    let q = |i: usize| (i as int) < m;
    let p = |t: (Json, bool)| !t.1;
    let g = |i: usize| all[i as int];
    assert forall|k: int| 0 <= k < x.len() implies p(g(#[trigger] x[k])) == q(x[k]) by {
        assert(x[k] < kf.len());
    }
    lemma_map_filter(x, g, p, q);
    assert(ordered_rules(nsg, false) == x.map_values(g));
    let z = ordering(kt, false);
    assert(z == x.filter(q));
    assert(ordered_rules(nsg, true) =~= x.filter(q).map_values(g)) by {
        assert forall|k: int| 0 <= k < z.len() implies #[trigger] own[z[k] as int] == all[z[k] as int] by {
            assert(z[k] < kt.len());
        }
    }
    assert forall|k: int| 0 <= k < ordered_rules(nsg, true).len() implies !(#[trigger] ordered_rules(nsg, true)[k]).1 by {
        assert(z[k] < kt.len());
        assert(ordered_rules(nsg, true)[k] == own[z[k] as int]);
    }
    lemma_arranged_sorted(kf, false, x);
    lemma_arranged_sorted(kt, false, z);
    assert forall|c: bool, a: int, b: int|
        0 <= a < b < ordered_rules(nsg, c).len() implies !keys_lt(
            rule_key((#[trigger] ordered_rules(nsg, c)[b]).0),
            rule_key((#[trigger] ordered_rules(nsg, c)[a]).0),
        ) by {
        if c {
            assert(ordered_rules(nsg, c)[a] == own[z[a] as int] && ordered_rules(nsg, c)[b] == own[z[b] as int]);
            assert(kt[z[a] as int] == rule_key(own[z[a] as int].0));
            assert(kt[z[b] as int] == rule_key(own[z[b] as int].0));
        } else {
            assert(ordered_rules(nsg, c)[a] == all[x[a] as int] && ordered_rules(nsg, c)[b] == all[x[b] as int]);
            assert(kf[x[a] as int] == rule_key(all[x[a] as int].0));
            assert(kf[x[b] as int] == rule_key(all[x[b] as int].0));
        }
    }
}

/// The lines of a group as `custom` shows them, told from its lines without `custom`: the head,
/// the open ports, then the own rules among all rules in their order.
pub open spec fn custom_lines(nsg: Json) -> Seq<Seq<char>> {
    seq![head_of(nsg), "  відкрито ззовні: "@ + open_of(nsg)] + ordered_rules(nsg, false).filter(
        |t: (Json, bool)| !t.1,
    ).map_values(|t: (Json, bool)| line_of(t.0, t.1))
}

/// The whole report with `custom` is the report without it, each group's default-rule lines
/// taken out.
pub proof fn lemma_custom_table(groups: Seq<Json>, name: Option<Seq<char>>)
    requires
        groups.len() <= usize::MAX,
        forall|g: Json| groups.contains(g) ==> #[trigger] shown_rules(g, false).len() <= usize::MAX,
    ensures
        table_of(groups, name, true) == report(
            by_group(groups).filter(|x: Json| named(name, x)).map_values(|g: Json| custom_lines(g)).flatten_alt(),
            "Груп безпеки не знайдено."@,
        ),
{
    lemma_report_order(groups);
    let kept = by_group(groups).filter(|x: Json| named(name, x));
    assert forall|k: int| 0 <= k < kept.len() implies nsg_lines(#[trigger] kept[k], true) == custom_lines(kept[k]) by {
        assert(kept.contains(kept[k]));
        by_group(groups).lemma_filter_contains_rev(|x: Json| named(name, x), kept[k]);
        let j = choose|j: int| 0 <= j < by_group(groups).len() && by_group(groups)[j] == kept[k];
        let keys = groups.map_values(|x: Json| sort_key(x));
        assert(by_group(groups)[j] == groups[ordering(keys, false)[j] as int]);
        assert(groups.contains(groups[ordering(keys, false)[j] as int]));
        lemma_custom_hides_defaults(kept[k]);
    }
    assert(kept.map_values(|g: Json| nsg_lines(g, true)) =~= kept.map_values(|g: Json| custom_lines(g)));
}

/// The report on the groups that pass the name filter.
pub open spec fn table_of(groups: Seq<Json>, name: Option<Seq<char>>, custom: bool) -> Seq<char> {
    report(
        by_group(groups).filter(|x: Json| named(name, x)).map_values(|g: Json| nsg_lines(g, custom)).flatten_alt(),
        "Груп безпеки не знайдено."@,
    )
}

/// How an attached subnet or interface is shown: `network/subnet`, or the last segment of the id.
pub fn short(id: &str) -> (r: String)
    ensures
        r@ == short_of(id@),
{
    let subnet = part(id, "subnets");
    if String::from_str(subnet) == String::from_str("-") {
        String::from_str(last(id))
    } else {
        let mut r = String::from_str(part(id, "virtualNetworks"));
        r.append("/");
        r.append(subnet);
        r
    }
}

/// The attached resources of kind `key` (`subnets`, `networkInterfaces`), or `-`.
pub fn attached(nsg: &Json, key: &str) -> (r: String)
    requires
        attached_ok(*nsg, key@),
    ensures
        r@ == attached_of(*nsg, key@),
{
    let ghost f = |x: Json| short_of(str_of(member(x, "id"@)).unwrap());
    let mut ids: Vec<String> = Vec::new();
    match field_of(member_of(nsg, "properties"), key) {
        Some(Json::Array(items)) => {
            let n = items.len();
            for i in 0..n
                invariant
                    n == items@.len(),
                    items@ == attached_items(*nsg, key@),
                    attached_ok(*nsg, key@),
                    f == (|x: Json| short_of(str_of(member(x, "id"@)).unwrap())),
                    views(ids@) == items@.take(i as int).map_values(f),
            {
                assert(items@.contains(items@[i as int]));
                let id = match member_of(&items[i], "id") {
                    Some(Json::Str(s)) => s.as_str(),
                    _ => {
                        assert(false);
                        ""
                    },
                };
                let ghost before = ids@;
                ids.push(short(id));
                proof {
                    assert(views(ids@) == views(before).push(f(items@[i as int])));
                    assert(items@.take(i as int + 1) == items@.take(i as int).push(items@[i as int]));
                    lemma_map_push(items@.take(i as int), items@[i as int], f);
                }
            }
            assert(items@.take(n as int) == items@);
        },
        _ => {},
    }
    if ids.len() == 0 {
        String::from_str("-")
    } else {
        join_all(&ids, ", ")
    }
}

/// A range of a rule: the list `many`, then the single value `one`, joined with commas; `-` when
/// there is neither.
pub fn ranges(props: Option<&Json>, one: &str, many: &str) -> (r: String)
    requires
        list_ok(owned(props), many@),
    ensures
        r@ == ranges_of(owned(props), one@, many@),
{
    let ghost f = |x: Json| str_of(Some(x)).unwrap();
    let mut items: Vec<String> = Vec::new();
    match field_of(props, many) {
        Some(Json::Array(list)) => {
            let n = list.len();
            for i in 0..n
                invariant
                    n == list@.len(),
                    list@ == list_items(owned(props), many@),
                    list_ok(owned(props), many@),
                    f == (|x: Json| str_of(Some(x)).unwrap()),
                    views(items@) == list@.take(i as int).map_values(f),
            {
                assert(list@.contains(list@[i as int]));
                let s = match &list[i] {
                    Json::Str(s) => s.clone(),
                    _ => {
                        assert(false);
                        String::new()
                    },
                };
                let ghost before = items@;
                items.push(s);
                proof {
                    assert(views(items@) == views(before).push(f(list@[i as int])));
                    assert(list@.take(i as int + 1) == list@.take(i as int).push(list@[i as int]));
                    lemma_map_push(list@.take(i as int), list@[i as int], f);
                }
            }
            assert(list@.take(n as int) == list@);
        },
        _ => {},
    }
    match field_of(props, one) {
        Some(Json::Str(s)) => {
            let ghost before = items@;
            items.push(s.clone());
            assert(views(items@) == views(before).push(s@));
        },
        _ => {},
    }
    if items.len() == 0 {
        String::from_str("-")
    } else {
        join_all(&items, ",")
    }
}

/// The text of a member of the properties that the caller knows to be a string.
fn prop_text<'a>(props: Option<&'a Json>, key: &str) -> (r: &'a str)
    requires
        str_of(field(owned(props), key@)) is Some,
    ensures
        r@ == str_of(field(owned(props), key@)).unwrap(),
{
    match field_of(props, key) {
        Some(Json::Str(s)) => s.as_str(),
        _ => {
            assert(false);
            ""
        },
    }
}

/// The priority of a rule, which the caller knows to be an integer.
fn priority(props: Option<&Json>) -> (r: i64)
    requires
        int_of(field(owned(props), "priority"@)) is Some,
    ensures
        r == int_of(field(owned(props), "priority"@)).unwrap(),
{
    match field_of(props, "priority") {
        Some(Json::Number { text, integer: Some(n) }) => *n,
        _ => {
            assert(false);
            0
        },
    }
}

/// The line of a rule: priority, direction, access, protocol, `source:ports -> destination:ports`,
/// name, and `(типове)` for a default rule.
pub fn line(rule: &Json, default: bool) -> (r: String)
    requires
        line_ok(*rule),
    ensures
        r@ == line_of(*rule, default),
{
    let props = member_of(rule, "properties");
    let mut r = String::from_str("  ");
    let p = signed_of(priority(props));
    push_pad_left(&mut r, p.as_str(), 5);
    r.append(" ");
    push_pad_right(&mut r, prop_text(props, "direction"), 8);
    r.append(" ");
    push_pad_right(&mut r, prop_text(props, "access"), 5);
    r.append(" ");
    let protocol = to_upper(prop_text(props, "protocol"));
    push_pad_right(&mut r, protocol.as_str(), 4);
    r.append(" ");
    let a = ranges(props, "sourceAddressPrefix", "sourceAddressPrefixes");
    r.append(a.as_str());
    r.append(":");
    let b = ranges(props, "sourcePortRange", "sourcePortRanges");
    r.append(b.as_str());
    r.append(" -> ");
    let c = ranges(props, "destinationAddressPrefix", "destinationAddressPrefixes");
    r.append(c.as_str());
    r.append(":");
    let d = ranges(props, "destinationPortRange", "destinationPortRanges");
    r.append(d.as_str());
    r.append("  ");
    let name = match member_of(rule, "name") {
        Some(Json::Str(s)) => s.as_str(),
        _ => {
            assert(false);
            ""
        },
    };
    r.append(name);
    if default {
        r.append(" (типове)");
    } else {
        r.append("");
    }
    r
}

/// Whether a text is a source that means any address.
fn is_open_source(s: &str) -> (r: bool)
    ensures
        r == open_source(s@),
{
    let t = String::from_str(s);
    t == String::from_str("*") || t == String::from_str("Internet") || t == String::from_str("0.0.0.0/0")
        || t == String::from_str("Any")
}

/// Whether a list of sources, separated by commas, holds one that means any address.
fn any_open(from: &str) -> (r: bool)
    ensures
        r == exists|k: int| 0 <= k < split(from@, ',').len() && open_source(#[trigger] split(from@, ',')[k]),
{
    let v = chars(from);
    let g = pieces(&v, ',');
    let n = g.len();
    let mut k: usize = 0;
    while k < n
        invariant
            n == g@.len(),
            v@ == from@,
            n == split(v@, ',').len(),
            k <= n,
            forall|j: int| 0 <= j < g@.len() ==> #[trigger] g@[j].0 <= g@[j].1 <= v@.len(),
            forall|j: int|
                0 <= j < g@.len() ==> v@.subrange(g@[j].0 as int, g@[j].1 as int) == #[trigger] split(v@, ',')[j],
            forall|j: int| 0 <= j < k ==> !open_source(#[trigger] split(from@, ',')[j]),
        decreases n - k,
    {
        let (a, b) = g[k];
        let piece = crate::text::slice_of(&v, a, b);
        let s = crate::text::string_of(piece.as_slice());
        assert(s@ == split(from@, ',')[k as int]);
        if is_open_source(s.as_str()) {
            return true;
        }
        k = k + 1;
    }
    false
}

/// Whether a rule is inbound, allows, and admits any source.
fn open_rule(rule: &Json) -> (r: bool)
    requires
        list_ok(props_of(*rule), "sourceAddressPrefixes"@),
    ensures
        r == is_open(*rule),
{
    let props = member_of(rule, "properties");
    let from = ranges(props, "sourceAddressPrefix", "sourceAddressPrefixes");
    let inbound = match field_of(props, "direction") {
        Some(Json::Str(s)) => *s == String::from_str("Inbound"),
        _ => false,
    };
    let allow = match field_of(props, "access") {
        Some(Json::Str(s)) => *s == String::from_str("Allow"),
        _ => false,
    };
    inbound && allow && any_open(from.as_str())
}

/// The rules shown for a group, each with whether it is a default rule.
fn rules_of<'a>(nsg: &'a Json, custom: bool) -> (r: Vec<(&'a Json, bool)>)
    ensures
        r@.map_values(|t: (&Json, bool)| (*t.0, t.1)) == shown_rules(*nsg, custom),
{
    let ghost tag_view = |t: (&Json, bool)| (*t.0, t.1);
    let ghost own_view = items_or_none(pointer(*nsg, "/properties/securityRules"@)).map_values(|r: Json| (r, false));
    let mut r: Vec<(&'a Json, bool)> = Vec::new();
    match pointer_in(nsg, "/properties/securityRules") {
        Some(Json::Array(a)) => {
            let n = a.len();
            for i in 0..n
                invariant
                    n == a@.len(),
                    tag_view == (|t: (&Json, bool)| (*t.0, t.1)),
                    r@.map_values(tag_view) == a@.take(i as int).map_values(|r: Json| (r, false)),
            {
                let ghost before = r@;
                r.push((&a[i], false));
                proof {
                    assert(r@.map_values(tag_view) == before.map_values(tag_view).push((a@[i as int], false)));
                    assert(a@.take(i as int + 1) == a@.take(i as int).push(a@[i as int]));
                    lemma_map_push(a@.take(i as int), a@[i as int], |r: Json| (r, false));
                }
            }
            assert(a@.take(n as int) == a@);
        },
        _ => {},
    }
    assert(r@.map_values(tag_view) == own_view);
    if !custom {
        let ghost defaults_view = items_or_none(pointer(*nsg, "/properties/defaultSecurityRules"@)).map_values(|r: Json| (r, true));
        match pointer_in(nsg, "/properties/defaultSecurityRules") {
            Some(Json::Array(a)) => {
                let n = a.len();
                for i in 0..n
                    invariant
                        n == a@.len(),
                        tag_view == (|t: (&Json, bool)| (*t.0, t.1)),
                        r@.map_values(tag_view) == own_view + a@.take(i as int).map_values(|r: Json| (r, true)),
                {
                    let ghost before = r@;
                    r.push((&a[i], true));
                    proof {
                        assert(r@.map_values(tag_view) == before.map_values(tag_view).push((a@[i as int], true)));
                        assert(a@.take(i as int + 1) == a@.take(i as int).push(a@[i as int]));
                        lemma_map_push(a@.take(i as int), a@[i as int], |r: Json| (r, true));
                    }
                }
                assert(a@.take(n as int) == a@);
            },
            _ => {},
        }
        assert(r@.map_values(tag_view) == own_view + defaults_view);
    } else {
        assert(r@.map_values(tag_view) == own_view + Seq::<(Json, bool)>::empty());
    }
    r
}

/// The ports a group opens to any source, own and default rules alike, priorities not
/// considered: `ports/PROTOCOL` for each inbound allowing rule from anywhere, or `-`.
pub fn open(nsg: &Json) -> (r: String)
    requires
        forall|r: Json| all_rules(*nsg).contains(r) ==> #[trigger] open_ok(r),
    ensures
        r@ == open_of(*nsg),
{
    let tagged = rules_of(nsg, false);
    let ghost rules = all_rules(*nsg);
    let ghost pred = |r: Json| is_open(r);
    let ghost f = |r: Json| open_item(r);
    assert(rules == shown_rules(*nsg, false).map_values(|t: (Json, bool)| t.0));
    assert(rules == tagged@.map_values(|t: (&Json, bool)| *t.0));
    let mut items: Vec<String> = Vec::new();
    let n = tagged.len();
    for k in 0..n
        invariant
            n == tagged@.len(),
            rules == tagged@.map_values(|t: (&Json, bool)| *t.0),
            pred == (|r: Json| is_open(r)),
            f == (|r: Json| open_item(r)),
            forall|r: Json| rules.contains(r) ==> #[trigger] open_ok(r),
            views(items@) == rules.take(k as int).filter(pred).map_values(f),
    {
        proof {
            lemma_filter_step(rules, k as int, pred);
        }
        let rule = tagged[k].0;
        assert(*rule == rules[k as int]);
        assert(rules.contains(rules[k as int]));
        assert(open_ok(*rule));
        if open_rule(rule) {
            let props = member_of(rule, "properties");
            let mut s = ranges(props, "destinationPortRange", "destinationPortRanges");
            s.append("/");
            let protocol = to_upper(prop_text(props, "protocol"));
            s.append(protocol.as_str());
            let ghost before = items@;
            items.push(s);
            proof {
                assert(views(items@) == views(before).push(f(rules[k as int])));
                lemma_map_push(rules.take(k as int).filter(pred), rules[k as int], f);
            }
        }
    }
    assert(rules.take(n as int) == rules);
    if items.len() == 0 {
        String::from_str("-")
    } else {
        join_all(&items, ", ")
    }
}

/// The sort keys of the rules: direction, then priority.
fn rule_keys(tagged: &Vec<(&Json, bool)>) -> (keys: Vec<Vec<Field>>)
    requires
        forall|k: int| 0 <= k < tagged@.len() ==> line_ok(*(#[trigger] tagged@[k]).0),
    ensures
        key_views(keys@) == tagged@.map_values(|t: (&Json, bool)| (*t.0, t.1)).map_values(
            |t: (Json, bool)| rule_key(t.0),
        ),
{
    let ghost rules = tagged@.map_values(|t: (&Json, bool)| (*t.0, t.1));
    let ghost key_of = |t: (Json, bool)| rule_key(t.0);
    let mut keys: Vec<Vec<Field>> = Vec::new();
    let n = tagged.len();
    for k in 0..n
        invariant
            n == tagged@.len(),
            rules == tagged@.map_values(|t: (&Json, bool)| (*t.0, t.1)),
            forall|k: int| 0 <= k < tagged@.len() ==> line_ok(*(#[trigger] tagged@[k]).0),
            key_of == (|t: (Json, bool)| rule_key(t.0)),
            key_views(keys@) == rules.take(k as int).map_values(key_of),
    {
        let rule = tagged[k].0;
        assert(line_ok(*tagged@[k as int].0));
        let props = member_of(rule, "properties");
        let mut key: Vec<Field> = Vec::new();
        key.push(Field::Text(String::from_str(prop_text(props, "direction"))));
        key.push(Field::Number(priority(props)));
        let ghost before_keys = keys@;
        keys.push(key);
        proof {
            assert(rules.take(k as int + 1) == rules.take(k as int).push(rules[k as int]));
            assert(key@.map_values(|f: Field| part_view(f)) == key_of(rules[k as int]));
            assert(key_views(keys@) == key_views(before_keys).push(key@.map_values(|f: Field| part_view(f))));
            lemma_map_push(rules.take(k as int), rules[k as int], key_of);
        }
    }
    assert(rules.take(n as int) == rules);
    keys
}

/// The lines of one group: where it is attached, its open ports, then its rules by direction
/// and priority.
fn group_lines(nsg: &Json, custom: bool, lines: &mut Vec<String>)
    requires
        nsg_ok(*nsg, custom),
    ensures
        views(final(lines)@) == views(old(lines)@) + nsg_lines(*nsg, custom),
{
    let ghost start = views(lines@);
    let mut head = String::from_str(text(nsg, "/name"));
    head.append("  ");
    head.append(part(text(nsg, "/id"), "resourceGroups"));
    head.append("  підмережі: ");
    let subnets = attached(nsg, "subnets");
    head.append(subnets.as_str());
    head.append("  NIC: ");
    let nics = attached(nsg, "networkInterfaces");
    head.append(nics.as_str());
    lines.push(head);
    let mut second = String::from_str("  відкрито ззовні: ");
    let o = open(nsg);
    second.append(o.as_str());
    lines.push(second);
    assert(views(lines@) == start + seq![head_of(*nsg), "  відкрито ззовні: "@ + open_of(*nsg)]);
    let ghost middle = views(lines@);
    let tagged = rules_of(nsg, custom);
    let ghost rules = shown_rules(*nsg, custom);
    let ghost tag_view = |t: (&Json, bool)| (*t.0, t.1);
    assert(tagged@.map_values(tag_view) == rules);
    assert forall|k: int| 0 <= k < tagged@.len() implies line_ok(*(#[trigger] tagged@[k]).0) by {
        assert(rules[k] == (*tagged@[k].0, tagged@[k].1));
        assert(rules.contains(rules[k]));
    }
    let keys = rule_keys(&tagged);
    let idx = order(&keys, false);
    let ghost ord = ordered_rules(*nsg, custom);
    let ghost g = |t: (Json, bool)| line_of(t.0, t.1);
    assert(ord == idx@.map_values(|i: usize| rules[i as int]));
    let total = tagged.len();
    for q in 0..total
        invariant
            total == rules.len(),
            idx@.len() == total,
            forall|j: int| 0 <= j < total ==> #[trigger] idx@[j] < total,
            tagged@.map_values(tag_view) == rules,
            tag_view == (|t: (&Json, bool)| (*t.0, t.1)),
            nsg_ok(*nsg, custom),
            rules == shown_rules(*nsg, custom),
            ord == idx@.map_values(|i: usize| rules[i as int]),
            g == (|t: (Json, bool)| line_of(t.0, t.1)),
            views(lines@) == middle + ord.take(q as int).map_values(g),
    {
        let (rule, default) = tagged[idx[q]];
        assert((*rule, default) == rules[idx@[q as int] as int]);
        assert(rules.contains(rules[idx@[q as int] as int]));
        let ghost before = lines@;
        lines.push(line(rule, default));
        proof {
            assert(views(lines@) == views(before).push(g(ord[q as int])));
            assert(ord.take(q as int + 1) == ord.take(q as int).push(ord[q as int]));
            lemma_map_push(ord.take(q as int), ord[q as int], g);
        }
    }
    assert(ord.take(total as int) == ord);
}

/// Whether every item of the list `many` is a string.
fn list_fine(props: Option<&Json>, many: &str) -> (r: bool)
    ensures
        r == list_ok(owned(props), many@),
{
    match field_of(props, many) {
        Some(Json::Array(list)) => {
            let n = list.len();
            for i in 0..n
                invariant
                    n == list@.len(),
                    list@ == list_items(owned(props), many@),
                    forall|j: int| 0 <= j < i ==> str_of(Some(#[trigger] list@[j])) is Some,
            {
                match &list[i] {
                    Json::Str(_) => {},
                    _ => {
                        assert(list_items(owned(props), many@).contains(list@[i as int]));
                        return false;
                    },
                }
            }
            assert forall|x: Json| #[trigger] list_items(owned(props), many@).contains(x) implies str_of(Some(x)) is Some by {
                let j = choose|j: int| 0 <= j < list@.len() && list@[j] == x;
                assert(str_of(Some(list@[j])) is Some);
            }
            true
        },
        _ => {
            assert(list_items(owned(props), many@) == Seq::<Json>::empty());
            true
        },
    }
}

/// Whether a rule has all that its line shows.
fn line_fine(rule: &Json) -> (r: bool)
    ensures
        r == line_ok(*rule),
{
    let props = member_of(rule, "properties");
    let numbered = match field_of(props, "priority") {
        Some(Json::Number { integer: Some(_), .. }) => true,
        _ => false,
    };
    let direction = match field_of(props, "direction") {
        Some(Json::Str(_)) => true,
        _ => false,
    };
    let access = match field_of(props, "access") {
        Some(Json::Str(_)) => true,
        _ => false,
    };
    let protocol = match field_of(props, "protocol") {
        Some(Json::Str(_)) => true,
        _ => false,
    };
    let named = match member_of(rule, "name") {
        Some(Json::Str(_)) => true,
        _ => false,
    };
    numbered && direction && access && protocol && named && list_fine(props, "sourceAddressPrefixes") && list_fine(
        props,
        "sourcePortRanges",
    ) && list_fine(props, "destinationAddressPrefixes") && list_fine(props, "destinationPortRanges")
}

/// Whether a rule has what the summary of open ports reads.
fn open_fine(rule: &Json) -> (r: bool)
    ensures
        r == open_ok(*rule),
{
    let props = member_of(rule, "properties");
    if !list_fine(props, "sourceAddressPrefixes") {
        return false;
    }
    if open_rule(rule) {
        let protocol = match field_of(props, "protocol") {
            Some(Json::Str(_)) => true,
            _ => false,
        };
        list_fine(props, "destinationPortRanges") && protocol
    } else {
        true
    }
}

/// Whether every attached resource of kind `key` has a string id.
fn attached_fine(nsg: &Json, key: &str) -> (r: bool)
    ensures
        r == attached_ok(*nsg, key@),
{
    match field_of(member_of(nsg, "properties"), key) {
        Some(Json::Array(items)) => {
            let n = items.len();
            for i in 0..n
                invariant
                    n == items@.len(),
                    items@ == attached_items(*nsg, key@),
                    forall|j: int| 0 <= j < i ==> str_of(member(#[trigger] items@[j], "id"@)) is Some,
            {
                let good = match member_of(&items[i], "id") {
                    Some(Json::Str(_)) => true,
                    _ => false,
                };
                if !good {
                    assert(attached_items(*nsg, key@).contains(items@[i as int]));
                    return false;
                }
            }
            assert forall|x: Json| attached_items(*nsg, key@).contains(x) implies str_of(#[trigger] member(x, "id"@)) is Some by {
                let j = choose|j: int| 0 <= j < items@.len() && items@[j] == x;
                assert(str_of(member(items@[j], "id"@)) is Some);
            }
            true
        },
        _ => {
            assert(attached_items(*nsg, key@) == Seq::<Json>::empty());
            true
        },
    }
}

/// Whether a group has all that its lines read (what the report needs of Azure's answer).
pub fn ready(nsg: &Json, custom: bool) -> (r: bool)
    ensures
        r == nsg_ok(*nsg, custom),
{
    if !attached_fine(nsg, "subnets") || !attached_fine(nsg, "networkInterfaces") {
        return false;
    }
    let all = rules_of(nsg, false);
    let ghost rules = all_rules(*nsg);
    assert(rules == shown_rules(*nsg, false).map_values(|t: (Json, bool)| t.0));
    assert(rules == all@.map_values(|t: (&Json, bool)| *t.0));
    let n = all.len();
    for k in 0..n
        invariant
            n == all@.len(),
            rules == all_rules(*nsg),
            rules == all@.map_values(|t: (&Json, bool)| *t.0),
            forall|j: int| 0 <= j < k ==> #[trigger] open_ok(rules[j]),
    {
        assert(rules[k as int] == *all@[k as int].0);
        if !open_fine(all[k].0) {
            assert(rules.contains(rules[k as int]));
            return false;
        }
    }
    assert forall|r: Json| rules.contains(r) implies #[trigger] open_ok(r) by {
        let j = choose|j: int| 0 <= j < rules.len() && rules[j] == r;
        assert(open_ok(rules[j]));
    }
    let shown = rules_of(nsg, custom);
    let ghost tagged = shown_rules(*nsg, custom);
    let ghost tag_view = |t: (&Json, bool)| (*t.0, t.1);
    assert(shown@.map_values(tag_view) == tagged);
    let m = shown.len();
    for k in 0..m
        invariant
            m == shown@.len(),
            tagged == shown_rules(*nsg, custom),
            tag_view == (|t: (&Json, bool)| (*t.0, t.1)),
            shown@.map_values(tag_view) == tagged,
            forall|j: int| 0 <= j < k ==> #[trigger] line_ok(tagged[j].0),
    {
        assert(tagged[k as int] == (*shown@[k as int].0, shown@[k as int].1));
        if !line_fine(shown[k].0) {
            assert(tagged.contains(tagged[k as int]));
            return false;
        }
    }
    assert forall|t: (Json, bool)| tagged.contains(t) implies #[trigger] line_ok(t.0) by {
        let j = choose|j: int| 0 <= j < tagged.len() && tagged[j] == t;
        assert(line_ok(tagged[j].0));
    }
    true
}

/// Whether every group that the name filter keeps has all that its lines read.
pub fn all_ready(groups: &Vec<Json>, name: Option<&str>, custom: bool) -> (r: bool)
    ensures
        r == forall|x: Json| groups@.contains(x) && named(name_view(name), x) ==> #[trigger] nsg_ok(x, custom),
{
    let n = groups.len();
    for i in 0..n
        invariant
            n == groups@.len(),
            forall|j: int| 0 <= j < i && named(name_view(name), #[trigger] groups@[j]) ==> nsg_ok(groups@[j], custom),
    {
        if is_named(name, &groups[i]) && !ready(&groups[i], custom) {
            assert(groups@.contains(groups@[i as int]));
            return false;
        }
    }
    assert forall|x: Json| groups@.contains(x) && named(name_view(name), x) implies #[trigger] nsg_ok(x, custom) by {
        let j = choose|j: int| 0 <= j < groups@.len() && groups@[j] == x;
        assert(named(name_view(name), groups@[j]) ==> nsg_ok(groups@[j], custom));
    }
    true
}

/// The groups in report order, those named `name` where one is given: each with where it is
/// attached, the ports open from any source, and its rules by direction and priority; with
/// `custom`, without the default rules.
pub fn table(groups: &Vec<Json>, name: Option<&str>, custom: bool) -> (r: String)
    requires
        forall|x: Json| groups@.contains(x) && named(name_view(name), x) ==> #[trigger] nsg_ok(x, custom),
    ensures
        r@ == table_of(groups@, name_view(name), custom),
{
    let items = chosen(groups, name);
    let ghost chosen_items = derefs(items@);
    let ghost f = |g: Json| nsg_lines(g, custom);
    let mut lines: Vec<String> = Vec::new();
    let n = items.len();
    for i in 0..n
        invariant
            n == items@.len(),
            chosen_items == derefs(items@),
            forall|k: int| 0 <= k < items@.len() ==> groups@.contains(*#[trigger] items@[k]) && named(name_view(name), *items@[k]),
            forall|x: Json| groups@.contains(x) && named(name_view(name), x) ==> #[trigger] nsg_ok(x, custom),
            f == (|g: Json| nsg_lines(g, custom)),
            views(lines@) == chosen_items.take(i as int).map_values(f).flatten_alt(),
    {
        let nsg = items[i];
        assert(groups@.contains(*items@[i as int]));
        group_lines(nsg, custom, &mut lines);
        proof {
            assert(chosen_items[i as int] == *nsg);
            assert(chosen_items.take(i as int + 1) == chosen_items.take(i as int).push(*nsg));
            lemma_map_push(chosen_items.take(i as int), *nsg, f);
            assert(chosen_items.take(i as int + 1).map_values(f).drop_last() == chosen_items.take(i as int).map_values(f));
        }
    }
    assert(chosen_items.take(n as int) == chosen_items);
    report_of(&lines, "Груп безпеки не знайдено.")
}

/// The listing of the network security groups of a scope.
pub fn path(scope: &str) -> (r: String)
    ensures
        r@ == scope@ + "/providers/Microsoft.Network/networkSecurityGroups?api-version=2022-01-01"@,
{
    let mut r = String::from_str(scope);
    r.append("/providers/Microsoft.Network/networkSecurityGroups?api-version=2022-01-01");
    r
}

} // verus!
