//! Private DNS zones: their virtual network links and A records.
use vstd::prelude::*;
use crate::json::{items_or_none, member, member_of, pointer, pointer_in, str_of, Json};
use crate::text::{join, join_all, lemma_map_push, views};
use crate::tools::{last, last_of, part, part_of, shown, shown_at, text, text_at};

verus! {

/// The line of a virtual network link.
pub open spec fn link_of(link: Json) -> Seq<char> {
    "  зв'язок "@ + text_at(link, "/name"@) + " -> "@ + last_of(text_at(link, "/properties/virtualNetwork/id"@))
        + "  registration="@ + shown_at(link, "/properties/registrationEnabled"@)
}

/// The addresses of an A record set, which must be strings.
pub open spec fn addresses_of(record: Json) -> Seq<Seq<char>> {
    items_or_none(pointer(record, "/properties/aRecords"@)).map_values(
        |item: Json| str_of(member(item, "ipv4Address"@)).unwrap(),
    )
}

/// Every address of the A record set is a string.
pub open spec fn addresses_are_text(record: Json) -> bool {
    forall|item: Json|
        items_or_none(pointer(record, "/properties/aRecords"@)).contains(item) ==> str_of(
            #[trigger] member(item, "ipv4Address"@),
        ) is Some
}

/// The line of an A record set.
pub open spec fn record_of(record: Json) -> Seq<char> {
    "  A "@ + text_at(record, "/name"@) + "  "@ + join(addresses_of(record), ","@) + "  ttl="@ + shown_at(
        record,
        "/properties/ttl"@,
    )
}

/// The block of a zone: its name and group, its links, its A records.
pub open spec fn block_of(zone: Json, links: Seq<Json>, records: Seq<Json>) -> Seq<char> {
    join(
        seq![text_at(zone, "/name"@) + "  "@ + part_of(text_at(zone, "/id"@), "resourceGroups"@)]
            + links.map_values(|l: Json| link_of(l)) + records.map_values(|r: Json| record_of(r)),
        "\n"@,
    )
}

/// The line of an A record set: name, addresses, TTL.
fn record_line(record: &Json) -> (r: String)
    requires
        addresses_are_text(*record),
    ensures
        r@ == record_of(*record),
{
    let ghost f = |item: Json| str_of(member(item, "ipv4Address"@)).unwrap();
    let mut addrs: Vec<String> = Vec::new();
    match pointer_in(record, "/properties/aRecords") {
        Some(Json::Array(items)) => {
            let n = items.len();
            for i in 0..n
                invariant
                    n == items@.len(),
                    f == (|item: Json| str_of(member(item, "ipv4Address"@)).unwrap()),
                    items@ == items_or_none(pointer(*record, "/properties/aRecords"@)),
                    addresses_are_text(*record),
                    views(addrs@) == items@.take(i as int).map_values(f),
            {
                assert(items@.contains(items@[i as int]));
                let a = match member_of(&items[i], "ipv4Address") {
                    Some(Json::Str(s)) => s.clone(),
                    _ => {
                        assert(false);
                        String::new()
                    },
                };
                let ghost before = addrs@;
                addrs.push(a);
                proof {
                    assert(views(addrs@) == views(before).push(f(items@[i as int])));
                    assert(items@.take(i as int + 1) == items@.take(i as int).push(items@[i as int]));
                    lemma_map_push(items@.take(i as int), items@[i as int], f);
                }
            }
            assert(items@.take(n as int) == items@);
        },
        _ => {},
    }
    assert(views(addrs@) == addresses_of(*record));
    let mut r = String::from_str("  A ");
    r.append(text(record, "/name"));
    r.append("  ");
    let joined = join_all(&addrs, ",");
    r.append(joined.as_str());
    r.append("  ttl=");
    let ttl = shown(record, "/properties/ttl");
    r.append(ttl.as_str());
    r
}

/// The block of a zone: name and group, then each virtual network link (network and whether it
/// registers records), then each A record set (addresses and TTL).
pub fn block(zone: &Json, links: &Vec<Json>, records: &Vec<Json>) -> (r: String)
    requires
        forall|x: Json| records@.contains(x) ==> #[trigger] addresses_are_text(x),
    ensures
        r@ == block_of(*zone, links@, records@),
{
    let mut lines: Vec<String> = Vec::new();
    let mut head = String::from_str(text(zone, "/name"));
    head.append("  ");
    head.append(part(text(zone, "/id"), "resourceGroups"));
    lines.push(head);
    let ghost start = views(lines@);
    let ghost f = |l: Json| link_of(l);
    let n = links.len();
    for i in 0..n
        invariant
            n == links@.len(),
            f == (|l: Json| link_of(l)),
            views(lines@) == start + links@.take(i as int).map_values(f),
    {
        let link = &links[i];
        let mut s = String::from_str("  зв'язок ");
        s.append(text(link, "/name"));
        s.append(" -> ");
        s.append(last(text(link, "/properties/virtualNetwork/id")));
        s.append("  registration=");
        let reg = shown(link, "/properties/registrationEnabled");
        s.append(reg.as_str());
        let ghost before = lines@;
        lines.push(s);
        proof {
            assert(views(lines@) == views(before).push(f(links@[i as int])));
            assert(links@.take(i as int + 1) == links@.take(i as int).push(links@[i as int]));
            lemma_map_push(links@.take(i as int), links@[i as int], f);
        }
    }
    assert(links@.take(n as int) == links@);
    let ghost middle = views(lines@);
    let ghost g = |r: Json| record_of(r);
    let m = records.len();
    for i in 0..m
        invariant
            m == records@.len(),
            g == (|r: Json| record_of(r)),
            forall|x: Json| records@.contains(x) ==> #[trigger] addresses_are_text(x),
            views(lines@) == middle + records@.take(i as int).map_values(g),
    {
        assert(records@.contains(records@[i as int]));
        let ghost before = lines@;
        lines.push(record_line(&records[i]));
        proof {
            assert(views(lines@) == views(before).push(g(records@[i as int])));
            assert(records@.take(i as int + 1) == records@.take(i as int).push(records@[i as int]));
            lemma_map_push(records@.take(i as int), records@[i as int], g);
        }
    }
    assert(records@.take(m as int) == records@);
    assert(views(lines@) == seq![text_at(*zone, "/name"@) + "  "@ + part_of(text_at(*zone, "/id"@), "resourceGroups"@)]
        + links@.map_values(|l: Json| link_of(l)) + records@.map_values(|r: Json| record_of(r)));
    join_all(&lines, "\n")
}

/// The listing of the private DNS zones of a scope.
pub fn path(scope: &str) -> (r: String)
    ensures
        r@ == scope@ + "/providers/Microsoft.Network/privateDnsZones?api-version=2018-09-01"@,
{
    let mut r = String::from_str(scope);
    r.append("/providers/Microsoft.Network/privateDnsZones?api-version=2018-09-01");
    r
}

/// The virtual network links of a zone, by its id.
pub fn links_path(scope: &str) -> (r: String)
    ensures
        r@ == scope@ + "/virtualNetworkLinks?api-version=2024-06-01"@,
{
    let mut r = String::from_str(scope);
    r.append("/virtualNetworkLinks?api-version=2024-06-01");
    r
}

/// The A record sets of a zone, by its id.
pub fn records_path(scope: &str) -> (r: String)
    ensures
        r@ == scope@ + "/A?api-version=2018-09-01"@,
{
    let mut r = String::from_str(scope);
    r.append("/A?api-version=2018-09-01");
    r
}

/// Whether every address of every A record set is a string.
pub fn ready(records: &Vec<Json>) -> (r: bool)
    ensures
        r == forall|x: Json| records@.contains(x) ==> #[trigger] addresses_are_text(x),
{
    let n = records.len();
    for i in 0..n
        invariant
            n == records@.len(),
            forall|j: int| 0 <= j < i ==> #[trigger] addresses_are_text(records@[j]),
    {
        let record = &records[i];
        match pointer_in(record, "/properties/aRecords") {
            Some(Json::Array(items)) => {
                let m = items.len();
                for k in 0..m
                    invariant
                        m == items@.len(),
                        i < n,
                        n == records@.len(),
                        *record == records@[i as int],
                        items@ == items_or_none(pointer(*record, "/properties/aRecords"@)),
                        forall|j: int| 0 <= j < k ==> str_of(member(#[trigger] items@[j], "ipv4Address"@)) is Some,
                {
                    let good = match member_of(&items[k], "ipv4Address") {
                        Some(Json::Str(_)) => true,
                        _ => false,
                    };
                    if !good {
                        assert(items@.contains(items@[k as int]));
                        assert(!addresses_are_text(*record));
                        assert(records@.contains(records@[i as int]));
                        return false;
                    }
                }
                assert forall|item: Json| items@.contains(item) implies str_of(#[trigger] member(item, "ipv4Address"@)) is Some by {
                    let j = choose|j: int| 0 <= j < items@.len() && items@[j] == item;
                    assert(str_of(member(items@[j], "ipv4Address"@)) is Some);
                }
            },
            _ => {
                assert(items_or_none(pointer(*record, "/properties/aRecords"@)) == Seq::<Json>::empty());
            },
        }
        assert(addresses_are_text(records@[i as int]));
    }
    assert forall|x: Json| records@.contains(x) implies #[trigger] addresses_are_text(x) by {
        let j = choose|j: int| 0 <= j < records@.len() && records@[j] == x;
        assert(addresses_are_text(records@[j]));
    }
    true
}

} // verus!
