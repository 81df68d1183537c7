//! Network interfaces: VM, security group, IP forwarding, and every IP configuration.
use vstd::prelude::*;
use crate::json::{items_of, pointer, pointer_in, Json};
use crate::text::{lemma_map_push, views};
use crate::tools::{
    by_group, chosen, derefs, is_named, last, last_of, name_view, named, part, part_of, report, report_of, shown,
    shown_at, text, text_at,
};

verus! {

/// The line of one IP configuration.
pub open spec fn config_of(item: Json) -> Seq<char> {
    let subnet = text_at(item, "/properties/subnet/id"@);
    "  "@ + text_at(item, "/properties/privateIPAddress"@) + "  "@ + part_of(subnet, "virtualNetworks"@)
        + "/"@ + part_of(subnet, "subnets"@) + "  public="@ + last_of(
        text_at(item, "/properties/publicIPAddress/id"@),
    )
}

/// The IP configurations of an interface.
pub open spec fn configs_of(nic: Json) -> Seq<Json> {
    items_of(pointer(nic, "/properties/ipConfigurations"@)).unwrap()
}

/// The first line of an interface.
pub open spec fn head_of(nic: Json) -> Seq<char> {
    text_at(nic, "/name"@) + "  "@ + part_of(text_at(nic, "/id"@), "resourceGroups"@) + "  vm="@
        + last_of(text_at(nic, "/properties/virtualMachine/id"@)) + "  nsg="@ + last_of(
        text_at(nic, "/properties/networkSecurityGroup/id"@),
    ) + "  forwarding="@ + shown_at(nic, "/properties/enableIPForwarding"@)
}

/// The lines of an interface: its first line, then one per IP configuration.
pub open spec fn nic_lines(nic: Json) -> Seq<Seq<char>> {
    seq![head_of(nic)] + configs_of(nic).map_values(|c: Json| config_of(c))
}

/// The report on the interfaces that pass the name filter.
pub open spec fn table_of(nics: Seq<Json>, name: Option<Seq<char>>) -> Seq<char> {
    report(
        by_group(nics).filter(|x: Json| named(name, x)).map_values(|n: Json| nic_lines(n)).flatten_alt(),
        "Інтерфейсів не знайдено."@,
    )
}

/// The line of one IP configuration: private address, network/subnet, public IP.
pub fn config(item: &Json) -> (r: String)
    ensures
        r@ == config_of(*item),
{
    let subnet = text(item, "/properties/subnet/id");
    let mut r = String::from_str("  ");
    r.append(text(item, "/properties/privateIPAddress"));
    r.append("  ");
    r.append(part(subnet, "virtualNetworks"));
    r.append("/");
    r.append(part(subnet, "subnets"));
    r.append("  public=");
    r.append(last(text(item, "/properties/publicIPAddress/id")));
    r
}

/// The interfaces in report order, those named `name` where one is given; each with its IP
/// configurations, which every interface listed must have as an array.
pub fn table(nics: &Vec<Json>, name: Option<&str>) -> (r: String)
    requires
        forall|x: Json|
            nics@.contains(x) && named(name_view(name), x) ==> items_of(
                #[trigger] pointer(x, "/properties/ipConfigurations"@),
            ) is Some,
    ensures
        r@ == table_of(nics@, name_view(name)),
{
    let items = chosen(nics, name);
    let ghost chosen_items = derefs(items@);
    let ghost f = |n: Json| nic_lines(n);
    let ghost g = |c: Json| config_of(c);
    proof {
        assert forall|k: int| 0 <= k < chosen_items.len() implies items_of(
            pointer(#[trigger] chosen_items[k], "/properties/ipConfigurations"@),
        ) is Some by {
            assert(nics@.contains(*items@[k]));
        }
    }
    let mut lines: Vec<String> = Vec::new();
    let n = items.len();
    for i in 0..n
        invariant
            n == items@.len(),
            chosen_items == derefs(items@),
            f == (|n: Json| nic_lines(n)),
            g == (|c: Json| config_of(c)),
            forall|k: int| 0 <= k < chosen_items.len() ==> items_of(
                pointer(#[trigger] chosen_items[k], "/properties/ipConfigurations"@),
            ) is Some,
            views(lines@) == chosen_items.take(i as int).map_values(f).flatten_alt(),
    {
        let nic = items[i];
        let ghost start = views(lines@);
        let mut head = String::from_str(text(nic, "/name"));
        head.append("  ");
        head.append(part(text(nic, "/id"), "resourceGroups"));
        head.append("  vm=");
        head.append(last(text(nic, "/properties/virtualMachine/id")));
        head.append("  nsg=");
        head.append(last(text(nic, "/properties/networkSecurityGroup/id")));
        head.append("  forwarding=");
        let forwarding = shown(nic, "/properties/enableIPForwarding");
        head.append(forwarding.as_str());
        lines.push(head);
        assert(chosen_items[i as int] == *nic);
        let configs = match pointer_in(nic, "/properties/ipConfigurations") {
            Some(Json::Array(a)) => a,
            _ => {
                assert(false);
                return String::new();
            },
        };
        let m = configs.len();
        for j in 0..m
            invariant
                m == configs@.len(),
                g == (|c: Json| config_of(c)),
                views(lines@) == start + seq![head_of(*nic)] + configs@.take(j as int).map_values(g),
        {
            let ghost before = lines@;
            lines.push(config(&configs[j]));
            proof {
                assert(views(lines@) == views(before).push(g(configs@[j as int])));
                assert(configs@.take(j as int + 1) == configs@.take(j as int).push(configs@[j as int]));
                lemma_map_push(configs@.take(j as int), configs@[j as int], g);
            }
        }
        proof {
            assert(configs@.take(m as int) == configs@);
            assert(configs@ == configs_of(*nic));
            assert(chosen_items.take(i as int + 1) == chosen_items.take(i as int).push(*nic));
            lemma_map_push(chosen_items.take(i as int), *nic, f);
            assert(chosen_items.take(i as int + 1).map_values(f).drop_last() == chosen_items.take(i as int).map_values(f));
        }
    }
    assert(chosen_items.take(n as int) == chosen_items);
    report_of(&lines, "Інтерфейсів не знайдено.")
}

/// The listing of the network interfaces of a scope.
pub fn path(scope: &str) -> (r: String)
    ensures
        r@ == scope@ + "/providers/Microsoft.Network/networkInterfaces?api-version=2023-11-01"@,
{
    let mut r = String::from_str(scope);
    r.append("/providers/Microsoft.Network/networkInterfaces?api-version=2023-11-01");
    r
}

/// Whether every interface that the name filter keeps lists its IP configurations.
pub fn ready(nics: &Vec<Json>, name: Option<&str>) -> (r: bool)
    ensures
        r == forall|x: Json|
            nics@.contains(x) && named(name_view(name), x) ==> items_of(
                #[trigger] pointer(x, "/properties/ipConfigurations"@),
            ) is Some,
{
    let n = nics.len();
    for i in 0..n
        invariant
            n == nics@.len(),
            forall|j: int|
                0 <= j < i && named(name_view(name), #[trigger] nics@[j]) ==> items_of(
                    pointer(nics@[j], "/properties/ipConfigurations"@),
                ) is Some,
    {
        if is_named(name, &nics[i]) {
            let listed = match pointer_in(&nics[i], "/properties/ipConfigurations") {
                Some(Json::Array(_)) => true,
                _ => false,
            };
            if !listed {
                assert(nics@.contains(nics@[i as int]));
                return false;
            }
        }
    }
    assert forall|x: Json| nics@.contains(x) && named(name_view(name), x) implies items_of(
        #[trigger] pointer(x, "/properties/ipConfigurations"@),
    ) is Some by {
        let j = choose|j: int| 0 <= j < nics@.len() && nics@[j] == x;
        assert(named(name_view(name), nics@[j]) ==> items_of(pointer(nics@[j], "/properties/ipConfigurations"@)) is Some);
    }
    true
}

} // verus!
