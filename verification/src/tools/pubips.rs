//! Public IP addresses: SKU, allocation, the owner (interface or NAT gateway) and the VM.
use vstd::prelude::*;
use crate::json::{pointer, pointer_in, str_of, Json};
use crate::text::{
    chars, find, first_at, join, lemma_filter_step, lemma_first_at_unique, lemma_map_push, lemma_split_nonempty,
    lowercase, pieces, slice_of, split, split_once, string_of, to_lower, views,
};
use crate::tools::{by_group, derefs, last, last_of, part, part_of, report, report_of, sorted, text, text_at};

verus! {

/// The owner of an IP configuration or gateway: the two segments after `/providers/Microsoft.Network/`.
pub open spec fn owner_of(id: Seq<char>) -> Seq<char> {
    match split_once(id, "/providers/Microsoft.Network/"@) {
        Some((_, rest)) => {
            let segs = split(rest, '/');
            if segs.len() >= 2 {
                segs[0] + "/"@ + segs[1]
            } else {
                segs[0]
            }
        },
        None => "-"@,
    }
}

/// An interface is attached to a VM.
pub open spec fn has_machine(nic: Json) -> bool {
    str_of(pointer(nic, "/properties/virtualMachine/id"@)) is Some
}

/// The lowercased id of an interface and the name of its VM.
pub open spec fn machine_pair(nic: Json) -> (Seq<char>, Seq<char>) {
    (lowercase(text_at(nic, "/id"@)), last_of(str_of(pointer(nic, "/properties/virtualMachine/id"@)).unwrap()))
}

/// Which VM each interface belongs to: lowercased interface id and VM name.
pub open spec fn machines_of(nics: Seq<Json>) -> Seq<(Seq<char>, Seq<char>)> {
    nics.filter(|n: Json| has_machine(n)).map_values(|n: Json| machine_pair(n))
}

/// Pairs of texts as values.
pub open spec fn pair_views(m: Seq<(String, String)>) -> Seq<(Seq<char>, Seq<char>)> {
    m.map_values(|p: (String, String)| (p.0@, p.1@))
}

/// The value of the last pair with the key (as a map built from the pairs keeps the last).
pub open spec fn latest(m: Seq<(Seq<char>, Seq<char>)>, key: Seq<char>) -> Option<Seq<char>>
    decreases m.len(),
{
    if m.len() == 0 {
        None
    } else if m.last().0 == key {
        Some(m.last().1)
    } else {
        latest(m.drop_last(), key)
    }
}

/// The VM of an IP configuration id, through its interface; `-` where none is known.
pub open spec fn machine_of(machines: Seq<(Seq<char>, Seq<char>)>, id: Seq<char>) -> Seq<char> {
    match split_once(id, "/ipConfigurations/"@) {
        Some((nic, _)) => match latest(machines, lowercase(nic)) {
            Some(vm) => vm,
            None => "-"@,
        },
        None => "-"@,
    }
}

/// What an address is bound to.
pub open spec fn binding_of(ip: Json, machines: Seq<(Seq<char>, Seq<char>)>) -> Seq<char> {
    let config = text_at(ip, "/properties/ipConfiguration/id"@);
    let gate = text_at(ip, "/properties/natGateway/id"@);
    if config == "-"@ && gate == "-"@ {
        "не прив'язана"@
    } else if config == "-"@ {
        owner_of(gate)
    } else {
        owner_of(config) + "  vm="@ + machine_of(machines, config)
    }
}

/// The line of an address.
pub open spec fn line_of(ip: Json, machines: Seq<(Seq<char>, Seq<char>)>) -> Seq<char> {
    text_at(ip, "/name"@) + "  "@ + part_of(text_at(ip, "/id"@), "resourceGroups"@) + "  "@ + text_at(
        ip,
        "/properties/ipAddress"@,
    ) + "  "@ + text_at(ip, "/sku/name"@) + " "@ + text_at(ip, "/properties/publicIPAllocationMethod"@) + "  "@
        + binding_of(ip, machines)
}

/// The address passes the filter: no filter, or it is exactly the filter's address.
pub open spec fn kept(addr: Option<Seq<char>>, ip: Json) -> bool {
    match addr {
        Some(a) => text_at(ip, "/properties/ipAddress"@) == a,
        None => true,
    }
}

/// The report on the addresses that pass the filter.
pub open spec fn table_of(ips: Seq<Json>, machines: Seq<(Seq<char>, Seq<char>)>, addr: Option<Seq<char>>) -> Seq<char> {
    report(
        by_group(ips).filter(|x: Json| kept(addr, x)).map_values(|ip: Json| line_of(ip, machines)),
        "Публічних IP не знайдено."@,
    )
}

/// `s` cut at the first `pat`.
pub fn cut(s: &str, pat: &str) -> (r: Option<(Vec<char>, Vec<char>)>)
    ensures
        match r {
            Some((a, b)) => split_once(s@, pat@) == Some((a@, b@)),
            None => split_once(s@, pat@) is None,
        },
{
    let v = chars(s);
    let w = chars(pat);
    match find(&v, &w) {
        Some(i) => {
            proof {
                let j = choose|j: int| first_at(s@, pat@, j);
                lemma_first_at_unique(s@, pat@, i as int, j);
            }
            let n = v.len();
            Some((slice_of(&v, 0, i), slice_of(&v, i + w.len(), n)))
        },
        None => None,
    }
}

/// The owner of an IP configuration or NAT gateway id: kind and name after the network provider,
/// such as `networkInterfaces/nic1`; `-` for another id.
pub fn owner(id: &str) -> (r: String)
    ensures
        r@ == owner_of(id@),
{
    match cut(id, "/providers/Microsoft.Network/") {
        Some((_, rest)) => {
            let g = pieces(&rest, '/');
            proof {
                lemma_split_nonempty(rest@, '/');
            }
            let ghost segs = split(rest@, '/');
            assert(rest@.subrange(g@[0].0 as int, g@[0].1 as int) == segs[0]);
            let first = slice_of(&rest, g[0].0, g[0].1);
            let mut r = string_of(first.as_slice());
            if g.len() >= 2 {
                assert(rest@.subrange(g@[1].0 as int, g@[1].1 as int) == segs[1]);
                let second = slice_of(&rest, g[1].0, g[1].1);
                r.append("/");
                let t = string_of(second.as_slice());
                r.append(t.as_str());
            }
            r
        },
        None => String::from_str("-"),
    }
}

/// Which VM each interface belongs to: the lowercased interface id and the VM's name, for every
/// interface attached to a VM.
pub fn machines(nics: &Vec<Json>) -> (r: Vec<(String, String)>)
    ensures
        pair_views(r@) == machines_of(nics@),
{
    let ghost pred = |n: Json| has_machine(n);
    let ghost f = |n: Json| machine_pair(n);
    let mut r: Vec<(String, String)> = Vec::new();
    let n = nics.len();
    for i in 0..n
        invariant
            n == nics@.len(),
            pred == (|n: Json| has_machine(n)),
            f == (|n: Json| machine_pair(n)),
            pair_views(r@) == nics@.take(i as int).filter(pred).map_values(f),
    {
        proof {
            lemma_filter_step(nics@, i as int, pred);
        }
        let nic = &nics[i];
        match pointer_in(nic, "/properties/virtualMachine/id") {
            Some(Json::Str(vm)) => {
                let key = to_lower(text(nic, "/id"));
                let name = String::from_str(last(vm.as_str()));
                let ghost before = r@;
                r.push((key, name));
                proof {
                    assert(pair_views(r@) == pair_views(before).push(f(nics@[i as int])));
                    lemma_map_push(nics@.take(i as int).filter(pred), nics@[i as int], f);
                }
            },
            _ => {},
        }
    }
    assert(nics@.take(n as int) == nics@);
    r
}

/// The value of the last pair with the key.
pub fn latest_in<'a>(m: &'a Vec<(String, String)>, key: &str) -> (r: Option<&'a str>)
    ensures
        match r {
            Some(v) => latest(pair_views(m@), key@) == Some(v@),
            None => latest(pair_views(m@), key@) is None,
        },
{
    let k = String::from_str(key);
    let mut i: usize = m.len();
    assert(m@.take(i as int) == m@);
    while i > 0
        invariant
            i <= m@.len(),
            k@ == key@,
            latest(pair_views(m@), key@) == latest(pair_views(m@.take(i as int)), key@),
        decreases i,
    {
        assert(pair_views(m@.take(i as int)).drop_last() == pair_views(m@.take(i as int - 1)));
        assert(pair_views(m@.take(i as int)).last() == (m@[i - 1].0@, m@[i - 1].1@));
        if m[i - 1].0 == k {
            return Some(m[i - 1].1.as_str());
        }
        i = i - 1;
    }
    None
}

/// The VM of an IP configuration id, through its interface; `-` where none is known.
pub fn machine<'a>(machines: &'a Vec<(String, String)>, id: &str) -> (r: &'a str)
    ensures
        r@ == machine_of(pair_views(machines@), id@),
{
    match cut(id, "/ipConfigurations/") {
        Some((nic, _)) => {
            let name = string_of(nic.as_slice());
            let key = to_lower(name.as_str());
            match latest_in(machines, key.as_str()) {
                Some(vm) => vm,
                None => "-",
            }
        },
        None => "-",
    }
}

/// The line of an address: name, group, address, SKU, allocation, and what it is bound to (the
/// owner with its VM, a NAT gateway, or that it is not bound).
pub fn line(ip: &Json, machines: &Vec<(String, String)>) -> (r: String)
    ensures
        r@ == line_of(*ip, pair_views(machines@)),
{
    let config = text(ip, "/properties/ipConfiguration/id");
    let gate = text(ip, "/properties/natGateway/id");
    let dash = String::from_str("-");
    let config_none = String::from_str(config) == dash;
    let gate_none = String::from_str(gate) == dash;
    let binding = if config_none && gate_none {
        String::from_str("не прив'язана")
    } else if config_none {
        owner(gate)
    } else {
        let mut b = owner(config);
        b.append("  vm=");
        b.append(machine(machines, config));
        b
    };
    let mut r = String::from_str(text(ip, "/name"));
    r.append("  ");
    r.append(part(text(ip, "/id"), "resourceGroups"));
    r.append("  ");
    r.append(text(ip, "/properties/ipAddress"));
    r.append("  ");
    r.append(text(ip, "/sku/name"));
    r.append(" ");
    r.append(text(ip, "/properties/publicIPAllocationMethod"));
    r.append("  ");
    r.append(binding.as_str());
    r
}

/// An address filter as a value.
pub open spec fn addr_view(addr: Option<&str>) -> Option<Seq<char>> {
    match addr {
        Some(a) => Some(a@),
        None => None,
    }
}

/// The addresses in report order, only `addr` where one is given.
pub fn table(ips: &Vec<Json>, machines: &Vec<(String, String)>, addr: Option<&str>) -> (r: String)
    ensures
        r@ == table_of(ips@, pair_views(machines@), addr_view(addr)),
{
    let all = sorted(ips);
    let ghost whole = derefs(all@);
    let ghost pred = |x: Json| kept(addr_view(addr), x);
    let ghost f = |ip: Json| line_of(ip, pair_views(machines@));
    let want = match addr {
        Some(a) => Some(String::from_str(a)),
        None => None,
    };
    let mut lines: Vec<String> = Vec::new();
    let n = all.len();
    for i in 0..n
        invariant
            n == all@.len(),
            whole == derefs(all@),
            whole == by_group(ips@),
            pred == (|x: Json| kept(addr_view(addr), x)),
            f == (|ip: Json| line_of(ip, pair_views(machines@))),
            match want {
                Some(w) => addr_view(addr) == Some(w@),
                None => addr_view(addr) is None,
            },
            views(lines@) == whole.take(i as int).filter(pred).map_values(f),
    {
        proof {
            lemma_filter_step(whole, i as int, pred);
        }
        let ip = all[i];
        let keep = match &want {
            Some(w) => String::from_str(text(ip, "/properties/ipAddress")) == *w,
            None => true,
        };
        assert(keep == pred(whole[i as int]));
        if keep {
            let ghost before = lines@;
            lines.push(line(ip, machines));
            proof {
                assert(views(lines@) == views(before).push(f(whole[i as int])));
                lemma_map_push(whole.take(i as int).filter(pred), whole[i as int], f);
            }
        }
    }
    assert(whole.take(n as int) == whole);
    report_of(&lines, "Публічних IP не знайдено.")
}

/// The listing of the public IPs of a scope.
pub fn path(scope: &str) -> (r: String)
    ensures
        r@ == scope@ + "/providers/Microsoft.Network/publicIPAddresses?api-version=2024-07-01"@,
{
    let mut r = String::from_str(scope);
    r.append("/providers/Microsoft.Network/publicIPAddresses?api-version=2024-07-01");
    r
}

/// The listing of the network interfaces of a scope.
pub fn nics_path(scope: &str) -> (r: String)
    ensures
        r@ == scope@ + "/providers/Microsoft.Network/networkInterfaces?api-version=2023-11-01"@,
{
    let mut r = String::from_str(scope);
    r.append("/providers/Microsoft.Network/networkInterfaces?api-version=2023-11-01");
    r
}

} // verus!
