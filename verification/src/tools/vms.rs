//! Virtual machines: size, OS, power state, private and public addresses.
use vstd::prelude::*;
use crate::json::{items_or_none, member, member_of, pointer, pointer_in, str_of, Json};
use crate::text::{
    chars, join, join_all, lemma_filter_step, lemma_map_push, lowercase, slice_of, starts_with, string_of,
    to_lower, views,
};
use crate::tools::{
    by_group, chosen, derefs, name_view, named, part, part_of, report, report_of, text, text_at,
};

verus! {

/// Items keyed by their lowercased id.
pub open spec fn index_of(items: Seq<Json>) -> Seq<(Seq<char>, Json)> {
    items.map_values(|x: Json| (lowercase(text_at(x, "/id"@)), x))
}

/// An index as values.
pub open spec fn index_views(m: Seq<(String, &Json)>) -> Seq<(Seq<char>, Json)> {
    m.map_values(|p: (String, &Json)| (p.0@, *p.1))
}

/// The last item with the key (as a map built from the pairs keeps the last).
pub open spec fn latest(m: Seq<(Seq<char>, Json)>, key: Seq<char>) -> Option<Json>
    decreases m.len(),
{
    if m.len() == 0 {
        None
    } else if m.last().0 == key {
        Some(m.last().1)
    } else {
        latest(m.drop_last(), key)
    }
}

/// The power state among the status codes: what follows `PowerState/` in the first code with it.
pub open spec fn first_power(codes: Seq<Json>) -> Option<Seq<char>>
    decreases codes.len(),
{
    if codes.len() == 0 {
        None
    } else {
        match str_of(member(codes[0], "code"@)) {
            Some(c) => if starts_with(c, "PowerState/"@) {
                Some(c.skip("PowerState/"@.len() as int))
            } else {
                first_power(codes.drop_first())
            },
            None => first_power(codes.drop_first()),
        }
    }
}

/// The power state of a VM from its status, or `-`.
pub open spec fn power_of(status: Option<Json>) -> Seq<char> {
    let codes = match status {
        Some(s) => items_or_none(pointer(s, "/properties/instanceView/statuses"@)),
        None => Seq::empty(),
    };
    match first_power(codes) {
        Some(p) => p,
        None => "-"@,
    }
}

/// Texts joined with commas, or `-` when there are none.
pub open spec fn joined_of(items: Seq<Seq<char>>) -> Seq<char> {
    if items.len() == 0 {
        "-"@
    } else {
        join(items, ","@)
    }
}

/// The interfaces of a VM that the index knows, in the VM's order.
pub open spec fn found_nics(vm: Json, nics: Seq<(Seq<char>, Json)>) -> Seq<Json> {
    items_or_none(pointer(vm, "/properties/networkProfile/networkInterfaces"@)).filter(
        |l: Json| latest(nics, lowercase(text_at(l, "/id"@))) is Some,
    ).map_values(|l: Json| latest(nics, lowercase(text_at(l, "/id"@))).unwrap())
}

/// The IP configurations of those interfaces.
pub open spec fn configs_of(vm: Json, nics: Seq<(Seq<char>, Json)>) -> Seq<Json> {
    found_nics(vm, nics).map_values(
        |n: Json| items_or_none(pointer(n, "/properties/ipConfigurations"@)),
    ).flatten_alt()
}

/// The public IP resource of an IP configuration, if the index knows it.
pub open spec fn public_of(config: Json, ips: Seq<(Seq<char>, Json)>) -> Option<Json> {
    latest(ips, lowercase(text_at(config, "/properties/publicIPAddress/id"@)))
}

/// An index finds a key exactly when some entry has it, and gives the value of such an entry.
proof fn lemma_latest(m: Seq<(Seq<char>, Json)>, key: Seq<char>)
    ensures
        latest(m, key) is Some <==> exists|k: int| 0 <= k < m.len() && #[trigger] m[k].0 == key,
        latest(m, key) matches Some(v) ==> exists|k: int| 0 <= k < m.len() && #[trigger] m[k] == (key, v),
    decreases m.len(),
{
    if m.len() > 0 {
        let rest = m.drop_last();
        lemma_latest(rest, key);
        if m.last().0 != key {
            if exists|k: int| 0 <= k < m.len() && #[trigger] m[k].0 == key {
                let k = choose|k: int| 0 <= k < m.len() && #[trigger] m[k].0 == key;
                assert(k < m.len() - 1);
                assert(rest[k].0 == key);
            }
            if latest(m, key) is Some {
                let k = choose|k: int| 0 <= k < rest.len() && #[trigger] rest[k] == (key, latest(m, key).unwrap());
                assert(m[k] == rest[k]);
            }
        } else {
            assert(m[m.len() - 1] == (key, m.last().1));
        }
    }
}

/// The public IP of an IP configuration is found whenever one of the listed public IPs has the
/// very id the configuration names; and whatever is found is one of the listed public IPs whose
/// id is the configuration's, compared in lowercase.
pub proof fn lemma_public_found(config: Json, ips: Seq<Json>)
    ensures
        (exists|i: int|
            0 <= i < ips.len() && text_at(#[trigger] ips[i], "/id"@) == text_at(config, "/properties/publicIPAddress/id"@))
            ==> public_of(config, index_of(ips)) is Some,
        public_of(config, index_of(ips)) matches Some(x) ==> ips.contains(x) && lowercase(text_at(x, "/id"@))
            == lowercase(text_at(config, "/properties/publicIPAddress/id"@)),
{
    let m = index_of(ips);
    let key = lowercase(text_at(config, "/properties/publicIPAddress/id"@));
    lemma_latest(m, key);
    if exists|i: int|
        0 <= i < ips.len() && text_at(#[trigger] ips[i], "/id"@) == text_at(config, "/properties/publicIPAddress/id"@) {
        let i = choose|i: int|
            0 <= i < ips.len() && text_at(#[trigger] ips[i], "/id"@) == text_at(config, "/properties/publicIPAddress/id"@);
        assert(m[i].0 == key);
    }
    if public_of(config, m) is Some {
        let x = public_of(config, m).unwrap();
        let k = choose|k: int| 0 <= k < m.len() && #[trigger] m[k] == (key, x);
        assert(m[k] == (lowercase(text_at(ips[k], "/id"@)), ips[k]));
        assert(ips.contains(ips[k]));
    }
}

/// The private and the public addresses of a VM.
pub open spec fn addresses_of(vm: Json, nics: Seq<(Seq<char>, Json)>, ips: Seq<(Seq<char>, Json)>) -> (
    Seq<char>,
    Seq<char>,
) {
    let configs = configs_of(vm, nics);
    (
        joined_of(configs.map_values(|c: Json| text_at(c, "/properties/privateIPAddress"@))),
        joined_of(
            configs.filter(|c: Json| public_of(c, ips) is Some).map_values(
                |c: Json| text_at(public_of(c, ips).unwrap(), "/properties/ipAddress"@),
            ),
        ),
    )
}

/// The line of a VM.
pub open spec fn line_of(
    vm: Json,
    status: Seq<(Seq<char>, Json)>,
    nics: Seq<(Seq<char>, Json)>,
    ips: Seq<(Seq<char>, Json)>,
) -> Seq<char> {
    let (private, public) = addresses_of(vm, nics, ips);
    text_at(vm, "/name"@) + "  "@ + lowercase(part_of(text_at(vm, "/id"@), "resourceGroups"@)) + "  "@
        + text_at(vm, "/properties/hardwareProfile/vmSize"@) + "  "@ + text_at(
        vm,
        "/properties/storageProfile/osDisk/osType"@,
    ) + "  "@ + power_of(latest(status, lowercase(text_at(vm, "/id"@)))) + "  private="@ + private
        + "  public="@ + public
}

/// The report on the VMs that pass the name filter.
pub open spec fn table_of(
    vms: Seq<Json>,
    status: Seq<Json>,
    nics: Seq<Json>,
    ips: Seq<Json>,
    name: Option<Seq<char>>,
) -> Seq<char> {
    report(
        by_group(vms).filter(|x: Json| named(name, x)).map_values(
            |vm: Json| line_of(vm, index_of(status), index_of(nics), index_of(ips)),
        ),
        "Віртуальних машин не знайдено."@,
    )
}

/// The items keyed by their lowercased id.
pub fn index<'a>(items: &'a Vec<Json>) -> (r: Vec<(String, &'a Json)>)
    ensures
        index_views(r@) == index_of(items@),
{
    let ghost f = |x: Json| (lowercase(text_at(x, "/id"@)), x);
    let mut r: Vec<(String, &'a Json)> = Vec::new();
    let n = items.len();
    for i in 0..n
        invariant
            n == items@.len(),
            f == (|x: Json| (lowercase(text_at(x, "/id"@)), x)),
            index_views(r@) == items@.take(i as int).map_values(f),
    {
        let item = &items[i];
        let key = to_lower(text(item, "/id"));
        let ghost before = r@;
        r.push((key, item));
        proof {
            assert(index_views(r@) == index_views(before).push(f(items@[i as int])));
            assert(items@.take(i as int + 1) == items@.take(i as int).push(items@[i as int]));
            lemma_map_push(items@.take(i as int), items@[i as int], f);
        }
    }
    assert(items@.take(n as int) == items@);
    r
}

/// The last item with the key.
pub fn latest_in<'a>(m: &Vec<(String, &'a Json)>, key: &str) -> (r: Option<&'a Json>)
    ensures
        crate::json::owned(r) == latest(index_views(m@), key@),
{
    let k = String::from_str(key);
    let mut i: usize = m.len();
    assert(m@.take(i as int) == m@);
    while i > 0
        invariant
            i <= m@.len(),
            k@ == key@,
            latest(index_views(m@), key@) == latest(index_views(m@.take(i as int)), key@),
        decreases i,
    {
        assert(index_views(m@.take(i as int)).drop_last() == index_views(m@.take(i as int - 1)));
        if m[i - 1].0 == k {
            return Some(m[i - 1].1);
        }
        i = i - 1;
    }
    None
}

/// The power state of a VM from its status (`running`, `deallocated`, ...), or `-`.
pub fn power(status: Option<&Json>) -> (r: String)
    ensures
        r@ == power_of(crate::json::owned(status)),
{
    let prefix = chars("PowerState/");
    let codes: &Vec<Json> = match status {
        Some(s) => match pointer_in(s, "/properties/instanceView/statuses") {
            Some(Json::Array(a)) => a,
            _ => {
                return String::from_str("-");
            },
        },
        None => {
            return String::from_str("-");
        },
    };
    let n = codes.len();
    let mut i: usize = 0;
    assert(codes@.skip(0) == codes@);
    assert(power_of(crate::json::owned(status)) == match first_power(codes@) {
        Some(p) => p,
        None => "-"@,
    });
    while i < n
        invariant
            n == codes@.len(),
            prefix@ == "PowerState/"@,
            i <= n,
            power_of(crate::json::owned(status)) == match first_power(codes@) {
                Some(p) => p,
                None => "-"@,
            },
            first_power(codes@) == first_power(codes@.skip(i as int)),
        decreases n - i,
    {
        assert(codes@.skip(i as int).drop_first() == codes@.skip(i as int + 1));
        assert(codes@.skip(i as int)[0] == codes@[i as int]);
        match member_of(&codes[i], "code") {
            Some(Json::Str(c)) => {
                let v = chars(c.as_str());
                if crate::text::matches_at(&v, 0, &prefix) {
                    let rest = slice_of(&v, prefix.len(), v.len());
                    assert(v@.subrange(0, prefix@.len() as int) == prefix@);
                    assert(rest@ == c@.skip("PowerState/"@.len() as int));
                    assert(str_of(member(codes@[i as int], "code"@)) == Some(c@));
                    assert(starts_with(c@, "PowerState/"@));
                    assert(first_power(codes@.skip(i as int)) == Some(c@.skip("PowerState/"@.len() as int)));
                    return string_of(rest.as_slice());
                }
            },
            _ => {},
        }
        i = i + 1;
    }
    String::from_str("-")
}

/// Texts joined with commas, or `-` when there are none.
pub fn joined(items: &Vec<String>) -> (r: String)
    ensures
        r@ == joined_of(views(items@)),
{
    if items.len() == 0 {
        String::from_str("-")
    } else {
        join_all(items, ",")
    }
}

/// The private and the public addresses of a VM, through the interfaces and public IPs it links.
pub fn addresses(vm: &Json, nics: &Vec<(String, &Json)>, ips: &Vec<(String, &Json)>) -> (r: (String, String))
    ensures
        (r.0@, r.1@) == addresses_of(*vm, index_views(nics@), index_views(ips@)),
{
    let ghost nv = index_views(nics@);
    let ghost iv = index_views(ips@);
    let ghost found = |l: Json| latest(nv, lowercase(text_at(l, "/id"@))) is Some;
    let ghost nic_of = |l: Json| latest(nv, lowercase(text_at(l, "/id"@))).unwrap();
    let ghost cfgs = |n: Json| items_or_none(pointer(n, "/properties/ipConfigurations"@));
    let ghost priv_of = |c: Json| text_at(c, "/properties/privateIPAddress"@);
    let ghost has_pub = |c: Json| public_of(c, iv) is Some;
    let ghost pub_of = |c: Json| text_at(public_of(c, iv).unwrap(), "/properties/ipAddress"@);
    let mut private: Vec<String> = Vec::new();
    let mut public: Vec<String> = Vec::new();
    let empty: Vec<Json> = Vec::new();
    let ghost mut seen: Seq<Json> = Seq::empty();
    match pointer_in(vm, "/properties/networkProfile/networkInterfaces") {
        Some(Json::Array(links)) => {
            let n = links.len();
            for i in 0..n
                invariant
                    n == links@.len(),
                    empty@ == Seq::<Json>::empty(),
                    nv == index_views(nics@),
                    iv == index_views(ips@),
                    found == (|l: Json| latest(nv, lowercase(text_at(l, "/id"@))) is Some),
                    nic_of == (|l: Json| latest(nv, lowercase(text_at(l, "/id"@))).unwrap()),
                    cfgs == (|n: Json| items_or_none(pointer(n, "/properties/ipConfigurations"@))),
                    priv_of == (|c: Json| text_at(c, "/properties/privateIPAddress"@)),
                    has_pub == (|c: Json| public_of(c, iv) is Some),
                    pub_of == (|c: Json| text_at(public_of(c, iv).unwrap(), "/properties/ipAddress"@)),
                    seen == links@.take(i as int).filter(found).map_values(nic_of).map_values(cfgs).flatten_alt(),
                    views(private@) == seen.map_values(priv_of),
                    views(public@) == seen.filter(has_pub).map_values(pub_of),
            {
                proof {
                    lemma_filter_step(links@, i as int, found);
                }
                let link = &links[i];
                let key = to_lower(text(link, "/id"));
                match latest_in(nics, key.as_str()) {
                    Some(nic) => {
                        proof {
                            lemma_map_push(links@.take(i as int).filter(found), links@[i as int], nic_of);
                            lemma_map_push(
                                links@.take(i as int).filter(found).map_values(nic_of),
                                *nic,
                                cfgs,
                            );
                        }
                        let ghost start = seen;
                        let configs: &Vec<Json> = match pointer_in(nic, "/properties/ipConfigurations") {
                            Some(Json::Array(a)) => a,
                            _ => &empty,
                        };
                        assert(configs@ == cfgs(*nic));
                        let m = configs.len();
                        for j in 0..m
                            invariant
                                m == configs@.len(),
                                iv == index_views(ips@),
                                priv_of == (|c: Json| text_at(c, "/properties/privateIPAddress"@)),
                                has_pub == (|c: Json| public_of(c, iv) is Some),
                                pub_of == (|c: Json| text_at(public_of(c, iv).unwrap(), "/properties/ipAddress"@)),
                                seen == start + configs@.take(j as int),
                                views(private@) == seen.map_values(priv_of),
                                views(public@) == seen.filter(has_pub).map_values(pub_of),
                        {
                            let config = &configs[j];
                            proof {
                                assert(start + configs@.take(j as int + 1) == (start + configs@.take(j as int)).push(*config));
                                lemma_filter_step(seen.push(*config), seen.len() as int, has_pub);
                                assert(seen.push(*config).take(seen.len() as int) == seen);
                                assert(seen.push(*config).take(seen.len() as int + 1) == seen.push(*config));
                            }
                            let ghost before_private = private@;
                            private.push(String::from_str(text(config, "/properties/privateIPAddress")));
                            proof {
                                assert(views(private@) == views(before_private).push(priv_of(*config)));
                                lemma_map_push(seen, *config, priv_of);
                            }
                            let pkey = to_lower(text(config, "/properties/publicIPAddress/id"));
                            match latest_in(ips, pkey.as_str()) {
                                Some(ip) => {
                                    let ghost before_public = public@;
                                    public.push(String::from_str(text(ip, "/properties/ipAddress")));
                                    proof {
                                        assert(views(public@) == views(before_public).push(pub_of(*config)));
                                        lemma_map_push(seen.filter(has_pub), *config, pub_of);
                                    }
                                },
                                None => {},
                            }
                            proof {
                                seen = seen.push(*config);
                            }
                        }
                        proof {
                            assert(configs@.take(m as int) == configs@);
                            assert(configs@ == cfgs(*nic));
                            let all = links@.take(i as int + 1).filter(found).map_values(nic_of).map_values(cfgs);
                            assert(all.drop_last() == links@.take(i as int).filter(found).map_values(nic_of).map_values(cfgs));
                            assert(all.last() == configs@);
                        }
                    },
                    None => {},
                }
            }
            assert(links@.take(n as int) == links@);
        },
        _ => {},
    }
    assert(seen == configs_of(*vm, nv));
    (joined(&private), joined(&public))
}


/// The VMs in report order, those named `name` where one is given: name, group, size, OS, power
/// state, private and public addresses.
pub fn table(
    vms: &Vec<Json>,
    status: &Vec<Json>,
    nics: &Vec<Json>,
    ips: &Vec<Json>,
    name: Option<&str>,
) -> (r: String)
    ensures
        r@ == table_of(vms@, status@, nics@, ips@, name_view(name)),
{
    let status_index = index(status);
    let nic_index = index(nics);
    let ip_index = index(ips);
    let items = chosen(vms, name);
    let ghost f = |vm: Json| line_of(vm, index_of(status@), index_of(nics@), index_of(ips@));
    let mut lines: Vec<String> = Vec::new();
    let n = items.len();
    for i in 0..n
        invariant
            n == items@.len(),
            index_views(status_index@) == index_of(status@),
            index_views(nic_index@) == index_of(nics@),
            index_views(ip_index@) == index_of(ips@),
            f == (|vm: Json| line_of(vm, index_of(status@), index_of(nics@), index_of(ips@))),
            views(lines@) == derefs(items@).take(i as int).map_values(f),
    {
        let vm = items[i];
        let (private, public) = addresses(vm, &nic_index, &ip_index);
        let key = to_lower(text(vm, "/id"));
        let state = power(latest_in(&status_index, key.as_str()));
        let mut s = String::from_str(text(vm, "/name"));
        s.append("  ");
        let group = to_lower(part(text(vm, "/id"), "resourceGroups"));
        s.append(group.as_str());
        s.append("  ");
        s.append(text(vm, "/properties/hardwareProfile/vmSize"));
        s.append("  ");
        s.append(text(vm, "/properties/storageProfile/osDisk/osType"));
        s.append("  ");
        s.append(state.as_str());
        s.append("  private=");
        s.append(private.as_str());
        s.append("  public=");
        s.append(public.as_str());
        let ghost before = lines@;
        lines.push(s);
        proof {
            assert(views(lines@) == views(before).push(f(*vm)));
            assert(derefs(items@).take(i as int + 1) == derefs(items@).take(i as int).push(*items@[i as int]));
            lemma_map_push(derefs(items@).take(i as int), *items@[i as int], f);
        }
    }
    assert(derefs(items@).take(n as int) == derefs(items@));
    report_of(&lines, "Віртуальних машин не знайдено.")
}

/// The listing of the virtual machines of a scope.
pub fn path(scope: &str) -> (r: String)
    ensures
        r@ == scope@ + "/providers/Microsoft.Compute/virtualMachines?api-version=2024-11-01"@,
{
    let mut r = String::from_str(scope);
    r.append("/providers/Microsoft.Compute/virtualMachines?api-version=2024-11-01");
    r
}

/// The power states of the virtual machines of a scope.
pub fn status_path(scope: &str) -> (r: String)
    ensures
        r@ == scope@ + "/providers/Microsoft.Compute/virtualMachines?statusOnly=true&api-version=2024-11-01"@,
{
    let mut r = String::from_str(scope);
    r.append("/providers/Microsoft.Compute/virtualMachines?statusOnly=true&api-version=2024-11-01");
    r
}

} // verus!
