//! MySQL Flexible Server firewall rules, each annotated with what its address range lets in.
use vstd::prelude::*;
use crate::json::{all_digits, digits_value, items_or_none, parse_digits, plain_number, pointer, pointer_in, Json};
use crate::text::{chars, join, join_all, lemma_filter_step, lemma_join_push, lemma_map_push, pieces, split, views};
use crate::tools::{last, last_of, part, part_of, text, text_at};

verus! {

/// One decimal group of a dotted IPv4 address: one to three digits, no leading zero, at most 255
/// (the rules of `Ipv4Addr::from_str`).
pub open spec fn octet(s: Seq<char>) -> Option<u8> {
    if 1 <= s.len() <= 3 && all_digits(s) && !(s[0] == '0' && s.len() > 1) && digits_value(s) <= 255 {
        Some(digits_value(s) as u8)
    } else {
        None
    }
}

/// A dotted IPv4 address: four groups separated by dots, nothing else.
pub open spec fn ipv4(t: Seq<char>) -> Option<(u8, u8, u8, u8)> {
    let g = split(t, '.');
    if g.len() == 4 && octet(g[0]) is Some && octet(g[1]) is Some && octet(g[2]) is Some && octet(
        g[3],
    ) is Some {
        Some((octet(g[0]).unwrap(), octet(g[1]).unwrap(), octet(g[2]).unwrap(), octet(g[3]).unwrap()))
    } else {
        None
    }
}

/// An address as the 32-bit number that orders addresses.
pub open spec fn address_value(a: (u8, u8, u8, u8)) -> nat {
    ((a.0 as nat * 256 + a.1 as nat) * 256 + a.2 as nat) * 256 + a.3 as nat
}

/// `0.0.0.0`.
pub open spec fn unspecified(a: (u8, u8, u8, u8)) -> bool {
    a.0 == 0 && a.1 == 0 && a.2 == 0 && a.3 == 0
}

/// Both addresses lie in one private block: `10.0.0.0/8`, `172.16.0.0/12` or `192.168.0.0/16`,
/// so the range between them is private.
pub open spec fn same_private_block(a: (u8, u8, u8, u8), b: (u8, u8, u8, u8)) -> bool {
    ||| a.0 == 10 && b.0 == 10
    ||| a.0 == 172 && 16 <= a.1 <= 31 && b.0 == 172 && 16 <= b.1 <= 31
    ||| a.0 == 192 && a.1 == 168 && b.0 == 192 && b.1 == 168
}

/// The address lies in a private block (`10.0.0.0/8`, `172.16.0.0/12`, `192.168.0.0/16`).
pub open spec fn private(a: (u8, u8, u8, u8)) -> bool {
    a.0 == 10 || (a.0 == 172 && 16 <= a.1 <= 31) || (a.0 == 192 && a.1 == 168)
}

/// A range marked as a private network holds only private addresses.
pub proof fn lemma_private_range(from: (u8, u8, u8, u8), to: (u8, u8, u8, u8), x: (u8, u8, u8, u8))
    requires
        same_private_block(from, to),
        address_value(from) <= address_value(x) <= address_value(to),
    ensures
        private(x),
{
    let (f0, f1, f2, f3) = (from.0 as int, from.1 as int, from.2 as int, from.3 as int);
    let (t0, t1, t2, t3) = (to.0 as int, to.1 as int, to.2 as int, to.3 as int);
    let (x0, x1, x2, x3) = (x.0 as int, x.1 as int, x.2 as int, x.3 as int);
    assert(address_value(from) == f0 * 16777216 + f1 * 65536 + f2 * 256 + f3) by (nonlinear_arith)
        requires
            f0 == from.0 as int, f1 == from.1 as int, f2 == from.2 as int, f3 == from.3 as int;
    assert(address_value(to) == t0 * 16777216 + t1 * 65536 + t2 * 256 + t3) by (nonlinear_arith)
        requires
            t0 == to.0 as int, t1 == to.1 as int, t2 == to.2 as int, t3 == to.3 as int;
    assert(address_value(x) == x0 * 16777216 + x1 * 65536 + x2 * 256 + x3) by (nonlinear_arith)
        requires
            x0 == x.0 as int, x1 == x.1 as int, x2 == x.2 as int, x3 == x.3 as int;
    let v = x0 * 16777216 + x1 * 65536 + x2 * 256 + x3;
    if from.0 == 10 && to.0 == 10 {
        assert(x0 == 10) by (nonlinear_arith)
            requires
                10 * 16777216 <= v < 11 * 16777216, v == x0 * 16777216 + x1 * 65536 + x2 * 256 + x3,
                0 <= x1 < 256, 0 <= x2 < 256, 0 <= x3 < 256;
    } else if from.0 == 172 {
        assert(x0 == 172 && 16 <= x1 <= 31) by (nonlinear_arith)
            requires
                172 * 16777216 + 16 * 65536 <= v < 172 * 16777216 + 32 * 65536,
                v == x0 * 16777216 + x1 * 65536 + x2 * 256 + x3, 0 <= x1 < 256, 0 <= x2 < 256, 0 <= x3 < 256;
    } else {
        assert(x0 == 192 && x1 == 168) by (nonlinear_arith)
            requires
                192 * 16777216 + 168 * 65536 <= v < 192 * 16777216 + 169 * 65536,
                v == x0 * 16777216 + x1 * 65536 + x2 * 256 + x3, 0 <= x1 < 256, 0 <= x2 < 256, 0 <= x3 < 256;
    }
}

/// The public IP resource has an address within `from..=to`.
pub open spec fn covered(ip: Json, from: (u8, u8, u8, u8), to: (u8, u8, u8, u8)) -> bool {
    match ipv4(text_at(ip, "/properties/ipAddress"@)) {
        Some(a) => address_value(from) <= address_value(a) <= address_value(to),
        None => false,
    }
}

/// What a firewall rule lets in: all Azure services, a private network (a range within one
/// private block), the public IPs of the subscription that its range covers, or none of them; `-` where an end is not an address.
pub open spec fn mark_of(rule: Json, ips: Seq<Json>) -> Seq<char> {
    let from = ipv4(text_at(rule, "/properties/startIpAddress"@));
    let to = ipv4(text_at(rule, "/properties/endIpAddress"@));
    if from is None || to is None {
        "-"@
    } else if unspecified(from.unwrap()) && unspecified(to.unwrap()) {
        "усі служби Azure"@
    } else if same_private_block(from.unwrap(), to.unwrap()) {
        "приватна мережа"@
    } else {
        let names = ips.filter(|ip: Json| covered(ip, from.unwrap(), to.unwrap())).map_values(
            |ip: Json| text_at(ip, "/name"@),
        );
        if names.len() == 0 {
            "не збігається з жодною публічною IP підписки"@
        } else {
            "= "@ + join(names, ", "@)
        }
    }
}

/// What having no rules means for each public network access setting.
pub open spec fn silence_of(access: Seq<char>) -> Seq<char> {
    if access == "Enabled"@ {
        "публічні підключення заборонені, жодне правило їх не дозволяє"@
    } else if access == "Disabled"@ {
        "публічний доступ вимкнено"@
    } else {
        "стан публічного доступу невідомий"@
    }
}

/// The line of one firewall rule.
pub open spec fn rule_line(rule: Json, ips: Seq<Json>) -> Seq<char> {
    "  "@ + text_at(rule, "/name"@) + "  "@ + text_at(rule, "/properties/startIpAddress"@) + "-"@
        + text_at(rule, "/properties/endIpAddress"@) + "  "@ + mark_of(rule, ips)
}

/// The names of the private endpoints of a server.
pub open spec fn endpoints_of(server: Json) -> Seq<Seq<char>> {
    items_or_none(pointer(server, "/properties/privateEndpointConnections"@)).map_values(
        |item: Json| last_of(text_at(item, "/properties/privateEndpoint/id"@)),
    )
}

/// The lines of a server: its network access, its private endpoints, and its rules.
pub open spec fn block_lines(server: Json, rules: Seq<Json>, ips: Seq<Json>) -> Seq<Seq<char>> {
    let endpoints = endpoints_of(server);
    let head = seq![
        text_at(server, "/name"@) + "  "@ + part_of(text_at(server, "/id"@), "resourceGroups"@)
            + "  publicNetworkAccess="@ + text_at(server, "/properties/network/publicNetworkAccess"@),
        "  приватні ендпоінти: "@ + (if endpoints.len() == 0 {
            "-"@
        } else {
            join(endpoints, ", "@)
        }),
    ];
    let silent = if rules.len() == 0 {
        seq!["  правил немає: "@ + silence_of(text_at(server, "/properties/network/publicNetworkAccess"@))]
    } else {
        Seq::empty()
    };
    head + silent + rules.map_values(|rule: Json| rule_line(rule, ips))
}

/// The block of a server.
pub open spec fn block_of(server: Json, rules: Seq<Json>, ips: Seq<Json>) -> Seq<char> {
    join(block_lines(server, rules, ips), "\n"@)
}

/// One group of a dotted address, `v[from..to]`.
fn octet_in(v: &Vec<char>, from: usize, to: usize) -> (r: Option<u8>)
    requires
        from <= to <= v@.len(),
    ensures
        r == octet(v@.subrange(from as int, to as int)),
{
    let ghost s = v@.subrange(from as int, to as int);
    if to - from < 1 || to - from > 3 {
        return None;
    }
    if v[from] == '0' && to - from > 1 {
        assert(s[0] == v@[from as int]);
        return None;
    }
    assert(s[0] == v@[from as int]);
    match parse_digits(v, from, to) {
        Some(n) => {
            if n <= 255 {
                Some(n as u8)
            } else {
                None
            }
        },
        None => None,
    }
}

/// A dotted IPv4 address (`Ipv4Addr::from_str`), as its four groups.
pub fn ipv4_of(t: &str) -> (r: Option<(u8, u8, u8, u8)>)
    ensures
        r == ipv4(t@),
{
    let v = chars(t);
    let g = pieces(&v, '.');
    if g.len() != 4 {
        return None;
    }
    let ghost s = split(t@, '.');
    assert(v@.subrange(g@[0].0 as int, g@[0].1 as int) == s[0]);
    assert(v@.subrange(g@[1].0 as int, g@[1].1 as int) == s[1]);
    assert(v@.subrange(g@[2].0 as int, g@[2].1 as int) == s[2]);
    assert(v@.subrange(g@[3].0 as int, g@[3].1 as int) == s[3]);
    let a = octet_in(&v, g[0].0, g[0].1);
    let b = octet_in(&v, g[1].0, g[1].1);
    let c = octet_in(&v, g[2].0, g[2].1);
    let d = octet_in(&v, g[3].0, g[3].1);
    match (a, b, c, d) {
        (Some(a), Some(b), Some(c), Some(d)) => Some((a, b, c, d)),
        _ => None,
    }
}

/// The 32-bit number of an address.
/// A rule is marked as letting in all Azure services exactly when both of its ends are the
/// address `0.0.0.0`.
pub proof fn lemma_all_services(rule: Json, ips: Seq<Json>)
    ensures
        mark_of(rule, ips) == "усі служби Azure"@ <==> (ipv4(text_at(rule, "/properties/startIpAddress"@)) == Some(
            (0u8, 0u8, 0u8, 0u8),
        ) && ipv4(text_at(rule, "/properties/endIpAddress"@)) == Some((0u8, 0u8, 0u8, 0u8))),
        ipv4(text_at(rule, "/properties/startIpAddress"@)) is None || ipv4(text_at(rule, "/properties/endIpAddress"@))
            is None ==> mark_of(rule, ips) == "-"@,
        ({
            let from = ipv4(text_at(rule, "/properties/startIpAddress"@));
            let to = ipv4(text_at(rule, "/properties/endIpAddress"@));
            from matches Some(f) && to matches Some(t) && f.0 == 10 && t.0 == 10 ==> mark_of(rule, ips)
                == "приватна мережа"@
        }),
{
    reveal_strlit("усі служби Azure");
    reveal_strlit("-");
    reveal_strlit("приватна мережа");
    reveal_strlit("не збігається з жодною публічною IP підписки");
    reveal_strlit("= ");
    let m = mark_of(rule, ips);
    if m == "усі служби Azure"@ {
        assert(m[0] == 'у');
    }
}

/// A rule whose start is a public address and which is not `0.0.0.0`–`0.0.0.0` is marked with
/// the names of the subscription's public IPs whose address lies in its range, in their order
/// (`= a, b`), or, where there is none, that it matches none.
pub proof fn lemma_public_range(rule: Json, ips: Seq<Json>, from: (u8, u8, u8, u8), to: (u8, u8, u8, u8))
    requires
        ipv4(text_at(rule, "/properties/startIpAddress"@)) == Some(from),
        ipv4(text_at(rule, "/properties/endIpAddress"@)) == Some(to),
        !(from == (0u8, 0u8, 0u8, 0u8) && to == (0u8, 0u8, 0u8, 0u8)),
        from.0 != 10,
        !(from.0 == 172 && 16 <= from.1 <= 31),
        !(from.0 == 192 && from.1 == 168),
    ensures
        ({
            let low = ((from.0 as int * 256 + from.1 as int) * 256 + from.2 as int) * 256 + from.3 as int;
            let high = ((to.0 as int * 256 + to.1 as int) * 256 + to.2 as int) * 256 + to.3 as int;
            let names = ips.filter(
                |ip: Json|
                    match ipv4(text_at(ip, "/properties/ipAddress"@)) {
                        Some(a) => low <= ((a.0 as int * 256 + a.1 as int) * 256 + a.2 as int) * 256 + a.3 as int
                            <= high,
                        None => false,
                    },
            ).map_values(|ip: Json| text_at(ip, "/name"@));
            mark_of(rule, ips) == if names.len() == 0 {
                "не збігається з жодною публічною IP підписки"@
            } else {
                "= "@ + join(names, ", "@)
            }
        }),
{
    let low = ((from.0 as int * 256 + from.1 as int) * 256 + from.2 as int) * 256 + from.3 as int;
    let high = ((to.0 as int * 256 + to.1 as int) * 256 + to.2 as int) * 256 + to.3 as int;
    let inline = |ip: Json|
        match ipv4(text_at(ip, "/properties/ipAddress"@)) {
            Some(a) => low <= ((a.0 as int * 256 + a.1 as int) * 256 + a.2 as int) * 256 + a.3 as int <= high,
            None => false,
        };
    let used = |ip: Json| covered(ip, from, to);
    assert(inline =~= used);
}

fn value_of(a: (u8, u8, u8, u8)) -> (r: u32)
    ensures
        r as nat == address_value(a),
{
    ((a.0 as u32 * 256 + a.1 as u32) * 256 + a.2 as u32) * 256 + a.3 as u32
}

/// What a firewall rule lets in: `усі служби Azure` for `0.0.0.0`, `приватна мережа` for a
/// range within one private block, the public IPs of the subscription in the range, or that it matches none.
pub fn mark(rule: &Json, ips: &Vec<Json>) -> (r: String)
    ensures
        r@ == mark_of(*rule, ips@),
{
    let from = ipv4_of(text(rule, "/properties/startIpAddress"));
    let to = ipv4_of(text(rule, "/properties/endIpAddress"));
    let (from, to) = match (from, to) {
        (Some(f), Some(t)) => (f, t),
        _ => {
            return String::from_str("-");
        },
    };
    if from.0 == 0 && from.1 == 0 && from.2 == 0 && from.3 == 0 && to.0 == 0 && to.1 == 0 && to.2 == 0
        && to.3 == 0 {
        return String::from_str("усі служби Azure");
    }
    let ten = from.0 == 10 && to.0 == 10;
    let one_seven_two = from.0 == 172 && 16 <= from.1 && from.1 <= 31 && to.0 == 172 && 16 <= to.1 && to.1
        <= 31;
    let one_nine_two = from.0 == 192 && from.1 == 168 && to.0 == 192 && to.1 == 168;
    if ten || one_seven_two || one_nine_two {
        return String::from_str("приватна мережа");
    }
    let low = value_of(from);
    let high = value_of(to);
    let ghost pred = |ip: Json| covered(ip, from, to);
    let ghost name = |ip: Json| text_at(ip, "/name"@);
    let mut names: Vec<String> = Vec::new();
    let n = ips.len();
    for i in 0..n
        invariant
            n == ips@.len(),
            low as nat == address_value(from),
            high as nat == address_value(to),
            pred == (|ip: Json| covered(ip, from, to)),
            name == (|ip: Json| text_at(ip, "/name"@)),
            views(names@) == ips@.take(i as int).filter(pred).map_values(name),
    {
        proof {
            lemma_filter_step(ips@, i as int, pred);
        }
        let ip = &ips[i];
        let hit = match ipv4_of(text(ip, "/properties/ipAddress")) {
            Some(a) => {
                let x = value_of(a);
                low <= x && x <= high
            },
            None => false,
        };
        assert(hit == pred(ips@[i as int]));
        if hit {
            let ghost before = names@;
            names.push(String::from_str(text(ip, "/name")));
            proof {
                assert(names@ == before.push(names@[i as int - i as int + before.len()]));
                assert(views(names@) == views(before).push(name(ips@[i as int])));
                lemma_map_push(ips@.take(i as int).filter(pred), ips@[i as int], name);
            }
        }
    }
    assert(ips@.take(n as int) == ips@);
    if names.len() == 0 {
        String::from_str("не збігається з жодною публічною IP підписки")
    } else {
        let mut r = String::from_str("= ");
        let joined = join_all(&names, ", ");
        r.append(joined.as_str());
        r
    }
}

/// What having no rules means for a server's public network access setting.
pub fn silence(access: &str) -> (r: &'static str)
    ensures
        r@ == silence_of(access@),
{
    let s = String::from_str(access);
    if s == String::from_str("Enabled") {
        "публічні підключення заборонені, жодне правило їх не дозволяє"
    } else if s == String::from_str("Disabled") {
        "публічний доступ вимкнено"
    } else {
        "стан публічного доступу невідомий"
    }
}

/// The block of a server: name, group and public network access; its private endpoints; what
/// having no rules means, or each rule with its mark.
pub fn block(server: &Json, rules: &Vec<Json>, ips: &Vec<Json>) -> (r: String)
    ensures
        r@ == block_of(*server, rules@, ips@),
{
    let ghost endpoint = |item: Json| last_of(text_at(item, "/properties/privateEndpoint/id"@));
    let mut endpoints: Vec<String> = Vec::new();
    match pointer_in(server, "/properties/privateEndpointConnections") {
        Some(Json::Array(items)) => {
            let n = items.len();
            for i in 0..n
                invariant
                    n == items@.len(),
                    endpoint == (|item: Json| last_of(text_at(item, "/properties/privateEndpoint/id"@))),
                    views(endpoints@) == items@.take(i as int).map_values(endpoint),
            {
                let ghost before = endpoints@;
                endpoints.push(String::from_str(last(text(&items[i], "/properties/privateEndpoint/id"))));
                proof {
                    assert(views(endpoints@) == views(before).push(endpoint(items@[i as int])));
                    assert(items@.take(i as int + 1) == items@.take(i as int).push(items@[i as int]));
                    lemma_map_push(items@.take(i as int), items@[i as int], endpoint);
                }
            }
            assert(items@.take(n as int) == items@);
        },
        _ => {},
    }
    assert(views(endpoints@) == endpoints_of(*server));
    let mut lines: Vec<String> = Vec::new();
    let mut head = String::from_str(text(server, "/name"));
    head.append("  ");
    head.append(part(text(server, "/id"), "resourceGroups"));
    head.append("  publicNetworkAccess=");
    head.append(text(server, "/properties/network/publicNetworkAccess"));
    lines.push(head);
    let mut second = String::from_str("  приватні ендпоінти: ");
    if endpoints.len() == 0 {
        second.append("-");
    } else {
        let joined = join_all(&endpoints, ", ");
        second.append(joined.as_str());
    }
    lines.push(second);
    if rules.len() == 0 {
        let mut third = String::from_str("  правил немає: ");
        third.append(silence(text(server, "/properties/network/publicNetworkAccess")));
        lines.push(third);
    }
    let ghost head_lines = views(lines@);
    let ghost line = |rule: Json| rule_line(rule, ips@);
    let n = rules.len();
    for i in 0..n
        invariant
            n == rules@.len(),
            line == (|rule: Json| rule_line(rule, ips@)),
            views(lines@) == head_lines + rules@.take(i as int).map_values(line),
    {
        let rule = &rules[i];
        let mut s = String::from_str("  ");
        s.append(text(rule, "/name"));
        s.append("  ");
        s.append(text(rule, "/properties/startIpAddress"));
        s.append("-");
        s.append(text(rule, "/properties/endIpAddress"));
        s.append("  ");
        let m = mark(rule, ips);
        s.append(m.as_str());
        let ghost before = lines@;
        lines.push(s);
        proof {
            assert(views(lines@) == views(before).push(line(rules@[i as int])));
            assert(rules@.take(i as int + 1) == rules@.take(i as int).push(rules@[i as int]));
            lemma_map_push(rules@.take(i as int), rules@[i as int], line);
        }
    }
    assert(rules@.take(n as int) == rules@);
    assert(views(lines@) == block_lines(*server, rules@, ips@));
    join_all(&lines, "\n")
}

/// The listing of the MySQL flexible servers of a scope.
pub fn path(scope: &str) -> (r: String)
    ensures
        r@ == scope@ + "/providers/Microsoft.DBforMySQL/flexibleServers?api-version=2024-10-01-preview"@,
{
    let mut r = String::from_str(scope);
    r.append("/providers/Microsoft.DBforMySQL/flexibleServers?api-version=2024-10-01-preview");
    r
}

/// The listing of the firewall rules of a server, by its id.
pub fn rules_path(scope: &str) -> (r: String)
    ensures
        r@ == scope@ + "/firewallRules?api-version=2023-12-30"@,
{
    let mut r = String::from_str(scope);
    r.append("/firewallRules?api-version=2023-12-30");
    r
}

} // verus!
