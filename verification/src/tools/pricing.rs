//! Retail prices of standard HDD storage in a region: snapshots per used GB, disk tiers per size.
//! The prices come in already formatted, one per item, since they are floating-point numbers.
use vstd::prelude::*;
use crate::json::Json;
use crate::text::{
    chars, decimal, decimal_of, ends, ends_with, join, join_all, lemma_filter_step, lemma_map_push, matches_at,
    slice_of, string_of, views,
};
use crate::tools::{text, text_at};

verus! {

/// The meter an item prices.
pub open spec fn meter(item: Json) -> Seq<char> {
    text_at(item, "/meterName"@)
}

/// Each item with its formatted price.
pub open spec fn priced(items: Seq<Json>, prices: Seq<Seq<char>>) -> Seq<(Json, Seq<char>)> {
    Seq::new(items.len(), |i: int| (items[i], prices[i]))
}

/// `s` with every trailing `pat` taken off (`str::trim_end_matches`).
pub open spec fn trim_end_all(s: Seq<char>, pat: Seq<char>) -> Seq<char>
    decreases s.len(),
{
    if pat.len() > 0 && ends_with(s, pat) {
        trim_end_all(s.take(s.len() - pat.len()), pat)
    } else {
        s
    }
}

/// An item prices snapshots.
pub open spec fn is_snapshot(row: (Json, Seq<char>)) -> bool {
    ends_with(meter(row.0), " Snapshots"@)
}

/// The line of a snapshot price: the price, then the redundancy it is for.
pub open spec fn snapshot_line(row: (Json, Seq<char>)) -> Seq<char> {
    row.1 + "  "@ + trim_end_all(meter(row.0), " Snapshots"@)
}

/// The lines of the snapshot prices, in the items' order.
pub open spec fn snapshot_lines(rows: Seq<(Json, Seq<char>)>) -> Seq<Seq<char>> {
    rows.filter(|r: (Json, Seq<char>)| is_snapshot(r)).map_values(|r: (Json, Seq<char>)| snapshot_line(r))
}

/// The price of the first item for the meter `name`.
pub open spec fn first_price(rows: Seq<(Json, Seq<char>)>, name: Seq<char>) -> Option<Seq<char>>
    decreases rows.len(),
{
    if rows.len() == 0 {
        None
    } else if meter(rows[0].0) == name {
        Some(rows[0].1)
    } else {
        first_price(rows.drop_first(), name)
    }
}

/// The standard HDD disk tiers and their sizes in GB.
pub open spec fn tier_list() -> Seq<(Seq<char>, u32)> {
    seq![
        ("S4"@, 32u32),
        ("S6"@, 64u32),
        ("S10"@, 128u32),
        ("S15"@, 256u32),
        ("S20"@, 512u32),
        ("S30"@, 1024u32),
        ("S40"@, 2048u32),
        ("S50"@, 4096u32),
        ("S60"@, 8192u32),
        ("S70"@, 16384u32),
        ("S80"@, 32767u32),
    ]
}

/// The line of a tier whose `LRS Disk` meter is priced: price, tier and size.
pub open spec fn tier_line(rows: Seq<(Json, Seq<char>)>, tier: (Seq<char>, u32)) -> Option<Seq<char>> {
    match first_price(rows, tier.0 + " LRS Disk"@) {
        Some(p) => Some(p + "  "@ + tier.0 + "  "@ + decimal(tier.1 as nat) + " ГБ"@),
        None => None,
    }
}

/// The lines of the priced tiers, smallest first.
pub open spec fn tier_lines(rows: Seq<(Json, Seq<char>)>) -> Seq<Seq<char>> {
    tier_list().filter(|t: (Seq<char>, u32)| tier_line(rows, t) is Some).map_values(
        |t: (Seq<char>, u32)| tier_line(rows, t).unwrap(),
    )
}

/// What the report says of images, whose billing Azure does not document.
pub open spec fn image_note() -> Seq<char> {
    "Образ (Microsoft.Compute/images) Azure окремо не документує: можливо, тарифікується як диск за рівнем (друга таблиця), можливо — як снепшот за використаними даними (перша); точну модель перевірте на першому реальному образі інструментом costs."@
}

/// The report on the prices: snapshots, then disk tiers, in the first item's currency; a hint
/// when there are no prices.
pub open spec fn table_of(items: Seq<Json>, prices: Seq<Seq<char>>) -> Seq<char> {
    if items.len() == 0 {
        "Цін не знайдено (перевірте код регіону)."@
    } else {
        let rows = priced(items, prices);
        let currency = text_at(items[0], "/currencyCode"@);
        "Снепшоти (за фактично використаний ГБ, "@ + currency + " на місяць):\n"@ + join(
            snapshot_lines(rows),
            "\n"@,
        ) + "\n\nРівні дисків (за виділений розмір, округлення вгору, "@ + currency + " на місяць):\n"@ + join(
            tier_lines(rows),
            "\n"@,
        ) + "\n\n"@ + image_note()
    }
}

/// `s` with every trailing `pat` taken off.
pub fn trim_end(s: &str, pat: &str) -> (r: String)
    ensures
        r@ == trim_end_all(s@, pat@),
{
    let v = chars(s);
    let w = chars(pat);
    let k = w.len();
    let mut end = v.len();
    assert(v@.take(end as int) == s@);
    while k > 0 && k <= end && matches_at(&v, end - k, &w)
        invariant
            v@ == s@,
            w@ == pat@,
            k == w@.len(),
            end <= v@.len(),
            trim_end_all(s@, pat@) == trim_end_all(v@.take(end as int), pat@),
        decreases end,
    {
        assert(v@.take(end as int).subrange(end - k, end as int) == v@.subrange(end - k, end as int));
        assert(v@.take(end as int).take(end - k) == v@.take(end - k));
        end = end - k;
    }
    if k > 0 && k <= end {
        assert(v@.take(end as int).subrange(end - k, end as int) == v@.subrange(end - k, end as int));
    }
    let r = slice_of(&v, 0, end);
    assert(r@ == v@.take(end as int));
    string_of(r.as_slice())
}

/// The price of the first item for the meter `name`.
fn price_of(items: &Vec<Json>, prices: &Vec<String>, name: &str) -> (r: Option<String>)
    requires
        prices@.len() == items@.len(),
    ensures
        match r {
            Some(p) => first_price(priced(items@, views(prices@)), name@) == Some(p@),
            None => first_price(priced(items@, views(prices@)), name@) is None,
        },
{
    let ghost rows = priced(items@, views(prices@));
    let wanted = String::from_str(name);
    let n = items.len();
    let mut i: usize = 0;
    assert(rows.skip(0) == rows);
    while i < n
        invariant
            n == items@.len(),
            n == prices@.len(),
            rows == priced(items@, views(prices@)),
            wanted@ == name@,
            i <= n,
            first_price(rows, name@) == first_price(rows.skip(i as int), name@),
        decreases n - i,
    {
        assert(rows.skip(i as int).drop_first() == rows.skip(i as int + 1));
        assert(rows.skip(i as int)[0] == (items@[i as int], prices@[i as int]@));
        if String::from_str(text(&items[i], "/meterName")) == wanted {
            return Some(prices[i].clone());
        }
        i = i + 1;
    }
    None
}

/// A disk tier and its size in GB.
fn tier(k: usize) -> (r: (&'static str, u32))
    requires
        k < 11,
    ensures
        (r.0@, r.1) == tier_list()[k as int],
{
    if k == 0 {
        ("S4", 32)
    } else if k == 1 {
        ("S6", 64)
    } else if k == 2 {
        ("S10", 128)
    } else if k == 3 {
        ("S15", 256)
    } else if k == 4 {
        ("S20", 512)
    } else if k == 5 {
        ("S30", 1024)
    } else if k == 6 {
        ("S40", 2048)
    } else if k == 7 {
        ("S50", 4096)
    } else if k == 8 {
        ("S60", 8192)
    } else if k == 9 {
        ("S70", 16384)
    } else {
        ("S80", 32767)
    }
}

/// The lines of the snapshot prices: price, then the redundancy.
pub fn snapshots(items: &Vec<Json>, prices: &Vec<String>) -> (r: Vec<String>)
    requires
        prices@.len() == items@.len(),
    ensures
        views(r@) == snapshot_lines(priced(items@, views(prices@))),
{
    let ghost rows = priced(items@, views(prices@));
    let ghost pred = |r: (Json, Seq<char>)| is_snapshot(r);
    let ghost f = |r: (Json, Seq<char>)| snapshot_line(r);
    let mut lines: Vec<String> = Vec::new();
    let n = items.len();
    for i in 0..n
        invariant
            n == items@.len(),
            n == prices@.len(),
            rows == priced(items@, views(prices@)),
            pred == (|r: (Json, Seq<char>)| is_snapshot(r)),
            f == (|r: (Json, Seq<char>)| snapshot_line(r)),
            views(lines@) == rows.take(i as int).filter(pred).map_values(f),
    {
        proof {
            lemma_filter_step(rows, i as int, pred);
        }
        let m = text(&items[i], "/meterName");
        assert(rows[i as int] == (items@[i as int], prices@[i as int]@));
        if ends(m, " Snapshots") {
            let mut line = prices[i].clone();
            line.append("  ");
            let name = trim_end(m, " Snapshots");
            line.append(name.as_str());
            let ghost before = lines@;
            lines.push(line);
            proof {
                lemma_map_push(rows.take(i as int).filter(pred), rows[i as int], f);
                assert(views(lines@) == views(before).push(f(rows[i as int])));
            }
        }
    }
    assert(rows.take(n as int) == rows);
    lines
}

/// The lines of the priced disk tiers, smallest first: price, tier, size.
pub fn tiers(items: &Vec<Json>, prices: &Vec<String>) -> (r: Vec<String>)
    requires
        prices@.len() == items@.len(),
    ensures
        views(r@) == tier_lines(priced(items@, views(prices@))),
{
    let ghost rows = priced(items@, views(prices@));
    let ghost all = tier_list();
    let ghost pred = |t: (Seq<char>, u32)| tier_line(rows, t) is Some;
    let ghost f = |t: (Seq<char>, u32)| tier_line(rows, t).unwrap();
    let mut lines: Vec<String> = Vec::new();
    for k in 0..11
        invariant
            prices@.len() == items@.len(),
            rows == priced(items@, views(prices@)),
            all == tier_list(),
            pred == (|t: (Seq<char>, u32)| tier_line(rows, t) is Some),
            f == (|t: (Seq<char>, u32)| tier_line(rows, t).unwrap()),
            views(lines@) == all.take(k as int).filter(pred).map_values(f),
    {
        proof {
            lemma_filter_step(all, k as int, pred);
        }
        let (name, gib) = tier(k);
        let mut meter_name = String::from_str(name);
        meter_name.append(" LRS Disk");
        match price_of(items, prices, meter_name.as_str()) {
            Some(p) => {
                let mut line = p;
                line.append("  ");
                line.append(name);
                line.append("  ");
                let size = decimal_of(gib as u64);
                line.append(size.as_str());
                line.append(" ГБ");
                let ghost before = lines@;
                lines.push(line);
                proof {
                    lemma_map_push(all.take(k as int).filter(pred), all[k as int], f);
                    assert(views(lines@) == views(before).push(f(all[k as int])));
                }
            },
            None => {},
        }
    }
    assert(all.take(11) == all);
    lines
}

/// The report on the prices, given each item's price already formatted: the snapshot prices,
/// then the disk tiers, in the first item's currency, then what is known of images; a hint when
/// there are no prices.
pub fn table(items: &Vec<Json>, prices: &Vec<String>) -> (r: String)
    requires
        prices@.len() == items@.len(),
    ensures
        r@ == table_of(items@, views(prices@)),
{
    if items.len() == 0 {
        return String::from_str("Цін не знайдено (перевірте код регіону).");
    }
    let currency = text(&items[0], "/currencyCode");
    let mut r = String::from_str("Снепшоти (за фактично використаний ГБ, ");
    r.append(currency);
    r.append(" на місяць):\n");
    let s = join_all(&snapshots(items, prices), "\n");
    r.append(s.as_str());
    r.append("\n\nРівні дисків (за виділений розмір, округлення вгору, ");
    r.append(currency);
    r.append(" на місяць):\n");
    let t = join_all(&tiers(items, prices), "\n");
    r.append(t.as_str());
    r.append("\n\n");
    r.append("Образ (Microsoft.Compute/images) Azure окремо не документує: можливо, тарифікується як диск за рівнем (друга таблиця), можливо — як снепшот за використаними даними (перша); точну модель перевірте на першому реальному образі інструментом costs.");
    r
}

} // verus!
