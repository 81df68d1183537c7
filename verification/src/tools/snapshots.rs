//! Disk snapshots: group, SKU, size, generation, security, OS, the disk they were taken from.
use vstd::prelude::*;
use crate::json::Json;
use crate::text::{lemma_map_push, lowercase, to_lower, views};
use crate::tools::{
    by_group, chosen, derefs, last, last_of, name_view, named, part, part_of, report, report_of, shown,
    shown_at, text, text_at,
};

verus! {

/// The line of a snapshot.
pub open spec fn line_of(snapshot: Json) -> Seq<char> {
    text_at(snapshot, "/name"@) + "  "@ + lowercase(part_of(text_at(snapshot, "/id"@), "resourceGroups"@))
        + "  "@ + text_at(snapshot, "/sku/name"@) + "  "@ + shown_at(snapshot, "/properties/diskSizeGB"@)
        + " ГБ  "@ + text_at(snapshot, "/properties/hyperVGeneration"@) + "  "@ + text_at(
        snapshot,
        "/properties/securityProfile/securityType"@,
    ) + "  "@ + text_at(snapshot, "/properties/osType"@) + "  source="@ + last_of(
        text_at(snapshot, "/properties/creationData/sourceResourceId"@),
    ) + "  incremental="@ + shown_at(snapshot, "/properties/incremental"@)
}

/// The report on the snapshots that pass the name filter.
pub open spec fn table_of(snapshots: Seq<Json>, name: Option<Seq<char>>) -> Seq<char> {
    report(
        by_group(snapshots).filter(|x: Json| named(name, x)).map_values(|s: Json| line_of(s)),
        "Снепшотів не знайдено."@,
    )
}

/// The line of a snapshot: name, group, SKU, size, generation, security type, OS, source disk and
/// whether it is incremental.
pub fn line(snapshot: &Json) -> (r: String)
    ensures
        r@ == line_of(*snapshot),
{
    let mut r = String::from_str(text(snapshot, "/name"));
    r.append("  ");
    let group = to_lower(part(text(snapshot, "/id"), "resourceGroups"));
    r.append(group.as_str());
    r.append("  ");
    r.append(text(snapshot, "/sku/name"));
    r.append("  ");
    let size = shown(snapshot, "/properties/diskSizeGB");
    r.append(size.as_str());
    r.append(" ГБ  ");
    r.append(text(snapshot, "/properties/hyperVGeneration"));
    r.append("  ");
    r.append(text(snapshot, "/properties/securityProfile/securityType"));
    r.append("  ");
    r.append(text(snapshot, "/properties/osType"));
    r.append("  source=");
    r.append(last(text(snapshot, "/properties/creationData/sourceResourceId")));
    r.append("  incremental=");
    let incremental = shown(snapshot, "/properties/incremental");
    r.append(incremental.as_str());
    r
}

/// The snapshots in report order, those whose name is `name` where one is given.
pub fn table(snapshots: &Vec<Json>, name: Option<&str>) -> (r: String)
    ensures
        r@ == table_of(snapshots@, name_view(name)),
{
    let items = chosen(snapshots, name);
    let ghost f = |s: Json| line_of(s);
    let mut lines: Vec<String> = Vec::new();
    let n = items.len();
    for i in 0..n
        invariant
            n == items@.len(),
            f == (|s: Json| line_of(s)),
            views(lines@) == derefs(items@).take(i as int).map_values(f),
    {
        let ghost before = lines@;
        lines.push(line(items[i]));
        proof {
            assert(views(lines@) == views(before).push(f(*items@[i as int])));
            assert(derefs(items@).take(i as int + 1) == derefs(items@).take(i as int).push(*items@[i as int]));
            lemma_map_push(derefs(items@).take(i as int), *items@[i as int], f);
        }
    }
    assert(derefs(items@).take(n as int) == derefs(items@));
    report_of(&lines, "Снепшотів не знайдено.")
}

} // verus!
