//! Managed disks: SKU, size, state and the VM each belongs to; unattached disks are marked.
use vstd::prelude::*;
use crate::json::Json;
use crate::text::{ends_with, lemma_map_push, lowercase, to_lower, views};
use crate::tools::{
    by_group, chosen, derefs, last, last_of, name_view, named, part, part_of, report, report_of, shown,
    shown_at, text, text_at,
};

verus! {

/// The line of a disk.
pub open spec fn line_of(disk: Json) -> Seq<char> {
    let state = text_at(disk, "/properties/diskState"@);
    text_at(disk, "/name"@) + "  "@ + lowercase(part_of(text_at(disk, "/id"@), "resourceGroups"@)) + "  "@
        + text_at(disk, "/sku/name"@) + "  "@ + shown_at(disk, "/properties/diskSizeGB"@) + " ГБ  "@
        + text_at(disk, "/properties/hyperVGeneration"@) + "  "@ + text_at(
        disk,
        "/properties/securityProfile/securityType"@,
    ) + "  "@ + state + "  vm="@ + last_of(text_at(disk, "/managedBy"@)) + (if state == "Unattached"@ {
        "  (не прив'язаний)"@
    } else {
        ""@
    })
}

/// A disk's line ends with `  (не прив'язаний)` when its state is `Unattached`; with any other
/// state it ends with the VM it belongs to, `  vm=<name>`, and nothing after it.
pub proof fn lemma_unattached_marked(disk: Json)
    ensures
        text_at(disk, "/properties/diskState"@) == "Unattached"@ ==> ends_with(line_of(disk), "  (не прив'язаний)"@),
        text_at(disk, "/properties/diskState"@) != "Unattached"@ ==> ends_with(
            line_of(disk),
            "  vm="@ + last_of(text_at(disk, "/managedBy"@)),
        ),
{
    reveal_strlit("");
    let state = text_at(disk, "/properties/diskState"@);
    let tail = "  vm="@ + last_of(text_at(disk, "/managedBy"@));
    let mark = "  (не прив'язаний)"@;
    let body = text_at(disk, "/name"@) + "  "@ + lowercase(part_of(text_at(disk, "/id"@), "resourceGroups"@)) + "  "@
        + text_at(disk, "/sku/name"@) + "  "@ + shown_at(disk, "/properties/diskSizeGB"@) + " ГБ  "@
        + text_at(disk, "/properties/hyperVGeneration"@) + "  "@ + text_at(
        disk,
        "/properties/securityProfile/securityType"@,
    ) + "  "@ + state;
    assert(line_of(disk) =~= body + tail + (if state == "Unattached"@ {
        mark
    } else {
        ""@
    }));
    if state == "Unattached"@ {
        let line = body + tail + mark;
        assert(line.subrange(line.len() - mark.len(), line.len() as int) =~= mark);
    } else {
        let line = body + tail + ""@;
        assert(line =~= body + tail);
        assert((body + tail).subrange((body + tail).len() - tail.len(), (body + tail).len() as int) =~= tail);
    }
}

/// The report on the disks that pass the name filter.
pub open spec fn table_of(disks: Seq<Json>, name: Option<Seq<char>>) -> Seq<char> {
    report(
        by_group(disks).filter(|x: Json| named(name, x)).map_values(|d: Json| line_of(d)),
        "Дисків не знайдено."@,
    )
}

/// The line of a disk: name, group, SKU, size, generation, security type, state and VM.
pub fn line(disk: &Json) -> (r: String)
    ensures
        r@ == line_of(*disk),
{
    let state = text(disk, "/properties/diskState");
    let mut r = String::from_str(text(disk, "/name"));
    r.append("  ");
    let group = to_lower(part(text(disk, "/id"), "resourceGroups"));
    r.append(group.as_str());
    r.append("  ");
    r.append(text(disk, "/sku/name"));
    r.append("  ");
    let size = shown(disk, "/properties/diskSizeGB");
    r.append(size.as_str());
    r.append(" ГБ  ");
    r.append(text(disk, "/properties/hyperVGeneration"));
    r.append("  ");
    r.append(text(disk, "/properties/securityProfile/securityType"));
    r.append("  ");
    r.append(state);
    r.append("  vm=");
    r.append(last(text(disk, "/managedBy")));
    if String::from_str(state) == String::from_str("Unattached") {
        r.append("  (не прив'язаний)");
    } else {
        r.append("");
    }
    r
}

/// The disks in report order, those whose name is `name` where one is given.
pub fn table(disks: &Vec<Json>, name: Option<&str>) -> (r: String)
    ensures
        r@ == table_of(disks@, name_view(name)),
{
    let items = chosen(disks, name);
    let ghost f = |d: Json| line_of(d);
    let mut lines: Vec<String> = Vec::new();
    let n = items.len();
    for i in 0..n
        invariant
            n == items@.len(),
            f == (|d: Json| line_of(d)),
            views(lines@) == derefs(items@).take(i as int).map_values(f),
    {
        let ghost before = lines@;
        lines.push(line(items[i]));
        proof {
            assert(views(lines@) == views(before).push(f(*items@[i as int])));
            assert(derefs(items@).take(i as int + 1) == derefs(items@).take(i as int).push(*items@[i as int]));
            lemma_map_push(derefs(items@).take(i as int), *items@[i as int], f);
        }
    }
    assert(derefs(items@).take(n as int) == derefs(items@));
    report_of(&lines, "Дисків не знайдено.")
}

/// The listing of the managed disks of a scope.
pub fn path(scope: &str) -> (r: String)
    ensures
        r@ == scope@ + "/providers/Microsoft.Compute/disks?api-version=2023-04-02"@,
{
    let mut r = String::from_str(scope);
    r.append("/providers/Microsoft.Compute/disks?api-version=2023-04-02");
    r
}

} // verus!
