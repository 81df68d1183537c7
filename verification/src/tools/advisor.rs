//! Advisor recommendations: group, impact, category, resource, yearly savings and the problem.
use vstd::prelude::*;
use crate::json::Json;
use crate::text::{lemma_filter_step, lemma_map_push, same_text, views};
use crate::tools::{
    by_group, derefs, last, last_of, name_view, part, part_of, report, report_of, same, sorted, text, text_at,
};

verus! {

/// The resource a recommendation is about: `підписка` for the subscription itself, else the last
/// segment of its id.
pub open spec fn resource_of(id: Seq<char>) -> Seq<char> {
    if part_of(id, "resourceGroups"@) == "-"@ {
        "підписка"@
    } else {
        last_of(id)
    }
}

/// The yearly savings of a recommendation, `<amount> <currency>/рік`, or `-`.
pub open spec fn economy_of(item: Json) -> Seq<char> {
    let amount = text_at(item, "/properties/extendedProperties/annualSavingsAmount"@);
    if amount == "-"@ {
        "-"@
    } else {
        amount + " "@ + text_at(item, "/properties/extendedProperties/savingsCurrency"@) + "/рік"@
    }
}

/// The id of the resource a recommendation is about.
pub open spec fn target(item: Json) -> Seq<char> {
    text_at(item, "/properties/resourceMetadata/resourceId"@)
}

/// The line of a recommendation.
pub open spec fn line_of(item: Json) -> Seq<char> {
    let id = target(item);
    part_of(id, "resourceGroups"@) + "  "@ + text_at(item, "/properties/impact"@) + "  "@ + text_at(
        item,
        "/properties/category"@,
    ) + "  "@ + resource_of(id) + "  "@ + economy_of(item) + "  "@ + text_at(
        item,
        "/properties/shortDescription/problem"@,
    )
}

/// A recommendation passes the filters: its category, and the group of its resource, are those
/// asked for (ASCII case ignored), where they are asked for.
pub open spec fn passes(category: Option<Seq<char>>, group: Option<Seq<char>>, item: Json) -> bool {
    &&& match category {
        Some(c) => same_text(text_at(item, "/properties/category"@), c),
        None => true,
    }
    &&& match group {
        Some(g) => same_text(part_of(target(item), "resourceGroups"@), g),
        None => true,
    }
}

/// The report on the recommendations that pass the filters, in report order.
pub open spec fn table_of(items: Seq<Json>, category: Option<Seq<char>>, group: Option<Seq<char>>) -> Seq<char> {
    report(
        by_group(items).filter(|x: Json| passes(category, group, x)).map_values(|x: Json| line_of(x)),
        "Рекомендацій не знайдено."@,
    )
}

/// The resource a recommendation is about: `підписка` where its id names no resource group, else
/// the last segment of the id.
pub fn resource(id: &str) -> (r: String)
    ensures
        r@ == resource_of(id@),
{
    if String::from_str(part(id, "resourceGroups")) == String::from_str("-") {
        String::from_str("підписка")
    } else {
        String::from_str(last(id))
    }
}

/// The yearly savings of a recommendation, `<amount> <currency>/рік`, or `-` where it names none.
pub fn economy(item: &Json) -> (r: String)
    ensures
        r@ == economy_of(*item),
{
    let amount = text(item, "/properties/extendedProperties/annualSavingsAmount");
    if String::from_str(amount) == String::from_str("-") {
        String::from_str("-")
    } else {
        let mut r = String::from_str(amount);
        r.append(" ");
        r.append(text(item, "/properties/extendedProperties/savingsCurrency"));
        r.append("/рік");
        r
    }
}

/// The line of a recommendation: group, impact, category, resource, savings and the problem.
pub fn line(item: &Json) -> (r: String)
    ensures
        r@ == line_of(*item),
{
    let id = text(item, "/properties/resourceMetadata/resourceId");
    let mut r = String::from_str(part(id, "resourceGroups"));
    r.append("  ");
    r.append(text(item, "/properties/impact"));
    r.append("  ");
    r.append(text(item, "/properties/category"));
    r.append("  ");
    let res = resource(id);
    r.append(res.as_str());
    r.append("  ");
    let saved = economy(item);
    r.append(saved.as_str());
    r.append("  ");
    r.append(text(item, "/properties/shortDescription/problem"));
    r
}

/// Whether a recommendation passes the category and group filters.
pub fn wanted(category: Option<&str>, group: Option<&str>, item: &Json) -> (r: bool)
    ensures
        r == passes(name_view(category), name_view(group), *item),
{
    let by_category = match category {
        Some(c) => same(text(item, "/properties/category"), c),
        None => true,
    };
    let by_group = match group {
        Some(g) => same(part(text(item, "/properties/resourceMetadata/resourceId"), "resourceGroups"), g),
        None => true,
    };
    by_category && by_group
}

/// The recommendations in report order that pass the filters, one line each.
pub fn table(items: &Vec<Json>, category: Option<&str>, group: Option<&str>) -> (r: String)
    ensures
        r@ == table_of(items@, name_view(category), name_view(group)),
{
    let all = sorted(items);
    let ghost whole = derefs(all@);
    let ghost pred = |x: Json| passes(name_view(category), name_view(group), x);
    let ghost f = |x: Json| line_of(x);
    let mut lines: Vec<String> = Vec::new();
    let n = all.len();
    for i in 0..n
        invariant
            n == all@.len(),
            whole == derefs(all@),
            whole == by_group(items@),
            pred == (|x: Json| passes(name_view(category), name_view(group), x)),
            f == (|x: Json| line_of(x)),
            views(lines@) == whole.take(i as int).filter(pred).map_values(f),
    {
        proof {
            lemma_filter_step(whole, i as int, pred);
        }
        let item = all[i];
        assert(whole[i as int] == *item);
        if wanted(category, group, item) {
            let ghost before = lines@;
            lines.push(line(item));
            proof {
                lemma_map_push(whole.take(i as int).filter(pred), *item, f);
                assert(views(lines@) == views(before).push(f(*item)));
            }
        }
    }
    assert(whole.take(n as int) == whole);
    report_of(&lines, "Рекомендацій не знайдено.")
}

} // verus!
