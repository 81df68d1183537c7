//! Actual costs from Cost Management: what is asked for, and how resources and days are labelled.
use vstd::prelude::*;
use crate::json::{bool_of, field, field_of, is_digit, member, member_of, pointer, pointer_in, render, push_render, str_of, Json};
use crate::order::{lemma_lex_irreflexive, lemma_lex_transitive, lex_lt, text_less};
use crate::text::{chars, decimal, decimal_of, join, pieces, slice_of, split, split_once, string_of, views};
use crate::tools::{member_text, part, part_of};
use crate::tools::pubips::cut;

verus! {

/// A date as `YYYY-MM-DD`: ten chars, dashes at the fifth and eighth, digits elsewhere.
pub open spec fn is_date(s: Seq<char>) -> bool {
    &&& s.len() == 10
    &&& forall|i: int|
        0 <= i < 10 ==> if i == 4 || i == 7 {
            #[trigger] s[i] == '-'
        } else {
            is_digit(s[i])
        }
}

/// The periods Cost Management knows by name.
pub open spec fn is_period(p: Seq<char>) -> bool {
    p == "MonthToDate"@ || p == "BillingMonthToDate"@ || p == "TheLastMonth"@ || p == "TheLastBillingMonth"@
        || p == "WeekToDate"@
}

/// The dimensions costs can be split by.
pub open spec fn is_split(s: Seq<char>) -> bool {
    s == "ResourceGroupName"@ || s == "ResourceId"@ || s == "ResourceType"@ || s == "MeterCategory"@
        || s == "ServiceName"@
}

/// The names of an object's members, in order.
pub open spec fn keys_of(v: Json) -> Seq<Seq<char>> {
    match v {
        Json::Object(m) => m@.map_values(|p: (String, Json)| p.0@),
        _ => Seq::empty(),
    }
}

/// The string member `key` of `v` is `s`.
pub open spec fn has_text(v: Json, key: Seq<char>, s: Seq<char>) -> bool {
    str_of(member(v, key)) == Some(s)
}

/// The member `key` of an object, which must be there.
pub open spec fn at(v: Json, key: Seq<char>) -> Json {
    member(v, key).unwrap()
}

/// The body of a Cost Management query for actual costs: the period by name, or `Custom` with
/// the days from the start of `from` to the end of `to`; daily or in total; split by one
/// dimension; summed. Members are in the order of their names.
pub open spec fn is_request(
    body: Json,
    period: Seq<char>,
    span: Option<(Seq<char>, Seq<char>)>,
    split: Seq<char>,
    daily: bool,
) -> bool {
    let dataset = at(body, "dataset"@);
    let aggregation = at(dataset, "aggregation"@);
    let total = at(aggregation, "totalCost"@);
    let grouping = at(dataset, "grouping"@);
    &&& keys_of(body) == match span {
        Some(_) => seq!["dataset"@, "timePeriod"@, "timeframe"@, "type"@],
        None => seq!["dataset"@, "timeframe"@, "type"@],
    }
    &&& has_text(body, "type"@, "ActualCost"@)
    &&& has_text(body, "timeframe"@, if span is Some { "Custom"@ } else { period })
    &&& keys_of(dataset) == seq!["aggregation"@, "granularity"@, "grouping"@]
    &&& has_text(dataset, "granularity"@, if daily { "Daily"@ } else { "None"@ })
    &&& keys_of(aggregation) == seq!["totalCost"@]
    &&& keys_of(total) == seq!["function"@, "name"@]
    &&& has_text(total, "function"@, "Sum"@)
    &&& has_text(total, "name"@, "Cost"@)
    &&& grouping matches Json::Array(g) && g@.len() == 1 && keys_of(g@[0]) == seq!["name"@, "type"@]
        && has_text(g@[0], "name"@, split) && has_text(g@[0], "type"@, "Dimension"@)
    &&& match span {
        Some((from, to)) => {
            let time = at(body, "timePeriod"@);
            &&& keys_of(time) == seq!["from"@, "to"@]
            &&& has_text(time, "from"@, from + "T00:00:00+00:00"@)
            &&& has_text(time, "to"@, to + "T23:59:59+00:00"@)
        },
        None => true,
    }
}

/// A Cost Management resource id shown as `group  kind/subkind  name`; the id itself where it has
/// no provider part or too few segments.
pub open spec fn short_of(id: Seq<char>) -> Seq<char> {
    match split_once(id, "/providers/"@) {
        Some((head, rest)) => {
            let items = split(rest, '/');
            if items.len() < 3 {
                id
            } else {
                let kinds = Seq::new(items.len() / 2, |k: int| items[2 * k + 1]);
                part_of(head, "resourcegroups"@) + "  "@ + join(kinds, "/"@) + "  "@ + items.last()
            }
        },
        None => id,
    }
}

/// The label of a row: a shortened resource id when split by `ResourceId`, else the name.
pub open spec fn label_of(name: Seq<char>, split: Seq<char>) -> Seq<char> {
    if split == "ResourceId"@ {
        short_of(name)
    } else {
        name
    }
}

/// The note that an answer came from the cache, and how old it is.
pub open spec fn cached_of(age: Option<u64>) -> Seq<char> {
    match age {
        Some(m) => "\nЗ кешу, "@ + decimal(m as nat) + " хв тому (refresh=true — запитати наново)."@,
        None => ""@,
    }
}

/// Without the quote chars at the front.
pub open spec fn trim_front(s: Seq<char>) -> Seq<char>
    decreases s.len(),
{
    if s.len() > 0 && s[0] == '"' {
        trim_front(s.drop_first())
    } else {
        s
    }
}

/// Without the quote chars at the back.
pub open spec fn trim_back(s: Seq<char>) -> Seq<char>
    decreases s.len(),
{
    if s.len() > 0 && s.last() == '"' {
        trim_back(s.drop_last())
    } else {
        s
    }
}

/// A usage date as `YYYY-MM-DD`: eight digits get dashes, other text is cut to ten chars.
pub open spec fn stamp_of(value: Json) -> Seq<char> {
    let text = trim_back(trim_front(render(value)));
    if text.len() == 8 && (forall|i: int| 0 <= i < 8 ==> #[trigger] is_digit(text[i])) {
        text.take(4) + "-"@ + text.subrange(4, 6) + "-"@ + text.skip(6)
    } else if text.len() <= 10 {
        text
    } else {
        text.take(10)
    }
}

/// What a costs call asks for.
pub struct Ask<'a> {
    pub period: &'a str,
    pub span: Option<(&'a str, &'a str)>,
    pub split: &'a str,
    pub daily: bool,
}

/// A text argument, or its default.
pub open spec fn text_or(arguments: Json, key: Seq<char>, default: Seq<char>) -> Seq<char> {
    match str_of(member(arguments, key)) {
        Some(s) => s,
        None => default,
    }
}

/// The answer to wrong `from`/`to` arguments.
pub open spec fn span_error() -> Seq<char> {
    "Вкажіть from і to разом, у форматі РРРР-ММ-ДД (напр. 2026-09-01)."@
}

/// The answer to an unknown period.
pub open spec fn period_error(period: Seq<char>) -> Seq<char> {
    "Невідомий period: "@ + period
        + ". Допустимо: MonthToDate, BillingMonthToDate, TheLastMonth, TheLastBillingMonth, WeekToDate."@
}

/// The answer to an unknown split.
pub open spec fn split_error(split: Seq<char>) -> Seq<char> {
    "Невідоме by: "@ + split + ". Допустимо: ResourceGroupName, ResourceId, ResourceType, MeterCategory, ServiceName."@
}

/// Whether a text is a date `YYYY-MM-DD`.
pub fn date_ok(text: &str) -> (r: bool)
    ensures
        r == is_date(text@),
{
    let v = chars(text);
    if v.len() != 10 {
        return false;
    }
    let mut i: usize = 0;
    while i < 10
        invariant
            v@ == text@,
            v@.len() == 10,
            i <= 10,
            forall|j: int|
                0 <= j < i ==> if j == 4 || j == 7 {
                    #[trigger] v@[j] == '-'
                } else {
                    is_digit(v@[j])
                },
        decreases 10 - i,
    {
        let c = v[i];
        let good = if i == 4 || i == 7 {
            c == '-'
        } else {
            '0' <= c && c <= '9'
        };
        if !good {
            assert(!(if i == 4 || i == 7 {
                v@[i as int] == '-'
            } else {
                is_digit(v@[i as int])
            }));
            return false;
        }
        i = i + 1;
    }
    true
}

/// An object of string members, with the given names and texts.
fn texts(pairs: Vec<(&str, String)>) -> (r: Json)
    ensures
        r matches Json::Object(m) && m@.len() == pairs@.len() && forall|k: int|
            0 <= k < pairs@.len() ==> #[trigger] m@[k].0@ == pairs@[k].0@ && m@[k].1 == Json::Str(pairs@[k].1),
{
    let mut m: Vec<(String, Json)> = Vec::new();
    let n = pairs.len();
    let mut k: usize = 0;
    while k < n
        invariant
            n == pairs@.len(),
            k <= n,
            m@.len() == k,
            forall|j: int| 0 <= j < k ==> #[trigger] m@[j].0@ == pairs@[j].0@,
            forall|j: int| 0 <= j < k ==> #[trigger] m@[j].1 == Json::Str(pairs@[j].1),
        decreases n - k,
    {
        let (name, value) = (pairs[k].0, pairs[k].1.clone());
        m.push((String::from_str(name), Json::Str(value)));
        k = k + 1;
    }
    Json::Object(m)
}

/// The value of the first member of `m` named `key`, where the first `k` names differ from it.
proof fn lemma_lookup_skip(m: Seq<(String, Json)>, key: Seq<char>, k: int)
    requires
        0 <= k < m.len(),
        m[k].0@ == key,
        forall|j: int| 0 <= j < k ==> #[trigger] m[j].0@ != key,
    ensures
        crate::json::lookup(m, key) == Some(m[k].1),
    decreases k,
{
    if k > 0 {
        assert(m.drop_first()[k - 1] == m[k]);
        assert forall|j: int| 0 <= j < k - 1 implies #[trigger] m.drop_first()[j].0@ != key by {
            assert(m.drop_first()[j] == m[j + 1]);
        }
        lemma_lookup_skip(m.drop_first(), key, k - 1);
    }
}

/// The body of a Cost Management query for actual costs of `period` (or `Custom` with `span`),
/// daily or in total, split by `split`.
pub fn request(period: &str, span: Option<(&str, &str)>, split: &str, daily: bool) -> (r: Json)
    ensures
        is_request(r, period@, match span {
            Some((f, t)) => Some((f@, t@)),
            None => None,
        }, split@, daily),
{
    let total = texts(vec![("function", String::from_str("Sum")), ("name", String::from_str("Cost"))]);
    let ghost total_v = total;
    let mut aggregation_members: Vec<(String, Json)> = Vec::new();
    aggregation_members.push((String::from_str("totalCost"), total));
    let ghost aggregation_m = aggregation_members@;
    let aggregation = Json::Object(aggregation_members);
    let ghost aggregation_v = aggregation;
    let group = texts(vec![("name", String::from_str(split)), ("type", String::from_str("Dimension"))]);
    let ghost group_v = group;
    let mut grouping_items: Vec<Json> = Vec::new();
    grouping_items.push(group);
    let granularity = if daily {
        String::from_str("Daily")
    } else {
        String::from_str("None")
    };
    let mut dataset_members: Vec<(String, Json)> = Vec::new();
    dataset_members.push((String::from_str("aggregation"), aggregation));
    dataset_members.push((String::from_str("granularity"), Json::Str(granularity)));
    dataset_members.push((String::from_str("grouping"), Json::Array(grouping_items)));
    let ghost dataset_m = dataset_members@;
    let dataset = Json::Object(dataset_members);
    let ghost dataset_v = dataset;
    let ghost mut time_v = Json::Null;
    let mut body: Vec<(String, Json)> = Vec::new();
    body.push((String::from_str("dataset"), dataset));
    match span {
        Some((from, to)) => {
            let mut start = String::from_str(from);
            start.append("T00:00:00+00:00");
            let mut end = String::from_str(to);
            end.append("T23:59:59+00:00");
            let time = texts(vec![("from", start), ("to", end)]);
            proof {
                time_v = time;
            }
            body.push((String::from_str("timePeriod"), time));
            body.push((String::from_str("timeframe"), Json::Str(String::from_str("Custom"))));
        },
        None => {
            body.push((String::from_str("timeframe"), Json::Str(String::from_str(period))));
        },
    }
    body.push((String::from_str("type"), Json::Str(String::from_str("ActualCost"))));
    let r = Json::Object(body);
    proof {
        reveal_strlit("dataset");
        reveal_strlit("timePeriod");
        reveal_strlit("timeframe");
        reveal_strlit("type");
        reveal_strlit("aggregation");
        reveal_strlit("granularity");
        reveal_strlit("grouping");
        reveal_strlit("totalCost");
        reveal_strlit("function");
        reveal_strlit("name");
        reveal_strlit("from");
        reveal_strlit("to");
        let b = body@;
        assert(keys_of(r) =~= b.map_values(|p: (String, Json)| p.0@));
        lemma_lookup_skip(b, "dataset"@, 0);
        let d = dataset_m;
        assert(d[0].0@[0] != "granularity"@[0]);
        assert(d[0].0@ != "granularity"@);
        assert(d[0].0@.len() != "grouping"@.len());
        assert(d[1].0@.len() != "grouping"@.len());
        assert(at(r, "dataset"@) == dataset_v);
        lemma_lookup_skip(d, "aggregation"@, 0);
        lemma_lookup_skip(d, "granularity"@, 1);
        lemma_lookup_skip(d, "grouping"@, 2);
        assert(keys_of(dataset_v) =~= seq!["aggregation"@, "granularity"@, "grouping"@]);
        lemma_lookup_skip(aggregation_m, "totalCost"@, 0);
        assert(keys_of(aggregation_v) =~= seq!["totalCost"@]);
        if let Json::Object(tm) = total_v {
            assert(tm@[0].0@.len() != "name"@.len());
            lemma_lookup_skip(tm@, "function"@, 0);
            lemma_lookup_skip(tm@, "name"@, 1);
            assert(keys_of(total_v) =~= seq!["function"@, "name"@]);
        }
        if let Json::Object(gm) = group_v {
            assert(gm@[0].0@[0] != "type"@[0]);
            lemma_lookup_skip(gm@, "name"@, 0);
            lemma_lookup_skip(gm@, "type"@, 1);
            assert(keys_of(group_v) =~= seq!["name"@, "type"@]);
        }
        match span {
            Some((f, t)) => {
                assert(b[0].0@.len() != "timePeriod"@.len());
                assert(b[0].0@.len() != "timeframe"@.len());
                assert(b[1].0@.len() != "timeframe"@.len());
                lemma_lookup_skip(b, "timePeriod"@, 1);
                lemma_lookup_skip(b, "timeframe"@, 2);
                assert(b[0].0@.len() != "type"@.len());
                assert(b[1].0@.len() != "type"@.len());
                assert(b[2].0@.len() != "type"@.len());
                lemma_lookup_skip(b, "type"@, 3);
                assert(keys_of(r) =~= seq!["dataset"@, "timePeriod"@, "timeframe"@, "type"@]);
                assert(at(r, "timePeriod"@) == time_v);
                if let Json::Object(pm) = time_v {
                    lemma_lookup_skip(pm@, "from"@, 0);
                    assert(pm@[0].0@.len() != "to"@.len());
                    lemma_lookup_skip(pm@, "to"@, 1);
                    assert(keys_of(time_v) =~= seq!["from"@, "to"@]);
                }
            },
            None => {
                assert(b[0].0@.len() != "timeframe"@.len());
                assert(b[0].0@.len() != "type"@.len());
                assert(b[1].0@.len() != "type"@.len());
                lemma_lookup_skip(b, "timeframe"@, 1);
                lemma_lookup_skip(b, "type"@, 2);
                assert(keys_of(r) =~= seq!["dataset"@, "timeframe"@, "type"@]);
            },
        }
    }
    r
}


/// A Cost Management resource id shown as `group  kind/subkind  name`, such as
/// `trial  disks  d1`; the id itself where it has no provider part or too few segments.
pub fn short(id: &str) -> (r: String)
    ensures
        r@ == short_of(id@),
{
    match cut(id, "/providers/") {
        Some((head, rest)) => {
            let g = pieces(&rest, '/');
            let n = g.len();
            let ghost items = split(rest@, '/');
            if n < 3 {
                return String::from_str(id);
            }
            let head_text = string_of(head.as_slice());
            let mut r = String::from_str(part(head_text.as_str(), "resourcegroups"));
            r.append("  ");
            let ghost start = r@;
            let ghost kinds = Seq::new(items.len() / 2, |k: int| items[2 * k + 1]);
            let count = n / 2;
            assert(forall|k: int| 0 <= k < g@.len() ==> #[trigger] g@[k].0 <= g@[k].1 <= rest@.len());
            let mut j: usize = 0;
            while j < count
                invariant
                    n == g@.len(),
                    n == items.len(),
                    n >= 3,
                    count == n / 2,
                    j <= count,
                    items == split(rest@, '/'),
                    kinds == Seq::new(items.len() / 2, |k: int| items[2 * k + 1]),
                    forall|k: int| 0 <= k < g@.len() ==> #[trigger] g@[k].0 <= g@[k].1 <= rest@.len(),
                    forall|k: int|
                        0 <= k < g@.len() ==> rest@.subrange(g@[k].0 as int, g@[k].1 as int) == #[trigger] split(
                            rest@,
                            '/',
                        )[k],
                    r@ == start + join(kinds.take(j as int), "/"@),
                decreases count - j,
            {
                let k = 2 * j + 1;
                let (a, b) = g[k];
                assert(g@[k as int].0 <= g@[k as int].1 <= rest@.len());
                let piece = slice_of(&rest, a, b);
                let text = string_of(piece.as_slice());
                assert(text@ == kinds[j as int]);
                proof {
                    crate::text::lemma_join_push(kinds.take(j as int), kinds[j as int], "/"@);
                    assert(kinds.take(j as int + 1) == kinds.take(j as int).push(kinds[j as int]));
                }
                if j > 0 {
                    r.append("/");
                }
                r.append(text.as_str());
                j = j + 1;
            }
            assert(kinds.take(count as int) == kinds);
            r.append("  ");
            let (a, b) = g[n - 1];
            assert(g@[n - 1].0 <= g@[n - 1].1 <= rest@.len());
            let piece = slice_of(&rest, a, b);
            let text = string_of(piece.as_slice());
            r.append(text.as_str());
            r
        },
        None => String::from_str(id),
    }
}

/// The label of a row: a shortened resource id when split by `ResourceId`, else the name.
pub fn label(name: &str, split: &str) -> (r: String)
    ensures
        r@ == label_of(name@, split@),
{
    if String::from_str(split) == String::from_str("ResourceId") {
        short(name)
    } else {
        String::from_str(name)
    }
}

/// The note that an answer came from the cache, `minutes` old; nothing for a fresh answer.
pub fn cached(age: Option<u64>) -> (r: String)
    ensures
        r@ == cached_of(age),
{
    match age {
        Some(minutes) => {
            let mut r = String::from_str("\nЗ кешу, ");
            let m = decimal_of(minutes);
            r.append(m.as_str());
            r.append(" хв тому (refresh=true — запитати наново).");
            r
        },
        None => String::from_str(""),
    }
}

/// A usage date as `YYYY-MM-DD`: `20260901` gives `2026-09-01`; a longer text such as
/// `2026-09-01T00:00:00` is cut to its first ten chars.
pub fn stamp(value: &Json) -> (r: String)
    ensures
        r@ == stamp_of(*value),
{
    let mut raw = String::new();
    push_render(&mut raw, value);
    let v = chars(raw.as_str());
    let n = v.len();
    let mut i: usize = 0;
    assert(v@.skip(0) == v@);
    while i < n && v[i] == '"'
        invariant
            v@ == render(*value),
            n == v@.len(),
            i <= n,
            trim_front(v@) == trim_front(v@.skip(i as int)),
        decreases n - i,
    {
        assert(v@.skip(i as int).drop_first() == v@.skip(i as int + 1));
        i = i + 1;
    }
    assert(trim_front(v@) == v@.skip(i as int));
    let mut j: usize = n;
    assert(v@.subrange(i as int, j as int) == v@.skip(i as int));
    while j > i && v[j - 1] == '"'
        invariant
            i <= j <= n,
            n == v@.len(),
            trim_back(v@.skip(i as int)) == trim_back(v@.subrange(i as int, j as int)),
        decreases j,
    {
        assert(v@.subrange(i as int, j as int).drop_last() == v@.subrange(i as int, j - 1));
        j = j - 1;
    }
    let t = slice_of(&v, i, j);
    assert(t@ == trim_back(trim_front(render(*value))));
    let m = t.len();
    let mut digits = m == 8;
    let mut k: usize = 0;
    while digits && k < m
        invariant
            m == t@.len(),
            k <= m,
            digits ==> m == 8,
            digits ==> forall|q: int| 0 <= q < k ==> #[trigger] is_digit(t@[q]),
            !digits ==> !(m == 8 && forall|q: int| 0 <= q < 8 ==> #[trigger] is_digit(t@[q])),
        decreases m - k,
    {
        if !('0' <= t[k] && t[k] <= '9') {
            assert(!is_digit(t@[k as int]));
            digits = false;
        }
        k = k + 1;
    }
    if digits {
        let mut r = string_of(slice_of(&t, 0, 4).as_slice());
        r.append("-");
        let mid = string_of(slice_of(&t, 4, 6).as_slice());
        r.append(mid.as_str());
        r.append("-");
        let tail = string_of(slice_of(&t, 6, 8).as_slice());
        r.append(tail.as_str());
        assert(t@.subrange(0, 4) == t@.take(4));
        assert(t@.subrange(6, 8) == t@.skip(6));
        r
    } else if m <= 10 {
        string_of(t.as_slice())
    } else {
        assert(t@.subrange(0, 10) == t@.take(10));
        string_of(slice_of(&t, 0, 10).as_slice())
    }
}

/// The columns of a query answer.
pub open spec fn columns_of(body: Json) -> Option<Seq<Json>> {
    crate::json::items_of(pointer(body, "/properties/columns"@))
}

/// `k` is the first column named `name`.
pub open spec fn first_column(columns: Seq<Json>, name: Seq<char>, k: int) -> bool {
    &&& 0 <= k < columns.len()
    &&& str_of(member(columns[k], "name"@)) == Some(name)
    &&& forall|j: int| 0 <= j < k ==> str_of(member(#[trigger] columns[j], "name"@)) != Some(name)
}

/// Whether a query answer has a column named `name`.
pub fn has_column(body: &Json, name: &str) -> (r: bool)
    ensures
        r == (columns_of(*body) is Some && exists|k: int|
            0 <= k < columns_of(*body).unwrap().len() && str_of(
                member(#[trigger] columns_of(*body).unwrap()[k], "name"@),
            ) == Some(name@)),
{
    let columns = match pointer_in(body, "/properties/columns") {
        Some(Json::Array(a)) => a,
        _ => return false,
    };
    let want = String::from_str(name);
    let n = columns.len();
    for k in 0..n
        invariant
            n == columns@.len(),
            columns_of(*body) == Some(columns@),
            want@ == name@,
            forall|j: int| 0 <= j < k ==> str_of(member(#[trigger] columns@[j], "name"@)) != Some(name@),
    {
        let found = match member_of(&columns[k], "name") {
            Some(Json::Str(s)) => *s == want,
            _ => false,
        };
        if found {
            assert(str_of(member(columns_of(*body).unwrap()[k as int], "name"@)) == Some(name@));
            return true;
        }
    }
    false
}

/// The position of the first column named `name` in a query answer, which must have one.
pub fn column(body: &Json, name: &str) -> (r: usize)
    requires
        columns_of(*body) is Some,
        exists|k: int| 0 <= k < columns_of(*body).unwrap().len() && str_of(
            member(#[trigger] columns_of(*body).unwrap()[k], "name"@),
        ) == Some(name@),
    ensures
        first_column(columns_of(*body).unwrap(), name@, r as int),
{
    let columns: &Vec<Json> = match pointer_in(body, "/properties/columns") {
        Some(Json::Array(a)) => a,
        _ => {
            assert(false);
            return 0;
        },
    };
    let want = String::from_str(name);
    let n = columns.len();
    let mut k: usize = 0;
    while k < n
        invariant
            n == columns@.len(),
            columns@ == columns_of(*body).unwrap(),
            want@ == name@,
            k <= n,
            forall|j: int| 0 <= j < k ==> str_of(member(#[trigger] columns@[j], "name"@)) != Some(name@),
            exists|q: int| 0 <= q < columns@.len() && str_of(member(#[trigger] columns@[q], "name"@)) == Some(name@),
        decreases n - k,
    {
        let found = match member_of(&columns[k], "name") {
            Some(Json::Str(s)) => *s == want,
            _ => false,
        };
        if found {
            return k;
        }
        k = k + 1;
    }
    assert(false);
    0
}

/// What a costs call asks for, from its arguments: the period (`MonthToDate` by default) or the
/// days `from`..`to`, the split (`ResourceGroupName` by default), and whether daily.
pub fn ask(arguments: &Json) -> (r: Result<Ask<'_>, String>)
    ensures
        ({
            let period = text_or(*arguments, "period"@, "MonthToDate"@);
            let split = text_or(*arguments, "by"@, "ResourceGroupName"@);
            let from = str_of(member(*arguments, "from"@));
            let to = str_of(member(*arguments, "to"@));
            let span_good = (from is None && to is None) || (from is Some && to is Some && is_date(
                from.unwrap(),
            ) && is_date(to.unwrap()));
            match r {
                Ok(a) => {
                    &&& span_good && is_period(period) && is_split(split)
                    &&& a.period@ == period
                    &&& a.split@ == split
                    &&& a.daily == match bool_of(member(*arguments, "daily"@)) {
                        Some(b) => b,
                        None => false,
                    }
                    &&& match a.span {
                        Some((f, t)) => from == Some(f@) && to == Some(t@),
                        None => from is None && to is None,
                    }
                },
                Err(e) => if !span_good {
                    e@ == span_error()
                } else if !is_period(period) {
                    e@ == period_error(period)
                } else {
                    !is_split(split) && e@ == split_error(split)
                },
            }
        }),
{
    let period = match member_text(arguments, "period") {
        Some(p) => p,
        None => "MonthToDate",
    };
    let split = match member_text(arguments, "by") {
        Some(s) => s,
        None => "ResourceGroupName",
    };
    let daily = match member_of(arguments, "daily") {
        Some(Json::Bool(b)) => *b,
        _ => false,
    };
    let span = match (member_text(arguments, "from"), member_text(arguments, "to")) {
        (Some(from), Some(to)) => {
            if date_ok(from) && date_ok(to) {
                Some((from, to))
            } else {
                return Err(String::from_str("Вкажіть from і to разом, у форматі РРРР-ММ-ДД (напр. 2026-09-01)."));
            }
        },
        (None, None) => None,
        _ => {
            return Err(String::from_str("Вкажіть from і to разом, у форматі РРРР-ММ-ДД (напр. 2026-09-01)."));
        },
    };
    let p = String::from_str(period);
    if !(p == String::from_str("MonthToDate") || p == String::from_str("BillingMonthToDate") || p
        == String::from_str("TheLastMonth") || p == String::from_str("TheLastBillingMonth") || p
        == String::from_str("WeekToDate")) {
        let mut e = String::from_str("Невідомий period: ");
        e.append(period);
        e.append(". Допустимо: MonthToDate, BillingMonthToDate, TheLastMonth, TheLastBillingMonth, WeekToDate.");
        return Err(e);
    }
    let q = String::from_str(split);
    if !(q == String::from_str("ResourceGroupName") || q == String::from_str("ResourceId") || q
        == String::from_str("ResourceType") || q == String::from_str("MeterCategory") || q
        == String::from_str("ServiceName")) {
        let mut e = String::from_str("Невідоме by: ");
        e.append(split);
        e.append(". Допустимо: ResourceGroupName, ResourceId, ResourceType, MeterCategory, ServiceName.");
        return Err(e);
    }
    Ok(Ask { period, span, split, daily })
}

/// The path of the Cost Management query of a scope.
pub fn path(scope: &str) -> (r: String)
    ensures
        r@ == scope@ + "/providers/Microsoft.CostManagement/query?api-version=2023-11-01"@,
{
    let mut r = String::from_str(scope);
    r.append("/providers/Microsoft.CostManagement/query?api-version=2023-11-01");
    r
}

/// The last day of the data: the latest of the days, in `str` order (which orders ISO dates), or
/// none when there are no days. The data always has that day incompletely.
pub fn last_day(days: &Vec<String>) -> (r: Option<String>)
    ensures
        match r {
            Some(d) => views(days@).contains(d@) && forall|k: int|
                0 <= k < days@.len() ==> !lex_lt(d@, #[trigger] days@[k]@),
            None => days@.len() == 0,
        },
{
    let n = days.len();
    if n == 0 {
        return None;
    }
    let mut best: usize = 0;
    proof {
        lemma_lex_irreflexive(days@[0]@);
    }
    for i in 1..n
        invariant
            n == days@.len(),
            best < n,
            forall|k: int| 0 <= k < i ==> !lex_lt(days@[best as int]@, #[trigger] days@[k]@),
    {
        if text_less(days[best].as_str(), days[i].as_str()) {
            proof {
                assert forall|k: int| 0 <= k < i + 1 implies !lex_lt(days@[i as int]@, #[trigger] days@[k]@) by {
                    if k < i {
                        let b = days@[best as int]@;
                        let x = days@[i as int]@;
                        let y = days@[k]@;
                        if lex_lt(x, y) {
                            lemma_lex_transitive(b, x, y);
                        }
                    } else {
                        lemma_lex_irreflexive(days@[i as int]@);
                    }
                }
            }
            best = i;
        }
    }
    assert(views(days@)[best as int] == days@[best as int]@);
    Some(days[best].clone())
}

/// Whether a query answer says there are more pages than it holds: its `nextLink` is there and
/// not `null`.
pub fn more_pages(body: &Json) -> (r: bool)
    ensures
        r == match field(member(*body, "properties"@), "nextLink"@) {
            Some(Json::Null) => false,
            Some(_) => true,
            None => false,
        },
{
    match field_of(member_of(body, "properties"), "nextLink") {
        Some(Json::Null) => false,
        Some(_) => true,
        None => false,
    }
}

} // verus!
