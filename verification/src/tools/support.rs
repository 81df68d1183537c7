//! Support tickets, newest first; the contact details they carry are never shown.
use vstd::prelude::*;
use crate::json::Json;
use crate::order::{
    key_views, keys_lt, lemma_arranged_sorted, lemma_arrangement_exists, lemma_lex_irreflexive, lex_lt, ordering,
    Field, Part,
};
use crate::text::{lemma_map_push, views};
use crate::tools::{arrange, derefs, in_order, refs, report, report_of, text, text_at};

verus! {

/// The line of a ticket.
pub open spec fn line_of(ticket: Json) -> Seq<char> {
    text_at(ticket, "/properties/supportTicketId"@) + "  "@ + text_at(ticket, "/properties/status"@) + "  "@
        + text_at(ticket, "/properties/severity"@) + "  "@ + text_at(ticket, "/properties/createdDate"@) + "  "@
        + text_at(ticket, "/properties/serviceDisplayName"@) + ": "@ + text_at(
        ticket,
        "/properties/problemClassificationDisplayName"@,
    ) + "  "@ + text_at(ticket, "/properties/title"@)
}

/// The key tickets are ordered by: when they were created.
pub open spec fn created_key(ticket: Json) -> Seq<Part> {
    seq![Part::Text(text_at(ticket, "/properties/createdDate"@))]
}

/// The report on the tickets, newest first (tickets created at the same moment keep their order).
pub open spec fn table_of(tickets: Seq<Json>) -> Seq<char> {
    report(
        in_order(tickets, tickets.map_values(|t: Json| created_key(t)), true).map_values(|t: Json| line_of(t)),
        "Запитів підтримки не знайдено."@,
    )
}

/// Tickets are listed newest first: no ticket comes before one created later (creation dates
/// compared as texts, as Azure's ISO dates order).
pub proof fn lemma_newest_first(tickets: Seq<Json>)
    requires
        tickets.len() <= usize::MAX,
    ensures
        ({
            let rows = in_order(tickets, tickets.map_values(|t: Json| created_key(t)), true);
            &&& rows.len() == tickets.len()
            &&& forall|a: int, b: int|
                0 <= a < b < rows.len() ==> !lex_lt(
                    text_at(#[trigger] rows[a], "/properties/createdDate"@),
                    text_at(#[trigger] rows[b], "/properties/createdDate"@),
                )
        }),
{
    let keys = tickets.map_values(|t: Json| created_key(t));
    lemma_arrangement_exists(keys, true);
    let idx = ordering(keys, true);
    lemma_arranged_sorted(keys, true, idx);
    let rows = in_order(tickets, keys, true);
    assert forall|a: int, b: int| 0 <= a < b < rows.len() implies !lex_lt(
        text_at(#[trigger] rows[a], "/properties/createdDate"@),
        text_at(#[trigger] rows[b], "/properties/createdDate"@),
    ) by {
        let x = text_at(rows[a], "/properties/createdDate"@);
        let y = text_at(rows[b], "/properties/createdDate"@);
        assert(rows[a] == tickets[idx[a] as int] && rows[b] == tickets[idx[b] as int]);
        assert(!keys_lt(keys[idx[a] as int], keys[idx[b] as int]));
        assert(keys[idx[a] as int] == seq![Part::Text(x)]);
        assert(keys[idx[b] as int] == seq![Part::Text(y)]);
        if x == y {
            lemma_lex_irreflexive(x);
        } else {
            assert(seq![Part::Text(x)][0] != seq![Part::Text(y)][0]);
        }
    }
}

/// The line of a ticket: id, status, severity, creation date, service, problem and title.
pub fn line(ticket: &Json) -> (r: String)
    ensures
        r@ == line_of(*ticket),
{
    let mut r = String::from_str(text(ticket, "/properties/supportTicketId"));
    r.append("  ");
    r.append(text(ticket, "/properties/status"));
    r.append("  ");
    r.append(text(ticket, "/properties/severity"));
    r.append("  ");
    r.append(text(ticket, "/properties/createdDate"));
    r.append("  ");
    r.append(text(ticket, "/properties/serviceDisplayName"));
    r.append(": ");
    r.append(text(ticket, "/properties/problemClassificationDisplayName"));
    r.append("  ");
    r.append(text(ticket, "/properties/title"));
    r
}

/// The tickets, newest first, one line each.
pub fn table(tickets: &Vec<Json>) -> (r: String)
    ensures
        r@ == table_of(tickets@),
{
    let all = refs(tickets);
    let n = tickets.len();
    let mut keys: Vec<Vec<Field>> = Vec::new();
    for i in 0..n
        invariant
            n == tickets@.len(),
            key_views(keys@) == tickets@.take(i as int).map_values(|t: Json| created_key(t)),
    {
        let mut key: Vec<Field> = Vec::new();
        key.push(Field::Text(String::from_str(text(&tickets[i], "/properties/createdDate"))));
        let ghost before = keys@;
        keys.push(key);
        proof {
            assert(key@.map_values(|f: Field| crate::order::part_view(f)) == created_key(tickets@[i as int]));
            assert(key_views(keys@) == key_views(before).push(key@.map_values(|f: Field| crate::order::part_view(f))));
            assert(tickets@.take(i as int + 1).map_values(|t: Json| created_key(t))
                == tickets@.take(i as int).map_values(|t: Json| created_key(t)).push(created_key(tickets@[i as int])));
        }
    }
    assert(tickets@.take(n as int) == tickets@);
    let items = arrange(&all, &keys, true);
    let ghost f = |t: Json| line_of(t);
    let mut lines: Vec<String> = Vec::new();
    let m = items.len();
    for i in 0..m
        invariant
            m == items@.len(),
            f == (|t: Json| line_of(t)),
            views(lines@) == derefs(items@).take(i as int).map_values(f),
    {
        let ghost before = lines@;
        lines.push(line(items[i]));
        proof {
            assert(views(lines@) == views(before).push(f(*items@[i as int])));
            assert(derefs(items@).take(i as int + 1) == derefs(items@).take(i as int).push(*items@[i as int]));
            lemma_map_push(derefs(items@).take(i as int), *items@[i as int], f);
        }
    }
    assert(derefs(items@).take(m as int) == derefs(items@));
    report_of(&lines, "Запитів підтримки не знайдено.")
}

} // verus!
