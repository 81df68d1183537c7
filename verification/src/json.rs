//! The JSON documents that Azure answers with, as plain values, and the ways the reports read them.
use vstd::prelude::*;
use crate::text::{chars, lemma_split_nonempty, pieces, push, split, string_of};

verus! {

/// A JSON value. A number keeps the text that JSON gives it and, where it is an integer that fits
/// in an `i64`, that integer. An object keeps its members in the order it is given them (a
/// parsed document hands them over sorted by key).
pub enum Json {
    Null,
    Bool(bool),
    Number { text: String, integer: Option<i64> },
    Str(String),
    Array(Vec<Json>),
    Object(Vec<(String, Json)>),
}

/// The value of the first member named `key`.
pub open spec fn lookup(m: Seq<(String, Json)>, key: Seq<char>) -> Option<Json>
    decreases m.len(),
{
    if m.len() == 0 {
        None
    } else if m[0].0@ == key {
        Some(m[0].1)
    } else {
        lookup(m.drop_first(), key)
    }
}

/// The member `key` of an object (`value.get(key)`); nothing for other values.
pub open spec fn member(v: Json, key: Seq<char>) -> Option<Json> {
    match v {
        Json::Object(m) => lookup(m@, key),
        _ => None,
    }
}

/// The member `key` of a value that may be absent (`value[key]` on a possibly missing value).
pub open spec fn field(v: Option<Json>, key: Seq<char>) -> Option<Json> {
    match v {
        Some(x) => member(x, key),
        None => None,
    }
}

/// A borrowed value seen as a value.
pub open spec fn owned(r: Option<&Json>) -> Option<Json> {
    match r {
        Some(x) => Some(*x),
        None => None,
    }
}

/// The text of a string value.
pub open spec fn str_of(v: Option<Json>) -> Option<Seq<char>> {
    match v {
        Some(Json::Str(s)) => Some(s@),
        _ => None,
    }
}

/// The items of an array value.
pub open spec fn items_of(v: Option<Json>) -> Option<Seq<Json>> {
    match v {
        Some(Json::Array(a)) => Some(a@),
        _ => None,
    }
}

/// The items of an array value, none where it is not an array (`as_array().into_iter().flatten()`).
pub open spec fn items_or_none(v: Option<Json>) -> Seq<Json> {
    match v {
        Some(Json::Array(a)) => a@,
        _ => Seq::empty(),
    }
}

/// The boolean of a boolean value.
pub open spec fn bool_of(v: Option<Json>) -> Option<bool> {
    match v {
        Some(Json::Bool(b)) => Some(b),
        _ => None,
    }
}

/// The integer of a number value that is an integer fitting in an `i64`.
pub open spec fn int_of(v: Option<Json>) -> Option<i64> {
    match v {
        Some(Json::Number { text, integer }) => integer,
        _ => None,
    }
}

/// Replaces every `x y` pair, scanning left to right, with `z` (`str::replace` of a two-char pattern).
pub open spec fn replace_pair(s: Seq<char>, x: char, y: char, z: char) -> Seq<char>
    decreases s.len(),
{
    if s.len() < 2 {
        s
    } else if s[0] == x && s[1] == y {
        seq![z] + replace_pair(s.skip(2), x, y, z)
    } else {
        seq![s[0]] + replace_pair(s.drop_first(), x, y, z)
    }
}

/// A JSON pointer token with its escapes undone: `~1` is `/`, then `~0` is `~`.
pub open spec fn unescape(t: Seq<char>) -> Seq<char> {
    replace_pair(replace_pair(t, '~', '1', '/'), '~', '0', '~')
}

/// The tokens of a JSON pointer that starts with `/`.
pub open spec fn tokens(p: Seq<char>) -> Seq<Seq<char>> {
    split(p, '/').drop_first().map_values(|t: Seq<char>| unescape(t))
}

/// The value of a decimal digit char.
pub open spec fn digit_value(c: char) -> nat {
    (c as u32 - '0' as u32) as nat
}

/// Whether a char is an ASCII decimal digit.
pub open spec fn is_digit(c: char) -> bool {
    '0' <= c && c <= '9'
}

/// Whether every char is an ASCII decimal digit.
pub open spec fn all_digits(s: Seq<char>) -> bool {
    forall|i: int| 0 <= i < s.len() ==> #[trigger] is_digit(s[i])
}

/// The number that a text of decimal digits denotes.
pub open spec fn digits_value(s: Seq<char>) -> nat
    decreases s.len(),
{
    if s.len() == 0 {
        0
    } else {
        digits_value(s.drop_last()) * 10 + digit_value(s.last())
    }
}

/// The number that `str::parse::<u64>` reads from a text of decimal digits with no sign: `None`
/// where the text is empty, holds another char, or names a number above `max`.
pub open spec fn plain_number(s: Seq<char>, max: nat) -> Option<nat> {
    if s.len() > 0 && all_digits(s) && digits_value(s) <= max {
        Some(digits_value(s))
    } else {
        None
    }
}

/// The array index that a pointer token names: digits without a sign or a leading zero.
pub open spec fn index_token(t: Seq<char>) -> Option<nat> {
    if t.len() > 0 && (t[0] == '+' || (t[0] == '0' && t.len() != 1)) {
        None
    } else {
        plain_number(t, usize::MAX as nat)
    }
}

/// One step of a JSON pointer: an object's member, or an array's item.
pub open spec fn step(v: Json, t: Seq<char>) -> Option<Json> {
    match v {
        Json::Object(m) => lookup(m@, t),
        Json::Array(a) => match index_token(t) {
            Some(i) => if i < a@.len() {
                Some(a@[i as int])
            } else {
                None
            },
            None => None,
        },
        _ => None,
    }
}

/// Follows the tokens from `v`, one step each.
pub open spec fn walk(v: Json, toks: Seq<Seq<char>>) -> Option<Json>
    decreases toks.len(),
{
    if toks.len() == 0 {
        Some(v)
    } else {
        match step(v, toks[0]) {
            Some(w) => walk(w, toks.drop_first()),
            None => None,
        }
    }
}

/// The value that a JSON pointer (RFC 6901) names in `v` (`Value::pointer`).
pub open spec fn pointer(v: Json, p: Seq<char>) -> Option<Json> {
    if p.len() == 0 {
        Some(v)
    } else if p[0] != '/' {
        None
    } else {
        walk(v, tokens(p))
    }
}

/// The member `key` of an object value.
pub fn member_of<'a>(v: &'a Json, key: &str) -> (r: Option<&'a Json>)
    ensures
        owned(r) == member(*v, key@),
{
    match v {
        Json::Object(m) => lookup_in(m, key),
        _ => None,
    }
}

/// The member `key` of a value that may be absent.
pub fn field_of<'a>(v: Option<&'a Json>, key: &str) -> (r: Option<&'a Json>)
    ensures
        owned(r) == field(owned(v), key@),
{
    match v {
        Some(x) => member_of(x, key),
        None => None,
    }
}

/// The value of the first member named `key`.
pub fn lookup_in<'a>(m: &'a Vec<(String, Json)>, key: &str) -> (r: Option<&'a Json>)
    ensures
        owned(r) == lookup(m@, key@),
{
    let k = String::from_str(key);
    let n = m.len();
    let mut i: usize = 0;
    assert(m@.skip(0) == m@);
    while i < n
        invariant
            n == m@.len(),
            i <= n,
            k@ == key@,
            lookup(m@, key@) == lookup(m@.skip(i as int), key@),
        decreases n - i,
    {
        assert(m@.skip(i as int).drop_first() == m@.skip(i as int + 1));
        if m[i].0 == k {
            return Some(&m[i].1);
        }
        i = i + 1;
    }
    None
}

/// Undoes the escapes of a pointer token.
fn unescaped(v: &Vec<char>, from: usize, to: usize) -> (s: String)
    requires
        from <= to <= v@.len(),
    ensures
        s@ == unescape(v@.subrange(from as int, to as int)),
{
    let first = replaced(v, from, to, '~', '1', '/');
    let n = first.len();
    let second = replaced(&first, 0, n, '~', '0', '~');
    assert(first@.subrange(0, n as int) == first@);
    string_of(second.as_slice())
}

/// `v[from..to]` with every `x y` pair replaced by `z`.
fn replaced(v: &Vec<char>, from: usize, to: usize, x: char, y: char, z: char) -> (r: Vec<char>)
    requires
        from <= to <= v@.len(),
    ensures
        r@ == replace_pair(v@.subrange(from as int, to as int), x, y, z),
{
    let ghost whole = v@.subrange(from as int, to as int);
    let mut r: Vec<char> = Vec::new();
    let mut i: usize = from;
    while i < to
        invariant
            from <= i <= to <= v@.len(),
            whole == v@.subrange(from as int, to as int),
            replace_pair(whole, x, y, z) == r@ + replace_pair(v@.subrange(i as int, to as int), x, y, z),
        decreases to - i,
    {
        let ghost rest = v@.subrange(i as int, to as int);
        if i + 1 < to && v[i] == x && v[i + 1] == y {
            assert(rest.skip(2) == v@.subrange(i + 2, to as int));
            r.push(z);
            i = i + 2;
        } else {
            assert(rest.drop_first() == v@.subrange(i + 1, to as int));
            r.push(v[i]);
            i = i + 1;
        }
    }
    r
}

/// The number that the digits `v[from..to]` denote, if they are digits and it is at most `u64::MAX`.
pub fn parse_digits(v: &Vec<char>, from: usize, to: usize) -> (r: Option<u64>)
    requires
        from <= to <= v@.len(),
    ensures
        match r {
            Some(n) => plain_number(v@.subrange(from as int, to as int), u64::MAX as nat) == Some(n as nat),
            None => plain_number(v@.subrange(from as int, to as int), u64::MAX as nat) is None,
        },
{
    let ghost s = v@.subrange(from as int, to as int);
    if from == to {
        return None;
    }
    let mut acc: u64 = 0;
    let mut i: usize = from;
    while i < to
        invariant
            from <= i <= to <= v@.len(),
            from < to,
            s == v@.subrange(from as int, to as int),
            all_digits(v@.subrange(from as int, i as int)),
            acc as nat == digits_value(v@.subrange(from as int, i as int)),
        decreases to - i,
    {
        let c = v[i];
        assert(v@.subrange(from as int, i + 1).drop_last() == v@.subrange(from as int, i as int));
        if !('0' <= c && c <= '9') {
            assert(!is_digit(s[i - from]));
            return None;
        }
        let d = (c as u32 - '0' as u32) as u64;
        proof {
            assert(s.take(i - from + 1) == v@.subrange(from as int, i + 1));
            assert(digits_value(v@.subrange(from as int, i + 1)) == acc * 10 + d);
            if all_digits(s) {
                lemma_digits_grow(s, i - from + 1);
            }
        }
        match acc.checked_mul(10) {
            Some(m) => match m.checked_add(d) {
                Some(next) => {
                    acc = next;
                }
                None => {
                    return None;
                }
            },
            None => {
                return None;
            }
        }
        i = i + 1;
        assert(all_digits(v@.subrange(from as int, i as int))) by {
            assert forall|j: int| 0 <= j < i - from implies #[trigger] is_digit(v@.subrange(from as int, i as int)[j]) by {
                if j < i - 1 - from {
                    assert(v@.subrange(from as int, i as int)[j] == v@.subrange(from as int, i - 1)[j]);
                }
            }
        }
    }
    Some(acc)
}

/// A longer all-digit text denotes at least as large a number as its prefix.
pub proof fn lemma_digits_grow(s: Seq<char>, k: int)
    requires
        0 <= k <= s.len(),
        all_digits(s),
    ensures
        digits_value(s.take(k)) <= digits_value(s),
    decreases s.len(),
{
    if k < s.len() {
        assert(s.drop_last().take(k) == s.take(k));
        assert forall|i: int| 0 <= i < s.drop_last().len() implies #[trigger] is_digit(s.drop_last()[i]) by {
            assert(is_digit(s[i]));
        }
        lemma_digits_grow(s.drop_last(), k);
    } else {
        assert(s.take(k) == s);
    }
}

/// The array index a pointer token names.
fn index_of_token(v: &Vec<char>, from: usize, to: usize) -> (r: Option<usize>)
    requires
        from <= to <= v@.len(),
    ensures
        match r {
            Some(n) => index_token(v@.subrange(from as int, to as int)) == Some(n as nat),
            None => index_token(v@.subrange(from as int, to as int)) is None,
        },
{
    let ghost t = v@.subrange(from as int, to as int);
    if from < to && (v[from] == '+' || (v[from] == '0' && to - from != 1)) {
        assert(t[0] == v@[from as int]);
        return None;
    }
    match parse_digits(v, from, to) {
        Some(n) => {
            if n <= usize::MAX as u64 {
                Some(n as usize)
            } else {
                None
            }
        }
        None => None,
    }
}

/// One pointer step from `v` by the token `v[from..to]` (already unescaped in `t`).
fn step_in<'a>(v: &'a Json, t: &str) -> (r: Option<&'a Json>)
    ensures
        owned(r) == step(*v, t@),
{
    match v {
        Json::Object(m) => lookup_in(m, t),
        Json::Array(a) => {
            let tv = chars(t);
            let n = tv.len();
            assert(tv@.subrange(0, n as int) == tv@);
            match index_of_token(&tv, 0, n) {
                Some(i) => {
                    if i < a.len() {
                        Some(&a[i])
                    } else {
                        None
                    }
                }
                None => None,
            }
        }
        _ => None,
    }
}

/// The value that a JSON pointer names in `v` (`Value::pointer`).
pub fn pointer_in<'a>(v: &'a Json, p: &str) -> (r: Option<&'a Json>)
    ensures
        owned(r) == pointer(*v, p@),
{
    let pv = chars(p);
    if pv.len() == 0 {
        return Some(v);
    }
    if pv[0] != '/' {
        return None;
    }
    let ranges = pieces(&pv, '/');
    let ghost toks = tokens(p@);
    let n = ranges.len();
    proof {
        lemma_split_nonempty(p@, '/');
    }
    let mut cur: &Json = v;
    let mut k: usize = 1;
    assert(toks.skip(0) == toks);
    while k < n
        invariant
            1 <= k <= n,
            n == ranges@.len(),
            n == split(pv@, '/').len(),
            pv@ == p@,
            toks == tokens(p@),
            toks.len() == n - 1,
            forall|j: int| 0 <= j < ranges@.len() ==> #[trigger] ranges@[j].0 <= ranges@[j].1 <= pv@.len(),
            forall|j: int|
                0 <= j < ranges@.len() ==> pv@.subrange(ranges@[j].0 as int, ranges@[j].1 as int)
                    == #[trigger] split(pv@, '/')[j],
            walk(*v, toks) == walk(*cur, toks.skip(k - 1)),
        decreases n - k,
    {
        let (a, b) = ranges[k];
        assert(pv@.subrange(a as int, b as int) == split(pv@, '/')[k as int]);
        let t = unescaped(&pv, a, b);
        assert(toks[k - 1] == t@);
        assert(toks.skip(k - 1).drop_first() == toks.skip(k as int));
        match step_in(cur, t.as_str()) {
            Some(next) => {
                cur = next;
            }
            None => {
                return None;
            }
        }
        k = k + 1;
    }
    assert(toks.skip(n - 1).len() == 0);
    Some(cur)
}


/// A lowercase hexadecimal digit.
pub open spec fn hex_digit(n: nat) -> char {
    if n < 10 {
        crate::text::digit_char(n)
    } else if n == 10 { 'a' }
    else if n == 11 { 'b' }
    else if n == 12 { 'c' }
    else if n == 13 { 'd' }
    else if n == 14 { 'e' }
    else { 'f' }
}

/// How one char stands inside a JSON string: quotes, backslashes and control chars are escaped.
pub open spec fn escaped(c: char) -> Seq<char> {
    if c == '"' {
        seq!['\\', '"']
    } else if c == '\\' {
        seq!['\\', '\\']
    } else if c == '\u{8}' {
        seq!['\\', 'b']
    } else if c == '\u{c}' {
        seq!['\\', 'f']
    } else if c == '\n' {
        seq!['\\', 'n']
    } else if c == '\r' {
        seq!['\\', 'r']
    } else if c == '\t' {
        seq!['\\', 't']
    } else if (c as u32) < 0x20 {
        seq!['\\', 'u', '0', '0', hex_digit(((c as u32) / 16) as nat), hex_digit(((c as u32) % 16) as nat)]
    } else {
        seq![c]
    }
}

/// A text with each char escaped.
pub open spec fn escape(s: Seq<char>) -> Seq<char>
    decreases s.len(),
{
    if s.len() == 0 {
        Seq::empty()
    } else {
        escape(s.drop_last()) + escaped(s.last())
    }
}

/// A text as a JSON string, in quotes.
pub open spec fn quoted(s: Seq<char>) -> Seq<char> {
    seq!['"'] + escape(s) + seq!['"']
}

/// The compact JSON text of a value (`Value::to_string`).
pub open spec fn render(v: Json) -> Seq<char>
    decreases v,
{
    match v {
        Json::Null => "null"@,
        Json::Bool(b) => if b {
            "true"@
        } else {
            "false"@
        },
        Json::Number { text, integer } => text@,
        Json::Str(s) => quoted(s@),
        Json::Array(a) => seq!['['] + render_items(a@) + seq![']'],
        Json::Object(m) => seq!['{'] + render_members(m@) + seq!['}'],
    }
}

/// The JSON texts of the items, separated by commas.
pub open spec fn render_items(s: Seq<Json>) -> Seq<char>
    decreases s,
{
    if s.len() == 0 {
        Seq::empty()
    } else if s.len() == 1 {
        render(s[0])
    } else {
        render_items(s.drop_last()) + seq![','] + render(s.last())
    }
}

/// The JSON texts of the members, `"key":value`, separated by commas.
pub open spec fn render_members(m: Seq<(String, Json)>) -> Seq<char>
    decreases m,
{
    if m.len() == 0 {
        Seq::empty()
    } else if m.len() == 1 {
        quoted(m[0].0@) + seq![':'] + render(m[0].1)
    } else {
        render_members(m.drop_last()) + seq![','] + quoted(m.last().0@) + seq![':'] + render(m.last().1)
    }
}

/// The hexadecimal digit char of `n`.
pub(crate) fn hex_char(n: u32) -> (c: char)
    requires
        n < 16,
    ensures
        c == hex_digit(n as nat),
{
    if n < 10 {
        crate::text::digit(n as u64)
    } else if n == 10 { 'a' }
    else if n == 11 { 'b' }
    else if n == 12 { 'c' }
    else if n == 13 { 'd' }
    else if n == 14 { 'e' }
    else { 'f' }
}

/// Appends one char as it stands inside a JSON string.
fn push_escaped(out: &mut String, c: char)
    ensures
        final(out)@ == old(out)@ + escaped(c),
{
    if c == '"' {
        push(out, '\\');
        push(out, '"');
    } else if c == '\\' {
        push(out, '\\');
        push(out, '\\');
    } else if c == '\u{8}' {
        push(out, '\\');
        push(out, 'b');
    } else if c == '\u{c}' {
        push(out, '\\');
        push(out, 'f');
    } else if c == '\n' {
        push(out, '\\');
        push(out, 'n');
    } else if c == '\r' {
        push(out, '\\');
        push(out, 'r');
    } else if c == '\t' {
        push(out, '\\');
        push(out, 't');
    } else if (c as u32) < 0x20 {
        push(out, '\\');
        push(out, 'u');
        push(out, '0');
        push(out, '0');
        push(out, hex_char((c as u32) / 16));
        push(out, hex_char((c as u32) % 16));
    } else {
        push(out, c);
    }
}

/// Appends a text as a JSON string.
pub fn push_quoted(out: &mut String, s: &str)
    ensures
        final(out)@ == old(out)@ + quoted(s@),
{
    let v = chars(s);
    push(out, '"');
    let ghost start = out@;
    let n = v.len();
    for i in 0..n
        invariant
            n == v@.len(),
            v@ == s@,
            out@ == start + escape(v@.take(i as int)),
    {
        assert(v@.take(i as int + 1).drop_last() == v@.take(i as int));
        push_escaped(out, v[i]);
    }
    assert(v@.take(n as int) == v@);
    push(out, '"');
}

/// Appends the compact JSON text of a value.
pub fn push_render(out: &mut String, v: &Json)
    ensures
        final(out)@ == old(out)@ + render(*v),
    decreases v,
{
    match v {
        Json::Null => out.append("null"),
        Json::Bool(b) => {
            if *b {
                out.append("true");
            } else {
                out.append("false");
            }
        },
        Json::Number { text, integer } => out.append(text.as_str()),
        Json::Str(s) => push_quoted(out, s.as_str()),
        Json::Array(a) => {
            push(out, '[');
            let ghost start = out@;
            let n = a.len();
            for i in 0..n
                invariant
                    n == a@.len(),
                    *v == Json::Array(*a),
                    out@ == start + render_items(a@.take(i as int)),
            {
                assert(a@.take(i as int + 1).drop_last() == a@.take(i as int));
                if i > 0 {
                    push(out, ',');
                }
                proof {
                    assert(decreases_to!(*v => (*v)->Array_0));
                    assert(decreases_to!(*a => a@));
                    assert(decreases_to!(a@ => a@[i as int]));
                }
                push_render(out, &a[i]);
            }
            assert(a@.take(n as int) == a@);
            push(out, ']');
        },
        Json::Object(m) => {
            push(out, '{');
            let ghost start = out@;
            let n = m.len();
            for i in 0..n
                invariant
                    n == m@.len(),
                    *v == Json::Object(*m),
                    out@ == start + render_members(m@.take(i as int)),
            {
                assert(m@.take(i as int + 1).drop_last() == m@.take(i as int));
                if i > 0 {
                    push(out, ',');
                }
                push_quoted(out, m[i].0.as_str());
                push(out, ':');
                proof {
                    assert(decreases_to!(*v => (*v)->Object_0));
                    assert(decreases_to!(*m => m@));
                    assert(decreases_to!(m@ => m@[i as int]));
                    assert(decreases_to!(m@[i as int] => m@[i as int].1));
                }
                push_render(out, &m[i].1);
            }
            assert(m@.take(n as int) == m@);
            push(out, '}');
        },
    }
}

} // verus!
