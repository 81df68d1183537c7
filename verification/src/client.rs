//! The decisions of the ARM client: the token cache, the cost cache's names and freshness, what
//! a `429` is answered with, how a failure reads, and how a listing continues.
use vstd::prelude::*;
use crate::json::{int_of, items_of, lookup, member, member_of, plain_number, str_of, Json};
use crate::text::{chars, decimal, ends, ends_with, holds, join, join_all, lemma_filter_step, lemma_map_push, push, views};

verus! {

/// Where ARM lives.
pub open spec fn arm() -> Seq<char> {
    "https://management.azure.com"@
}

/// The URL of an ARM path.
pub fn url(path: &str) -> (r: String)
    ensures
        r@ == arm() + path@,
{
    let mut r = String::from_str("https://management.azure.com");
    r.append(path);
    r
}

/// The subscription configured in the environment, if its value is not empty.
pub fn configured(value: Option<&str>) -> (r: Option<&str>)
    ensures
        r == match value {
            Some(id) => if id@.len() > 0 {
                Some(id)
            } else {
                None
            },
            None => None,
        },
{
    match value {
        Some(id) => {
            if id.is_empty() {
                None
            } else {
                Some(id)
            }
        },
        None => None,
    }
}

/// An access token and the moment (in nanoseconds of a monotonic clock) it stops being used.
pub struct Token {
    pub value: String,
    pub until: u64,
}

/// How long a token may be used, in seconds: until a minute before it expires, never negative.
pub open spec fn lifetime(epoch: u64, now: u64) -> nat {
    let left = if epoch > now { epoch - now } else { 0 };
    if left > 60 { (left - 60) as nat } else { 0 }
}

/// The saved token that may still be used at `now`.
pub open spec fn saved_at(token: Option<Token>, now: u64) -> Option<Seq<char>> {
    match token {
        Some(t) => if t.until > now {
            Some(t.value@)
        } else {
            None
        },
        None => None,
    }
}

/// The saved token, if it may still be used at `now` (nanoseconds of the monotonic clock).
pub fn saved(token: &Option<Token>, now: u64) -> (r: Option<String>)
    ensures
        match r {
            Some(v) => saved_at(*token, now) == Some(v@),
            None => saved_at(*token, now) is None,
        },
{
    match token {
        Some(t) => {
            if t.until > now {
                Some(t.value.clone())
            } else {
                None
            }
        },
        None => None,
    }
}

/// The moment (nanoseconds of the monotonic clock) until which a token saved at `mono` is used:
/// `lifetime` seconds later, or the end of the clock where that is beyond it.
pub open spec fn deadline(epoch: u64, wall: u64, mono: u64) -> u64 {
    let end = mono + lifetime(epoch, wall) * 1_000_000_000;
    if end > u64::MAX {
        u64::MAX
    } else {
        end as u64
    }
}

/// A token that expires at `epoch` (seconds since 1970), saved when the wall clock reads `wall`
/// and the monotonic clock `mono` (nanoseconds): it is used until a minute before it expires.
pub fn save(value: &str, epoch: u64, wall: u64, mono: u64) -> (r: Token)
    ensures
        r.value@ == value@,
        r.until == deadline(epoch, wall, mono),
{
    let left = epoch.saturating_sub(wall).saturating_sub(60);
    assert(left == lifetime(epoch, wall));
    let until = match left.checked_mul(1_000_000_000) {
        Some(span) => mono.saturating_add(span),
        None => u64::MAX,
    };
    Token { value: String::from_str(value), until }
}

/// A saved token is used until a minute before it expires, and not after; nothing is used before
/// a token is saved. (The monotonic clock's last nanosecond is left out.)
pub proof fn lemma_token_kept(value: Seq<char>, token: Token, epoch: u64, wall: u64, mono: u64, now: u64)
    requires
        token.value@ == value,
        token.until == deadline(epoch, wall, mono),
        now < u64::MAX,
    ensures
        saved_at(Some(token), now) == (if (now as int) < mono + lifetime(epoch, wall) * 1_000_000_000 {
            Some(value)
        } else {
            None
        }),
        saved_at(None, now) is None,
{
}

/// The token and the moment it expires (seconds since 1970) in the answer of the Azure CLI, if
/// the answer has both: a text `token` and a non-negative integer `until`.
pub fn grant(answer: &Json) -> (r: Option<(&str, u64)>)
    ensures
        match r {
            Some((value, epoch)) => {
                &&& str_of(member(*answer, "token"@)) == Some(value@)
                &&& int_of(member(*answer, "until"@)) == Some(epoch as i64)
            },
            None => str_of(member(*answer, "token"@)) is None || match int_of(member(*answer, "until"@)) {
                Some(n) => n < 0,
                None => true,
            },
        },
{
    let value = match member_of(answer, "token") {
        Some(Json::Str(s)) => s.as_str(),
        _ => return None,
    };
    match member_of(answer, "until") {
        Some(Json::Number { integer: Some(n), .. }) => {
            if *n >= 0 {
                Some((value, *n as u64))
            } else {
                None
            }
        },
        _ => None,
    }
}

/// The FNV-1a fold of bytes into the hash `h`: each byte is xored in, then the hash is multiplied
/// by the FNV prime, wrapping.
pub open spec fn fnv_from(h: u64, bytes: Seq<u8>) -> u64
    decreases bytes.len(),
{
    if bytes.len() == 0 {
        h
    } else {
        (fnv_from(h, bytes.drop_last()) ^ (bytes.last() as u64)).wrapping_mul(0x100000001b3)
    }
}

/// The FNV-1a hash of bytes: their fold into the FNV offset basis.
pub open spec fn fnv(bytes: Seq<u8>) -> u64 {
    fnv_from(0xcbf29ce484222325, bytes)
}

/// Folding joined bytes is folding the second part into the fold of the first.
pub proof fn lemma_fnv_joined(h: u64, a: Seq<u8>, b: Seq<u8>)
    ensures
        fnv_from(h, a + b) == fnv_from(fnv_from(h, a), b),
    decreases b.len(),
{
    if b.len() == 0 {
        assert(a + b == a);
    } else {
        lemma_fnv_joined(h, a, b.drop_last());
        assert((a + b).drop_last() == a + b.drop_last());
        assert((a + b).last() == b.last());
    }
}

/// The UTF-8 bytes of joined texts are the bytes of the first, then those of the second.
pub proof fn lemma_utf8_joined(s: Seq<char>, t: Seq<char>)
    ensures
        vstd::utf8::encode_utf8(s + t) == vstd::utf8::encode_utf8(s) + vstd::utf8::encode_utf8(t),
    decreases s.len(),
{
    if s.len() == 0 {
        assert(s + t == t);
    } else {
        lemma_utf8_joined(s.drop_first(), t);
        assert((s + t)[0] == s[0]);
        assert((s + t).drop_first() == s.drop_first() + t);
        assert(vstd::utf8::encode_utf8(s + t) == vstd::utf8::encode_scalar(s[0] as u32) + vstd::utf8::encode_utf8(
            s.drop_first() + t,
        ));
    }
}

/// The digest of joined texts is the second text's bytes folded into the digest of the first;
/// the digest of the empty text is the FNV offset basis. So the digest is FNV-1a over the UTF-8
/// bytes, and equal texts have equal digests.
pub proof fn lemma_digest_joined(s: Seq<char>, t: Seq<char>)
    ensures
        fnv(vstd::utf8::encode_utf8(s + t)) == fnv_from(fnv(vstd::utf8::encode_utf8(s)), vstd::utf8::encode_utf8(t)),
        fnv(vstd::utf8::encode_utf8(Seq::empty())) == 0xcbf29ce484222325,
{
    lemma_utf8_joined(s, t);
    lemma_fnv_joined(0xcbf29ce484222325, vstd::utf8::encode_utf8(s), vstd::utf8::encode_utf8(t));
    assert(vstd::utf8::encode_utf8(Seq::<char>::empty()) == Seq::<u8>::empty());
}

/// The FNV-1a hash of a text's UTF-8 bytes, which names its cache file.
pub fn digest(text: &str) -> (r: u64)
    ensures
        r == fnv(vstd::utf8::encode_utf8(text@)),
{
    let bytes = text.as_bytes();
    let n = bytes.len();
    let mut hash: u64 = 0xcbf29ce484222325;
    for i in 0..n
        invariant
            n == bytes@.len(),
            bytes@ == vstd::utf8::encode_utf8(text@),
            hash == fnv(bytes@.take(i as int)),
    {
        assert(bytes@.take(i as int + 1).drop_last() == bytes@.take(i as int));
        hash = (hash ^ bytes[i] as u64).wrapping_mul(0x100000001b3);
    }
    assert(bytes@.take(n as int) == bytes@);
    hash
}

/// The last `k` hexadecimal digits of `n`, lowercase, zeros in front.
pub open spec fn hex(n: nat, k: nat) -> Seq<char>
    decreases k,
{
    if k == 0 {
        Seq::empty()
    } else {
        hex(n / 16, (k - 1) as nat).push(crate::json::hex_digit(n % 16))
    }
}

/// Appends the last `k` hexadecimal digits of `n`.
fn push_hex(out: &mut String, n: u64, k: usize)
    ensures
        final(out)@ == old(out)@ + hex(n as nat, k as nat),
    decreases k,
{
    if k > 0 {
        push_hex(out, n / 16, k - 1);
        push(out, crate::json::hex_char((n % 16) as u32));
    }
}

/// The name of the cache file of a request: its digest in sixteen hexadecimal digits, `.json`.
pub fn cache_name(key: &str) -> (r: String)
    ensures
        r@ == hex(fnv(vstd::utf8::encode_utf8(key@)) as nat, 16) + ".json"@,
{
    let mut r = String::new();
    push_hex(&mut r, digest(key), 16);
    r.append(".json");
    r
}

/// The key a request is cached under: its URL and body.
pub fn cache_key(url: &str, body: &str) -> (r: String)
    ensures
        r@ == url@ + "\n"@ + body@,
{
    let mut r = String::from_str(url);
    r.append("\n");
    r.append(body);
    r
}

/// How old a cached answer is, in whole minutes, if it is at most an hour old.
pub open spec fn fresh_for(secs: u64, nanos: u32) -> Option<u64> {
    if secs > 3600 || (secs == 3600 && nanos > 0) {
        None
    } else {
        Some(secs / 60)
    }
}

/// Whether a cached answer `secs` seconds and `nanos` nanoseconds old may be used, and its age in
/// minutes.
pub fn fresh(secs: u64, nanos: u32) -> (r: Option<u64>)
    ensures
        r == fresh_for(secs, nanos),
{
    if secs > 3600 || (secs == 3600 && nanos > 0) {
        None
    } else {
        Some(secs / 60)
    }
}

/// `str::parse::<u64>`: digits with an optional `+` in front, at most `u64::MAX`.
pub open spec fn parse_u64(s: Seq<char>) -> Option<nat> {
    if s.len() > 0 && s[0] == '+' {
        plain_number(s.drop_first(), u64::MAX as nat)
    } else {
        plain_number(s, u64::MAX as nat)
    }
}

/// A header as the client sees it: its name, and its value where it is visible ASCII text.
pub open spec fn header_view(h: (String, Option<String>)) -> (Seq<char>, Option<Seq<char>>) {
    (h.0@, match h.1 {
        Some(v) => Some(v@),
        None => None,
    })
}

/// The headers as values.
pub open spec fn headers_view(hs: Seq<(String, Option<String>)>) -> Seq<(Seq<char>, Option<Seq<char>>)> {
    hs.map_values(|h: (String, Option<String>)| header_view(h))
}

/// A header that says how long to wait, with a number.
pub open spec fn says_wait(h: (Seq<char>, Option<Seq<char>>)) -> bool {
    ends_with(h.0, "retry-after"@) && h.1 is Some && parse_u64(h.1.unwrap()) is Some
}

/// The largest of some numbers.
pub open spec fn most(s: Seq<nat>) -> Option<nat>
    decreases s.len(),
{
    if s.len() == 0 {
        None
    } else {
        match most(s.drop_last()) {
            Some(m) => Some(if m >= s.last() { m } else { s.last() }),
            None => Some(s.last()),
        }
    }
}

/// How long the answer asks to wait: the largest number among its `*retry-after` headers.
pub open spec fn told_of(hs: Seq<(Seq<char>, Option<Seq<char>>)>) -> Option<nat> {
    most(hs.filter(|h: (Seq<char>, Option<Seq<char>>)| says_wait(h)).map_values(
        |h: (Seq<char>, Option<Seq<char>>)| parse_u64(h.1.unwrap()).unwrap(),
    ))
}

/// The largest of some numbers is at least each of them and is one of them; there is none only
/// for no numbers.
proof fn lemma_most(s: Seq<nat>)
    ensures
        most(s) is None <==> s.len() == 0,
        most(s) matches Some(m) ==> (forall|i: int| 0 <= i < s.len() ==> #[trigger] s[i] <= m) && exists|i: int|
            0 <= i < s.len() && s[i] == m,
    decreases s.len(),
{
    if s.len() > 0 {
        let rest = s.drop_last();
        lemma_most(rest);
        match most(rest) {
            Some(m) => {
                let i = choose|i: int| 0 <= i < rest.len() && rest[i] == m;
                assert(s[i] == m);
                assert forall|j: int| 0 <= j < s.len() implies #[trigger] s[j] <= most(s).unwrap() by {
                    if j < rest.len() {
                        assert(s[j] == rest[j]);
                    }
                }
            },
            None => {},
        }
    }
}

/// How long an answer asks to wait is the largest number among its headers whose name ends with
/// `retry-after` and whose value is a number: at least each of those numbers and equal to one of
/// them; nothing only when there is no such header.
pub proof fn lemma_told_largest(hs: Seq<(Seq<char>, Option<Seq<char>>)>)
    ensures
        forall|k: int|
            0 <= k < hs.len() && ends_with(#[trigger] hs[k].0, "retry-after"@) && hs[k].1 is Some && parse_u64(
                hs[k].1.unwrap(),
            ) is Some ==> (told_of(hs) is Some && parse_u64(hs[k].1.unwrap()).unwrap() <= told_of(hs).unwrap()),
        told_of(hs) matches Some(m) ==> exists|k: int|
            0 <= k < hs.len() && ends_with(#[trigger] hs[k].0, "retry-after"@) && hs[k].1 is Some && parse_u64(
                hs[k].1.unwrap(),
            ) == Some(m),
        told_of(hs) is None ==> forall|k: int|
            0 <= k < hs.len() ==> !(ends_with(#[trigger] hs[k].0, "retry-after"@) && hs[k].1 is Some && parse_u64(
                hs[k].1.unwrap(),
            ) is Some),
{
    let pred = |h: (Seq<char>, Option<Seq<char>>)| says_wait(h);
    let f = |h: (Seq<char>, Option<Seq<char>>)| parse_u64(h.1.unwrap()).unwrap();
    let waits = hs.filter(pred);
    let values = waits.map_values(f);
    assert(told_of(hs) == most(values));
    lemma_most(values);
    assert forall|k: int|
        0 <= k < hs.len() && ends_with(#[trigger] hs[k].0, "retry-after"@) && hs[k].1 is Some && parse_u64(hs[k].1.unwrap()) is Some
        implies (told_of(hs) is Some && parse_u64(hs[k].1.unwrap()).unwrap() <= told_of(hs).unwrap()) by {
        assert(pred(hs[k]));
        hs.lemma_filter_contains(pred, k);
        let j = choose|j: int| 0 <= j < waits.len() && waits[j] == hs[k];
        assert(values[j] == f(hs[k]));
    }
    if told_of(hs) is Some {
        let m = told_of(hs).unwrap();
        let i = choose|i: int| 0 <= i < values.len() && values[i] == m;
        assert(waits.contains(waits[i]));
        hs.lemma_filter_contains_rev(pred, waits[i]);
        hs.lemma_filter_pred(pred, i);
        let k = choose|k: int| 0 <= k < hs.len() && hs[k] == waits[i];
        assert(ends_with(hs[k].0, "retry-after"@) && hs[k].1 is Some && parse_u64(hs[k].1.unwrap()) == Some(m));
    } else {
        assert forall|k: int| 0 <= k < hs.len() implies !(ends_with(#[trigger] hs[k].0, "retry-after"@) && hs[k].1 is Some
            && parse_u64(hs[k].1.unwrap()) is Some) by {
            if ends_with(hs[k].0, "retry-after"@) && hs[k].1 is Some && parse_u64(hs[k].1.unwrap()) is Some {
                assert(pred(hs[k]));
                hs.lemma_filter_contains(pred, k);
            }
        }
    }
}

/// The number a header value denotes (`str::parse::<u64>`).
pub fn parse_number(s: &str) -> (r: Option<u64>)
    ensures
        match r {
            Some(n) => parse_u64(s@) == Some(n as nat),
            None => parse_u64(s@) is None,
        },
{
    let v = chars(s);
    let n = v.len();
    if n > 0 && v[0] == '+' {
        assert(v@.subrange(1, n as int) == s@.drop_first());
        crate::json::parse_digits(&v, 1, n)
    } else {
        assert(v@.subrange(0, n as int) == s@);
        crate::json::parse_digits(&v, 0, n)
    }
}

/// How long the answer asks to wait, in seconds: the largest number among the headers whose name
/// ends with `retry-after`.
pub fn told(headers: &Vec<(String, Option<String>)>) -> (r: Option<u64>)
    ensures
        match r {
            Some(n) => told_of(headers_view(headers@)) == Some(n as nat),
            None => told_of(headers_view(headers@)) is None,
        },
{
    let ghost hs = headers_view(headers@);
    let ghost pred = |h: (Seq<char>, Option<Seq<char>>)| says_wait(h);
    let ghost f = |h: (Seq<char>, Option<Seq<char>>)| parse_u64(h.1.unwrap()).unwrap();
    let mut best: Option<u64> = None;
    let n = headers.len();
    for i in 0..n
        invariant
            n == headers@.len(),
            hs == headers_view(headers@),
            pred == (|h: (Seq<char>, Option<Seq<char>>)| says_wait(h)),
            f == (|h: (Seq<char>, Option<Seq<char>>)| parse_u64(h.1.unwrap()).unwrap()),
            match best {
                Some(b) => most(hs.take(i as int).filter(pred).map_values(f)) == Some(b as nat),
                None => most(hs.take(i as int).filter(pred).map_values(f)) is None,
            },
    {
        proof {
            lemma_filter_step(hs, i as int, pred);
        }
        let (name, value) = (&headers[i].0, &headers[i].1);
        assert(hs[i as int] == header_view(headers@[i as int]));
        let wait = match value {
            Some(v) => {
                if ends(name.as_str(), "retry-after") {
                    parse_number(v.as_str())
                } else {
                    None
                }
            },
            None => None,
        };
        assert(wait is Some == pred(hs[i as int]));
        match wait {
            Some(w) => {
                proof {
                    lemma_map_push(hs.take(i as int).filter(pred), hs[i as int], f);
                    let s = hs.take(i as int + 1).filter(pred).map_values(f);
                    assert(s.drop_last() == hs.take(i as int).filter(pred).map_values(f));
                }
                best = match best {
                    Some(b) => Some(if b >= w { b } else { w }),
                    None => Some(w),
                };
            },
            None => {},
        }
    }
    assert(hs.take(n as int) == hs);
    best
}

/// A header that tells about rate limits or retries.
pub open spec fn about_limits(h: (Seq<char>, Option<Seq<char>>)) -> bool {
    holds(h.0, "ratelimit"@) || holds(h.0, "retry"@)
}

/// The rate limit headers of an answer, `name: value` separated by `; `.
pub open spec fn limits_of(hs: Seq<(Seq<char>, Option<Seq<char>>)>) -> Seq<char> {
    join(
        hs.filter(|h: (Seq<char>, Option<Seq<char>>)| about_limits(h)).map_values(
            |h: (Seq<char>, Option<Seq<char>>)| h.0 + ": "@ + h.1.unwrap(),
        ),
        "; "@,
    )
}

/// The rate limit headers of an answer, `name: value`, separated by `; `; each of them must have
/// a text value.
pub fn limits(headers: &Vec<(String, Option<String>)>) -> (r: String)
    requires
        forall|k: int|
            0 <= k < headers@.len() && about_limits(#[trigger] header_view(headers@[k])) ==> headers@[k].1 is Some,
    ensures
        r@ == limits_of(headers_view(headers@)),
{
    let ghost hs = headers_view(headers@);
    let ghost pred = |h: (Seq<char>, Option<Seq<char>>)| about_limits(h);
    let ghost f = |h: (Seq<char>, Option<Seq<char>>)| h.0 + ": "@ + h.1.unwrap();
    let mut items: Vec<String> = Vec::new();
    let n = headers.len();
    for i in 0..n
        invariant
            n == headers@.len(),
            hs == headers_view(headers@),
            forall|k: int|
                0 <= k < headers@.len() && about_limits(#[trigger] header_view(headers@[k])) ==> headers@[k].1 is Some,
            pred == (|h: (Seq<char>, Option<Seq<char>>)| about_limits(h)),
            f == (|h: (Seq<char>, Option<Seq<char>>)| h.0 + ": "@ + h.1.unwrap()),
            views(items@) == hs.take(i as int).filter(pred).map_values(f),
    {
        proof {
            lemma_filter_step(hs, i as int, pred);
        }
        let name = &headers[i].0;
        assert(hs[i as int] == header_view(headers@[i as int]));
        let relevant = crate::text::contains(name.as_str(), "ratelimit") || crate::text::contains(name.as_str(), "retry");
        if relevant {
            let mut s = name.clone();
            s.append(": ");
            match &headers[i].1 {
                Some(v) => s.append(v.as_str()),
                None => {
                    assert(false);
                },
            }
            let ghost before = items@;
            items.push(s);
            proof {
                assert(views(items@) == views(before).push(f(hs[i as int])));
                lemma_map_push(hs.take(i as int).filter(pred), hs[i as int], f);
            }
        }
    }
    assert(hs.take(n as int) == hs);
    join_all(&items, "; ")
}

/// What to check after a `401`, `403` or `404`; nothing for another status.
pub open spec fn hint_of(status: u16) -> Seq<char> {
    if status == 401 {
        "Токен не прийнято. Новий вхід робить лише користувач, інтерактивно: az login --scope https://management.core.windows.net//.default (за потреби з --tenant <тенант>)."@
    } else if status == 403 {
        "Недостатньо прав на цю область: для читання потрібна роль Reader (для costs — Cost Management Reader)."@
    } else if status == 404 {
        "Перевірте назву групи ресурсів (az group list) і підписки (az account list): неіснуюча область дає 404."@
    } else {
        ""@
    }
}

/// What to check after a failed status.
pub fn hint(status: u16) -> (r: &'static str)
    ensures
        r@ == hint_of(status),
{
    if status == 401 {
        "Токен не прийнято. Новий вхід робить лише користувач, інтерактивно: az login --scope https://management.core.windows.net//.default (за потреби з --tenant <тенант>)."
    } else if status == 403 {
        "Недостатньо прав на цю область: для читання потрібна роль Reader (для costs — Cost Management Reader)."
    } else if status == 404 {
        "Перевірте назву групи ресурсів (az group list) і підписки (az account list): неіснуюча область дає 404."
    } else {
        ""
    }
}

/// A failure comes with a hint exactly for `401`, `403` and `404`.
pub proof fn lemma_hint_when(status: u16)
    ensures
        hint_of(status).len() > 0 <==> (status == 401 || status == 403 || status == 404),
{
    reveal_strlit("Токен не прийнято. Новий вхід робить лише користувач, інтерактивно: az login --scope https://management.core.windows.net//.default (за потреби з --tenant <тенант>).");
    reveal_strlit("Недостатньо прав на цю область: для читання потрібна роль Reader (для costs — Cost Management Reader).");
    reveal_strlit("Перевірте назву групи ресурсів (az group list) і підписки (az account list): неіснуюча область дає 404.");
    reveal_strlit("");
}

/// A cached answer is used only while it is at most an hour old, and is then at most sixty
/// minutes old.
pub proof fn lemma_fresh_within_hour(secs: u64, nanos: u32)
    ensures
        fresh_for(secs, nanos) is Some <==> (secs < 3600 || (secs == 3600 && nanos == 0)),
        fresh_for(secs, nanos) matches Some(m) ==> m <= 60,
{
}

/// The text of an HTTP status as `reqwest::StatusCode` displays it.
pub uninterp spec fn status_text(code: u16) -> Seq<char>;

/// `reqwest::StatusCode::from_u16` then its `Display`, which writes the code, a space, and the
/// code's canonical reason (`<unknown status code>` for a code without one). The contract claims
/// that the result is the name `status_text` of the code and opens with the code's three digits
/// and a space; the reason phrases themselves are not stated here.
#[verifier::external_body]
fn status_line(code: u16) -> (r: String)
    requires
        100 <= code <= 999,
    ensures
        r@ == status_text(code),
        r@.len() >= 4,
        r@.subrange(0, 3) == decimal(code as nat),
        r@[3] == ' ',
{
    match reqwest::StatusCode::from_u16(code) {
        Ok(status) => status.to_string(),
        Err(_) => String::new(),
    }
}

/// How a failed answer reads: the status, the URL, the answer, and what to check where there is
/// a hint.
pub open spec fn failure_of(status: u16, url: Seq<char>, text: Seq<char>) -> Seq<char> {
    let head = "Azure відповів "@ + status_text(status) + " для "@ + url + ": "@ + text;
    if hint_of(status).len() == 0 {
        head
    } else {
        head + "\n"@ + hint_of(status)
    }
}

/// How a failed answer reads: `Azure відповів <status> для <url>: <answer>`, then what to check
/// for `401`, `403` and `404`.
pub fn failure(status: u16, url: &str, text: &str) -> (r: String)
    requires
        100 <= status <= 999,
    ensures
        r@ == failure_of(status, url@, text@),
{
    let mut r = String::from_str("Azure відповів ");
    let line = status_line(status);
    r.append(line.as_str());
    r.append(" для ");
    r.append(url);
    r.append(": ");
    r.append(text);
    let h = hint(status);
    if h.is_empty() {
        r
    } else {
        r.append("\n");
        r.append(h);
        r
    }
}

/// The answer to a request that was not refused for its rate: its text on success (`2xx`), else
/// the failure.
pub fn answer(status: u16, url: &str, text: String) -> (r: Result<String, String>)
    requires
        100 <= status <= 999,
    ensures
        match r {
            Ok(t) => 200 <= status < 300 && t@ == text@,
            Err(e) => !(200 <= status < 300) && e@ == failure_of(status, url@, text@),
        },
{
    if 200 <= status && status < 300 {
        Ok(text)
    } else {
        Err(failure(status, url, text.as_str()))
    }
}

/// The pause before the retry after the `attempt`-th `429` (counting from 0): 5, 15, then 30
/// seconds, or what the answer asked for; nothing when three retries were made or the wait asked
/// for is longer than a minute.
pub open spec fn pause_of(attempt: nat, told: Option<u64>) -> Option<u64> {
    if attempt < 3 {
        let default: u64 = if attempt == 0 { 5 } else if attempt == 1 { 15 } else { 30 };
        let wait = match told {
            Some(t) => t,
            None => default,
        };
        if wait <= 60 { Some(wait) } else { None }
    } else {
        None
    }
}

/// The pause before retrying a request refused with `429`, or nothing when it is time to give up.
pub fn pause(attempt: usize, told: Option<u64>) -> (r: Option<u64>)
    ensures
        r == pause_of(attempt as nat, told),
{
    if attempt < 3 {
        let default: u64 = if attempt == 0 {
            5
        } else if attempt == 1 {
            15
        } else {
            30
        };
        let wait = match told {
            Some(t) => t,
            None => default,
        };
        if wait <= 60 {
            Some(wait)
        } else {
            None
        }
    } else {
        None
    }
}

/// A `429` is retried at most three times, and no pause is longer than a minute.
pub proof fn lemma_retries_bounded(attempt: nat, told: Option<u64>)
    ensures
        attempt >= 3 ==> pause_of(attempt, told) is None,
        pause_of(attempt, told) matches Some(w) ==> w <= 60,
        told is None && attempt < 3 ==> pause_of(attempt, told) is Some,
{
}

/// The answer when Azure's rate limit stays exhausted.
pub fn exhausted(url: &str, seen: &str) -> (r: String)
    ensures
        r@ == "Ліміт Azure вичерпано (429) для "@ + url@ + ": повторіть пізніше. Заголовки ліміту: "@ + seen@
            + "."@,
{
    let mut r = String::from_str("Ліміт Azure вичерпано (429) для ");
    r.append(url);
    r.append(": повторіть пізніше. Заголовки ліміту: ");
    r.append(seen);
    r.append(".");
    r
}

/// Where the first member named `key` stands.
fn position(m: &Vec<(String, Json)>, key: &str) -> (r: Option<usize>)
    ensures
        match r {
            Some(k) => k < m@.len() && lookup(m@, key@) == Some(m@[k as int].1),
            None => lookup(m@, key@) is None,
        },
{
    let wanted = String::from_str(key);
    let n = m.len();
    let mut i: usize = 0;
    assert(m@.skip(0) == m@);
    while i < n
        invariant
            n == m@.len(),
            i <= n,
            wanted@ == key@,
            lookup(m@, key@) == lookup(m@.skip(i as int), key@),
        decreases n - i,
    {
        assert(m@.skip(i as int).drop_first() == m@.skip(i as int + 1));
        if m[i].0 == wanted {
            return Some(i);
        }
        i = i + 1;
    }
    None
}

/// One page of a listing: its items, and the link to the next page if there is one.
pub fn page(body: Json) -> (r: (Vec<Json>, Option<String>))
    requires
        items_of(member(body, "value"@)) is Some,
    ensures
        r.0@ == items_of(member(body, "value"@)).unwrap(),
        match r.1 {
            Some(link) => str_of(member(body, "nextLink"@)) == Some(link@),
            None => str_of(member(body, "nextLink"@)) is None,
        },
{
    let next = match member_of(&body, "nextLink") {
        Some(Json::Str(s)) => Some(s.clone()),
        _ => None,
    };
    match body {
        Json::Object(mut m) => {
            match position(&m, "value") {
                Some(k) => {
                    let (_, value) = m.remove(k);
                    match value {
                        Json::Array(a) => (a, next),
                        _ => {
                            assert(false);
                            (Vec::new(), next)
                        },
                    }
                },
                None => {
                    assert(false);
                    (Vec::new(), next)
                },
            }
        },
        _ => {
            assert(false);
            (Vec::new(), next)
        },
    }
}

} // verus!
