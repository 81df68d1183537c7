//! Character-level text helpers: the pieces every report line is made of.
use vstd::prelude::*;

verus! {

/// The code of a char with ASCII capitals folded to small letters; every other char keeps its code.
pub open spec fn folded(c: char) -> u32 {
    if 'A' <= c && c <= 'Z' {
        (c as u32 + 32) as u32
    } else {
        c as u32
    }
}

/// The code of a char with ASCII small letters raised to capitals; every other char keeps its code.
pub open spec fn raised(c: char) -> u32 {
    if 'a' <= c && c <= 'z' {
        (c as u32 - 32) as u32
    } else {
        c as u32
    }
}

/// Every char of the text is ASCII.
pub open spec fn all_ascii(s: Seq<char>) -> bool {
    forall|i: int| 0 <= i < s.len() ==> (#[trigger] s[i] as u32) < 128
}

/// Two texts are equal when ASCII letters are compared without regard to case.
pub open spec fn same_text(a: Seq<char>, b: Seq<char>) -> bool {
    &&& a.len() == b.len()
    &&& forall|i: int| 0 <= i < a.len() ==> #[trigger] folded(a[i]) == folded(b[i])
}

/// The pieces of `s` between the separator chars, in order (like `str::split` with a char).
pub open spec fn split(s: Seq<char>, sep: char) -> Seq<Seq<char>>
    decreases s.len(),
{
    if s.len() == 0 {
        seq![Seq::empty()]
    } else {
        let prev = split(s.drop_last(), sep);
        if s.last() == sep {
            prev.push(Seq::empty())
        } else {
            prev.update(prev.len() - 1, prev.last().push(s.last()))
        }
    }
}

/// `split` always yields at least one piece.
pub proof fn lemma_split_nonempty(s: Seq<char>, sep: char)
    ensures
        split(s, sep).len() >= 1,
    decreases s.len(),
{
    if s.len() > 0 {
        lemma_split_nonempty(s.drop_last(), sep);
    }
}

/// A text without the separator is one piece.
pub proof fn lemma_split_whole(s: Seq<char>, sep: char)
    requires
        forall|i: int| 0 <= i < s.len() ==> s[i] != sep,
    ensures
        split(s, sep) == seq![s],
    decreases s.len(),
{
    if s.len() == 0 {
        assert(s =~= Seq::<char>::empty());
    } else {
        lemma_split_whole(s.drop_last(), sep);
        assert(s.drop_last().push(s.last()) =~= s);
        assert(split(s, sep) =~= seq![s]);
    }
}

/// The items joined with `sep` between them.
pub open spec fn join(items: Seq<Seq<char>>, sep: Seq<char>) -> Seq<char>
    decreases items.len(),
{
    if items.len() == 0 {
        Seq::empty()
    } else if items.len() == 1 {
        items[0]
    } else {
        join(items.drop_last(), sep) + sep + items.last()
    }
}

/// The text of a decimal digit.
pub open spec fn digit_char(d: nat) -> char {
    if d == 0 { '0' }
    else if d == 1 { '1' }
    else if d == 2 { '2' }
    else if d == 3 { '3' }
    else if d == 4 { '4' }
    else if d == 5 { '5' }
    else if d == 6 { '6' }
    else if d == 7 { '7' }
    else if d == 8 { '8' }
    else { '9' }
}

/// The decimal text of a natural number, without leading zeros.
pub open spec fn decimal(n: nat) -> Seq<char>
    decreases n,
{
    if n < 10 {
        seq![digit_char(n)]
    } else {
        decimal(n / 10).push(digit_char(n % 10))
    }
}

/// The decimal text of an integer, with a minus sign when it is negative.
pub open spec fn signed(n: int) -> Seq<char> {
    if n < 0 {
        seq!['-'] + decimal((-n) as nat)
    } else {
        decimal(n as nat)
    }
}

/// `n` spaces.
pub open spec fn spaces(n: nat) -> Seq<char>
    decreases n,
{
    if n == 0 {
        Seq::empty()
    } else {
        spaces((n - 1) as nat).push(' ')
    }
}

/// Right-aligned in a field of `width` chars (`{:>width}`).
pub open spec fn pad_left(s: Seq<char>, width: nat) -> Seq<char> {
    if s.len() < width {
        spaces((width - s.len()) as nat) + s
    } else {
        s
    }
}

/// Left-aligned in a field of `width` chars (`{:<width}`).
pub open spec fn pad_right(s: Seq<char>, width: nat) -> Seq<char> {
    if s.len() < width {
        s + spaces((width - s.len()) as nat)
    } else {
        s
    }
}

/// `s` holds `needle` somewhere.
pub open spec fn holds(s: Seq<char>, needle: Seq<char>) -> bool {
    exists|i: int| 0 <= i <= s.len() - needle.len() && #[trigger] s.subrange(i, i + needle.len()) == needle
}

/// `s` ends with `tail`.
pub open spec fn ends_with(s: Seq<char>, tail: Seq<char>) -> bool {
    tail.len() <= s.len() && s.subrange(s.len() - tail.len(), s.len() as int) == tail
}

/// `s` starts with `head`.
pub open spec fn starts_with(s: Seq<char>, head: Seq<char>) -> bool {
    head.len() <= s.len() && s.subrange(0, head.len() as int) == head
}

/// The chars of a text, one by one.
pub fn chars(s: &str) -> (v: Vec<char>)
    ensures
        v@ == s@,
{
    let mut v: Vec<char> = Vec::new();
    for c in it: s.chars()
        invariant
            it.seq() == s@,
            v@ == it.seq().take(it.index() as int),
    {
        v.push(c);
        assert(v@ == it.seq().take(it.index() as int + 1));
    }
    v
}

/// `String::push`: appends one char; the contract claims that the text afterwards is the text
/// before with `c` at its end.
#[verifier::external_body]
pub(crate) fn push(s: &mut String, c: char)
    ensures
        final(s)@ == old(s)@.push(c),
{
    s.push(c);
}

/// The text made of the given chars.
pub fn string_of(v: &[char]) -> (s: String)
    ensures
        s@ == v@,
{
    let mut s = String::new();
    let n = v.len();
    for i in 0..n
        invariant
            n == v@.len(),
            s@ == v@.take(i as int),
    {
        push(&mut s, v[i]);
        assert(s@ == v@.take(i as int + 1));
    }
    assert(v@.take(n as int) == v@);
    s
}


/// The views of a list of texts.
pub open spec fn views(items: Seq<String>) -> Seq<Seq<char>> {
    items.map_values(|x: String| x@)
}

/// The char ranges of the pieces of `v` between separators: piece `k` is `v[r[k].0 .. r[k].1]`.
pub fn pieces(v: &Vec<char>, sep: char) -> (r: Vec<(usize, usize)>)
    ensures
        r@.len() == split(v@, sep).len(),
        forall|k: int| 0 <= k < r@.len() ==> #[trigger] r@[k].0 <= r@[k].1 <= v@.len(),
        forall|k: int|
            0 <= k < r@.len() ==> v@.subrange(r@[k].0 as int, r@[k].1 as int) == #[trigger] split(
                v@,
                sep,
            )[k],
{
    let mut r: Vec<(usize, usize)> = Vec::new();
    let mut start: usize = 0;
    let mut i: usize = 0;
    let n = v.len();
    while i < n
        invariant
            n == v@.len(),
            start <= i <= n,
            r@.len() + 1 == split(v@.take(i as int), sep).len(),
            v@.subrange(start as int, i as int) == split(v@.take(i as int), sep).last(),
            forall|k: int| 0 <= k < r@.len() ==> #[trigger] r@[k].0 <= r@[k].1 <= i,
            forall|k: int|
                0 <= k < r@.len() ==> v@.subrange(r@[k].0 as int, r@[k].1 as int)
                    == #[trigger] split(v@.take(i as int), sep)[k],
        decreases n - i,
    {
        let ghost before = split(v@.take(i as int), sep);
        let ghost old_r = r@;
        let ghost old_start = start;
        let ghost old_i = i;
        assert(forall|k: int| 0 <= k < old_r.len() ==> #[trigger] old_r[k].0 <= old_r[k].1 <= old_i);
        proof {
            lemma_split_nonempty(v@.take(i as int), sep);
            assert(v@.take(i as int + 1).drop_last() == v@.take(i as int));
            assert(v@.take(i as int + 1).last() == v@[i as int]);
        }
        if v[i] == sep {
            r.push((start, i));
            start = i + 1;
        }
        i = i + 1;
        proof {
            let after = split(v@.take(i as int), sep);
            if v@[old_i as int] == sep {
                assert(after == before.push(Seq::empty()));
                assert(v@.subrange(start as int, i as int) == Seq::<char>::empty());
            } else {
                assert(after == before.update(before.len() - 1, before.last().push(v@[old_i as int])));
                assert(v@.subrange(start as int, i as int) == v@.subrange(start as int, old_i as int).push(v@[old_i as int]));
            }
            assert forall|k: int| 0 <= k < r@.len() implies #[trigger] r@[k].0 <= r@[k].1 <= i by {
                if k < old_r.len() {
                    assert(r@[k] == old_r[k]);
                    assert(old_r[k].0 <= old_r[k].1 <= old_i);
                } else {
                    assert(r@[k] == (old_start, old_i));
                }
            }
            assert forall|k: int| 0 <= k < r@.len() implies v@.subrange(r@[k].0 as int, r@[k].1 as int)
                == #[trigger] after[k] by {
                if k < old_r.len() {
                    assert(r@[k] == old_r[k]);
                    assert(after[k] == before[k]);
                } else {
                    assert(r@[k] == (old_start, old_i));
                    assert(after[k] == before.last());
                }
            }
            assert(v@.subrange(start as int, i as int) == after.last());
        }
    }
    assert(v@.take(n as int) == v@);
    let ghost old_r = r@;
    r.push((start, n));
    assert forall|k: int| 0 <= k < r@.len() implies #[trigger] r@[k].0 <= r@[k].1 <= v@.len() by {
        if k < old_r.len() {
            assert(r@[k] == old_r[k]);
        }
    }
    assert forall|k: int| 0 <= k < r@.len() implies v@.subrange(r@[k].0 as int, r@[k].1 as int)
        == #[trigger] split(v@, sep)[k] by {
        if k < old_r.len() {
            assert(r@[k] == old_r[k]);
        }
    }
    r
}

/// Whether the chars `v[from..to]` are `w` when ASCII case is ignored.
pub fn same_range(v: &Vec<char>, from: usize, to: usize, w: &Vec<char>) -> (b: bool)
    requires
        from <= to <= v@.len(),
    ensures
        b == same_text(v@.subrange(from as int, to as int), w@),
{
    if to - from != w.len() {
        return false;
    }
    let mut i: usize = 0;
    while i < w.len()
        invariant
            from <= to <= v@.len(),
            to - from == w@.len(),
            i <= w@.len(),
            forall|j: int| 0 <= j < i ==> #[trigger] folded(v@[from + j]) == folded(w@[j]),
        decreases w@.len() - i,
    {
        if fold(v[from + i]) != fold(w[i]) {
            assert(folded(v@.subrange(from as int, to as int)[i as int]) != folded(w@[i as int]));
            return false;
        }
        i = i + 1;
    }
    assert forall|j: int| 0 <= j < w@.len() implies #[trigger] folded(
        v@.subrange(from as int, to as int)[j],
    ) == folded(w@[j]) by {
        assert(v@.subrange(from as int, to as int)[j] == v@[from + j]);
    }
    true
}

/// The folded code of a char.
pub fn fold(c: char) -> (r: u32)
    ensures
        r == folded(c),
{
    if 'A' <= c && c <= 'Z' {
        c as u32 + 32
    } else {
        c as u32
    }
}

/// The decimal digit char of `d`.
pub fn digit(d: u64) -> (c: char)
    requires
        d < 10,
    ensures
        c == digit_char(d as nat),
{
    if d == 0 { '0' }
    else if d == 1 { '1' }
    else if d == 2 { '2' }
    else if d == 3 { '3' }
    else if d == 4 { '4' }
    else if d == 5 { '5' }
    else if d == 6 { '6' }
    else if d == 7 { '7' }
    else if d == 8 { '8' }
    else { '9' }
}

/// The decimal text of `n`.
pub fn decimal_of(n: u64) -> (s: String)
    ensures
        s@ == decimal(n as nat),
    decreases n,
{
    if n < 10 {
        let mut s = String::new();
        push(&mut s, digit(n));
        s
    } else {
        let mut s = decimal_of(n / 10);
        push(&mut s, digit(n % 10));
        s
    }
}

/// The decimal text of `n`, with a minus sign when negative.
pub fn signed_of(n: i64) -> (s: String)
    ensures
        s@ == signed(n as int),
{
    if n < 0 {
        let m: u64 = if n == i64::MIN { 9223372036854775808u64 } else { (-n) as u64 };
        let mut s = String::new();
        push(&mut s, '-');
        let t = decimal_of(m);
        s.append(t.as_str());
        s
    } else {
        decimal_of(n as u64)
    }
}

/// Appends `n` spaces.
pub fn push_spaces(s: &mut String, n: usize)
    ensures
        final(s)@ == old(s)@ + spaces(n as nat),
{
    let mut i: usize = 0;
    while i < n
        invariant
            i <= n,
            s@ == old(s)@ + spaces(i as nat),
        decreases n - i,
    {
        push(s, ' ');
        i = i + 1;
        assert(spaces(i as nat) == spaces((i - 1) as nat).push(' '));
    }
}

/// Appends `t` right-aligned in a field of `width` chars.
pub fn push_pad_left(s: &mut String, t: &str, width: usize)
    ensures
        final(s)@ == old(s)@ + pad_left(t@, width as nat),
{
    let n = t.unicode_len();
    if n < width {
        push_spaces(s, width - n);
    }
    s.append(t);
}

/// Appends `t` left-aligned in a field of `width` chars.
pub fn push_pad_right(s: &mut String, t: &str, width: usize)
    ensures
        final(s)@ == old(s)@ + pad_right(t@, width as nat),
{
    let n = t.unicode_len();
    s.append(t);
    if n < width {
        push_spaces(s, width - n);
    }
}

/// The texts joined with `sep` between them.
pub fn join_all(items: &Vec<String>, sep: &str) -> (r: String)
    ensures
        r@ == join(views(items@), sep@),
{
    let mut r = String::new();
    let n = items.len();
    for i in 0..n
        invariant
            n == items@.len(),
            r@ == join(views(items@.take(i as int)), sep@),
    {
        proof {
            assert(views(items@.take(i as int + 1)).drop_last() == views(items@.take(i as int)));
        }
        if i > 0 {
            r.append(sep);
        }
        r.append(items[i].as_str());
        assert(views(items@.take(i as int + 1)).last() == items@[i as int]@);
    }
    assert(items@.take(n as int) == items@);
    r
}

/// Whether `v[from..]` starts with `w`.
pub fn matches_at(v: &Vec<char>, from: usize, w: &Vec<char>) -> (b: bool)
    requires
        from <= v@.len(),
    ensures
        b == (from + w@.len() <= v@.len() && v@.subrange(from as int, from + w@.len()) == w@),
{
    let n = v.len();
    if w.len() > n - from {
        return false;
    }
    let mut i: usize = 0;
    while i < w.len()
        invariant
            n == v@.len(),
            from + w@.len() <= n,
            i <= w@.len(),
            forall|j: int| 0 <= j < i ==> v@[from + j] == w@[j],
        decreases w@.len() - i,
    {
        if v[from + i] != w[i] {
            assert(v@.subrange(from as int, from + w@.len())[i as int] != w@[i as int]);
            return false;
        }
        i = i + 1;
    }
    assert(v@.subrange(from as int, from + w@.len()) == w@);
    true
}

/// Whether `s` holds `needle`.
pub fn contains(s: &str, needle: &str) -> (b: bool)
    ensures
        b == holds(s@, needle@),
{
    let v = chars(s);
    let w = chars(needle);
    if w.len() > v.len() {
        return false;
    }
    if w.len() == 0 {
        assert(s@.subrange(0int, 0int + needle@.len()) == needle@);
        return true;
    }
    let vn = v.len();
    let last = vn - w.len();
    let mut i: usize = 0;
    while i <= last
        invariant
            vn == v@.len(),
            v@ == s@,
            w@ == needle@,
            w@.len() > 0,
            last == v@.len() - w@.len(),
            last + 1 <= v@.len(),
            i <= last + 1,
            forall|j: int| 0 <= j < i ==> #[trigger] v@.subrange(j, j + w@.len()) != w@,
        decreases last + 1 - i,
    {
        if matches_at(&v, i, &w) {
            return true;
        }
        i = i + 1;
    }
    false
}

/// Whether `s` ends with `tail`.
pub fn ends(s: &str, tail: &str) -> (b: bool)
    ensures
        b == ends_with(s@, tail@),
{
    let v = chars(s);
    let w = chars(tail);
    if w.len() > v.len() {
        return false;
    }
    matches_at(&v, v.len() - w.len(), &w)
}

/// Whether `s` starts with `head`.
pub fn starts(s: &str, head: &str) -> (b: bool)
    ensures
        b == starts_with(s@, head@),
{
    let v = chars(s);
    let w = chars(head);
    matches_at(&v, 0, &w)
}


/// The Unicode lowercase of a text, as `str::to_lowercase` gives it.
pub uninterp spec fn lowercase(s: Seq<char>) -> Seq<char>;

/// The Unicode uppercase of a text, as `str::to_uppercase` gives it.
pub uninterp spec fn uppercase(s: Seq<char>) -> Seq<char>;

/// `str::to_lowercase`: the Unicode lowercase of `s`. The contract claims that the result is the
/// same for the same text (the name `lowercase` of it), and that an ASCII text keeps its length
/// with `A`–`Z` made `a`–`z` and every other char kept; Unicode's mapping of other chars is not
/// stated here.
#[verifier::external_body]
pub(crate) fn to_lower(s: &str) -> (r: String)
    ensures
        r@ == lowercase(s@),
        all_ascii(s@) ==> r@.len() == s@.len() && forall|i: int| 0 <= i < s@.len() ==> #[trigger] r@[i] as u32 == folded(s@[i]),
{
    s.to_lowercase()
}

/// `str::to_uppercase`: the Unicode uppercase of `s`. The contract claims that the result is the
/// same for the same text (the name `uppercase` of it), and that an ASCII text keeps its length
/// with `a`–`z` made `A`–`Z` and every other char kept; Unicode's mapping of other chars is not
/// stated here.
#[verifier::external_body]
pub(crate) fn to_upper(s: &str) -> (r: String)
    ensures
        r@ == uppercase(s@),
        all_ascii(s@) ==> r@.len() == s@.len() && forall|i: int| 0 <= i < s@.len() ==> #[trigger] r@[i] as u32 == raised(s@[i]),
{
    s.to_uppercase()
}


/// One more item of a filtered list: it joins the filtered items where the predicate holds.
pub proof fn lemma_filter_step<A>(s: Seq<A>, i: int, pred: spec_fn(A) -> bool)
    requires
        0 <= i < s.len(),
    ensures
        s.take(i + 1).filter(pred) == (if pred(s[i]) {
            s.take(i).filter(pred).push(s[i])
        } else {
            s.take(i).filter(pred)
        }),
{
    reveal(Seq::filter);
    assert(s.take(i + 1).drop_last() == s.take(i));
}

/// Filtering a mapped list is mapping the list filtered by the same test.
pub proof fn lemma_map_filter<A, B>(s: Seq<A>, g: spec_fn(A) -> B, p: spec_fn(B) -> bool, q: spec_fn(A) -> bool)
    requires
        forall|k: int| 0 <= k < s.len() ==> p(g(#[trigger] s[k])) == q(s[k]),
    ensures
        s.map_values(g).filter(p) == s.filter(q).map_values(g),
    decreases s.len(),
{
    if s.len() > 0 {
        let rest = s.drop_last();
        assert forall|k: int| 0 <= k < rest.len() implies p(g(#[trigger] rest[k])) == q(rest[k]) by {
            assert(rest[k] == s[k]);
        }
        lemma_map_filter(rest, g, p, q);
        let t = s.map_values(g);
        lemma_filter_step(t, t.len() - 1, p);
        lemma_filter_step(s, s.len() - 1, q);
        assert(t.take(t.len() - 1) == rest.map_values(g));
        assert(t.take(t.len() as int) == t);
        assert(s.take(s.len() - 1) == rest);
        assert(s.take(s.len() as int) == s);
        if q(s.last()) {
            lemma_map_push(rest.filter(q), s.last(), g);
        }
    } else {
        assert(s.map_values(g).filter(p) =~= Seq::empty());
        assert(s.filter(q) =~= Seq::empty());
    }
}

/// One more item of a mapped list.
pub proof fn lemma_map_push<A, B>(s: Seq<A>, x: A, f: spec_fn(A) -> B)
    ensures
        s.push(x).map_values(f) == s.map_values(f).push(f(x)),
{
    assert(s.push(x).map_values(f) =~= s.map_values(f).push(f(x)));
}

/// One more item of a joined list.
pub proof fn lemma_join_push(items: Seq<Seq<char>>, x: Seq<char>, sep: Seq<char>)
    ensures
        join(items.push(x), sep) == if items.len() == 0 {
            x
        } else {
            join(items, sep) + sep + x
        },
{
    assert(items.push(x).drop_last() == items);
}


/// `i` is where `pat` first occurs in `s`.
pub open spec fn first_at(s: Seq<char>, pat: Seq<char>, i: int) -> bool {
    &&& 0 <= i <= s.len() - pat.len()
    &&& s.subrange(i, i + pat.len()) == pat
    &&& forall|j: int| 0 <= j < i ==> #[trigger] s.subrange(j, j + pat.len()) != pat
}

/// `s` cut at the first `pat` (`str::split_once`): the text before it and the text after it.
pub open spec fn split_once(s: Seq<char>, pat: Seq<char>) -> Option<(Seq<char>, Seq<char>)> {
    if exists|i: int| first_at(s, pat, i) {
        let i = choose|i: int| first_at(s, pat, i);
        Some((s.take(i), s.skip(i + pat.len())))
    } else {
        None
    }
}

/// The chars `v[from..to]`.
pub fn slice_of(v: &Vec<char>, from: usize, to: usize) -> (r: Vec<char>)
    requires
        from <= to <= v@.len(),
    ensures
        r@ == v@.subrange(from as int, to as int),
{
    let mut r: Vec<char> = Vec::new();
    for i in from..to
        invariant
            from <= to <= v@.len(),
            r@ == v@.subrange(from as int, i as int),
    {
        r.push(v[i]);
        assert(v@.subrange(from as int, i + 1) == v@.subrange(from as int, i as int).push(v@[i as int]));
    }
    r
}

/// Where `w` first occurs in `v`.
pub fn find(v: &Vec<char>, w: &Vec<char>) -> (r: Option<usize>)
    ensures
        match r {
            Some(i) => first_at(v@, w@, i as int),
            None => !exists|i: int| first_at(v@, w@, i),
        },
{
    if w.len() > v.len() {
        return None;
    }
    let vn = v.len();
    let last = vn - w.len();
    let mut i: usize = 0;
    while i <= last
        invariant
            vn == v@.len(),
            last == v@.len() - w@.len(),
            i <= last + 1,
            forall|j: int| 0 <= j < i ==> #[trigger] v@.subrange(j, j + w@.len()) != w@,
        decreases last + 1 - i,
    {
        if matches_at(v, i, w) {
            return Some(i);
        }
        if i == last {
            return None;
        }
        i = i + 1;
    }
    None
}

/// The first occurrence of a pattern is unique.
pub proof fn lemma_first_at_unique(s: Seq<char>, pat: Seq<char>, i: int, j: int)
    requires
        first_at(s, pat, i),
        first_at(s, pat, j),
    ensures
        i == j,
{
    if i < j {
        assert(s.subrange(i, i + pat.len()) == pat);
    }
    if j < i {
        assert(s.subrange(j, j + pat.len()) == pat);
    }
}

} // verus!
