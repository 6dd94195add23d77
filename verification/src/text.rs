//! Character-sequence helpers shared by the renderers and the validators:
//! building `String`s, comparing and searching text, joining, and writing
//! numbers in decimal and hexadecimal.

use vstd::prelude::*;

verus! {

/// Appends one character to a `String` (std `String::push`): the new view is
/// the old one with `c` added at the end.
#[verifier::external_body]
pub fn push_char(s: &mut String, c: char)
    ensures
        final(s)@ == old(s)@.push(c),
{
    s.push(c);
}

/// A `String` holding the single character `c`.
pub fn char_string(c: char) -> (r: String)
    ensures
        r@ == seq![c],
{
    let mut r = String::new();
    push_char(&mut r, c);
    r
}

/// The view of an optional string slice.
pub open spec fn opt_view(o: Option<&str>) -> Option<Seq<char>> {
    match o {
        Some(s) => Some(s@),
        None => None,
    }
}

/// The characters of `s`, in order.
pub fn chars_of(s: &str) -> (r: Vec<char>)
    ensures
        r@ == s@,
{
    let mut r: Vec<char> = Vec::new();
    for c in it: s.chars()
        invariant
            r@ == s@.take(it.index() as int),
            it.seq() == s@,
    {
        r.push(c);
    }
    r
}

/// A `String` holding exactly the characters of `s`.
pub fn string_of(s: &str) -> (r: String)
    ensures
        r@ == s@,
{
    let mut r = String::new();
    r.append(s);
    r
}

/// Whether two character vectors hold the same characters.
pub fn chars_eq(a: &Vec<char>, b: &Vec<char>) -> (r: bool)
    ensures
        r == (a@ == b@),
{
    if a.len() != b.len() {
        return false;
    }
    let mut i: usize = 0;
    while i < a.len()
        invariant
            a.len() == b.len(),
            i <= a.len(),
            forall|j: int| 0 <= j < i ==> a@[j] == b@[j],
        decreases a.len() - i,
    {
        if a[i] != b[i] {
            return false;
        }
        i = i + 1;
    }
    assert(a@ =~= b@);
    true
}

/// Whether two strings hold the same characters.
pub fn str_eq(a: &str, b: &str) -> (r: bool)
    ensures
        r == (a@ == b@),
{
    let x = chars_of(a);
    let y = chars_of(b);
    chars_eq(&x, &y)
}

/// `needle` occurs in `hay` starting at position `i`.
pub open spec fn occurs_at(hay: Seq<char>, needle: Seq<char>, i: int) -> bool {
    &&& 0 <= i
    &&& i + needle.len() <= hay.len()
    &&& hay.subrange(i, i + needle.len()) == needle
}

/// `needle` occurs somewhere in `hay` (std `str::contains` on a `&str` pattern).
pub open spec fn contains_text(hay: Seq<char>, needle: Seq<char>) -> bool {
    exists|i: int| occurs_at(hay, needle, i)
}

/// Whether `needle` occurs in `hay`.
pub fn contains_str(hay: &str, needle: &str) -> (r: bool)
    ensures
        r == contains_text(hay@, needle@),
{
    let h = chars_of(hay);
    let n = chars_of(needle);
    if n.len() > h.len() {
        assert forall|i: int| !#[trigger] occurs_at(hay@, needle@, i) by {}
        return false;
    }
    let last = h.len() - n.len();
    let mut i: usize = 0;
    while i <= last
        invariant
            h@ == hay@,
            n@ == needle@,
            n.len() <= h.len(),
            last == h.len() - n.len(),
            i <= last + 1,
            forall|k: int| 0 <= k < i ==> !#[trigger] occurs_at(hay@, needle@, k),
        decreases last + 1 - i,
    {
        let mut j: usize = 0;
        let mut same = true;
        while j < n.len()
            invariant
                h@ == hay@,
                n@ == needle@,
                n.len() <= h.len(),
                i <= last,
                last == h.len() - n.len(),
                j <= n.len(),
                same == (forall|m: int| 0 <= m < j ==> h@[i + m] == n@[m]),
            decreases n.len() - j,
        {
            if h[i + j] != n[j] {
                same = false;
            }
            j = j + 1;
        }
        if same {
            assert(hay@.subrange(i as int, i + needle@.len()) =~= needle@);
            assert(occurs_at(hay@, needle@, i as int));
            return true;
        }
        assert(!occurs_at(hay@, needle@, i as int)) by {
            let m = choose|m: int| 0 <= m < n.len() && h@[i + m] != n@[m];
            if hay@.subrange(i as int, i + needle@.len()) == needle@ {
                assert(hay@.subrange(i as int, i + needle@.len())[m] == h@[i + m]);
            }
        }
        i = i + 1;
    }
    assert forall|k: int| !#[trigger] occurs_at(hay@, needle@, k) by {
        if 0 <= k < i {
        }
    }
    false
}

/// `s` without `suffix`, when `s` ends with `suffix` (std `str::strip_suffix`).
pub open spec fn strip_suffix_text(s: Seq<char>, suffix: Seq<char>) -> Option<Seq<char>> {
    if suffix.len() <= s.len() && s.subrange(s.len() - suffix.len(), s.len() as int) == suffix {
        Some(s.subrange(0, s.len() - suffix.len()))
    } else {
        None
    }
}

/// `s` without `suffix`, when `s` ends with `suffix`.
pub fn strip_suffix(s: &str, suffix: &str) -> (r: Option<String>)
    ensures
        match r {
            Some(t) => strip_suffix_text(s@, suffix@) == Some(t@),
            None => strip_suffix_text(s@, suffix@) is None,
        },
{
    let h = chars_of(s);
    let n = chars_of(suffix);
    if n.len() > h.len() {
        return None;
    }
    let start = h.len() - n.len();
    let mut j: usize = 0;
    while j < n.len()
        invariant
            h@ == s@,
            n@ == suffix@,
            n.len() <= h.len(),
            start == h.len() - n.len(),
            j <= n.len(),
            forall|m: int| 0 <= m < j ==> h@[start + m] == n@[m],
        decreases n.len() - j,
    {
        if h[start + j] != n[j] {
            assert(s@.subrange(start as int, s@.len() as int)[j as int] != suffix@[j as int]);
            return None;
        }
        j = j + 1;
    }
    assert(s@.subrange(start as int, s@.len() as int) =~= suffix@);
    let mut out = String::new();
    let mut i: usize = 0;
    while i < start
        invariant
            h@ == s@,
            start <= h.len(),
            i <= start,
            out@ == s@.subrange(0, i as int),
        decreases start - i,
    {
        push_char(&mut out, h[i]);
        assert(out@ =~= s@.subrange(0, i + 1));
        i = i + 1;
    }
    Some(out)
}

/// The parts joined with `sep` between consecutive parts (std `[String]::join`).
pub open spec fn join_text(parts: Seq<Seq<char>>, sep: Seq<char>) -> Seq<char>
    decreases parts.len(),
{
    if parts.len() == 0 {
        Seq::empty()
    } else if parts.len() == 1 {
        parts[0]
    } else {
        join_text(parts.drop_last(), sep) + sep + parts.last()
    }
}

/// The views of a vector of strings.
pub open spec fn views(v: Seq<String>) -> Seq<Seq<char>> {
    Seq::new(v.len(), |i: int| v[i]@)
}

/// Joins `parts` with `sep` between consecutive parts.
pub fn join(parts: &[String], sep: &str) -> (r: String)
    ensures
        r@ == join_text(views(parts@), sep@),
{
    let mut out = String::new();
    let mut i: usize = 0;
    while i < parts.len()
        invariant
            i <= parts.len(),
            out@ == join_text(views(parts@).take(i as int), sep@),
        decreases parts.len() - i,
    {
        let ghost before = views(parts@).take(i as int);
        if i > 0 {
            out.append(sep);
        }
        out.append(parts[i].as_str());
        proof {
            let now = views(parts@).take(i + 1);
            assert(now.drop_last() =~= before);
            if i == 0 {
                assert(before =~= Seq::<Seq<char>>::empty());
            }
        }
        i = i + 1;
    }
    assert(views(parts@).take(parts.len() as int) =~= views(parts@));
    out
}

/// The decimal digit for `d < 10`.
pub open spec fn digit_char(d: nat) -> char {
    if d == 0 { '0' }
    else if d == 1 { '1' }
    else if d == 2 { '2' }
    else if d == 3 { '3' }
    else if d == 4 { '4' }
    else if d == 5 { '5' }
    else if d == 6 { '6' }
    else if d == 7 { '7' }
    else if d == 8 { '8' }
    else { '9' }
}

/// The lowercase hexadecimal digit for `d < 16`.
pub open spec fn hex_char(d: nat) -> char {
    if d < 10 { digit_char(d) }
    else if d == 10 { 'a' }
    else if d == 11 { 'b' }
    else if d == 12 { 'c' }
    else if d == 13 { 'd' }
    else if d == 14 { 'e' }
    else { 'f' }
}

/// `n` written in base 10 without leading zeros (`0` is `"0"`).
pub open spec fn decimal_text(n: nat) -> Seq<char>
    decreases n,
{
    if n < 10 {
        seq![digit_char(n)]
    } else {
        decimal_text(n / 10).push(digit_char(n % 10))
    }
}

/// `n` written in lowercase base 16 without leading zeros.
pub open spec fn hex_text(n: nat) -> Seq<char>
    decreases n,
{
    if n < 16 {
        seq![hex_char(n)]
    } else {
        hex_text(n / 16).push(hex_char(n % 16))
    }
}

/// `n` written in base 10, with a leading `-` when negative (std `i64` `Display`).
pub open spec fn int_text(n: int) -> Seq<char> {
    if n < 0 {
        seq!['-'] + decimal_text((-n) as nat)
    } else {
        decimal_text(n as nat)
    }
}

fn digit_of(d: u64) -> (c: char)
    requires
        d < 16,
    ensures
        c == hex_char(d as nat),
{
    if d == 0 { '0' }
    else if d == 1 { '1' }
    else if d == 2 { '2' }
    else if d == 3 { '3' }
    else if d == 4 { '4' }
    else if d == 5 { '5' }
    else if d == 6 { '6' }
    else if d == 7 { '7' }
    else if d == 8 { '8' }
    else if d == 9 { '9' }
    else if d == 10 { 'a' }
    else if d == 11 { 'b' }
    else if d == 12 { 'c' }
    else if d == 13 { 'd' }
    else if d == 14 { 'e' }
    else { 'f' }
}

/// Appends `n` in base 10 to `out`.
pub fn push_decimal(out: &mut String, n: u64)
    ensures
        final(out)@ == old(out)@ + decimal_text(n as nat),
    decreases n,
{
    if n < 10 {
        push_char(out, digit_of(n));
        assert(decimal_text(n as nat) == seq![digit_char(n as nat)]);
    } else {
        push_decimal(out, n / 10);
        push_char(out, digit_of(n % 10));
        assert(decimal_text(n as nat) == decimal_text((n / 10) as nat).push(digit_char((n % 10) as nat)));
    }
}

/// Appends `n` in lowercase base 16 to `out`.
pub fn push_hex(out: &mut String, n: u64)
    ensures
        final(out)@ == old(out)@ + hex_text(n as nat),
    decreases n,
{
    if n < 16 {
        push_char(out, digit_of(n));
        assert(hex_text(n as nat) == seq![hex_char(n as nat)]);
    } else {
        push_hex(out, n / 16);
        push_char(out, digit_of(n % 16));
        assert(hex_text(n as nat) == hex_text((n / 16) as nat).push(hex_char((n % 16) as nat)));
    }
}

/// `n` in base 10 (std `usize` `Display`).
pub fn usize_text(n: usize) -> (r: String)
    ensures
        r@ == decimal_text(n as nat),
{
    let mut out = String::new();
    push_decimal(&mut out, n as u64);
    out
}

/// `n` in base 10 with a leading `-` when negative (std `i64` `Display`).
pub fn i64_text(n: i64) -> (r: String)
    ensures
        r@ == int_text(n as int),
{
    let mut out = String::new();
    if n < 0 {
        push_char(&mut out, '-');
        let m: u64 = if n == i64::MIN { 9223372036854775808u64 } else { (-n) as u64 };
        push_decimal(&mut out, m);
    } else {
        push_decimal(&mut out, n as u64);
    }
    out
}

// ─── ordering ─────────────────────────────────────────────────────────────

/// `a` comes before `b` in the order of std's `str` comparison: at the first
/// differing position the smaller code point, else the shorter first.
pub open spec fn text_lt(a: Seq<char>, b: Seq<char>) -> bool
    decreases a.len(),
{
    if a.len() == 0 {
        b.len() > 0
    } else if b.len() == 0 {
        false
    } else if a[0] != b[0] {
        a[0] < b[0]
    } else {
        text_lt(a.drop_first(), b.drop_first())
    }
}

/// No text comes before itself.
pub proof fn lemma_text_lt_irreflexive(a: Seq<char>)
    ensures
        !text_lt(a, a),
    decreases a.len(),
{
    if a.len() > 0 {
        lemma_text_lt_irreflexive(a.drop_first());
    }
}

/// The order is transitive.
pub proof fn lemma_text_lt_transitive(a: Seq<char>, b: Seq<char>, c: Seq<char>)
    requires
        text_lt(a, b),
        text_lt(b, c),
    ensures
        text_lt(a, c),
    decreases a.len(),
{
    if a.len() > 0 && b.len() > 0 && c.len() > 0 && a[0] == b[0] && b[0] == c[0] {
        lemma_text_lt_transitive(a.drop_first(), b.drop_first(), c.drop_first());
    }
}

/// Any two texts are equal or ordered one way.
pub proof fn lemma_text_lt_total(a: Seq<char>, b: Seq<char>)
    ensures
        a == b || text_lt(a, b) || text_lt(b, a),
    decreases a.len(),
{
    if a.len() == 0 && b.len() == 0 {
        assert(a =~= b);
    } else if a.len() > 0 && b.len() > 0 && a[0] == b[0] {
        lemma_text_lt_total(a.drop_first(), b.drop_first());
        if a.drop_first() == b.drop_first() {
            assert(a =~= seq![a[0]] + a.drop_first());
            assert(b =~= seq![b[0]] + b.drop_first());
        }
    }
}

/// Whether `a` comes before `b` (std `str` `<`).
pub fn str_lt(a: &str, b: &str) -> (r: bool)
    ensures
        r == text_lt(a@, b@),
{
    let x = chars_of(a);
    let y = chars_of(b);
    let mut i: usize = 0;
    assert(a@.skip(0) =~= a@);
    assert(b@.skip(0) =~= b@);
    while i < x.len() && i < y.len()
        invariant
            x@ == a@,
            y@ == b@,
            i <= x.len(),
            i <= y.len(),
            text_lt(a@, b@) == text_lt(a@.skip(i as int), b@.skip(i as int)),
        decreases x.len() - i,
    {
        assert(a@.skip(i as int)[0] == x@[i as int]);
        assert(b@.skip(i as int)[0] == y@[i as int]);
        if x[i] != y[i] {
            return x[i] < y[i];
        }
        assert(a@.skip(i as int).drop_first() =~= a@.skip(i + 1));
        assert(b@.skip(i as int).drop_first() =~= b@.skip(i + 1));
        i = i + 1;
    }
    assert(a@.skip(i as int).len() == x.len() - i);
    assert(b@.skip(i as int).len() == y.len() - i);
    i < y.len()
}

/// `l` with `x` inserted before the first text not before it, unless `x` is
/// already there (for a strictly ascending `l`: the ascending list of
/// `l`'s texts and `x`).
pub open spec fn insert_text(l: Seq<Seq<char>>, x: Seq<char>) -> Seq<Seq<char>>
    decreases l.len(),
{
    if l.len() == 0 {
        seq![x]
    } else if l[0] == x {
        l
    } else if text_lt(x, l[0]) {
        seq![x] + l
    } else {
        seq![l[0]] + insert_text(l.drop_first(), x)
    }
}

/// The texts of `ts`, each once, in ascending order.
pub open spec fn sorted_texts(ts: Seq<Seq<char>>) -> Seq<Seq<char>>
    decreases ts.len(),
{
    if ts.len() == 0 {
        Seq::empty()
    } else {
        insert_text(sorted_texts(ts.drop_last()), ts.last())
    }
}

/// The texts are in strictly ascending order (so each occurs once).
pub open spec fn ascending(l: Seq<Seq<char>>) -> bool {
    forall|i: int, j: int| 0 <= i < j < l.len() ==> text_lt(l[i], l[j])
}

pub proof fn lemma_insert_text(l: Seq<Seq<char>>, x: Seq<char>)
    requires
        ascending(l),
    ensures
        ascending(insert_text(l, x)),
        insert_text(l, x).to_set() == l.to_set().insert(x),
    decreases l.len(),
{
    let r = insert_text(l, x);
    if l.len() == 0 {
        assert(r.to_set() =~= l.to_set().insert(x)) by {
            assert(r[0] == x);
        }
    } else if l[0] == x {
        assert(r.to_set() =~= l.to_set().insert(x)) by {
            assert(l.contains(x));
        }
    } else if text_lt(x, l[0]) {
        assert forall|i: int, j: int| 0 <= i < j < r.len() implies text_lt(r[i], r[j]) by {
            if i == 0 {
                if j > 1 {
                    lemma_text_lt_transitive(x, l[0], l[j - 1]);
                }
            } else {
                assert(r[i] == l[i - 1] && r[j] == l[j - 1]);
            }
        }
        assert forall|y: Seq<char>| r.to_set().contains(y) <==> l.to_set().insert(x).contains(y) by {
            if r.contains(y) {
                let k = choose|k: int| 0 <= k < r.len() && r[k] == y;
                if k > 0 {
                    assert(l[k - 1] == y);
                }
            }
            if l.contains(y) {
                let k = choose|k: int| 0 <= k < l.len() && l[k] == y;
                assert(r[k + 1] == y);
            }
            if y == x {
                assert(r[0] == y);
            }
        }
        assert(r.to_set() =~= l.to_set().insert(x));
    } else {
        let d = l.drop_first();
        assert forall|i: int, j: int| 0 <= i < j < d.len() implies text_lt(d[i], d[j]) by {
            assert(d[i] == l[i + 1] && d[j] == l[j + 1]);
        }
        lemma_insert_text(d, x);
        let t = insert_text(d, x);
        lemma_text_lt_total(x, l[0]);
        assert forall|i: int, j: int| 0 <= i < j < r.len() implies text_lt(r[i], r[j]) by {
            if i == 0 {
                assert(t.to_set().contains(r[j])) by {
                    assert(r[j] == t[j - 1]);
                }
                if r[j] != x {
                    assert(d.to_set().contains(r[j]));
                    let k = choose|k: int| 0 <= k < d.len() && d[k] == r[j];
                    assert(l[k + 1] == r[j]);
                }
            } else {
                assert(r[i] == t[i - 1] && r[j] == t[j - 1]);
            }
        }
        assert forall|y: Seq<char>| r.to_set().contains(y) <==> l.to_set().insert(x).contains(y) by {
            if r.contains(y) {
                let k = choose|k: int| 0 <= k < r.len() && r[k] == y;
                if k > 0 {
                    assert(t[k - 1] == y);
                    assert(t.to_set().contains(y));
                    if y != x {
                        let m = choose|m: int| 0 <= m < d.len() && d[m] == y;
                        assert(l[m + 1] == y);
                    }
                }
            }
            if l.contains(y) {
                let k = choose|k: int| 0 <= k < l.len() && l[k] == y;
                if k == 0 {
                    assert(r[0] == y);
                } else {
                    assert(d[k - 1] == y);
                    assert(d.to_set().contains(y));
                    assert(t.to_set().contains(y));
                    let m = choose|m: int| 0 <= m < t.len() && t[m] == y;
                    assert(r[m + 1] == y);
                }
            }
            if y == x {
                assert(t.to_set().contains(y));
                let m = choose|m: int| 0 <= m < t.len() && t[m] == y;
                assert(r[m + 1] == y);
            }
        }
        assert(r.to_set() =~= l.to_set().insert(x));
    }
}

/// The ascending list of `ts`'s texts is ascending and holds exactly the
/// texts of `ts`.
pub proof fn lemma_sorted_texts(ts: Seq<Seq<char>>)
    ensures
        ascending(sorted_texts(ts)),
        sorted_texts(ts).to_set() == ts.to_set(),
    decreases ts.len(),
{
    if ts.len() == 0 {
        assert(sorted_texts(ts).to_set() =~= ts.to_set());
    } else {
        let d = ts.drop_last();
        lemma_sorted_texts(d);
        lemma_insert_text(sorted_texts(d), ts.last());
        assert forall|y: Seq<char>| ts.to_set().contains(y) <==> d.to_set().insert(ts.last()).contains(y) by {
            if ts.contains(y) {
                let k = choose|k: int| 0 <= k < ts.len() && ts[k] == y;
                if k < d.len() {
                    assert(d[k] == y);
                }
            }
            if d.contains(y) {
                let k = choose|k: int| 0 <= k < d.len() && d[k] == y;
                assert(ts[k] == y);
            }
            if y == ts.last() {
                assert(ts[ts.len() - 1] == y);
            }
        }
        assert(ts.to_set() =~= d.to_set().insert(ts.last()));
    }
}

/// Adds `x` to an ascending list of strings, keeping it ascending and
/// holding each text once (as std's `BTreeSet::insert`).
pub fn insert_sorted(list: &mut Vec<String>, x: &str)
    ensures
        views(final(list)@) == insert_text(views(old(list)@), x@),
{
    let ghost l = views(list@);
    let mut i: usize = 0;
    assert(l.take(0) + l.skip(0) =~= l);
    while i < list.len()
        invariant
            views(list@) == l,
            l == views(old(list)@),
            i <= list@.len(),
            insert_text(l, x@) == l.take(i as int) + insert_text(l.skip(i as int), x@),
        decreases list.len() - i,
    {
        let ghost rest = l.skip(i as int);
        assert(rest[0] == list@[i as int]@);
        if str_eq(list[i].as_str(), x) {
            assert(l.take(i as int) + rest =~= l);
            return;
        }
        if str_lt(x, list[i].as_str()) {
            let ghost before = list@;
            list.insert(i, string_of(x));
            assert(views(list@) =~= l.take(i as int) + (seq![x@] + rest));
            return;
        }
        assert(rest.drop_first() =~= l.skip(i + 1));
        assert(l.take(i + 1) =~= l.take(i as int) + seq![rest[0]]);
        assert(l.take(i as int) + (seq![rest[0]] + insert_text(l.skip(i + 1), x@)) =~= l.take(i + 1)
            + insert_text(l.skip(i + 1), x@));
        i = i + 1;
    }
    assert(l.skip(i as int) =~= Seq::<Seq<char>>::empty());
    assert(l.take(i as int) =~= l);
    list.push(string_of(x));
    assert(views(list@) =~= l + seq![x@]);
}

/// The keys of a keyed list, in order.
pub open spec fn keys_of<V>(l: Seq<(String, V)>) -> Seq<Seq<char>> {
    Seq::new(l.len(), |i: int| l[i].0@)
}

/// `l` with the entry `(k, v)` put in key order: an entry whose key has
/// `k`'s text keeps its key and takes `v`; otherwise `(k, v)` goes before the
/// first entry whose key is not before `k` (for a list in strictly ascending
/// key order: what std's `BTreeMap::insert` does to the map's entries).
pub open spec fn insert_keyed<V>(l: Seq<(String, V)>, k: String, v: V) -> Seq<(String, V)>
    decreases l.len(),
{
    if l.len() == 0 {
        seq![(k, v)]
    } else if l[0].0@ == k@ {
        seq![(l[0].0, v)] + l.drop_first()
    } else if text_lt(k@, l[0].0@) {
        seq![(k, v)] + l
    } else {
        seq![l[0]] + insert_keyed(l.drop_first(), k, v)
    }
}

/// Putting an entry in key order puts its key in the key list as
/// `insert_text` does; on a list in strictly ascending key order the keys
/// stay strictly ascending.
pub proof fn lemma_insert_keyed<V>(l: Seq<(String, V)>, k: String, v: V)
    ensures
        keys_of(insert_keyed(l, k, v)) == insert_text(keys_of(l), k@),
        ascending(keys_of(l)) ==> ascending(keys_of(insert_keyed(l, k, v))),
    decreases l.len(),
{
    let ks = keys_of(l);
    if l.len() == 0 {
        assert(keys_of(insert_keyed(l, k, v)) =~= seq![k@]);
    } else {
        assert(ks[0] == l[0].0@);
        if l[0].0@ == k@ {
            assert(keys_of(insert_keyed(l, k, v)) =~= ks);
        } else if text_lt(k@, l[0].0@) {
            assert(keys_of(insert_keyed(l, k, v)) =~= seq![k@] + ks);
        } else {
            lemma_insert_keyed(l.drop_first(), k, v);
            assert(keys_of(l.drop_first()) =~= ks.drop_first());
            assert(keys_of(insert_keyed(l, k, v)) =~= seq![ks[0]] + keys_of(
                insert_keyed(l.drop_first(), k, v),
            ));
        }
    }
    if ascending(ks) {
        lemma_insert_text(ks, k@);
    }
}

/// Puts `(k, v)` into a keyed list in key order, replacing the value of an
/// entry with the same key text.
pub fn insert_keyed_entry<V>(list: &mut Vec<(String, V)>, k: String, v: V)
    ensures
        final(list)@ == insert_keyed(old(list)@, k, v),
{
    let ghost l = list@;
    let mut i: usize = 0;
    assert(l.take(0) + l.skip(0) =~= l);
    while i < list.len()
        invariant
            list@ == l,
            l == old(list)@,
            i <= list@.len(),
            insert_keyed(l, k, v) == l.take(i as int) + insert_keyed(l.skip(i as int), k, v),
        decreases list.len() - i,
    {
        let ghost rest = l.skip(i as int);
        assert(rest[0] == list@[i as int]);
        if str_eq(list[i].0.as_str(), k.as_str()) {
            let (key, _) = list.remove(i);
            list.insert(i, (key, v));
            assert(rest.drop_first() =~= l.skip(i + 1));
            assert(list@ =~= l.take(i as int) + (seq![(rest[0].0, v)] + rest.drop_first()));
            return;
        }
        if str_lt(k.as_str(), list[i].0.as_str()) {
            list.insert(i, (k, v));
            assert(list@ =~= l.take(i as int) + (seq![(k, v)] + rest));
            return;
        }
        assert(rest.drop_first() =~= l.skip(i + 1));
        assert(l.take(i + 1) =~= l.take(i as int) + seq![rest[0]]);
        assert(l.take(i as int) + (seq![rest[0]] + insert_keyed(l.skip(i + 1), k, v)) =~= l.take(
            i + 1,
        ) + insert_keyed(l.skip(i + 1), k, v));
        i = i + 1;
    }
    assert(l.skip(i as int) =~= Seq::<(String, V)>::empty());
    assert(l.take(i as int) =~= l);
    list.push((k, v));
    assert(list@ =~= l + seq![(k, v)]);
}

} // verus!
