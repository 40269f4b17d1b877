//! Text as sequences of characters.
//!
//! A `str` or a `String` is modelled by the sequence of its characters. The functions
//! here cover what the rest of the crate needs of text: trimming, ASCII folding,
//! splitting, joining, and the order by code point.
use vstd::prelude::*;
use vstd::relations::{sorted_by, total_ordering};
use vstd::std_specs::iter::IteratorSpec;

verus! {

/// `String::push` appends the given character to the end of the string.
pub assume_specification[ String::push ](s: &mut String, c: char)
    ensures
        final(s)@ == old(s)@.push(c),
;

/// `str::trim` returns the string without its leading and its trailing whitespace, where
/// whitespace is the `White_Space` property of Unicode.
pub assume_specification[ str::trim ](s: &str) -> (r: &str)
    ensures
        r@ == trimmed(s@),
;

/// `str::to_ascii_lowercase` returns a copy in which `A` to `Z` are mapped to `a` to `z`
/// and every other character is unchanged.
pub assume_specification[ str::to_ascii_lowercase ](s: &str) -> (r: String)
    ensures
        r@ == lowered(s@),
;

/// The code points with the Unicode property `White_Space`.
pub open spec fn is_white_space(c: char) -> bool {
    let n = c as int;
    ||| 0x09 <= n <= 0x0d
    ||| n == 0x20
    ||| n == 0x85
    ||| n == 0xa0
    ||| n == 0x1680
    ||| 0x2000 <= n <= 0x200a
    ||| n == 0x2028
    ||| n == 0x2029
    ||| n == 0x202f
    ||| n == 0x205f
    ||| n == 0x3000
}

/// `s` without its leading whitespace.
pub open spec fn trimmed_start(s: Seq<char>) -> Seq<char>
    decreases s.len(),
{
    if s.len() > 0 && is_white_space(s[0]) {
        trimmed_start(s.drop_first())
    } else {
        s
    }
}

/// `s` without its trailing whitespace.
pub open spec fn trimmed_end(s: Seq<char>) -> Seq<char>
    decreases s.len(),
{
    if s.len() > 0 && is_white_space(s.last()) {
        trimmed_end(s.drop_last())
    } else {
        s
    }
}

/// `s` without whitespace at either end.
pub open spec fn trimmed(s: Seq<char>) -> Seq<char> {
    trimmed_end(trimmed_start(s))
}

/// The ASCII lower case of one character.
pub open spec fn lowered_char(c: char) -> char {
    if 'A' as int <= c as int <= 'Z' as int {
        (c as int + 32) as char
    } else {
        c
    }
}

/// The ASCII lower case of a text.
pub open spec fn lowered(s: Seq<char>) -> Seq<char> {
    Seq::new(s.len(), |i: int| lowered_char(s[i]))
}

/// The texts that a list of strings holds.
pub open spec fn texts(v: Seq<String>) -> Seq<Seq<char>> {
    Seq::new(v.len(), |i: int| v[i]@)
}

/// The text that an optional string holds.
pub open spec fn opt_text(s: Option<String>) -> Option<Seq<char>> {
    match s {
        Some(t) => Some(t@),
        None => None,
    }
}

/// The text that an optional borrowed string holds.
pub open spec fn opt_str(s: Option<&str>) -> Option<Seq<char>> {
    match s {
        Some(t) => Some(t@),
        None => None,
    }
}

/// `s` without its trailing occurrences of `c`.
pub open spec fn without_trailing(s: Seq<char>, c: char) -> Seq<char>
    decreases s.len(),
{
    if s.len() > 0 && s.last() == c {
        without_trailing(s.drop_last(), c)
    } else {
        s
    }
}

/// Whether `s` begins with `p`.
pub open spec fn begins_with(s: Seq<char>, p: Seq<char>) -> bool {
    s.len() >= p.len() && s.take(p.len() as int) == p
}

/// Whether `s` ends with `p`.
pub open spec fn finishes_with(s: Seq<char>, p: Seq<char>) -> bool {
    s.len() >= p.len() && s.skip(s.len() - p.len()) == p
}

/// The pieces of `s` between occurrences of `sep`; always at least one.
pub open spec fn split_on(s: Seq<char>, sep: char) -> Seq<Seq<char>>
    decreases s.len(),
{
    if s.len() == 0 {
        seq![s]
    } else {
        let done = split_on(s.drop_last(), sep);
        if s.last() == sep {
            done.push(Seq::empty())
        } else {
            done.drop_last().push(done.last().push(s.last()))
        }
    }
}

/// The pieces one after the other with `sep` between two neighbours.
pub open spec fn joined(parts: Seq<Seq<char>>, sep: Seq<char>) -> Seq<char>
    decreases parts.len(),
{
    if parts.len() == 0 {
        Seq::empty()
    } else if parts.len() == 1 {
        parts[0]
    } else {
        joined(parts.drop_last(), sep) + sep + parts.last()
    }
}

/// Lexicographic order by code point, which is also the order of the UTF-8 bytes.
pub open spec fn precedes(a: Seq<char>, b: Seq<char>) -> bool
    decreases a.len(),
{
    b.len() > 0 && (a.len() == 0 || (a[0] as int) < (b[0] as int) || (a[0] == b[0] && precedes(
        a.drop_first(),
        b.drop_first(),
    )))
}

/// Every text strictly precedes the ones after it, so none occurs twice.
pub open spec fn ascending(s: Seq<Seq<char>>) -> bool {
    forall|i: int, j: int| 0 <= i < j < s.len() ==> precedes(#[trigger] s[i], #[trigger] s[j])
}

/// The members of a finite set of texts in ascending order.
pub open spec fn sorted_texts(s: Set<Seq<char>>) -> Seq<Seq<char>> {
    choose|q: Seq<Seq<char>>| ascending(q) && q.to_set() == s
}

/// No text precedes itself.
pub proof fn lemma_precedes_irreflexive(a: Seq<char>)
    ensures
        !precedes(a, a),
    decreases a.len(),
{
    if a.len() > 0 {
        lemma_precedes_irreflexive(a.drop_first());
    }
}

/// The order is transitive.
pub proof fn lemma_precedes_transitive(a: Seq<char>, b: Seq<char>, c: Seq<char>)
    requires
        precedes(a, b),
        precedes(b, c),
    ensures
        precedes(a, c),
    decreases a.len(),
{
    if a.len() > 0 && a[0] == b[0] && b[0] == c[0] {
        lemma_precedes_transitive(a.drop_first(), b.drop_first(), c.drop_first());
    }
}

/// Of two different texts one precedes the other.
pub proof fn lemma_precedes_total(a: Seq<char>, b: Seq<char>)
    ensures
        a == b || precedes(a, b) || precedes(b, a),
    decreases a.len(),
{
    if a.len() == 0 || b.len() == 0 {
        if a.len() == 0 && b.len() == 0 {
            assert(a =~= b);
        }
    } else if a[0] == b[0] {
        lemma_precedes_total(a.drop_first(), b.drop_first());
        if a.drop_first() == b.drop_first() {
            assert(a =~= seq![a[0]] + a.drop_first());
            assert(b =~= seq![b[0]] + b.drop_first());
        }
    }
}

/// Two ascending sequences with the same members are the same sequence.
pub proof fn lemma_ascending_unique(a: Seq<Seq<char>>, b: Seq<Seq<char>>)
    requires
        ascending(a),
        ascending(b),
        a.to_set() == b.to_set(),
    ensures
        a == b,
    decreases a.len(),
{
    if a.len() == 0 {
        if b.len() > 0 {
            assert(b.to_set().contains(b[0]));
            assert(a.to_set().contains(b[0]));
        }
        assert(a =~= b);
    } else {
        let x = a.last();
        assert(a.to_set().contains(x));
        assert(b.to_set().contains(x));
        let j = b.index_of(x);
        assert(b.contains(x));
        let y = b.last();
        assert(b.to_set().contains(y));
        assert(a.to_set().contains(y));
        let i = a.index_of(y);
        assert(a.contains(y));
        if x != y {
            assert(precedes(a[i], a[a.len() - 1]));
            assert(precedes(b[j], b[b.len() - 1]));
            lemma_precedes_transitive(x, y, x);
            lemma_precedes_irreflexive(x);
        }
        let a0 = a.drop_last();
        let b0 = b.drop_last();
        assert forall|v: Seq<char>| a0.to_set().contains(v) == b0.to_set().contains(v) by {
            if a0.contains(v) {
                let k = a0.index_of(v);
                assert(precedes(a[k], a[a.len() - 1]));
                lemma_precedes_irreflexive(x);
                assert(a[k] == v);
                assert(a.to_set().contains(v));
                assert(b.to_set().contains(v));
                let m = b.index_of(v);
                assert(b.contains(v));
                assert(m < b.len() - 1);
                assert(b0[m] == v);
            }
            if b0.contains(v) {
                let k = b0.index_of(v);
                assert(precedes(b[k], b[b.len() - 1]));
                lemma_precedes_irreflexive(x);
                assert(b[k] == v);
                assert(b.to_set().contains(v));
                assert(a.to_set().contains(v));
                let m = a.index_of(v);
                assert(a.contains(v));
                assert(m < a.len() - 1);
                assert(a0[m] == v);
            }
        }
        assert(a0.to_set() =~= b0.to_set());
        lemma_ascending_unique(a0, b0);
        assert(a =~= a0.push(x));
        assert(b =~= b0.push(x));
    }
}

/// An ascending sequence is the sorted form of the set of its members.
pub proof fn lemma_sorted_texts_is(q: Seq<Seq<char>>)
    requires
        ascending(q),
    ensures
        sorted_texts(q.to_set()) == q,
{
    let s = q.to_set();
    assert(ascending(q) && q.to_set() == s);
    lemma_ascending_unique(sorted_texts(s), q);
}

/// Putting a text between its neighbours keeps a sequence ascending.
pub proof fn lemma_ascending_insert(q: Seq<Seq<char>>, p: int, x: Seq<char>)
    requires
        ascending(q),
        0 <= p <= q.len(),
        forall|i: int| 0 <= i < p ==> precedes(#[trigger] q[i], x),
        p < q.len() ==> precedes(x, q[p]),
    ensures
        ascending(q.insert(p, x)),
        q.insert(p, x).to_set() == q.to_set().insert(x),
{
    let r = q.insert(p, x);
    assert forall|i: int, j: int| 0 <= i < j < r.len() implies precedes(
        #[trigger] r[i],
        #[trigger] r[j],
    ) by {
        if i == p && j > p + 1 {
            assert(precedes(q[p], q[j - 1]));
            lemma_precedes_transitive(x, q[p], q[j - 1]);
        } else if i < p && j > p {
            assert(precedes(q[i], q[j - 1]));
        } else if i > p {
            assert(precedes(q[i - 1], q[j - 1]));
        }
    }
    assert forall|v: Seq<char>| r.to_set().contains(v) == q.to_set().insert(x).contains(v) by {
        if r.contains(v) {
            let k = r.index_of(v);
            if k < p {
                assert(q[k] == v);
            } else if k > p {
                assert(q[k - 1] == v);
            }
        }
        if q.contains(v) {
            let k = q.index_of(v);
            if k < p {
                assert(r[k] == v);
            } else {
                assert(r[k + 1] == v);
            }
        }
        if v == x {
            assert(r[p] == v);
        }
    }
    assert(r.to_set() =~= q.to_set().insert(x));
}

/// The place where a text belongs in an ascending sequence that lacks it.
proof fn lemma_ascending_place(q: Seq<Seq<char>>, x: Seq<char>) -> (p: int)
    requires
        ascending(q),
        !q.contains(x),
    ensures
        0 <= p <= q.len(),
        forall|i: int| 0 <= i < p ==> precedes(#[trigger] q[i], x),
        p < q.len() ==> precedes(x, q[p]),
    decreases q.len(),
{
    if q.len() == 0 {
        0
    } else {
        let q0 = q.drop_last();
        assert(!q0.contains(x)) by {
            if q0.contains(x) {
                let k = q0.index_of(x);
                assert(q[k] == x);
            }
        }
        let p0 = lemma_ascending_place(q0, x);
        if p0 < q0.len() {
            assert forall|i: int| 0 <= i < p0 implies precedes(#[trigger] q[i], x) by {
                assert(q0[i] == q[i]);
            }
            p0
        } else {
            assert forall|i: int| 0 <= i < p0 implies precedes(#[trigger] q[i], x) by {
                assert(q0[i] == q[i]);
            }
            assert(q.contains(q.last()));
            lemma_precedes_total(q.last(), x);
            if precedes(q.last(), x) {
                q.len() as int
            } else {
                p0
            }
        }
    }
}

/// Every finite set of texts has its sorted form: ascending, and with the same members.
pub proof fn lemma_sorted_texts(s: Set<Seq<char>>)
    requires
        s.finite(),
    ensures
        ascending(sorted_texts(s)),
        sorted_texts(s).to_set() == s,
        sorted_texts(s).len() == s.len(),
    decreases s.len(),
{
    if s.len() == 0 {
        let q = Seq::<Seq<char>>::empty();
        assert(q.to_set() =~= s);
        assert(ascending(q));
        lemma_sorted_texts_is(q);
    } else {
        let x = s.choose();
        let s0 = s.remove(x);
        lemma_sorted_texts(s0);
        let q0 = sorted_texts(s0);
        assert(!q0.contains(x)) by {
            if q0.contains(x) {
                assert(q0.to_set().contains(x));
            }
        }
        let p = lemma_ascending_place(q0, x);
        lemma_ascending_insert(q0, p, x);
        let q = q0.insert(p, x);
        assert(s0.insert(x) =~= s);
        lemma_sorted_texts_is(q);
    }
}

/// The characters of a string, in order.
pub fn to_chars(s: &str) -> (v: Vec<char>)
    ensures
        v@ == s@,
{
    let mut v: Vec<char> = Vec::new();
    for c in it: s.chars()
        invariant
            v@ == it.seq().take(it.index() as int),
            it.seq() == s@,
    {
        v.push(c);
        assert(v@ =~= it.seq().take(it.index() + 1));
    }
    assert(v@ =~= s@);
    v
}

/// The string made of the characters `v[from..to]`.
pub fn from_chars(v: &Vec<char>, from: usize, to: usize) -> (s: String)
    requires
        from <= to <= v@.len(),
    ensures
        s@ == v@.subrange(from as int, to as int),
{
    let mut s = String::new();
    assert(s@ =~= v@.subrange(from as int, from as int));
    for i in from..to
        invariant
            from <= to <= v@.len(),
            s@ == v@.subrange(from as int, i as int),
    {
        s.push(v[i]);
        assert(s@ =~= v@.subrange(from as int, i + 1));
    }
    s
}

/// Whether two texts are equal.
pub fn same_text(a: &str, b: &str) -> (r: bool)
    ensures
        r == (a@ == b@),
{
    let mut x = a.chars();
    let mut y = b.chars();
    loop
        invariant
            (a@ == b@) == (x.remaining() == y.remaining()),
            x.decrease() is Some,
        decreases x.decrease()->0,
    {
        let ghost xs = x.remaining();
        let ghost ys = y.remaining();
        let p = x.next();
        let q = y.next();
        match (p, q) {
            (None, None) => {
                assert(xs =~= ys);
                return true;
            },
            (Some(c), Some(d)) => {
                if c != d {
                    return false;
                }
                assert(xs =~= seq![xs[0]] + xs.drop_first());
                assert(ys =~= seq![ys[0]] + ys.drop_first());
            },
            _ => {
                return false;
            },
        }
    }
}

/// Whether `a` comes strictly before `b`.
pub fn text_precedes(a: &str, b: &str) -> (r: bool)
    ensures
        r == precedes(a@, b@),
{
    let mut x = a.chars();
    let mut y = b.chars();
    loop
        invariant
            precedes(a@, b@) == precedes(x.remaining(), y.remaining()),
            x.decrease() is Some,
        decreases x.decrease()->0,
    {
        let p = x.next();
        let q = y.next();
        match (p, q) {
            (_, None) => {
                return false;
            },
            (None, Some(_)) => {
                return true;
            },
            (Some(c), Some(d)) => {
                if c != d {
                    return c < d;
                }
            },
        }
    }
}

/// Adds a text to an ascending list, unless it is there already.
pub fn insert_sorted(v: &mut Vec<String>, s: String)
    requires
        ascending(texts(old(v)@)),
    ensures
        ascending(texts(final(v)@)),
        texts(final(v)@).to_set() == texts(old(v)@).to_set().insert(s@),
{
    let ghost q = texts(v@);
    let mut p: usize = 0;
    while p < v.len() && text_precedes(v[p].as_str(), s.as_str())
        invariant
            p <= v@.len(),
            q == texts(v@),
            forall|i: int| 0 <= i < p ==> precedes(#[trigger] q[i], s@),
        decreases v@.len() - p,
    {
        p = p + 1;
    }
    if p < v.len() && same_text(v[p].as_str(), s.as_str()) {
        assert(q[p as int] == s@);
        assert(q.to_set().contains(s@));
        assert(q.to_set().insert(s@) =~= q.to_set());
        return;
    }
    proof {
        if p < v.len() {
            assert(!precedes(q[p as int], s@));
            lemma_precedes_total(q[p as int], s@);
        }
        lemma_ascending_insert(q, p as int, s@);
    }
    v.insert(p, s);
    assert(texts(v@) =~= q.insert(p as int, s@));
}

/// Whether `a` comes before `b` or equals it.
pub open spec fn at_most() -> spec_fn(Seq<char>, Seq<char>) -> bool {
    |a: Seq<char>, b: Seq<char>| a == b || precedes(a, b)
}

/// A list of texts in order, repetitions kept.
pub open spec fn in_order(s: Seq<Seq<char>>) -> Seq<Seq<char>> {
    s.sort_by(at_most())
}

/// The order on texts is total.
pub proof fn lemma_at_most_total()
    ensures
        total_ordering(at_most()),
{
    let r = at_most();
    assert forall|a: Seq<char>, b: Seq<char>| #[trigger] r(a, b) && #[trigger] r(b, a) implies a
        == b by {
        if a != b {
            lemma_precedes_transitive(a, b, a);
            lemma_precedes_irreflexive(a);
        }
    }
    assert forall|a: Seq<char>, b: Seq<char>, c: Seq<char>| #[trigger] r(a, b) && #[trigger] r(
        b,
        c,
    ) implies r(a, c) by {
        if a != b && b != c {
            lemma_precedes_transitive(a, b, c);
        }
    }
    assert forall|a: Seq<char>, b: Seq<char>| #[trigger] r(a, b) || #[trigger] r(b, a) by {
        lemma_precedes_total(a, b);
    }
}

/// A sorted list with the members of `s` is `s` in order.
pub proof fn lemma_in_order_is(s: Seq<Seq<char>>, q: Seq<Seq<char>>)
    requires
        sorted_by(q, at_most()),
        q.to_multiset() == s.to_multiset(),
    ensures
        in_order(s) == q,
{
    lemma_at_most_total();
    s.lemma_sort_by_ensures(at_most());
    vstd::seq_lib::lemma_sorted_unique(in_order(s), q, at_most());
}

/// An ascending list is already in order.
pub proof fn lemma_ascending_in_order(s: Seq<Seq<char>>)
    requires
        ascending(s),
    ensures
        in_order(s) == s,
{
    lemma_in_order_is(s, s);
}

/// The texts in order, repetitions kept.
pub fn sort_texts(list: &[String]) -> (r: Vec<String>)
    ensures
        texts(r@) == in_order(texts(list@)),
{
    let mut r: Vec<String> = Vec::new();
    let ghost le = at_most();
    proof {
        lemma_at_most_total();
        assert(texts(r@) =~= texts(list@).take(0));
    }
    for i in 0..list.len()
        invariant
            le == at_most(),
            total_ordering(le),
            sorted_by(texts(r@), le),
            texts(r@).to_multiset() == texts(list@).take(i as int).to_multiset(),
    {
        let ghost q = texts(r@);
        let ghost x = list@[i as int]@;
        let mut p: usize = r.len();
        while p > 0 && text_precedes(list[i].as_str(), r[p - 1].as_str())
            invariant
                0 <= i < list@.len(),
                p <= r@.len(),
                q == texts(r@),
                x == list@[i as int]@,
                forall|k: int| p <= k < q.len() ==> precedes(x, #[trigger] q[k]),
            decreases p,
        {
            p = p - 1;
        }
        proof {
            assert forall|k: int| 0 <= k < p implies le(#[trigger] q[k], x) by {
                lemma_precedes_total(q[p - 1], x);
                assert(le(q[p - 1], x));
                if k < p - 1 {
                    assert(le(q[k], q[p - 1]));
                }
            }
        }
        r.insert(p, list[i].clone());
        proof {
            let s = q.insert(p as int, x);
            assert(texts(r@) =~= s);
            assert forall|k: int, m: int| 0 <= k < m < s.len() implies #[trigger] le(
                s[k],
                s[m],
            ) by {
                if k < p && m == p {
                    assert(le(q[k], x));
                } else if k < p && m < p {
                    assert(le(q[k], q[m]));
                } else if k < p {
                    assert(le(q[k], q[m - 1]));
                } else if k == p {
                    assert(precedes(x, q[m - 1]));
                } else {
                    assert(le(q[k - 1], q[m - 1]));
                }
            }
            vstd::seq_lib::to_multiset_insert(q, p as int, x);
            vstd::seq_lib::to_multiset_build(texts(list@).take(i as int), x);
            assert(texts(list@).take(i + 1) =~= texts(list@).take(i as int).push(x));
        }
    }
    proof {
        assert(texts(list@).take(list@.len() as int) =~= texts(list@));
        lemma_in_order_is(texts(list@), texts(r@));
    }
    r
}

/// The parts one after the other with `sep` between two neighbours.
pub fn join(parts: &[String], sep: &str) -> (r: String)
    ensures
        r@ == joined(texts(parts@), sep@),
{
    let mut r = String::new();
    for i in 0..parts.len()
        invariant
            r@ == joined(texts(parts@).take(i as int), sep@),
    {
        let ghost before = texts(parts@).take(i as int);
        let ghost after = texts(parts@).take(i + 1);
        assert(after.drop_last() =~= before);
        if i > 0 {
            r.append(sep);
        }
        r.append(parts[i].as_str());
        proof {
            if i == 0 {
                assert(r@ =~= parts@[0]@);
            } else {
                assert(r@ =~= joined(before, sep@) + sep@ + after.last());
            }
        }
    }
    assert(texts(parts@).take(parts@.len() as int) =~= texts(parts@));
    r
}

/// `split_on` never yields the empty list.
pub proof fn lemma_split_on_nonempty(s: Seq<char>, sep: char)
    ensures
        split_on(s, sep).len() > 0,
    decreases s.len(),
{
    if s.len() > 0 {
        lemma_split_on_nonempty(s.drop_last(), sep);
    }
}

/// The pieces of `s` between occurrences of `sep`.
pub fn split(s: &str, sep: char) -> (r: Vec<String>)
    ensures
        texts(r@) == split_on(s@, sep),
{
    let mut done: Vec<String> = Vec::new();
    let mut last = String::new();
    assert(texts(done@).push(last@) =~= seq![last@]);
    assert(last@ =~= s@.take(0));
    for c in it: s.chars()
        invariant
            texts(done@).push(last@) == split_on(it.seq().take(it.index() as int), sep),
            it.seq() == s@,
    {
        let ghost before = it.seq().take(it.index() as int);
        let ghost after = it.seq().take(it.index() + 1);
        let ghost old_done = texts(done@);
        assert(after.drop_last() =~= before);
        assert(split_on(before, sep).drop_last() =~= old_done);
        if c == sep {
            let piece = last;
            done.push(piece);
            last = String::new();
            assert(texts(done@) =~= split_on(before, sep));
            assert(texts(done@).push(last@) =~= split_on(after, sep));
        } else {
            last.push(c);
            assert(texts(done@).push(last@) =~= split_on(after, sep));
        }
    }
    assert(s@.take(s@.len() as int) =~= s@);
    let ghost whole = texts(done@).push(last@);
    done.push(last);
    assert(texts(done@) =~= whole);
    done
}

/// Text without the separator is one piece.
proof fn lemma_split_on_whole(s: Seq<char>, sep: char)
    requires
        !s.contains(sep),
    ensures
        split_on(s, sep) == seq![s],
    decreases s.len(),
{
    if s.len() > 0 {
        let rest = s.drop_last();
        assert(s.last() == s[s.len() - 1]);
        assert(s.contains(s.last()));
        if rest.contains(sep) {
            let k = rest.index_of(sep);
            assert(s[k] == sep);
        }
        lemma_split_on_whole(rest, sep);
        let done = split_on(rest, sep);
        assert(done.drop_last().push(done.last().push(s.last())) =~= seq![s]) by {
            assert(rest.push(s.last()) =~= s);
        }
    }
}

/// A separator and a text without it add one piece.
proof fn lemma_split_on_append(s: Seq<char>, sep: char, t: Seq<char>)
    requires
        !t.contains(sep),
    ensures
        split_on(s + seq![sep] + t, sep) == split_on(s, sep).push(t),
    decreases t.len(),
{
    let whole = s + seq![sep] + t;
    if t.len() == 0 {
        assert(whole.drop_last() =~= s);
        assert(whole.last() == sep);
        assert(t =~= Seq::<char>::empty());
    } else {
        let rest = t.drop_last();
        assert(t.last() == t[t.len() - 1]);
        assert(t.contains(t.last()));
        if rest.contains(sep) {
            let k = rest.index_of(sep);
            assert(t[k] == sep);
        }
        lemma_split_on_append(s, sep, rest);
        assert(whole.drop_last() =~= s + seq![sep] + rest);
        assert(whole.last() == t.last());
        let done = split_on(s, sep).push(rest);
        assert(rest.push(t.last()) =~= t);
        assert(done.drop_last().push(done.last().push(t.last())) =~= split_on(s, sep).push(t));
    }
}

/// Pieces that are joined with a character that none of them holds can be told apart again:
/// splitting gives them back.
pub proof fn law_split_undoes_join(parts: Seq<Seq<char>>, sep: char)
    requires
        parts.len() > 0,
        forall|i: int| 0 <= i < parts.len() ==> !(#[trigger] parts[i]).contains(sep),
    ensures
        split_on(joined(parts, seq![sep]), sep) == parts,
    decreases parts.len(),
{
    if parts.len() == 1 {
        lemma_split_on_whole(parts[0], sep);
        assert(seq![parts[0]] =~= parts);
    } else {
        let rest = parts.drop_last();
        assert forall|i: int| 0 <= i < rest.len() implies !(#[trigger] rest[i]).contains(sep) by {
            assert(rest[i] == parts[i]);
        }
        law_split_undoes_join(rest, sep);
        assert(parts.last() == parts[parts.len() - 1]);
        lemma_split_on_append(joined(rest, seq![sep]), sep, parts.last());
        assert(rest.push(parts.last()) =~= parts);
    }
}

/// `s` without its trailing occurrences of `c`.
pub fn strip_trailing(s: &str, c: char) -> (r: String)
    ensures
        r@ == without_trailing(s@, c),
{
    let v = to_chars(s);
    let mut n: usize = v.len();
    assert(v@.subrange(0, n as int) =~= v@);
    while n > 0 && v[n - 1] == c
        invariant
            n <= v@.len(),
            without_trailing(s@, c) == without_trailing(v@.subrange(0, n as int), c),
        decreases n,
    {
        assert(v@.subrange(0, n as int).drop_last() =~= v@.subrange(0, n - 1));
        n = n - 1;
    }
    from_chars(&v, 0, n)
}

/// Whether `s` begins with `p`.
pub fn has_prefix(s: &str, p: &str) -> (r: bool)
    ensures
        r == begins_with(s@, p@),
{
    let x = to_chars(s);
    let y = to_chars(p);
    if x.len() < y.len() {
        return false;
    }
    for i in 0..y.len()
        invariant
            y@.len() <= x@.len(),
            y@ == p@,
            x@ == s@,
            forall|k: int| 0 <= k < i ==> x@[k] == y@[k],
    {
        if x[i] != y[i] {
            assert(x@.take(y@.len() as int)[i as int] != y@[i as int]);
            return false;
        }
    }
    assert(x@.take(y@.len() as int) =~= y@);
    true
}

/// Whether `s` ends with `p`.
pub fn has_suffix(s: &str, p: &str) -> (r: bool)
    ensures
        r == finishes_with(s@, p@),
{
    let x = to_chars(s);
    let y = to_chars(p);
    if x.len() < y.len() {
        return false;
    }
    let off: usize = x.len() - y.len();
    for i in 0..y.len()
        invariant
            off + y@.len() == x.len(),
            y@ == p@,
            x@ == s@,
            forall|k: int| 0 <= k < i ==> x@[off + k] == y@[k],
    {
        if x[off + i] != y[i] {
            assert(x@.skip(off as int)[i as int] != y@[i as int]);
            return false;
        }
    }
    assert(x@.skip(off as int) =~= y@);
    true
}

/// Whether the character occurs in the text.
pub fn has_char(s: &str, c: char) -> (r: bool)
    ensures
        r == s@.contains(c),
{
    for d in it: s.chars()
        invariant
            it.seq() == s@,
            forall|k: int| 0 <= k < it.index() ==> s@[k] != c,
    {
        if d == c {
            assert(s@[it.index() as int] == c);
            return true;
        }
    }
    false
}

/// Whether a text is in a list.
pub fn holds_text(list: &Vec<String>, x: &str) -> (r: bool)
    ensures
        r == texts(list@).contains(x@),
{
    for i in 0..list.len()
        invariant
            forall|k: int| 0 <= k < i ==> (#[trigger] texts(list@)[k]) != x@,
    {
        if same_text(list[i].as_str(), x) {
            assert(texts(list@)[i as int] == x@);
            return true;
        }
    }
    false
}

/// The text after its first `n` characters.
pub fn skip_chars(s: &str, n: usize) -> (r: String)
    requires
        n <= s@.len(),
    ensures
        r@ == s@.skip(n as int),
{
    let v = to_chars(s);
    let r = from_chars(&v, n, v.len());
    assert(r@ =~= s@.skip(n as int));
    r
}

/// Every text of a list in ASCII lower case.
pub open spec fn all_lowered(list: Seq<Seq<char>>) -> Seq<Seq<char>> {
    Seq::new(list.len(), |i: int| lowered(list[i]))
}

/// Every text of a list in ASCII lower case.
pub fn lower_all(list: &[String]) -> (r: Vec<String>)
    ensures
        texts(r@) == all_lowered(texts(list@)),
{
    let mut r: Vec<String> = Vec::new();
    let ghost all = all_lowered(texts(list@));
    for i in 0..list.len()
        invariant
            all == all_lowered(texts(list@)),
            texts(r@) == all.take(i as int),
    {
        let ghost before = texts(r@);
        r.push(list[i].as_str().to_ascii_lowercase());
        assert(texts(r@) =~= before.push(all[i as int]));
        assert(texts(r@) =~= all.take(i + 1));
    }
    assert(all.take(list@.len() as int) =~= all);
    r
}

/// The texts of a list in ascending order, without repetitions.
pub fn sort_distinct(list: Vec<String>) -> (r: Vec<String>)
    ensures
        texts(r@) == sorted_texts(texts(list@).to_set()),
        ascending(texts(r@)),
{
    let mut r: Vec<String> = Vec::new();
    let ghost all = texts(list@);
    assert(texts(r@).to_set() =~= all.take(0).to_set());
    for s in it: list
        invariant
            it.seq() == list@,
            all == texts(list@),
            ascending(texts(r@)),
            texts(r@).to_set() == all.take(it.index() as int).to_set(),
    {
        let ghost i = it.index() as int;
        assert(s@ == all[i]);
        insert_sorted(&mut r, s);
        proof {
            assert(all.take(i + 1) =~= all.take(i).push(all[i]));
            lemma_push_to_set(all.take(i), all[i]);
        }
    }
    proof {
        assert(all.take(list@.len() as int) =~= all);
        lemma_sorted_texts_is(texts(r@));
    }
    r
}

/// Pushing an element onto a sequence inserts it into the set of its members.
pub proof fn lemma_push_to_set<A>(s: Seq<A>, x: A)
    ensures
        s.push(x).to_set() == s.to_set().insert(x),
{
    assert forall|y: A| s.push(x).to_set().contains(y) == s.to_set().insert(x).contains(y) by {
        if s.push(x).contains(y) {
            let k = s.push(x).index_of(y);
            if k < s.len() {
                assert(s[k] == y);
            }
        }
        if s.contains(y) {
            let k = s.index_of(y);
            assert(s.push(x)[k] == y);
        }
        assert(s.push(x)[s.len() as int] == x);
    }
    assert(s.push(x).to_set() =~= s.to_set().insert(x));
}

/// A copy of a list of strings.
pub fn copy_texts(v: &[String]) -> (r: Vec<String>)
    ensures
        texts(r@) == texts(v@),
{
    let mut r: Vec<String> = Vec::new();
    for i in 0..v.len()
        invariant
            texts(r@) == texts(v@).take(i as int),
    {
        let ghost before = texts(r@);
        r.push(v[i].clone());
        assert(texts(r@) =~= before.push(v@[i as int]@));
        assert(texts(r@) =~= texts(v@).take(i + 1));
    }
    assert(texts(r@) =~= texts(v@));
    r
}

/// A copy of an optional string.
pub fn copy_opt(s: &Option<String>) -> (r: Option<String>)
    ensures
        opt_text(r) == opt_text(*s),
{
    match s {
        Some(t) => Some(t.clone()),
        None => None,
    }
}

/// One more entry of a list adds its text to the members.
pub proof fn lemma_take_contains(list: Seq<Seq<char>>, i: int, x: Seq<char>)
    requires
        0 <= i < list.len(),
    ensures
        list.take(i + 1).contains(x) == (list.take(i).contains(x) || list[i] == x),
{
    let a = list.take(i);
    let b = list.take(i + 1);
    if b.contains(x) {
        let k = b.index_of(x);
        if k < i {
            assert(a[k] == x);
        }
    }
    if a.contains(x) {
        let k = a.index_of(x);
        assert(b[k] == x);
    }
    assert(b[i] == list[i]);
}

/// One more entry of a list adds its text to the kept ones, if it is kept.
pub proof fn lemma_filter_step(
    list: Seq<Seq<char>>,
    keep: spec_fn(Seq<char>) -> bool,
    i: int,
)
    requires
        0 <= i < list.len(),
    ensures
        list.take(i + 1).filter(keep) == if keep(list[i]) {
            list.take(i).filter(keep).push(list[i])
        } else {
            list.take(i).filter(keep)
        },
{
    reveal(Seq::filter);
    assert(list.take(i + 1).drop_last() =~= list.take(i));
}

/// What is kept of an ascending list is ascending and consists of its kept members.
pub proof fn lemma_filter_ascending(list: Seq<Seq<char>>, keep: spec_fn(Seq<char>) -> bool)
    requires
        ascending(list),
    ensures
        ascending(list.filter(keep)),
        forall|x: Seq<char>| #[trigger]
            list.filter(keep).contains(x) <==> list.contains(x) && keep(x),
    decreases list.len(),
{
    reveal(Seq::filter);
    if list.len() > 0 {
        let rest = list.drop_last();
        let last = list.last();
        lemma_filter_ascending(rest, keep);
        let a = rest.filter(keep);
        let b = list.filter(keep);
        assert forall|x: Seq<char>| list.contains(x) == (rest.contains(x) || x == last) by {
            if list.contains(x) {
                let k = list.index_of(x);
                if k < rest.len() {
                    assert(rest[k] == x);
                }
            }
            if rest.contains(x) {
                let k = rest.index_of(x);
                assert(list[k] == x);
            }
            assert(list[list.len() - 1] == last);
        }
        if keep(last) {
            assert forall|x: Seq<char>| b.contains(x) == (a.contains(x) || x == last) by {
                if b.contains(x) {
                    let k = b.index_of(x);
                    if k < a.len() {
                        assert(a[k] == x);
                    }
                }
                if a.contains(x) {
                    let k = a.index_of(x);
                    assert(b[k] == x);
                }
                assert(b[b.len() - 1] == last);
            }
            assert forall|i: int, j: int| 0 <= i < j < b.len() implies precedes(
                #[trigger] b[i],
                #[trigger] b[j],
            ) by {
                if j < a.len() {
                    assert(precedes(a[i], a[j]));
                } else {
                    assert(a.contains(a[i]));
                    let k = rest.index_of(a[i]);
                    assert(rest[k] == a[i]);
                    assert(precedes(list[k], list[list.len() - 1]));
                }
            }
        }
    }
}

/// Nothing is kept of a list when, and only when, none of its members is to be kept.
pub proof fn lemma_filter_empty(list: Seq<Seq<char>>, keep: spec_fn(Seq<char>) -> bool)
    ensures
        (list.filter(keep).len() == 0) == !(exists|i: int|
            0 <= i < list.len() && keep(#[trigger] list[i])),
    decreases list.len(),
{
    reveal(Seq::filter);
    if list.len() > 0 {
        let rest = list.drop_last();
        lemma_filter_empty(rest, keep);
        if exists|i: int| 0 <= i < rest.len() && keep(#[trigger] rest[i]) {
            let i = choose|i: int| 0 <= i < rest.len() && keep(#[trigger] rest[i]);
            assert(keep(list[i]));
        }
        if exists|i: int| 0 <= i < list.len() && keep(#[trigger] list[i]) {
            let i = choose|i: int| 0 <= i < list.len() && keep(#[trigger] list[i]);
            if i < rest.len() {
                assert(keep(rest[i]));
            }
        }
        assert(list[list.len() - 1] == list.last());
    }
}

/// What is kept of a list are its members to be kept.
pub proof fn lemma_filter_members(list: Seq<Seq<char>>, keep: spec_fn(Seq<char>) -> bool)
    ensures
        forall|x: Seq<char>| #[trigger]
            list.filter(keep).contains(x) <==> list.contains(x) && keep(x),
    decreases list.len(),
{
    reveal(Seq::filter);
    if list.len() > 0 {
        let rest = list.drop_last();
        let last = list.last();
        lemma_filter_members(rest, keep);
        assert forall|x: Seq<char>| #[trigger] list.filter(keep).contains(x) == (list.contains(x)
            && keep(x)) by {
            lemma_take_contains(list, list.len() - 1, x);
            assert(list.take(list.len() - 1) =~= rest);
            assert(list.take(list.len() as int) =~= list);
            let a = rest.filter(keep);
            if keep(last) {
                assert(list.filter(keep) =~= a.push(last));
                if a.push(last).contains(x) {
                    let k = a.push(last).index_of(x);
                    if k < a.len() {
                        assert(a[k] == x);
                        assert(a.contains(x));
                    }
                }
                if a.contains(x) {
                    let k = a.index_of(x);
                    assert(a.push(last)[k] == x);
                }
                assert(a.push(last)[a.len() as int] == last);
            }
        }
    }
}

/// What is left of a text at either trimming: it does not begin, or does not end, with
/// whitespace, and it is an end, or a beginning, of the text.
pub proof fn lemma_trims(s: Seq<char>)
    ensures
        trimmed_start(s).len() <= s.len(),
        trimmed_start(s) == s.skip(s.len() - trimmed_start(s).len()),
        trimmed_start(s).len() > 0 ==> !is_white_space(trimmed_start(s)[0]),
        trimmed_end(s).len() <= s.len(),
        trimmed_end(s) == s.take(trimmed_end(s).len() as int),
        trimmed_end(s).len() > 0 ==> !is_white_space(trimmed_end(s).last()),
    decreases s.len(),
{
    assert(s.skip(0) =~= s);
    assert(s.take(s.len() as int) =~= s);
    if s.len() > 0 {
        let tail = s.drop_first();
        let head = s.drop_last();
        lemma_trims(tail);
        lemma_trims(head);
        let n = trimmed_start(tail).len();
        assert(tail.skip(tail.len() - n) =~= s.skip(s.len() - n));
        let m = trimmed_end(head).len() as int;
        assert(head.take(m) =~= s.take(m));
    }
}

/// Trimming twice is trimming once.
pub proof fn lemma_trimmed_twice(s: Seq<char>)
    ensures
        trimmed_start(trimmed(s)) == trimmed(s),
        trimmed_end(trimmed(s)) == trimmed(s),
        trimmed(trimmed(s)) == trimmed(s),
{
    lemma_trims(s);
    lemma_trims(trimmed_start(s));
}

/// Trimming adds no character.
pub proof fn lemma_trimmed_holds(s: Seq<char>, c: char)
    requires
        trimmed(s).contains(c),
    ensures
        s.contains(c),
{
    lemma_trims(s);
    let tail = trimmed_start(s);
    lemma_trims(tail);
    let k = trimmed(s).index_of(c);
    assert(tail[k] == c);
    assert(s[k + (s.len() - tail.len())] == c);
}

/// Lower case can be taken before or after trimming and dropping trailing dots.
pub proof fn lemma_lowered_trims(s: Seq<char>)
    ensures
        trimmed_start(lowered(s)) == lowered(trimmed_start(s)),
        trimmed_end(lowered(s)) == lowered(trimmed_end(s)),
        without_trailing(lowered(s), '.') == lowered(without_trailing(s, '.')),
    decreases s.len(),
{
    if s.len() > 0 {
        let tail = s.drop_first();
        let head = s.drop_last();
        lemma_lowered_trims(tail);
        lemma_lowered_trims(head);
        assert(lowered(s).drop_first() =~= lowered(tail));
        assert(lowered(s).drop_last() =~= lowered(head));
        assert(is_white_space(lowered_char(s[0])) == is_white_space(s[0]));
        assert(is_white_space(lowered_char(s.last())) == is_white_space(s.last()));
        assert((lowered_char(s.last()) == '.') == (s.last() == '.'));
    }
}

/// A dot at the end stays where leading whitespace goes.
pub proof fn lemma_trimmed_start_dot(s: Seq<char>)
    ensures
        trimmed_start(s.push('.')) == trimmed_start(s).push('.'),
    decreases s.len(),
{
    let whole = s.push('.');
    if s.len() > 0 {
        lemma_trimmed_start_dot(s.drop_first());
        assert(whole.drop_first() =~= s.drop_first().push('.'));
        assert(whole[0] == s[0]);
    } else {
        assert(whole[0] == '.');
        assert(trimmed_start(s) =~= Seq::<char>::empty());
    }
}

/// No piece of a split text holds the separator.
pub proof fn lemma_split_on_pieces(s: Seq<char>, sep: char)
    ensures
        forall|i: int| 0 <= i < split_on(s, sep).len() ==> !(#[trigger] split_on(
            s,
            sep,
        )[i]).contains(sep),
    decreases s.len(),
{
    let all = split_on(s, sep);
    if s.len() == 0 {
        assert(all =~= seq![s]);
    } else {
        lemma_split_on_pieces(s.drop_last(), sep);
        lemma_split_on_nonempty(s.drop_last(), sep);
        let done = split_on(s.drop_last(), sep);
        assert forall|i: int| 0 <= i < all.len() implies !(#[trigger] all[i]).contains(sep) by {
            if i < all.len() - 1 {
                assert(all[i] == done[i]);
            } else if s.last() != sep {
                let piece = done.last();
                assert(piece == done[done.len() - 1]);
                assert(all[i] == piece.push(s.last()));
                if all[i].contains(sep) {
                    let k = all[i].index_of(sep);
                    assert(piece[k] == sep);
                }
            }
        }
    }
}

/// Filtering keeps a list all of whose members are kept.
pub proof fn lemma_filter_all(list: Seq<Seq<char>>, keep: spec_fn(Seq<char>) -> bool)
    requires
        forall|i: int| 0 <= i < list.len() ==> keep(#[trigger] list[i]),
    ensures
        list.filter(keep) == list,
    decreases list.len(),
{
    reveal(Seq::filter);
    if list.len() > 0 {
        let rest = list.drop_last();
        assert forall|i: int| 0 <= i < rest.len() implies keep(#[trigger] rest[i]) by {
            assert(rest[i] == list[i]);
        }
        lemma_filter_all(rest, keep);
        assert(keep(list[list.len() - 1]));
        assert(rest.push(list.last()) =~= list);
    }
}

} // verus!
