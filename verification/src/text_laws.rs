//! What holds of the text functions, said through characters and positions alone.
use vstd::prelude::*;

use crate::text::{
    begins_with, finishes_with, is_white_space, joined, lemma_sorted_texts, lowered,
    lowered_char, precedes, sorted_texts, split_on, trimmed, trimmed_end, trimmed_start,
    without_trailing,
};

verus! {

/// Whether a text is whitespace throughout.
pub open spec fn is_blank(s: Seq<char>) -> bool {
    forall|i: int| 0 <= i < s.len() ==> is_white_space(#[trigger] s[i])
}

/// Whether a text neither begins nor ends with whitespace.
pub open spec fn has_no_blank_ends(s: Seq<char>) -> bool {
    s.len() > 0 ==> !is_white_space(s[0]) && !is_white_space(s[s.len() - 1])
}

/// Trimming gives what stands between the whitespace at the two ends.
pub proof fn law_trimmed(a: Seq<char>, t: Seq<char>, b: Seq<char>)
    requires
        is_blank(a),
        is_blank(b),
        has_no_blank_ends(t),
    ensures
        trimmed(a + t + b) == t,
{
    let s = a + t + b;
    if t.len() == 0 {
        lemma_trims_all(s);
    } else {
        lemma_trims_front(a, t + b);
        assert(s =~= a + (t + b));
        lemma_trims_back(t, b);
    }
}

proof fn lemma_trims_all(s: Seq<char>)
    requires
        is_blank(s),
    ensures
        trimmed(s) == Seq::<char>::empty(),
    decreases s.len(),
{
    if s.len() > 0 {
        assert(is_white_space(s[0]));
        assert forall|i: int| 0 <= i < s.drop_first().len() implies is_white_space(
            #[trigger] s.drop_first()[i],
        ) by {
            assert(s.drop_first()[i] == s[i + 1]);
        }
        lemma_trims_all(s.drop_first());
    } else {
        assert(trimmed(s) =~= Seq::<char>::empty());
    }
}

proof fn lemma_trims_front(a: Seq<char>, t: Seq<char>)
    requires
        is_blank(a),
        t.len() > 0,
        !is_white_space(t[0]),
    ensures
        trimmed_start(a + t) == t,
    decreases a.len(),
{
    if a.len() == 0 {
        assert(a + t =~= t);
    } else {
        assert(is_white_space(a[0]));
        assert((a + t)[0] == a[0]);
        assert forall|i: int| 0 <= i < a.drop_first().len() implies is_white_space(
            #[trigger] a.drop_first()[i],
        ) by {
            assert(a.drop_first()[i] == a[i + 1]);
        }
        assert((a + t).drop_first() =~= a.drop_first() + t);
        lemma_trims_front(a.drop_first(), t);
    }
}

proof fn lemma_trims_back(t: Seq<char>, b: Seq<char>)
    requires
        is_blank(b),
        t.len() > 0,
        !is_white_space(t[t.len() - 1]),
    ensures
        trimmed_end(t + b) == t,
    decreases b.len(),
{
    if b.len() == 0 {
        assert(t + b =~= t);
    } else {
        assert(is_white_space(b[b.len() - 1]));
        assert((t + b).last() == b[b.len() - 1]);
        assert forall|i: int| 0 <= i < b.drop_last().len() implies is_white_space(
            #[trigger] b.drop_last()[i],
        ) by {
            assert(b.drop_last()[i] == b[i]);
        }
        assert((t + b).drop_last() =~= t + b.drop_last());
        lemma_trims_back(t, b.drop_last());
    }
}

/// Lower case changes the letters `A` to `Z` into `a` to `z` and nothing else.
pub proof fn law_lowered(s: Seq<char>, i: int)
    requires
        0 <= i < s.len(),
    ensures
        lowered(s).len() == s.len(),
        0x41 <= s[i] as int <= 0x5a ==> lowered(s)[i] as int == s[i] as int + 0x20,
        !(0x41 <= s[i] as int <= 0x5a) ==> lowered(s)[i] == s[i],
{
    assert(lowered(s)[i] == lowered_char(s[i]));
}

/// Lower case takes a text apart as it is.
pub proof fn lemma_lowered_parts(a: Seq<char>, b: Seq<char>)
    ensures
        lowered(a + b) == lowered(a) + lowered(b),
{
    assert(lowered(a + b) =~= lowered(a) + lowered(b));
}

/// Dropping a character at the end leaves what stands before its last run.
pub proof fn law_without_trailing(s: Seq<char>, c: char, n: nat)
    requires
        s.len() > 0 ==> s[s.len() - 1] != c,
    ensures
        without_trailing(s + Seq::new(n, |i: int| c), c) == s,
    decreases n,
{
    let run = Seq::new(n, |i: int| c);
    if n == 0 {
        assert(s + run =~= s);
    } else {
        let m = (n - 1) as nat;
        law_without_trailing(s, c, m);
        assert((s + run).drop_last() =~= s + Seq::new(m, |i: int| c));
        assert((s + run).last() == c);
    }
}

/// Joining puts one separator between two neighbours.
pub proof fn law_joined(parts: Seq<Seq<char>>, x: Seq<char>, sep: Seq<char>)
    ensures
        joined(Seq::empty(), sep) == Seq::<char>::empty(),
        joined(seq![x], sep) == x,
        parts.len() > 0 ==> joined(parts.push(x), sep) == joined(parts, sep) + sep + x,
{
    assert(parts.push(x).drop_last() =~= parts);
}

/// The order of texts is decided by the first character in which they differ, and an end
/// comes before every character.
pub proof fn law_precedes(p: Seq<char>, a: Seq<char>, b: Seq<char>)
    ensures
        a.len() > 0 && b.len() > 0 && (a[0] as int) < (b[0] as int) ==> precedes(p + a, p + b)
            && !precedes(p + b, p + a),
        b.len() > 0 ==> precedes(p, p + b) && !precedes(p + b, p),
        !precedes(p, p),
    decreases p.len(),
{
    if p.len() == 0 {
        assert(p + a =~= a);
        assert(p + b =~= b);
        assert(p =~= Seq::<char>::empty());
    } else {
        let rest = p.drop_first();
        law_precedes(rest, a, b);
        assert((p + a).drop_first() =~= rest + a);
        assert((p + b).drop_first() =~= rest + b);
        if a.len() > 0 && b.len() > 0 {
            assert((p + a)[0] == p[0] && (p + b)[0] == p[0]);
        }
    }
}

/// A sorted set has each member once, in ascending order.
pub proof fn law_sorted_texts(s: Set<Seq<char>>)
    requires
        s.finite(),
    ensures
        forall|i: int, j: int|
            0 <= i < j < sorted_texts(s).len() ==> precedes(
                #[trigger] sorted_texts(s)[i],
                #[trigger] sorted_texts(s)[j],
            ),
        forall|x: Seq<char>| #[trigger] sorted_texts(s).contains(x) <==> s.contains(x),
        sorted_texts(s).len() == s.len(),
{
    lemma_sorted_texts(s);
    assert forall|x: Seq<char>| #[trigger] sorted_texts(s).contains(x) <==> s.contains(x) by {
        assert(sorted_texts(s).to_set().contains(x) == sorted_texts(s).contains(x));
    }
}

/// A beginning and an end are what they are called.
pub proof fn law_beginnings_and_ends(p: Seq<char>, s: Seq<char>)
    ensures
        begins_with(p + s, p),
        finishes_with(s + p, p),
        forall|t: Seq<char>| #[trigger] begins_with(t, p) ==> t == p + t.skip(p.len() as int),
        forall|t: Seq<char>| #[trigger]
            finishes_with(t, p) ==> t == t.take(t.len() - p.len()) + p,
{
    assert((p + s).take(p.len() as int) =~= p);
    assert((s + p).skip(s.len() as int) =~= p);
    assert forall|t: Seq<char>| #[trigger] begins_with(t, p) implies t == p + t.skip(
        p.len() as int,
    ) by {
        assert(t =~= t.take(p.len() as int) + t.skip(p.len() as int));
    }
    assert forall|t: Seq<char>| #[trigger] finishes_with(t, p) implies t == t.take(
        t.len() - p.len(),
    ) + p by {
        assert(t =~= t.take(t.len() - p.len()) + t.skip(t.len() - p.len()));
    }
}

/// Splitting cuts at every separator: what stands before one and what stands behind it are
/// split each by itself.
pub proof fn law_split_cuts(a: Seq<char>, b: Seq<char>, sep: char)
    ensures
        split_on(a + seq![sep] + b, sep) == split_on(a, sep) + split_on(b, sep),
        !a.contains(sep) ==> split_on(a, sep) == seq![a],
    decreases a.len() + b.len(),
{
    lemma_split_cuts(a, b, sep);
    if !a.contains(sep) {
        lemma_split_uncut(a, sep);
    }
}

proof fn lemma_split_cuts(a: Seq<char>, b: Seq<char>, sep: char)
    ensures
        split_on(a + seq![sep] + b, sep) == split_on(a, sep) + split_on(b, sep),
    decreases b.len(),
{
    let whole = a + seq![sep] + b;
    if b.len() == 0 {
        assert(whole.drop_last() =~= a);
        assert(whole.last() == sep);
        assert(b =~= Seq::<char>::empty());
        assert(split_on(whole, sep) =~= split_on(a, sep) + split_on(b, sep));
    } else {
        let rest = b.drop_last();
        lemma_split_cuts(a, rest, sep);
        crate::text::lemma_split_on_nonempty(rest, sep);
        assert(whole.drop_last() =~= a + seq![sep] + rest);
        assert(whole.last() == b.last());
        assert(split_on(whole, sep) =~= split_on(a, sep) + split_on(b, sep));
    }
}

proof fn lemma_split_uncut(a: Seq<char>, sep: char)
    requires
        !a.contains(sep),
    ensures
        split_on(a, sep) == seq![a],
    decreases a.len(),
{
    if a.len() > 0 {
        let rest = a.drop_last();
        assert(a[a.len() - 1] == a.last());
        if rest.contains(sep) {
            let k = rest.index_of(sep);
            assert(a[k] == sep);
        }
        lemma_split_uncut(rest, sep);
        assert(rest.push(a.last()) =~= a);
        assert(split_on(a, sep) =~= seq![a]);
    }
}

} // verus!
