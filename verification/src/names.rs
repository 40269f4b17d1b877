//! Sets of names, and of pairs of names.
use vstd::hash_map::StringHashMap;
use vstd::hash_set::StringHashSet;
use vstd::prelude::*;

use crate::text::{all_lowered, lemma_push_to_set, lower_all, texts};

verus! {

/// A set of texts.
pub struct NameSet {
    inner: StringHashSet,
}

impl View for NameSet {
    type V = Set<Seq<char>>;

    closed spec fn view(&self) -> Set<Seq<char>> {
        self.inner@
    }
}

impl NameSet {
    /// The empty set.
    pub fn new() -> (r: Self)
        ensures
            r@ == Set::<Seq<char>>::empty(),
    {
        NameSet { inner: StringHashSet::new() }
    }

    /// The set of the given names.
    pub fn of(names: &[String]) -> (r: Self)
        ensures
            r@ == texts(names@).to_set(),
    {
        let mut r = NameSet::new();
        let ghost all = texts(names@);
        assert(r@ =~= all.take(0).to_set());
        for i in 0..names.len()
            invariant
                all == texts(names@),
                r@ == all.take(i as int).to_set(),
        {
            let ghost before = all.take(i as int);
            r.insert(names[i].clone());
            assert(all.take(i + 1) =~= before.push(all[i as int]));
            proof {
                lemma_push_to_set(before, all[i as int]);
            }
        }
        assert(all.take(names@.len() as int) =~= all);
        r
    }

    /// The set of the given names in ASCII lower case.
    pub fn of_lowered(names: &[String]) -> (r: Self)
        ensures
            r@ == all_lowered(texts(names@)).to_set(),
    {
        NameSet::of(lower_all(names).as_slice())
    }

    /// Adds a name; whether it was new.
    pub fn insert(&mut self, name: String) -> (r: bool)
        ensures
            final(self)@ == old(self)@.insert(name@),
            r == !old(self)@.contains(name@),
    {
        self.inner.insert(name)
    }

    /// Whether the name is in the set.
    pub fn contains(&self, name: &str) -> (r: bool)
        ensures
            r == self@.contains(name@),
    {
        self.inner.contains(name)
    }

    /// The number of names.
    pub fn len(&self) -> (r: usize)
        ensures
            r == self@.len(),
    {
        self.inner.len()
    }

    /// Whether there is no name in the set.
    pub fn is_empty(&self) -> (r: bool)
        ensures
            r == self@.is_empty(),
    {
        self.inner.is_empty()
    }

    /// Takes every name out.
    pub fn clear(&mut self)
        ensures
            final(self)@ == Set::<Seq<char>>::empty(),
    {
        self.inner.clear()
    }
}

/// The number of members of a set, or `u64::MAX` where there are more.
pub open spec fn capped_len<A>(s: Set<A>) -> u64 {
    if s.len() > u64::MAX {
        u64::MAX
    } else {
        s.len() as u64
    }
}

/// A pair of texts.
pub type Pair = (Seq<char>, Seq<char>);

/// The second members of the pairs that begin with `a`.
pub open spec fn row(s: Set<Pair>, a: Seq<char>) -> Set<Seq<char>> {
    Set::new(|b: Seq<char>| s.contains((a, b)))
}

/// A set of pairs of names, with one row of second members for each first member.
pub struct PairSet {
    index: StringHashMap<usize>,
    rows: Vec<NameSet>,
    total: u64,
    pairs: Ghost<Set<Pair>>,
}

impl View for PairSet {
    type V = Set<Pair>;

    closed spec fn view(&self) -> Set<Pair> {
        self.pairs@
    }
}

impl PairSet {
    /// The rows hold the pairs, no two first members share a row, and the total is right.
    pub closed spec fn wf(&self) -> bool {
        let pairs = self.pairs@;
        &&& pairs.finite()
        &&& self.total == capped_len(pairs)
        &&& forall|a: Seq<char>| #[trigger]
            self.index@.contains_key(a) ==> self.index@[a] < self.rows@.len()
                && self.rows@[self.index@[a] as int]@ == row(pairs, a)
        &&& forall|a: Seq<char>, b: Seq<char>|
            self.index@.contains_key(a) && self.index@.contains_key(b) && a != b
                ==> #[trigger] self.index@[a] != #[trigger] self.index@[b]
        &&& forall|p: Pair| #[trigger] pairs.contains(p) ==> self.index@.contains_key(p.0)
    }

    /// The empty set.
    pub fn new() -> (r: Self)
        ensures
            r.wf(),
            r@ == Set::<Pair>::empty(),
    {
        PairSet {
            index: StringHashMap::new(),
            rows: Vec::new(),
            total: 0,
            pairs: Ghost(Set::empty()),
        }
    }

    /// Adds a pair; whether it was new.
    pub fn insert(&mut self, a: &str, b: &str) -> (r: bool)
        requires
            old(self).wf(),
        ensures
            final(self).wf(),
            final(self)@ == old(self)@.insert((a@, b@)),
            r == !old(self)@.contains((a@, b@)),
    {
        let ghost before = self.pairs@;
        let i: usize = match self.index.get(a) {
            Some(i) => *i,
            None => {
                let i: usize = self.rows.len();
                self.rows.push(NameSet::new());
                self.index.insert(a.to_owned(), i);
                assert(self.rows@[i as int]@ =~= row(before, a@));
                i
            },
        };
        assert(self.index@.contains_key(a@) && self.index@[a@] == i);
        let fresh = self.rows[i].insert(b.to_owned());
        if fresh && self.total < u64::MAX {
            self.total = self.total + 1;
        }
        proof {
            let after = before.insert((a@, b@));
            self.pairs@ = after;
            assert forall|x: Seq<char>| #[trigger]
                self.index@.contains_key(x) implies self.rows@[self.index@[x] as int]@ == row(
                after,
                x,
            ) by {
                assert(row(after, x) =~= if x == a@ {
                    row(before, x).insert(b@)
                } else {
                    row(before, x)
                });
            }
            if !fresh {
                assert(row(before, a@).contains(b@));
                assert(after =~= before);
            } else {
                assert(!row(before, a@).contains(b@));
            }
        }
        fresh
    }

    /// Whether the pair is in the set.
    pub fn contains(&self, a: &str, b: &str) -> (r: bool)
        requires
            self.wf(),
        ensures
            r == self@.contains((a@, b@)),
    {
        match self.index.get(a) {
            Some(i) => {
                assert(self.rows@[*i as int]@.contains(b@) == row(self@, a@).contains(b@));
                self.rows[*i].contains(b)
            },
            None => false,
        }
    }

    /// The number of pairs that begin with `a`.
    pub fn row_len(&self, a: &str) -> (r: usize)
        requires
            self.wf(),
        ensures
            r == row(self@, a@).len(),
    {
        match self.index.get(a) {
            Some(i) => self.rows[*i].len(),
            None => {
                assert(row(self@, a@) =~= Set::empty());
                0
            },
        }
    }

    /// The number of pairs, or `u64::MAX` where there are more.
    pub fn len(&self) -> (r: u64)
        requires
            self.wf(),
        ensures
            r == capped_len(self@),
    {
        self.total
    }
}

/// A row holds what is paired with its name, and a number of members is right up to the
/// largest one.
pub proof fn law_rows(s: Set<Pair>, a: Seq<char>, b: Seq<char>)
    ensures
        row(s, a).contains(b) <==> s.contains((a, b)),
        capped_len(s) == s.len() || (capped_len(s) == u64::MAX && s.len() > u64::MAX),
{
}

} // verus!
