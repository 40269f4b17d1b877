//! Keyword matching at DNS label boundaries.
use vstd::prelude::*;
use vstd::utf8::{encode_utf8, is_ascii_chars, is_ascii_chars_encode_utf8};

use crate::event::{no_meta, own_opt, EventView, FrameMeta, MatchEvent, MetaView};
use crate::text::{
    copy_texts, holds_text, lemma_filter_empty, lemma_filter_members, lemma_filter_step,
    lemma_push_to_set, lowered, texts,
};
use crate::watchlist::opt_event;
use crate::watchlist_laws::lemma_filter_parts;

verus! {

/// The multi-pattern searcher of the crate `aho-corasick`.
#[verifier::external_type_specification]
#[verifier::external_body]
pub struct ExAhoCorasick(aho_corasick::AhoCorasick);

/// The patterns that a searcher was built from.
pub uninterp spec fn searcher_patterns(ac: aho_corasick::AhoCorasick) -> Seq<Seq<char>>;

/// Whether a searcher reports overlapping matches and ignores ASCII case.
pub uninterp spec fn searcher_overlaps(ac: aho_corasick::AhoCorasick) -> bool;

/// Whether `aho-corasick` builds a searcher from the patterns, that is, whether they stay
/// within its limits on length and number of states.
pub uninterp spec fn searcher_builds(patterns: Seq<Seq<char>>) -> bool;

/// The overlapping matches that `aho-corasick` reports, in its order: pattern, start and end.
pub uninterp spec fn overlapping(patterns: Seq<Seq<char>>, haystack: Seq<char>) -> Seq<
    (usize, usize, usize),
>;

/// `AhoCorasickBuilder::build` with `ascii_case_insensitive` and `MatchKind::Standard`.
///
/// The searcher has the given patterns and supports overlapping search. The builder refuses
/// patterns beyond its limits, and that depends on the patterns alone.
#[verifier::external_body]
fn build_searcher(patterns: &Vec<String>) -> (r: Option<aho_corasick::AhoCorasick>)
    ensures
        r is Some <==> searcher_builds(texts(patterns@)),
        r is Some ==> searcher_patterns(r->0) == texts(patterns@) && searcher_overlaps(r->0),
{
    aho_corasick::AhoCorasickBuilder::new().ascii_case_insensitive(true).match_kind(
        aho_corasick::MatchKind::Standard,
    ).build(patterns).ok()
}

/// `AhoCorasick::find_overlapping_iter` gives all possible matches at every position, with
/// the index of the pattern and the byte offsets.
///
/// The order is the searcher's own and depends on the patterns and the text alone.
#[verifier::external_body]
fn find_overlapping(ac: &aho_corasick::AhoCorasick, haystack: &str) -> (r: Vec<
    (usize, usize, usize),
>)
    requires
        searcher_overlaps(*ac),
    ensures
        r@ == overlapping(searcher_patterns(*ac), haystack@),
        forall|m: (usize, usize, usize)| #[trigger]
            r@.contains(m) <==> occurrence(searcher_patterns(*ac), haystack@, m),
{
    ac.find_overlapping_iter(haystack).map(
        |m| (m.pattern().as_usize(), m.start(), m.end()),
    ).collect()
}

/// The ASCII lower case of a byte.
pub open spec fn lowered_byte(b: u8) -> u8 {
    if 0x41 <= b <= 0x5a {
        (b + 32) as u8
    } else {
        b
    }
}

/// Whether a pattern stands at the given place of a text, ASCII case ignored. Offsets count
/// bytes.
pub open spec fn occurrence(
    patterns: Seq<Seq<char>>,
    haystack: Seq<char>,
    m: (usize, usize, usize),
) -> bool {
    let h = encode_utf8(haystack);
    &&& m.0 < patterns.len()
    &&& m.1 <= m.2 <= h.len()
    &&& m.2 - m.1 == encode_utf8(patterns[m.0 as int]).len()
    &&& forall|k: int|
        0 <= k < m.2 - m.1 ==> lowered_byte(#[trigger] h[m.1 + k]) == lowered_byte(
            encode_utf8(patterns[m.0 as int])[k],
        )
}

/// Whether the bytes from `start` to `end` are whole labels: each end is an end of the text
/// or next to a dot.
pub open spec fn label_bounded(haystack: Seq<char>, start: int, end: int) -> bool {
    let h = encode_utf8(haystack);
    &&& start == 0 || (0 < start <= h.len() && h[start - 1] == 0x2e)
    &&& end == h.len() || (0 <= end < h.len() && h[end] == 0x2e)
}

/// Whether the bytes from `start` to `end` are whole labels.
pub fn is_label_boundary(haystack: &str, start: usize, end: usize) -> (r: bool)
    ensures
        r == label_bounded(haystack@, start as int, end as int),
{
    let bytes = haystack.as_bytes();
    let n: usize = bytes.len();
    let left_ok = start == 0 || (start <= n && bytes[start - 1] == 0x2e);
    let right_ok = end == n || (end < n && bytes[end] == 0x2e);
    left_ok && right_ok
}

/// Whether some keyword stands in a name as whole labels. The empty name has none.
pub open spec fn keyword_hit(keywords: Seq<Seq<char>>, domain: Seq<char>) -> bool {
    domain.len() > 0 && exists|m: (usize, usize, usize)| #[trigger]
        occurrence(keywords, domain, m) && label_bounded(domain, m.1 as int, m.2 as int)
}

/// `list` and then the keywords of the matches that are whole labels, each where it is not
/// in the list yet.
pub open spec fn with_keywords(
    list: Seq<Seq<char>>,
    keywords: Seq<Seq<char>>,
    domain: Seq<char>,
    matches: Seq<(usize, usize, usize)>,
) -> Seq<Seq<char>>
    decreases matches.len(),
{
    if matches.len() == 0 {
        list
    } else {
        let before = with_keywords(list, keywords, domain, matches.drop_last());
        let m = matches.last();
        let kw = keywords[m.0 as int];
        if label_bounded(domain, m.1 as int, m.2 as int) && !before.contains(kw) {
            before.push(kw)
        } else {
            before
        }
    }
}

/// The keywords that stand in the names as whole labels, in the order in which the searcher
/// first reports them.
pub open spec fn found_keywords(keywords: Seq<Seq<char>>, domains: Seq<Seq<char>>) -> Seq<
    Seq<char>,
>
    decreases domains.len(),
{
    if domains.len() == 0 {
        Seq::empty()
    } else {
        let before = found_keywords(keywords, domains.drop_last());
        let domain = domains.last();
        if domain.len() == 0 {
            before
        } else {
            with_keywords(before, keywords, domain, overlapping(keywords, domain))
        }
    }
}

/// Whether a list holds, once each, the keywords that stand in the names as whole labels.
pub open spec fn exactly_found(
    keywords: Seq<Seq<char>>,
    domains: Seq<Seq<char>>,
    list: Seq<Seq<char>>,
) -> bool {
    &&& list.no_duplicates()
    &&& forall|k: Seq<char>| #[trigger] list.contains(k) <==> found_in(keywords, domains, k)
}

/// Whether a keyword stands in one of the names as whole labels.
pub open spec fn found_in(
    keywords: Seq<Seq<char>>,
    domains: Seq<Seq<char>>,
    k: Seq<char>,
) -> bool {
    exists|i: int, m: (usize, usize, usize)|
        0 <= i < domains.len() && domains[i].len() > 0 && #[trigger] occurrence(
            keywords,
            domains[i],
            m,
        ) && label_bounded(domains[i], m.1 as int, m.2 as int) && keywords[m.0 as int] == k
}

/// What the inspection of a certificate's names gives.
pub open spec fn keyword_event(
    keywords: Seq<Seq<char>>,
    domains: Seq<Seq<char>>,
    meta: MetaView,
) -> Option<EventView> {
    let matched = domains.filter(|d: Seq<char>| keyword_hit(keywords, d));
    if matched.len() == 0 {
        None
    } else {
        Some(
            EventView {
                matched_domains: matched,
                matched_keywords: found_keywords(keywords, domains),
                seen: meta.seen,
                source: meta.source,
                fingerprint: meta.fingerprint,
                san_count: 0,
            },
        )
    }
}

/// Compiled keyword searcher with DNS-label-boundary matching.
pub struct KeywordAutomaton {
    ac: Option<aho_corasick::AhoCorasick>,
    keywords: Vec<String>,
}

impl KeywordAutomaton {
    /// The searcher is built from the keywords; there is none where there is no keyword.
    #[verifier::type_invariant]
    spec fn built_from_keywords(&self) -> bool {
        match self.ac {
            Some(ac) => searcher_patterns(ac) == texts(self.keywords@) && searcher_overlaps(ac),
            None => self.keywords@.len() == 0,
        }
    }

    /// The keywords.
    pub closed spec fn spec_keywords(&self) -> Seq<Seq<char>> {
        texts(self.keywords@)
    }

    /// The automaton of the keywords; none where the searcher's limits refuse them.
    pub fn new(keywords: &[String]) -> (r: Option<Self>)
        ensures
            r is Some <==> (keywords@.len() == 0 || searcher_builds(texts(keywords@))),
            r is Some ==> r->0.spec_keywords() == texts(keywords@),
    {
        let owned = copy_texts(keywords);
        assert(texts(owned@).len() == texts(keywords@).len());
        if owned.len() == 0 {
            return Some(KeywordAutomaton { ac: None, keywords: owned });
        }
        match build_searcher(&owned) {
            Some(ac) => Some(KeywordAutomaton { ac: Some(ac), keywords: owned }),
            None => None,
        }
    }

    /// The keywords.
    pub fn keywords(&self) -> (r: &[String])
        ensures
            texts(r@) == self.spec_keywords(),
    {
        self.keywords.as_slice()
    }

    /// Whether there is no keyword.
    pub fn is_empty(&self) -> (r: bool)
        ensures
            r == (self.spec_keywords().len() == 0),
    {
        self.keywords.len() == 0
    }

    /// The event of a certificate's names, without metadata.
    pub fn inspect(&self, domains: &[String]) -> (r: Option<MatchEvent>)
        ensures
            opt_event(r) == keyword_event(self.spec_keywords(), texts(domains@), no_meta()),
    {
        self.inspect_with_meta(domains, FrameMeta::default())
    }

    /// The event of a certificate's names: those with a keyword as whole labels, in order,
    /// and the keywords found in them, in their own spelling.
    pub fn inspect_with_meta(&self, domains: &[String], meta: FrameMeta<'_>) -> (r: Option<
        MatchEvent,
    >)
        ensures
            opt_event(r) == keyword_event(self.spec_keywords(), texts(domains@), meta@),
            r is Some ==> exactly_found(
                self.spec_keywords(),
                texts(domains@),
                r->0@.matched_keywords,
            ),
    {
        proof {
            use_type_invariant(self);
        }
        let ghost kws = self.spec_keywords();
        let ghost all = texts(domains@);
        let ghost keep = |d: Seq<char>| keyword_hit(kws, d);
        let ac = match &self.ac {
            Some(ac) => ac,
            None => {
                proof {
                    assert forall|i: int| 0 <= i < all.len() implies !keep(#[trigger] all[i]) by {
                        if keyword_hit(kws, all[i]) {
                            let m = choose|m: (usize, usize, usize)| #[trigger]
                                occurrence(kws, all[i], m) && label_bounded(
                                    all[i],
                                    m.1 as int,
                                    m.2 as int,
                                );
                            assert(m.0 < kws.len());
                        }
                    }
                    lemma_filter_empty(all, keep);
                }
                return None;
            },
        };
        let mut matched: Vec<String> = Vec::new();
        let mut found: Vec<String> = Vec::new();
        proof {
            reveal(Seq::filter);
            assert(texts(matched@) =~= all.take(0).filter(keep));
            assert(texts(found@) =~= found_keywords(kws, all.take(0)));
            assert(exactly_found(kws, all.take(0), texts(found@)));
        }
        for i in 0..domains.len()
            invariant
                kws == texts(self.keywords@),
                searcher_patterns(*ac) == kws,
                searcher_overlaps(*ac),
                all == texts(domains@),
                keep == (|d: Seq<char>| keyword_hit(kws, d)),
                texts(matched@) == all.take(i as int).filter(keep),
                texts(found@) == found_keywords(kws, all.take(i as int)),
                exactly_found(kws, all.take(i as int), texts(found@)),
        {
            let ghost before = texts(matched@);
            let ghost domain = all[i as int];
            let ghost had = texts(found@);
            proof {
                lemma_filter_step(all, keep, i as int);
                assert(all.take(i + 1).drop_last() =~= all.take(i as int));
            }
            if !domains[i].as_str().is_empty() {
                let matches = find_overlapping(ac, domains[i].as_str());
                let hit = self.add_keywords(domains[i].as_str(), &matches, &mut found);
                proof {
                    lemma_found_step(kws, all, i as int, matches@, had, texts(found@));
                    assert(hit == keyword_hit(kws, domain)) by {
                        if hit {
                            let k = choose|k: int|
                                0 <= k < matches@.len() && label_bounded(
                                    domain,
                                    (#[trigger] matches@[k]).1 as int,
                                    matches@[k].2 as int,
                                );
                            assert(matches@.contains(matches@[k]));
                            assert(occurrence(kws, domain, matches@[k]));
                        }
                        if keyword_hit(kws, domain) {
                            let m = choose|m: (usize, usize, usize)| #[trigger]
                                occurrence(kws, domain, m) && label_bounded(
                                    domain,
                                    m.1 as int,
                                    m.2 as int,
                                );
                            assert(matches@.contains(m));
                            let k = matches@.index_of(m);
                            assert(matches@[k] == m);
                        }
                    }
                }
                if hit {
                    matched.push(domains[i].clone());
                    assert(texts(matched@) =~= before.push(domain));
                }
            } else {
                proof {
                    lemma_found_skip(kws, all, i as int);
                }
            }
        }
        assert(all.take(all.len() as int) =~= all);
        if matched.len() == 0 {
            return None;
        }
        Some(
            MatchEvent::new(
                matched,
                found,
                meta.seen,
                own_opt(meta.source),
                own_opt(meta.fingerprint),
            ),
        )
    }

    /// Adds the keywords of the matches that are whole labels; whether there was one.
    fn add_keywords(
        &self,
        domain: &str,
        matches: &Vec<(usize, usize, usize)>,
        found: &mut Vec<String>,
    ) -> (hit: bool)
        requires
            forall|m: (usize, usize, usize)| #[trigger]
                matches@.contains(m) ==> m.0 < self.keywords@.len(),
        ensures
            texts(final(found)@) == with_keywords(
                texts(old(found)@),
                texts(self.keywords@),
                domain@,
                matches@,
            ),
            texts(old(found)@).no_duplicates() ==> texts(final(found)@).no_duplicates(),
            forall|x: Seq<char>| #[trigger]
                texts(final(found)@).contains(x) <==> texts(old(found)@).contains(x)
                    || keyword_of(texts(self.keywords@), domain@, matches@, x),
            hit == exists|k: int|
                0 <= k < matches@.len() && label_bounded(
                    domain@,
                    (#[trigger] matches@[k]).1 as int,
                    matches@[k].2 as int,
                ),
    {
        let ghost list = texts(found@);
        let ghost kws = texts(self.keywords@);
        let mut hit = false;
        assert(matches@.take(0) =~= Seq::<(usize, usize, usize)>::empty());
        for j in 0..matches.len()
            invariant
                forall|m: (usize, usize, usize)| #[trigger]
                    matches@.contains(m) ==> m.0 < self.keywords@.len(),
                kws == texts(self.keywords@),
                texts(found@) == with_keywords(list, kws, domain@, matches@.take(j as int)),
                list.no_duplicates() ==> texts(found@).no_duplicates(),
                forall|x: Seq<char>| #[trigger]
                    texts(found@).contains(x) <==> list.contains(x) || keyword_of(
                        kws,
                        domain@,
                        matches@.take(j as int),
                        x,
                    ),
                hit == exists|k: int|
                    0 <= k < j && label_bounded(
                        domain@,
                        (#[trigger] matches@[k]).1 as int,
                        matches@[k].2 as int,
                    ),
        {
            let ghost before = texts(found@);
            let (p, start, end) = matches[j];
            assert(matches@.contains(matches@[j as int]));
            assert(matches@.take(j + 1).drop_last() =~= matches@.take(j as int));
            assert(kws[p as int] == self.keywords@[p as int]@);
            if is_label_boundary(domain, start, end) {
                hit = true;
                assert(label_bounded(
                    domain@,
                    matches@[j as int].1 as int,
                    matches@[j as int].2 as int,
                ));
                if !holds_text(found, self.keywords[p].as_str()) {
                    found.push(self.keywords[p].clone());
                    assert(texts(found@) =~= before.push(kws[p as int]));
                }
            }
            proof {
                lemma_keyword_of_step(kws, domain@, matches@, j as int);
                let kw = kws[p as int];
                assert forall|x: Seq<char>| before.push(kw).contains(x) == (before.contains(x)
                    || x == kw) by {
                    lemma_push_to_set(before, kw);
                    assert(before.push(kw).to_set().contains(x) == before.to_set().insert(
                        kw,
                    ).contains(x));
                }
                assert(matches@[j as int] == (p, start, end));
                assert forall|x: Seq<char>| #[trigger]
                    texts(found@).contains(x) == (list.contains(x) || keyword_of(
                        kws,
                        domain@,
                        matches@.take(j + 1),
                        x,
                    )) by {
                    assert(before.contains(x) == (list.contains(x) || keyword_of(
                        kws,
                        domain@,
                        matches@.take(j as int),
                        x,
                    )));
                    assert(before.push(kw).contains(x) == (before.contains(x) || x == kw));
                }
            }
        }
        assert(matches@.take(matches@.len() as int) =~= matches@);
        hit
    }
}

/// Whether one of the matches is whole labels and of the given keyword.
pub open spec fn keyword_of(
    keywords: Seq<Seq<char>>,
    domain: Seq<char>,
    matches: Seq<(usize, usize, usize)>,
    x: Seq<char>,
) -> bool {
    exists|k: int|
        0 <= k < matches.len() && label_bounded(
            domain,
            (#[trigger] matches[k]).1 as int,
            matches[k].2 as int,
        ) && keywords[matches[k].0 as int] == x
}

proof fn lemma_keyword_of_step(
    keywords: Seq<Seq<char>>,
    domain: Seq<char>,
    matches: Seq<(usize, usize, usize)>,
    j: int,
)
    requires
        0 <= j < matches.len(),
    ensures
        forall|x: Seq<char>| #[trigger]
            keyword_of(keywords, domain, matches.take(j + 1), x) == (keyword_of(
                keywords,
                domain,
                matches.take(j),
                x,
            ) || (label_bounded(domain, matches[j].1 as int, matches[j].2 as int)
                && keywords[matches[j].0 as int] == x)),
{
    let a = matches.take(j);
    let b = matches.take(j + 1);
    assert forall|x: Seq<char>| #[trigger]
        keyword_of(keywords, domain, b, x) == (keyword_of(keywords, domain, a, x) || (label_bounded(
            domain,
            matches[j].1 as int,
            matches[j].2 as int,
        ) && keywords[matches[j].0 as int] == x)) by {
        if keyword_of(keywords, domain, b, x) {
            let k = choose|k: int|
                0 <= k < b.len() && label_bounded(
                    domain,
                    (#[trigger] b[k]).1 as int,
                    b[k].2 as int,
                ) && keywords[b[k].0 as int] == x;
            if k < j {
                assert(a[k] == b[k]);
            }
        }
        if keyword_of(keywords, domain, a, x) {
            let k = choose|k: int|
                0 <= k < a.len() && label_bounded(
                    domain,
                    (#[trigger] a[k]).1 as int,
                    a[k].2 as int,
                ) && keywords[a[k].0 as int] == x;
            assert(b[k] == a[k]);
        }
        assert(b[j] == matches[j]);
    }
}

/// One more name adds the keywords that stand in it as whole labels.
proof fn lemma_found_step(
    keywords: Seq<Seq<char>>,
    all: Seq<Seq<char>>,
    i: int,
    matches: Seq<(usize, usize, usize)>,
    had: Seq<Seq<char>>,
    has: Seq<Seq<char>>,
)
    requires
        0 <= i < all.len(),
        all[i].len() > 0,
        forall|m: (usize, usize, usize)| #[trigger]
            matches.contains(m) <==> occurrence(keywords, all[i], m),
        exactly_found(keywords, all.take(i), had),
        has.no_duplicates(),
        forall|x: Seq<char>| #[trigger]
            has.contains(x) <==> had.contains(x) || keyword_of(keywords, all[i], matches, x),
    ensures
        exactly_found(keywords, all.take(i + 1), has),
{
    let a = all.take(i);
    let b = all.take(i + 1);
    assert forall|x: Seq<char>| #[trigger] has.contains(x) == found_in(keywords, b, x) by {
        if had.contains(x) {
            let (k, m) = choose|k: int, m: (usize, usize, usize)|
                0 <= k < a.len() && a[k].len() > 0 && #[trigger] occurrence(keywords, a[k], m)
                    && label_bounded(a[k], m.1 as int, m.2 as int) && keywords[m.0 as int] == x;
            assert(occurrence(keywords, b[k], m));
        }
        if keyword_of(keywords, all[i], matches, x) {
            let k = choose|k: int|
                0 <= k < matches.len() && label_bounded(
                    all[i],
                    (#[trigger] matches[k]).1 as int,
                    matches[k].2 as int,
                ) && keywords[matches[k].0 as int] == x;
            assert(matches.contains(matches[k]));
            assert(occurrence(keywords, b[i], matches[k]));
        }
        if found_in(keywords, b, x) {
            let (k, m) = choose|k: int, m: (usize, usize, usize)|
                0 <= k < b.len() && b[k].len() > 0 && #[trigger] occurrence(keywords, b[k], m)
                    && label_bounded(b[k], m.1 as int, m.2 as int) && keywords[m.0 as int] == x;
            if k < i {
                assert(occurrence(keywords, a[k], m));
                assert(found_in(keywords, a, x));
            } else {
                assert(matches.contains(m));
                let n = matches.index_of(m);
                assert(matches[n] == m);
            }
        }
    }
}

/// An empty name adds no keyword.
proof fn lemma_found_skip(keywords: Seq<Seq<char>>, all: Seq<Seq<char>>, i: int)
    requires
        0 <= i < all.len(),
        all[i].len() == 0,
    ensures
        forall|x: Seq<char>| #[trigger]
            found_in(keywords, all.take(i + 1), x) == found_in(keywords, all.take(i), x),
{
    let a = all.take(i);
    let b = all.take(i + 1);
    assert forall|x: Seq<char>| #[trigger] found_in(keywords, b, x) == found_in(keywords, a, x) by {
        if found_in(keywords, b, x) {
            let (k, m) = choose|k: int, m: (usize, usize, usize)|
                0 <= k < b.len() && b[k].len() > 0 && #[trigger] occurrence(keywords, b[k], m)
                    && label_bounded(b[k], m.1 as int, m.2 as int) && keywords[m.0 as int] == x;
            assert(occurrence(keywords, a[k], m));
        }
        if found_in(keywords, a, x) {
            let (k, m) = choose|k: int, m: (usize, usize, usize)|
                0 <= k < a.len() && a[k].len() > 0 && #[trigger] occurrence(keywords, a[k], m)
                    && label_bounded(a[k], m.1 as int, m.2 as int) && keywords[m.0 as int] == x;
            assert(occurrence(keywords, b[k], m));
        }
    }
}

/// A keyword automaton that can be replaced as a whole. The cell is the one of `arc-swap`.
#[verifier::external_body]
pub struct HotAutomaton {
    inner: arc_swap::ArcSwap<KeywordAutomaton>,
}

/// The keywords of the automaton that the cell holds.
pub uninterp spec fn hot_keywords(hot: HotAutomaton) -> Seq<Seq<char>>;

impl HotAutomaton {
    /// `ArcSwap::from_pointee` makes a cell that holds the given value.
    #[verifier::external_body]
    pub fn new(automaton: KeywordAutomaton) -> (r: Self)
        ensures
            hot_keywords(r) == automaton.spec_keywords(),
    {
        HotAutomaton { inner: arc_swap::ArcSwap::from_pointee(automaton) }
    }

    /// `ArcSwap::store` replaces the value that the cell holds: further loads give the new
    /// one.
    ///
    /// The handle is taken by `&mut`: a contract can say of a value behind a shared reference
    /// only what never changes, and what the cell holds changes here. Who shares the cell
    /// shares it through a lock.
    #[verifier::external_body]
    pub fn swap(&mut self, automaton: KeywordAutomaton)
        ensures
            hot_keywords(*final(self)) == automaton.spec_keywords(),
    {
        self.inner.store(std::sync::Arc::new(automaton));
    }

    /// `ArcSwap::load_full` gives another pointer to the value that the cell holds, which is
    /// the one that was put there.
    #[verifier::external_body]
    pub fn load(&self) -> (r: std::sync::Arc<KeywordAutomaton>)
        ensures
            r.spec_keywords() == hot_keywords(*self),
    {
        self.inner.load_full()
    }

    /// The event of a certificate's names under the present keywords, without metadata.
    pub fn inspect(&self, domains: &[String]) -> (r: Option<MatchEvent>)
        ensures
            opt_event(r) == keyword_event(hot_keywords(*self), texts(domains@), no_meta()),
    {
        self.inspect_with_meta(domains, FrameMeta::default())
    }

    /// The event of a certificate's names under the present keywords.
    pub fn inspect_with_meta(&self, domains: &[String], meta: FrameMeta<'_>) -> (r: Option<
        MatchEvent,
    >)
        ensures
            opt_event(r) == keyword_event(hot_keywords(*self), texts(domains@), meta@),
    {
        let automaton = self.load();
        automaton.inspect_with_meta(domains, meta)
    }
}

proof fn lemma_ascii_bytes(s: Seq<char>)
    requires
        is_ascii_chars(s),
    ensures
        encode_utf8(s).len() == s.len(),
        forall|i: int|
            0 <= i < s.len() ==> #[trigger] encode_utf8(s)[i] as int == s[i] as int && (
            s[i] as int) < 0x80,
{
    is_ascii_chars_encode_utf8(s);
    assert forall|i: int| 0 <= i < s.len() implies #[trigger] encode_utf8(s)[i] as int
        == s[i] as int && (s[i] as int) < 0x80 by {
        assert(s[i] as u8 == encode_utf8(s)[i]);
        assert('\0' <= s[i] && s[i] <= '\u{7f}');
    }
}

/// A keyword is found wherever it stands, in either case, between dots or the ends of a name.
pub proof fn law_keyword_is_found(
    keywords: Seq<Seq<char>>,
    j: int,
    pre: Seq<char>,
    mid: Seq<char>,
    post: Seq<char>,
)
    requires
        0 <= j < keywords.len() <= usize::MAX,
        is_ascii_chars(keywords[j]),
        is_ascii_chars(pre + mid + post),
        0 < (pre + mid + post).len() <= usize::MAX,
        lowered(mid) == lowered(keywords[j]),
        pre.len() == 0 || pre[pre.len() - 1] == '.',
        post.len() == 0 || post[0] == '.',
    ensures
        keyword_hit(keywords, pre + mid + post),
        found_in(keywords, seq![pre + mid + post], keywords[j]),
{
    let name = pre + mid + post;
    let kw = keywords[j];
    lemma_ascii_bytes(name);
    lemma_ascii_bytes(kw);
    let h = encode_utf8(name);
    let p = encode_utf8(kw);
    assert(lowered(mid).len() == lowered(kw).len());
    let from = pre.len() as int;
    let to = from + mid.len();
    let m = (j as usize, from as usize, to as usize);
    assert forall|k: int| 0 <= k < to - from implies lowered_byte(#[trigger] h[from + k])
        == lowered_byte(p[k]) by {
        assert(name[from + k] == mid[k]);
        assert(lowered(mid)[k] == lowered(kw)[k]);
        assert(h[from + k] as int == mid[k] as int);
        assert(p[k] as int == kw[k] as int);
    }
    assert(occurrence(keywords, name, m));
    if from > 0 {
        assert(name[from - 1] == '.');
        assert(h[from - 1] as int == 0x2e);
    }
    if post.len() > 0 {
        assert(name[to] == '.');
        assert(h[to] as int == 0x2e);
    }
    assert(label_bounded(name, m.1 as int, m.2 as int));
    assert(seq![name][0] == name);
    assert(occurrence(keywords, seq![name][0], m));
}

/// A name is a hit only where a keyword stands between dots or its ends; an empty one is none.
pub proof fn law_hit_is_a_keyword(keywords: Seq<Seq<char>>, name: Seq<char>)
    requires
        keyword_hit(keywords, name),
        is_ascii_chars(name),
        forall|j: int| 0 <= j < keywords.len() ==> is_ascii_chars(#[trigger] keywords[j]),
    ensures
        name.len() > 0,
        exists|j: int, from: int|
            0 <= j < keywords.len() && 0 <= from && from + keywords[j].len() <= name.len()
                && #[trigger] stands_at(name, keywords[j], from),
{
    let m = choose|m: (usize, usize, usize)| #[trigger]
        occurrence(keywords, name, m) && label_bounded(name, m.1 as int, m.2 as int);
    let j = m.0 as int;
    let kw = keywords[j];
    lemma_ascii_bytes(name);
    lemma_ascii_bytes(kw);
    let from = m.1 as int;
    let h = encode_utf8(name);
    let p = encode_utf8(kw);
    assert(lowered(name.subrange(from, from + kw.len())) =~= lowered(kw)) by {
        assert forall|k: int| 0 <= k < kw.len() implies lowered(
            name.subrange(from, from + kw.len()),
        )[k] == lowered(kw)[k] by {
            assert(lowered_byte(h[from + k]) == lowered_byte(p[k]));
            assert(h[from + k] as int == name[from + k] as int);
            assert(p[k] as int == kw[k] as int);
        }
    }
    if from > 0 {
        assert(h[from - 1] as int == name[from - 1] as int);
    }
    if from + kw.len() < name.len() {
        assert(h[from + kw.len()] as int == name[from + kw.len() as int] as int);
    }
    assert(stands_at(name, keywords[j], from));
}

/// Whether a keyword stands in a name at a place, in either case, between dots or its ends.
pub open spec fn stands_at(name: Seq<char>, kw: Seq<char>, from: int) -> bool {
    let to = from + kw.len();
    &&& lowered(name.subrange(from, to)) == lowered(kw)
    &&& from == 0 || name[from - 1] == '.'
    &&& to == name.len() || name[to] == '.'
}

/// Names are judged one by one: the hits of two lists, one after the other, are those of the
/// first and then those of the second; an event has the metadata as it came in.
pub proof fn law_keyword_events(
    keywords: Seq<Seq<char>>,
    a: Seq<Seq<char>>,
    b: Seq<Seq<char>>,
    meta: MetaView,
)
    ensures
        keyword_hits(keywords, a + b, meta) == keyword_hits(keywords, a, meta) + keyword_hits(
            keywords,
            b,
            meta,
        ),
        keyword_event(keywords, a, meta) is Some <==> exists|i: int|
            0 <= i < a.len() && keyword_hit(keywords, #[trigger] a[i]),
        forall|d: Seq<char>| #[trigger]
            keyword_hits(keywords, a, meta).contains(d) <==> a.contains(d) && keyword_hit(
                keywords,
                d,
            ),
        keyword_event(keywords, a, meta) is Some ==> ({
            let ev = keyword_event(keywords, a, meta)->0;
            &&& ev.seen == meta.seen && ev.source == meta.source
            &&& ev.fingerprint == meta.fingerprint && ev.san_count == 0
            &&& ev.matched_keywords == found_keywords(keywords, a)
        }),
{
    let keep = |d: Seq<char>| keyword_hit(keywords, d);
    lemma_filter_parts(a, b, keep);
    lemma_keyword_hits(keywords, a, meta);
    lemma_keyword_hits(keywords, b, meta);
    lemma_keyword_hits(keywords, a + b, meta);
    lemma_filter_members(a, keep);
    let kept = a.filter(keep);
    if kept.len() > 0 {
        assert(kept.contains(kept[0]));
        let i = a.index_of(kept[0]);
        assert(keyword_hit(keywords, a[i]));
    }
    if exists|i: int| 0 <= i < a.len() && keyword_hit(keywords, #[trigger] a[i]) {
        let i = choose|i: int| 0 <= i < a.len() && keyword_hit(keywords, #[trigger] a[i]);
        assert(a.contains(a[i]));
        assert(kept.contains(a[i]));
    }
}

/// The names that a keyword event reports.
pub open spec fn keyword_hits(
    keywords: Seq<Seq<char>>,
    names: Seq<Seq<char>>,
    meta: MetaView,
) -> Seq<Seq<char>> {
    match keyword_event(keywords, names, meta) {
        Some(ev) => ev.matched_domains,
        None => Seq::empty(),
    }
}

proof fn lemma_keyword_hits(keywords: Seq<Seq<char>>, names: Seq<Seq<char>>, meta: MetaView)
    ensures
        keyword_hits(keywords, names, meta) == names.filter(
            |d: Seq<char>| keyword_hit(keywords, d),
        ),
{
    let kept = names.filter(|d: Seq<char>| keyword_hit(keywords, d));
    if kept.len() == 0 {
        assert(kept =~= Seq::<Seq<char>>::empty());
    }
}

/// The keywords of one more name come behind those found before, each keyword once, and they
/// are those with a match between dots or ends; an empty name has none.
pub proof fn law_found_keywords(
    keywords: Seq<Seq<char>>,
    domains: Seq<Seq<char>>,
    name: Seq<char>,
    x: Seq<char>,
)
    ensures
        ({
            let before = found_keywords(keywords, domains);
            let after = found_keywords(keywords, domains.push(name));
            &&& found_keywords(keywords, Seq::empty()).len() == 0
            &&& after.contains(x) <==> before.contains(x) || (name.len() > 0 && keyword_of(
                keywords,
                name,
                overlapping(keywords, name),
                x,
            ))
            &&& before.len() <= after.len() && after.take(before.len() as int) == before
            &&& before.no_duplicates() ==> after.no_duplicates()
        }),
{
    let before = found_keywords(keywords, domains);
    assert(domains.push(name).drop_last() =~= domains);
    assert(before.take(before.len() as int) =~= before);
    if name.len() > 0 {
        lemma_with_keywords(before, keywords, name, overlapping(keywords, name), x);
    }
}

proof fn lemma_with_keywords(
    list: Seq<Seq<char>>,
    keywords: Seq<Seq<char>>,
    name: Seq<char>,
    matches: Seq<(usize, usize, usize)>,
    x: Seq<char>,
)
    ensures
        ({
            let after = with_keywords(list, keywords, name, matches);
            &&& after.contains(x) <==> list.contains(x) || keyword_of(keywords, name, matches, x)
            &&& list.len() <= after.len() && after.take(list.len() as int) == list
            &&& list.no_duplicates() ==> after.no_duplicates()
        }),
    decreases matches.len(),
{
    assert(list.take(list.len() as int) =~= list);
    if matches.len() > 0 {
        let rest = matches.drop_last();
        lemma_with_keywords(list, keywords, name, rest, x);
        let before = with_keywords(list, keywords, name, rest);
        let m = matches.last();
        let kw = keywords[m.0 as int];
        let after = with_keywords(list, keywords, name, matches);
        assert(after.take(list.len() as int) =~= before.take(list.len() as int));
        let here = label_bounded(name, m.1 as int, m.2 as int);
        if keyword_of(keywords, name, rest, x) {
            let k = choose|k: int|
                0 <= k < rest.len() && label_bounded(
                    name,
                    (#[trigger] rest[k]).1 as int,
                    rest[k].2 as int,
                ) && keywords[rest[k].0 as int] == x;
            assert(matches[k] == rest[k]);
        }
        if keyword_of(keywords, name, matches, x) && !(here && kw == x) {
            let k = choose|k: int|
                0 <= k < matches.len() && label_bounded(
                    name,
                    (#[trigger] matches[k]).1 as int,
                    matches[k].2 as int,
                ) && keywords[matches[k].0 as int] == x;
            assert(rest[k] == matches[k]);
        }
        if here && kw == x {
            assert(matches[matches.len() - 1] == m);
            assert(keyword_of(keywords, name, matches, x));
        }
        if here && !before.contains(kw) {
            assert(after == before.push(kw));
            assert(after[before.len() as int] == kw);
            assert forall|y: Seq<char>| before.contains(y) implies after.contains(y) by {
                let i = before.index_of(y);
                assert(after[i] == y);
            }
            if after.contains(x) && x != kw {
                let i = after.index_of(x);
                assert(before[i] == x);
            }
        }
    }
}

} // verus!
