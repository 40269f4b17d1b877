//! Registrable-domain watchlist.
//!
//! Matching is exact host-suffix containment: a name on a certificate hits when the name
//! itself, or what follows one of its dots, is on the list. Matching a brand inside a label
//! is out of scope.
use vstd::prelude::*;

use crate::error::{KeywordSourceError, StartupError};
use crate::event::{no_meta, own_opt, EventView, FrameMeta, MatchEvent, MetaView};
use crate::names::NameSet;
use crate::text::{
    ascending, begins_with, finishes_with, from_chars, has_prefix, insert_sorted, is_white_space,
    joined, law_split_undoes_join, lemma_filter_all, lemma_filter_empty, lemma_filter_members,
    lemma_filter_step, lemma_lowered_trims, lemma_push_to_set, lemma_sorted_texts,
    lemma_sorted_texts_is, lemma_split_on_pieces, lemma_trimmed_holds, lemma_trimmed_start_dot,
    lemma_trimmed_twice, lemma_trims, lowered, lowered_char, opt_text, same_text, skip_chars,
    sorted_texts, split, split_on, strip_trailing, texts, to_chars, trimmed, trimmed_start,
    without_trailing,
};

verus! {

/// What the Public Suffix List says of a host name.
#[derive(Clone, Debug, PartialEq, Eq)]
pub struct ParsedName {
    /// The public suffix of the name.
    pub suffix: String,
    /// Whether the suffix is on the list.
    pub known_suffix: bool,
    /// Whether the suffix is delegated by ICANN.
    pub icann: bool,
    /// The registrable part of the name; none where the name is a suffix.
    pub root: Option<String>,
}

/// What a [`ParsedName`] says.
pub struct ParsedView {
    pub suffix: Seq<char>,
    pub known_suffix: bool,
    pub icann: bool,
    pub root: Option<Seq<char>>,
}

impl View for ParsedName {
    type V = ParsedView;

    open spec fn view(&self) -> ParsedView {
        ParsedView {
            suffix: self.suffix@,
            known_suffix: self.known_suffix,
            icann: self.icann,
            root: opt_text(self.root),
        }
    }
}

/// What an optional [`ParsedName`] says.
pub open spec fn opt_parsed(p: Option<ParsedName>) -> Option<ParsedView> {
    match p {
        Some(n) => Some(n@),
        None => None,
    }
}

/// What the crate `addr` reads out of a host name with its compiled-in Public Suffix List;
/// `None` where it rejects the name.
pub uninterp spec fn psl_name(host: Seq<char>) -> Option<ParsedView>;

/// `addr::parse_domain_name`, with `suffix`, `has_known_suffix`, `is_icann` and `root` of
/// the name that it gives.
///
/// The list is compiled in, so the answer depends on the text alone. A root is the whole
/// name, or what follows one of its dots.
#[verifier::external_body]
fn parse_name(host: &str) -> (r: Option<ParsedName>)
    ensures
        opt_parsed(r) == psl_name(host@),
        r is Some && r->0.root is Some ==> dotted_suffixes(host@).contains(r->0.root->0@),
{
    addr::parse_domain_name(host).ok().map(
        |n|
            ParsedName {
                suffix: n.suffix().to_string(),
                known_suffix: n.has_known_suffix(),
                icann: n.is_icann(),
                root: n.root().map(str::to_string),
            },
    )
}

/// What follows each dot of a text, from left to right.
pub open spec fn after_dots(s: Seq<char>) -> Seq<Seq<char>>
    decreases s.len(),
{
    if s.len() == 0 {
        Seq::empty()
    } else if s[0] == '.' {
        seq![s.drop_first()] + after_dots(s.drop_first())
    } else {
        after_dots(s.drop_first())
    }
}

/// Every DNS suffix of a host: `a.b.c.com` has `a.b.c.com`, `b.c.com`, `c.com` and `com`.
pub open spec fn dotted_suffixes(host: Seq<char>) -> Seq<Seq<char>> {
    seq![host] + after_dots(host)
}

/// Every DNS suffix of a host, from the longest to the shortest. A name is under a listed
/// one when the listed one is among them, also where it is itself a public suffix.
pub fn host_suffixes(host: &str) -> (r: Vec<String>)
    ensures
        texts(r@) == dotted_suffixes(host@),
{
    let v = to_chars(host);
    let mut r: Vec<String> = Vec::new();
    r.push(host.to_owned());
    let mut i: usize = 0;
    assert(v@.skip(0) =~= v@);
    assert(texts(r@) + after_dots(v@.skip(0)) =~= dotted_suffixes(host@));
    while i < v.len()
        invariant
            i <= v@.len(),
            texts(r@) + after_dots(v@.skip(i as int)) == dotted_suffixes(host@),
        decreases v@.len() - i,
    {
        let ghost rest = v@.skip(i as int);
        let ghost before = texts(r@);
        assert(rest.drop_first() =~= v@.skip(i + 1));
        if v[i] == '.' {
            r.push(from_chars(&v, i + 1, v.len()));
            proof {
                assert(v@.subrange(i + 1, v@.len() as int) =~= rest.drop_first());
                assert(texts(r@) =~= before.push(rest.drop_first()));
                assert(before + after_dots(rest) =~= texts(r@) + after_dots(rest.drop_first()));
            }
        }
        i = i + 1;
    }
    assert(v@.skip(v@.len() as int) =~= Seq::<char>::empty());
    assert(texts(r@) =~= dotted_suffixes(host@));
    r
}

/// The bare form of a name: without surrounding whitespace and trailing dots, in lower
/// case, and without a leading `*.`; none where nothing is left.
pub open spec fn normal_host(raw: Seq<char>) -> Option<Seq<char>> {
    let lower = lowered(trimmed(without_trailing(trimmed(raw), '.')));
    let host = if begins_with(lower, "*."@) {
        lower.skip(2)
    } else {
        lower
    };
    if host.len() == 0 {
        None
    } else {
        Some(host)
    }
}

/// The bare form of a name.
pub fn normalize_host(raw: &str) -> (r: Option<String>)
    ensures
        opt_text(r) == normal_host(raw@),
{
    let undotted = strip_trailing(raw.trim(), '.');
    let lower = undotted.as_str().trim().to_ascii_lowercase();
    proof {
        reveal_strlit("*.");
    }
    let host = if has_prefix(lower.as_str(), "*.") {
        skip_chars(lower.as_str(), 2)
    } else {
        lower
    };
    if host.as_str().is_empty() {
        None
    } else {
        Some(host)
    }
}

/// The number of labels of a host, empty ones not counted.
pub open spec fn label_count(host: Seq<char>) -> nat {
    split_on(host, '.').filter(|l: Seq<char>| l.len() > 0).len()
}

/// The listed form of a bare host, given what the Public Suffix List says of it.
///
/// A host that is itself a public suffix would hit every name under it, so it is dropped,
/// unless it is a private suffix of three labels or more: such a one stays as it is. Of
/// every other host the registrable part is listed.
pub open spec fn registrable(host: Seq<char>, parsed: Option<ParsedView>) -> Option<Seq<char>> {
    match parsed {
        None => None,
        Some(p) => if p.known_suffix && lowered(p.suffix) == lowered(host) {
            if p.icann || label_count(host) <= 2 {
                None
            } else {
                Some(host)
            }
        } else {
            match p.root {
                Some(root) => Some(lowered(root)),
                None => None,
            }
        },
    }
}

/// The listed form of a name.
pub open spec fn listed_form(raw: Seq<char>) -> Option<Seq<char>> {
    match normal_host(raw) {
        Some(host) => registrable(host, psl_name(host)),
        None => None,
    }
}

/// The listed form of a bare host, given what the Public Suffix List says of it.
pub fn etld1_of(host: &str, parsed: Option<ParsedName>) -> (r: Option<String>)
    ensures
        opt_text(r) == registrable(host@, opt_parsed(parsed)),
{
    match parsed {
        None => None,
        Some(p) => {
            let whole = p.known_suffix && same_text(
                p.suffix.as_str().to_ascii_lowercase().as_str(),
                host.to_ascii_lowercase().as_str(),
            );
            if whole {
                if p.icann || count_labels(host) <= 2 {
                    None
                } else {
                    Some(host.to_owned())
                }
            } else {
                match p.root {
                    Some(root) => Some(root.as_str().to_ascii_lowercase()),
                    None => None,
                }
            }
        },
    }
}

fn count_labels(host: &str) -> (r: usize)
    ensures
        r == label_count(host@),
{
    let labels = split(host, '.');
    let ghost list = texts(labels@);
    let ghost keep = |l: Seq<char>| l.len() > 0;
    let mut n: usize = 0;
    assert(list.take(0).filter(keep).len() == 0) by {
        reveal(Seq::filter);
    }
    for i in 0..labels.len()
        invariant
            list == texts(labels@),
            keep == (|l: Seq<char>| l.len() > 0),
            n == list.take(i as int).filter(keep).len(),
            n <= i,
    {
        proof {
            lemma_filter_step(list, keep, i as int);
        }
        if !labels[i].as_str().is_empty() {
            n = n + 1;
        }
    }
    assert(list.take(list.len() as int) =~= list);
    n
}

/// Lower case twice is lower case once.
pub proof fn lemma_lowered_twice(s: Seq<char>)
    ensures
        lowered(lowered(s)) == lowered(s),
{
    assert(lowered(lowered(s)) =~= lowered(s));
}

/// Every DNS suffix of a host is an end of it.
proof fn lemma_after_dots_are_ends(s: Seq<char>, d: Seq<char>)
    requires
        after_dots(s).contains(d),
    ensures
        d.len() < s.len(),
        d == s.skip(s.len() - d.len()),
    decreases s.len(),
{
    if s.len() > 0 {
        let rest = s.drop_first();
        if after_dots(rest).contains(d) {
            lemma_after_dots_are_ends(rest, d);
            assert(rest.skip(rest.len() - d.len()) =~= s.skip(s.len() - d.len()));
        } else {
            let k = after_dots(s).index_of(d);
            assert(after_dots(s)[k] == d);
            assert(s[0] == '.');
            if k > 0 {
                assert(after_dots(rest)[k - 1] == d);
            }
            assert(d == rest);
            assert(d =~= s.skip(1));
        }
    }
}

/// A bare host is in lower case, and so are its DNS suffixes.
proof fn lemma_suffix_is_lowered(raw: Seq<char>, d: Seq<char>)
    requires
        normal_host(raw) is Some,
        dotted_suffixes(normal_host(raw)->0).contains(d),
    ensures
        lowered(d) == d,
{
    let lower = lowered(trimmed(without_trailing(trimmed(raw), '.')));
    let host = normal_host(raw)->0;
    lemma_lowered_twice(trimmed(without_trailing(trimmed(raw), '.')));
    reveal_strlit("*.");
    assert forall|i: int| 0 <= i < host.len() implies lowered_char(
        #[trigger] host[i],
    ) == host[i] by {
        let k = i + (lower.len() - host.len());
        assert(host[i] == lower[k]);
        assert(lowered(lower)[k] == lower[k]);
    }
    let k = dotted_suffixes(host).index_of(d);
    if k > 0 {
        assert(after_dots(host)[k - 1] == d);
        lemma_after_dots_are_ends(host, d);
    }
    assert(lowered(d) =~= d) by {
        assert forall|i: int| 0 <= i < d.len() implies lowered(d)[i] == d[i] by {
            assert(d[i] == host[i + (host.len() - d.len())]);
        }
    }
}

/// The listed form of a name: its registrable domain in lower case. The name is under it.
pub fn etld1(raw: &str) -> (r: Option<String>)
    ensures
        opt_text(r) == listed_form(raw@),
        r is Some ==> under(raw@, r->0@),
{
    match normalize_host(raw) {
        Some(host) => {
            let parsed = parse_name(host.as_str());
            proof {
                if parsed is Some && parsed->0.root is Some {
                    lemma_suffix_is_lowered(raw@, parsed->0.root->0@);
                }
                assert(dotted_suffixes(host@)[0] == host@);
            }
            etld1_of(host.as_str(), parsed)
        },
        None => None,
    }
}

/// Whether a name on a certificate is under a listed one.
pub open spec fn under(raw: Seq<char>, listed: Seq<char>) -> bool {
    normal_host(raw) is Some && dotted_suffixes(normal_host(raw)->0).contains(listed)
}

/// Whether a name on a certificate is under one of a set.
pub open spec fn under_any(raw: Seq<char>, listed: Set<Seq<char>>) -> bool {
    exists|d: Seq<char>| #[trigger] listed.contains(d) && under(raw, d)
}

/// The members of a set that one of the names is under.
pub open spec fn implicated(sans: Seq<Seq<char>>, listed: Set<Seq<char>>) -> Set<Seq<char>> {
    Set::new(
        |d: Seq<char>|
            listed.contains(d) && exists|i: int|
                0 <= i < sans.len() && under(#[trigger] sans[i], d),
    )
}

/// The listed forms of a list of names.
pub open spec fn listed_forms(list: Seq<Seq<char>>) -> Set<Seq<char>> {
    Set::new(
        |d: Seq<char>|
            exists|i: int| 0 <= i < list.len() && listed_form(#[trigger] list[i]) == Some(d),
    )
}

/// Result of inspecting the names of a certificate.
#[derive(Clone, Debug, PartialEq, Eq)]
pub struct InspectOutcome {
    pub event: Option<MatchEvent>,
    /// Something matched, and every implicated name was suppressed.
    pub fully_suppressed: bool,
}

/// What an [`InspectOutcome`] says.
#[verifier::ext_equal]
pub struct OutcomeView {
    pub event: Option<EventView>,
    pub fully_suppressed: bool,
}

impl View for InspectOutcome {
    type V = OutcomeView;

    open spec fn view(&self) -> OutcomeView {
        OutcomeView {
            event: opt_event(self.event),
            fully_suppressed: self.fully_suppressed,
        }
    }
}

/// What an optional event says.
pub open spec fn opt_event(e: Option<MatchEvent>) -> Option<EventView> {
    match e {
        Some(ev) => Some(ev@),
        None => None,
    }
}

/// What the inspection of a certificate's names gives: an event where a name is under a
/// listed one that is not suppressed, else whether a name is under a listed one at all.
///
/// The event has the names that are under a listed and not suppressed one, in the order of
/// the certificate, those listed ones in ascending order, and the number of all names.
pub open spec fn inspected(
    names: Set<Seq<char>>,
    suppress: Set<Seq<char>>,
    sans: Seq<Seq<char>>,
    meta: MetaView,
) -> OutcomeView {
    let live = names.difference(suppress);
    if exists|i: int| 0 <= i < sans.len() && under_any(#[trigger] sans[i], live) {
        OutcomeView {
            event: Some(
                EventView {
                    matched_domains: sans.filter(|s: Seq<char>| under_any(s, live)),
                    matched_keywords: sorted_texts(implicated(sans, live)),
                    seen: meta.seen,
                    source: meta.source,
                    fingerprint: meta.fingerprint,
                    san_count: if sans.len() > u32::MAX {
                        u32::MAX
                    } else {
                        sans.len() as u32
                    },
                },
            ),
            fully_suppressed: false,
        }
    } else {
        OutcomeView {
            event: None,
            fully_suppressed: exists|i: int|
                0 <= i < sans.len() && under_any(#[trigger] sans[i], names),
        }
    }
}

/// Registrable-domain watchlist with exact suffix lookup.
///
/// Suppressed names exist only on [`DomainWatchlist::new_with_suppress`]; without them every
/// watchlist hit is enqueued.
pub struct DomainWatchlist {
    names: NameSet,
    suppress: NameSet,
}

impl DomainWatchlist {
    /// The listed names.
    pub closed spec fn names(&self) -> Set<Seq<char>> {
        self.names@
    }

    /// The suppressed names.
    pub closed spec fn suppressed(&self) -> Set<Seq<char>> {
        self.suppress@
    }

    /// The list of the given names, with nothing suppressed. A given name that has a listed
    /// form is under it.
    pub fn new(watchlist: &[String]) -> (r: Self)
        ensures
            r.names() == listed_forms(texts(watchlist@)),
            r.suppressed() == Set::<Seq<char>>::empty(),
            forall|i: int|
                0 <= i < watchlist@.len() && listed_form(#[trigger] texts(watchlist@)[i]) is Some
                    ==> under_any(texts(watchlist@)[i], r.names()),
    {
        DomainWatchlist { names: collect_forms(watchlist), suppress: NameSet::new() }
    }

    /// The list of the given names, with some of them suppressed.
    pub fn new_with_suppress(watchlist: &[String], suppress: &[String]) -> (r: Self)
        ensures
            r.names() == listed_forms(texts(watchlist@)),
            r.suppressed() == listed_forms(texts(suppress@)),
            forall|i: int|
                0 <= i < watchlist@.len() && listed_form(#[trigger] texts(watchlist@)[i]) is Some
                    ==> under_any(texts(watchlist@)[i], r.names()),
    {
        DomainWatchlist { names: collect_forms(watchlist), suppress: collect_forms(suppress) }
    }

    /// The number of listed names.
    pub fn len(&self) -> (r: usize)
        ensures
            r == self.names().len(),
    {
        self.names.len()
    }

    /// The number of suppressed names.
    pub fn suppress_len(&self) -> (r: usize)
        ensures
            r == self.suppressed().len(),
    {
        self.suppress.len()
    }

    /// Whether no name is listed.
    pub fn is_empty(&self) -> (r: bool)
        ensures
            r == self.names().is_empty(),
    {
        self.names.is_empty()
    }

    /// The event of a certificate's names, without metadata.
    pub fn inspect(&self, domains: &[String]) -> (r: Option<MatchEvent>)
        ensures
            opt_event(r) == inspected(
                self.names(),
                self.suppressed(),
                texts(domains@),
                no_meta(),
            ).event,
    {
        self.inspect_outcome(domains, FrameMeta::default()).event
    }

    /// The event of a certificate's names.
    pub fn inspect_with_meta(&self, domains: &[String], meta: FrameMeta<'_>) -> (r: Option<
        MatchEvent,
    >)
        ensures
            opt_event(r) == inspected(
                self.names(),
                self.suppressed(),
                texts(domains@),
                meta@,
            ).event,
    {
        self.inspect_outcome(domains, meta).event
    }

    /// Inspects a certificate's names.
    pub fn inspect_outcome(&self, domains: &[String], meta: FrameMeta<'_>) -> (r: InspectOutcome)
        ensures
            r@ == inspected(self.names(), self.suppressed(), texts(domains@), meta@),
    {
        let ghost sans = texts(domains@);
        let ghost live = self.names().difference(self.suppressed());
        let ghost keep = |s: Seq<char>| under_any(s, live);
        let mut found: Vec<String> = Vec::new();
        let mut matched: Vec<String> = Vec::new();
        let mut any: bool = false;
        proof {
            reveal(Seq::filter);
            assert(texts(matched@) =~= sans.take(0).filter(keep));
            assert(texts(found@).to_set() =~= implicated(sans.take(0), live));
        }
        for i in 0..domains.len()
            invariant
                sans == texts(domains@),
                live == self.names().difference(self.suppressed()),
                keep == (|s: Seq<char>| under_any(s, live)),
                ascending(texts(found@)),
                texts(found@).to_set() == implicated(sans.take(i as int), live),
                texts(matched@) == sans.take(i as int).filter(keep),
                any == exists|k: int| 0 <= k < i && under_any(#[trigger] sans[k], self.names()),
        {
            let ghost raw = sans[i as int];
            let ghost before = texts(matched@);
            let (hit, live_hit) = self.inspect_name(domains[i].as_str(), &mut found);
            proof {
                lemma_filter_step(sans, keep, i as int);
                lemma_implicated_step(sans, live, i as int);
            }
            if live_hit {
                matched.push(domains[i].clone());
                assert(texts(matched@) =~= before.push(raw));
            }
            if hit {
                any = true;
                assert(under_any(sans[i as int], self.names()));
            }
        }
        proof {
            assert(sans.take(sans.len() as int) =~= sans);
            lemma_sorted_texts_is(texts(found@));
            lemma_implicated_nonempty(sans, live);
        }
        if matched.len() == 0 {
            proof {
                lemma_filter_empty(sans, keep);
            }
            return InspectOutcome { event: None, fully_suppressed: any };
        }
        proof {
            lemma_filter_empty(sans, keep);
            assert(texts(matched@).len() > 0);
        }
        let n: usize = domains.len();
        let san_count: u32 = if n > u32::MAX as usize {
            u32::MAX
        } else {
            n as u32
        };
        let event = MatchEvent::new(
            matched,
            found,
            meta.seen,
            own_opt(meta.source),
            own_opt(meta.fingerprint),
        ).with_san_count(san_count);
        InspectOutcome { event: Some(event), fully_suppressed: false }
    }

    /// Looks one name up: whether it is under a listed one, and whether it is under one that
    /// is not suppressed. Adds the latter to `found`.
    fn inspect_name(&self, raw: &str, found: &mut Vec<String>) -> (r: (bool, bool))
        requires
            ascending(texts(old(found)@)),
        ensures
            ascending(texts(final(found)@)),
            ({
                let live = self.names().difference(self.suppressed());
                &&& r.0 == under_any(raw@, self.names())
                &&& r.1 == under_any(raw@, live)
                &&& texts(final(found)@).to_set() == texts(old(found)@).to_set().union(
                    implicated(seq![raw@], live),
                )
            }),
    {
        let ghost live = self.names().difference(self.suppressed());
        let ghost was = texts(found@).to_set();
        match normalize_host(raw) {
            None => {
                proof {
                    let none = implicated(seq![raw@], live);
                    assert(none =~= Set::empty()) by {
                        assert forall|d: Seq<char>| !none.contains(d) by {}
                    }
                    assert(was.union(none) =~= was);
                }
                (false, false)
            },
            Some(host) => {
                let list = host_suffixes(host.as_str());
                let ghost ds = texts(list@);
                let mut hit = false;
                let mut live_hit = false;
                assert(was.union(ds.take(0).to_set().intersect(live)) =~= was);
                for j in 0..list.len()
                    invariant
                        live == self.names().difference(self.suppressed()),
                        ds == texts(list@),
                        ascending(texts(found@)),
                        texts(found@).to_set() == was.union(
                            ds.take(j as int).to_set().intersect(live),
                        ),
                        hit == exists|k: int|
                            0 <= k < j && self.names().contains(#[trigger] ds[k]),
                        live_hit == exists|k: int| 0 <= k < j && live.contains(#[trigger] ds[k]),
                {
                    let ghost d = ds[j as int];
                    proof {
                        assert(ds.take(j + 1) =~= ds.take(j as int).push(d));
                        lemma_push_to_set(ds.take(j as int), d);
                        let a = ds.take(j as int).to_set();
                        if live.contains(d) {
                            assert(was.union(a.insert(d).intersect(live)) =~= was.union(
                                a.intersect(live),
                            ).insert(d));
                        } else {
                            assert(was.union(a.insert(d).intersect(live)) =~= was.union(
                                a.intersect(live),
                            ));
                        }
                    }
                    if self.names.contains(list[j].as_str()) {
                        hit = true;
                        assert(self.names().contains(ds[j as int]));
                        if !self.suppress.contains(list[j].as_str()) {
                            live_hit = true;
                            assert(live.contains(ds[j as int]));
                            insert_sorted(found, list[j].clone());
                        }
                    }
                }
                proof {
                    assert(ds.take(ds.len() as int) =~= ds);
                    let one = seq![raw@];
                    assert(one[0] == raw@);
                    assert(implicated(one, live) =~= ds.to_set().intersect(live)) by {
                        assert forall|d: Seq<char>| implicated(one, live).contains(d) == (
                        ds.contains(d) && live.contains(d)) by {
                            if ds.contains(d) && live.contains(d) {
                                assert(under(one[0], d));
                            }
                        }
                    }
                    assert(hit == under_any(raw@, self.names())) by {
                        if hit {
                            let k = choose|k: int|
                                0 <= k < ds.len() && self.names().contains(#[trigger] ds[k]);
                            assert(under(raw@, ds[k]));
                        }
                        if under_any(raw@, self.names()) {
                            let d = choose|d: Seq<char>| #[trigger]
                                self.names().contains(d) && under(raw@, d);
                            let k = ds.index_of(d);
                            assert(self.names().contains(ds[k]));
                        }
                    }
                    assert(live_hit == under_any(raw@, live)) by {
                        if live_hit {
                            let k = choose|k: int|
                                0 <= k < ds.len() && live.contains(#[trigger] ds[k]);
                            assert(under(raw@, ds[k]));
                        }
                        if under_any(raw@, live) {
                            let d = choose|d: Seq<char>| #[trigger]
                                live.contains(d) && under(raw@, d);
                            let k = ds.index_of(d);
                            assert(live.contains(ds[k]));
                        }
                    }
                }
                (hit, live_hit)
            },
        }
    }
}

/// One more name adds the listed ones that it is under.
proof fn lemma_implicated_step(sans: Seq<Seq<char>>, live: Set<Seq<char>>, i: int)
    requires
        0 <= i < sans.len(),
    ensures
        implicated(sans.take(i + 1), live) == implicated(sans.take(i), live).union(
            implicated(seq![sans[i]], live),
        ),
{
    let a = sans.take(i);
    let b = sans.take(i + 1);
    let one = seq![sans[i]];
    assert forall|d: Seq<char>| implicated(b, live).contains(d) == (implicated(a, live).contains(d)
        || implicated(one, live).contains(d)) by {
        if implicated(b, live).contains(d) {
            let k = choose|k: int| 0 <= k < b.len() && under(#[trigger] b[k], d);
            if k < i {
                assert(under(a[k], d));
            } else {
                assert(under(one[0], d));
            }
        }
        if implicated(a, live).contains(d) {
            let k = choose|k: int| 0 <= k < a.len() && under(#[trigger] a[k], d);
            assert(under(b[k], d));
        }
        if implicated(one, live).contains(d) {
            assert(under(b[i], d));
        }
    }
    assert(implicated(b, live) =~= implicated(a, live).union(implicated(one, live)));
}

/// A certificate implicates finitely many listed names.
pub proof fn lemma_implicated_finite(sans: Seq<Seq<char>>, live: Set<Seq<char>>)
    ensures
        implicated(sans, live).finite(),
    decreases sans.len(),
{
    if sans.len() == 0 {
        assert(implicated(sans, live) =~= Set::empty());
    } else {
        let n = sans.len() - 1;
        lemma_implicated_finite(sans.take(n), live);
        lemma_implicated_step(sans, live, n);
        assert(sans.take(n + 1) =~= sans);
        let one = seq![sans[n]];
        match normal_host(sans[n]) {
            Some(host) => {
                vstd::seq_lib::seq_to_set_is_finite(dotted_suffixes(host));
                assert(implicated(one, live).subset_of(dotted_suffixes(host).to_set()));
                vstd::set_lib::lemma_len_subset(
                    implicated(one, live),
                    dotted_suffixes(host).to_set(),
                );
            },
            None => {
                assert(implicated(one, live) =~= Set::empty());
            },
        }
    }
}

/// Something is implicated when, and only when, a name is under a listed one.
proof fn lemma_implicated_nonempty(sans: Seq<Seq<char>>, live: Set<Seq<char>>)
    ensures
        (exists|i: int| 0 <= i < sans.len() && under_any(#[trigger] sans[i], live)) <==> (exists|
            d: Seq<char>,
        | #[trigger]
            implicated(sans, live).contains(d)),
{
    if exists|i: int| 0 <= i < sans.len() && under_any(#[trigger] sans[i], live) {
        let i = choose|i: int| 0 <= i < sans.len() && under_any(#[trigger] sans[i], live);
        let d = choose|d: Seq<char>| #[trigger] live.contains(d) && under(sans[i], d);
        assert(implicated(sans, live).contains(d));
    }
    if exists|d: Seq<char>| #[trigger] implicated(sans, live).contains(d) {
        let d = choose|d: Seq<char>| #[trigger] implicated(sans, live).contains(d);
        let i = choose|i: int| 0 <= i < sans.len() && under(#[trigger] sans[i], d);
        assert(under_any(sans[i], live));
    }
}

/// The listed forms of a list of names. A name that has one is under it.
fn collect_forms(list: &[String]) -> (r: NameSet)
    ensures
        r@ == listed_forms(texts(list@)),
        forall|i: int|
            0 <= i < list@.len() && listed_form(#[trigger] texts(list@)[i]) is Some ==> under_any(
                texts(list@)[i],
                r@,
            ),
{
    let mut r = NameSet::new();
    let ghost all = texts(list@);
    assert(r@ =~= listed_forms(all.take(0)));
    for i in 0..list.len()
        invariant
            all == texts(list@),
            r@ == listed_forms(all.take(i as int)),
            forall|k: int|
                0 <= k < i && listed_form(#[trigger] all[k]) is Some ==> under(
                    all[k],
                    listed_form(all[k])->0,
                ),
    {
        proof {
            lemma_listed_forms_step(all, i as int);
        }
        if let Some(name) = etld1(list[i].as_str()) {
            r.insert(name);
        }
    }
    proof {
        assert(all.take(list@.len() as int) =~= all);
        assert forall|i: int|
            0 <= i < list@.len() && listed_form(#[trigger] all[i]) is Some implies under_any(
            all[i],
            r@,
        ) by {
            assert(r@.contains(listed_form(all[i])->0));
        }
    }
    r
}

/// One more name adds its listed form, if it has one.
proof fn lemma_listed_forms_step(all: Seq<Seq<char>>, i: int)
    requires
        0 <= i < all.len(),
    ensures
        listed_forms(all.take(i + 1)) == match listed_form(all[i]) {
            Some(d) => listed_forms(all.take(i)).insert(d),
            None => listed_forms(all.take(i)),
        },
{
    let a = all.take(i);
    let b = all.take(i + 1);
    let f = listed_form(all[i]);
    assert forall|d: Seq<char>| #[trigger] listed_forms(b).contains(d) == (listed_forms(a).contains(
        d,
    ) || f == Some(d)) by {
        if listed_forms(b).contains(d) {
            let k = choose|k: int| 0 <= k < b.len() && listed_form(#[trigger] b[k]) == Some(d);
            if k < i {
                assert(a[k] == b[k]);
            }
        }
        if listed_forms(a).contains(d) {
            let k = choose|k: int| 0 <= k < a.len() && listed_form(#[trigger] a[k]) == Some(d);
            assert(b[k] == a[k]);
        }
        assert(b[i] == all[i]);
    }
    match f {
        Some(d) => {
            assert(listed_forms(b) =~= listed_forms(a).insert(d));
        },
        None => {
            assert(listed_forms(b) =~= listed_forms(a));
        },
    }
}

/// A watchlist that can be replaced as a whole. Readers that hold the old list go on with
/// it; an inspection never sees parts of two lists. The cell is the one of `arc-swap`.
#[verifier::external_body]
pub struct HotWatchlist {
    inner: arc_swap::ArcSwap<DomainWatchlist>,
}

/// The names on the list that the cell holds.
pub uninterp spec fn hot_names(hot: HotWatchlist) -> Set<Seq<char>>;

/// The suppressed names of the list that the cell holds.
pub uninterp spec fn hot_suppressed(hot: HotWatchlist) -> Set<Seq<char>>;

impl HotWatchlist {
    /// `ArcSwap::from_pointee` makes a cell that holds the given value.
    #[verifier::external_body]
    pub fn new(watchlist: DomainWatchlist) -> (r: Self)
        ensures
            hot_names(r) == watchlist.names(),
            hot_suppressed(r) == watchlist.suppressed(),
    {
        HotWatchlist { inner: arc_swap::ArcSwap::from_pointee(watchlist) }
    }

    /// `ArcSwap::store` replaces the value that the cell holds: further loads give the new
    /// one.
    ///
    /// The handle is taken by `&mut`: a contract can say of a value behind a shared reference
    /// only what never changes, and what the cell holds changes here. Who shares the cell
    /// shares it through a lock.
    #[verifier::external_body]
    pub fn swap(&mut self, watchlist: DomainWatchlist)
        ensures
            hot_names(*final(self)) == watchlist.names(),
            hot_suppressed(*final(self)) == watchlist.suppressed(),
    {
        self.inner.store(std::sync::Arc::new(watchlist));
    }

    /// `ArcSwap::load_full` gives another pointer to the value that the cell holds.
    #[verifier::external_body]
    pub fn load(&self) -> (r: std::sync::Arc<DomainWatchlist>)
        ensures
            r.names() == hot_names(*self),
            r.suppressed() == hot_suppressed(*self),
    {
        self.inner.load_full()
    }

    /// The event of a certificate's names under the present list, without metadata.
    pub fn inspect(&self, domains: &[String]) -> (r: Option<MatchEvent>)
        ensures
            opt_event(r) == inspected(
                hot_names(*self),
                hot_suppressed(*self),
                texts(domains@),
                no_meta(),
            ).event,
    {
        self.inspect_with_meta(domains, FrameMeta::default())
    }

    /// The event of a certificate's names under the present list.
    pub fn inspect_with_meta(&self, domains: &[String], meta: FrameMeta<'_>) -> (r: Option<
        MatchEvent,
    >)
        ensures
            opt_event(r) == inspected(
                hot_names(*self),
                hot_suppressed(*self),
                texts(domains@),
                meta@,
            ).event,
    {
        self.inspect_outcome(domains, meta).event
    }

    /// Inspects a certificate's names under the present list.
    pub fn inspect_outcome(&self, domains: &[String], meta: FrameMeta<'_>) -> (r: InspectOutcome)
        ensures
            r@ == inspected(hot_names(*self), hot_suppressed(*self), texts(domains@), meta@),
    {
        let list = self.load();
        list.inspect_outcome(domains, meta)
    }
}

/// The names of a watchlist file: one per line, trimmed. Blank lines and lines that begin
/// with `#` are left out.
pub open spec fn file_names(text: Seq<char>) -> Seq<Seq<char>> {
    trimmed_lines(text).filter(|l: Seq<char>| l.len() > 0 && l[0] != '#')
}

/// The lines of a text, each without surrounding whitespace.
pub open spec fn trimmed_lines(text: Seq<char>) -> Seq<Seq<char>> {
    let lines = split_on(text, '\n');
    Seq::new(lines.len(), |i: int| trimmed(lines[i]))
}

/// The names of a watchlist file.
pub fn parse_domain_lines(text: &str) -> (r: Vec<String>)
    ensures
        texts(r@) == file_names(text@),
{
    let lines = split(text, '\n');
    let ghost all = trimmed_lines(text@);
    let ghost keep = |l: Seq<char>| l.len() > 0 && l[0] != '#';
    let mut r: Vec<String> = Vec::new();
    assert(texts(r@) =~= all.take(0).filter(keep)) by {
        reveal(Seq::filter);
    }
    assert(texts(lines@).len() == all.len());
    for i in 0..lines.len()
        invariant
            all == trimmed_lines(text@),
            texts(lines@) == split_on(text@, '\n'),
            lines@.len() == all.len(),
            keep == (|l: Seq<char>| l.len() > 0 && l[0] != '#'),
            texts(r@) == all.take(i as int).filter(keep),
    {
        let ghost before = texts(r@);
        assert(lines@[i as int]@ == texts(lines@)[i as int]);
        let line = lines[i].as_str().trim();
        assert(line@ == all[i as int]);
        proof {
            lemma_filter_step(all, keep, i as int);
            reveal_strlit("#");
        }
        let comment = has_prefix(line, "#");
        assert(comment == (line@.len() > 0 && line@[0] == '#')) by {
            if line@.len() > 0 {
                assert(line@.take(1) =~= seq![line@[0]]);
                assert("#"@ =~= seq!['#']);
                assert(seq![line@[0]][0] == line@[0]);
                assert(seq!['#'][0] == '#');
            }
        }
        if !line.is_empty() && !comment {
            r.push(line.to_owned());
            assert(texts(r@) =~= before.push(all[i as int]));
        }
    }
    assert(all.take(all.len() as int) =~= all);
    r
}

/// What reading a file gave.
#[derive(Clone, Debug, PartialEq, Eq)]
pub enum FileRead {
    /// The text of the file.
    Text(String),
    /// There is no such file, in the words of the system.
    Missing(String),
    /// The file could not be read, for the given reason.
    Failed(String),
}

/// The error that a file could not be read.
pub open spec fn read_error(path: Seq<char>, why: Seq<char>) -> Seq<char> {
    path + ": "@ + why
}

/// Whether the result of loading names is the given names, or the given error.
pub open spec fn loads(
    r: Result<Vec<String>, KeywordSourceError>,
    names: Result<Seq<Seq<char>>, Seq<char>>,
) -> bool {
    match r {
        Ok(v) => names == Ok::<Seq<Seq<char>>, Seq<char>>(texts(v@)),
        Err(KeywordSourceError::Load(m)) => names == Err::<Seq<Seq<char>>, Seq<char>>(m@),
    }
}

/// The names of a watchlist file. A file that is not there cannot be read.
pub open spec fn file_load(path: Seq<char>, read: FileRead) -> Result<Seq<Seq<char>>, Seq<char>> {
    match read {
        FileRead::Text(t) => Ok(file_names(t@)),
        FileRead::Missing(why) => Err(read_error(path, why@)),
        FileRead::Failed(why) => Err(read_error(path, why@)),
    }
}

/// The names of an optional file: none where the path is empty or nothing is there.
pub open spec fn optional_load(path: Seq<char>, read: FileRead) -> Result<
    Seq<Seq<char>>,
    Seq<char>,
> {
    if path.len() == 0 || read is Missing {
        Ok(Seq::empty())
    } else {
        file_load(path, read)
    }
}

/// The names of a watchlist file, one per line. `read` is what reading it gave.
pub fn load_domain_file(path: &str, read: &FileRead) -> (r: Result<
    Vec<String>,
    KeywordSourceError,
>)
    ensures
        loads(r, file_load(path@, *read)),
{
    match read {
        FileRead::Text(t) => Ok(parse_domain_lines(t.as_str())),
        FileRead::Missing(why) => Err(KeywordSourceError::Load(read_failure(path, why.as_str()))),
        FileRead::Failed(why) => Err(KeywordSourceError::Load(read_failure(path, why.as_str()))),
    }
}

fn read_failure(path: &str, why: &str) -> (r: String)
    ensures
        r@ == read_error(path@, why@),
{
    let mut r = path.to_owned();
    r.append(": ");
    r.append(why);
    r
}

/// The names of an optional classifier file. An empty path or a missing file has none.
pub fn load_suppress_file(path: &str, read: &FileRead) -> (r: Result<
    Vec<String>,
    KeywordSourceError,
>)
    ensures
        loads(r, optional_load(path@, *read)),
{
    let missing = match read {
        FileRead::Missing(_) => true,
        _ => false,
    };
    if path.is_empty() || missing {
        let none: Vec<String> = Vec::new();
        assert(texts(none@) =~= Seq::<Seq<char>>::empty());
        return Ok(none);
    }
    load_domain_file(path, read)
}

/// The names and the suppressed names of a watchlist in two files, given what loading each
/// gave; the error of the first that cannot be loaded.
pub open spec fn built(
    names: Result<Seq<Seq<char>>, Seq<char>>,
    suppress: Result<Seq<Seq<char>>, Seq<char>>,
) -> Result<(Set<Seq<char>>, Set<Seq<char>>), Seq<char>> {
    match (names, suppress) {
        (Ok(n), Ok(s)) => Ok((listed_forms(n), listed_forms(s))),
        (Err(m), _) => Err(m),
        (_, Err(m)) => Err(m),
    }
}

/// The watchlist in a file, without the names in the suppress file, which may be missing.
/// Glue names have no part in it: they are kept out of alerts, and a certificate with no
/// other name is still enqueued.
pub fn build_watchlist(
    watch_path: &str,
    watch: &FileRead,
    suppress_path: &str,
    suppress: &FileRead,
) -> (r: Result<DomainWatchlist, StartupError>)
    ensures
        match built(file_load(watch_path@, *watch), optional_load(suppress_path@, *suppress)) {
            Ok(lists) => r is Ok && r->Ok_0.names() == lists.0 && r->Ok_0.suppressed() == lists.1,
            Err(m) => r is Err && r->Err_0 is Watchlist && r->Err_0->Watchlist_0@
                == "failed to load keywords: "@ + m,
        },
{
    let names = match load_domain_file(watch_path, watch) {
        Ok(v) => v,
        Err(e) => {
            return Err(StartupError::Watchlist(e.message()));
        },
    };
    match load_suppress_file(suppress_path, suppress) {
        Ok(s) => Ok(DomainWatchlist::new_with_suppress(names.as_slice(), s.as_slice())),
        Err(e) => Err(StartupError::Watchlist(e.message())),
    }
}

/// The names of two optional files, one after the other; the first error where one cannot be
/// read. They are for the alert filter's ignore list, not for inspection: a name that is
/// suppressed there never archives.
pub fn load_suppress_and_glue(
    suppress_path: &str,
    suppress: &FileRead,
    glue_path: &str,
    glue: &FileRead,
) -> (r: Result<Vec<String>, KeywordSourceError>)
    ensures
        loads(
            r,
            match optional_load(suppress_path@, *suppress) {
                Err(e) => Err(e),
                Ok(a) => match optional_load(glue_path@, *glue) {
                    Err(e) => Err(e),
                    Ok(b) => Ok(a + b),
                },
            },
        ),
{
    let mut names = match load_suppress_file(suppress_path, suppress) {
        Ok(v) => v,
        Err(e) => {
            return Err(e);
        },
    };
    let mut more = match load_suppress_file(glue_path, glue) {
        Ok(v) => v,
        Err(e) => {
            return Err(e);
        },
    };
    let ghost a = names@;
    let ghost b = more@;
    names.append(&mut more);
    assert(names@ =~= a + b);
    assert(texts(names@) =~= texts(a) + texts(b));
    Ok(names)
}

/// Nothing is ever fully suppressed where nothing is on the suppress list: every hit gives
/// an event.
pub proof fn law_empty_suppress(names: Set<Seq<char>>, sans: Seq<Seq<char>>, meta: MetaView)
    ensures
        !inspected(names, Set::empty(), sans, meta).fully_suppressed,
        inspected(names, Set::empty(), sans, meta).event is Some <==> exists|i: int|
            0 <= i < sans.len() && under_any(#[trigger] sans[i], names),
{
    assert(names.difference(Set::empty()) =~= names);
}

/// An event, full suppression and no hit exclude one another, and one of them holds.
pub proof fn law_outcomes_are_exclusive(
    names: Set<Seq<char>>,
    suppress: Set<Seq<char>>,
    sans: Seq<Seq<char>>,
    meta: MetaView,
)
    ensures
        ({
            let r = inspected(names, suppress, sans, meta);
            &&& !(r.event is Some && r.fully_suppressed)
            &&& (r.event is None && !r.fully_suppressed) <==> !(exists|i: int|
                0 <= i < sans.len() && under_any(#[trigger] sans[i], names))
        }),
{
    let live = names.difference(suppress);
    if exists|i: int| 0 <= i < sans.len() && under_any(#[trigger] sans[i], live) {
        let i = choose|i: int| 0 <= i < sans.len() && under_any(#[trigger] sans[i], live);
        let d = choose|d: Seq<char>| #[trigger] live.contains(d) && under(sans[i], d);
        assert(names.contains(d));
        assert(under_any(sans[i], names));
    }
}

/// The keywords of an event are listed and not suppressed, in ascending order; every one of
/// them has a matched name under it, every matched name is on the certificate and is under
/// one of them.
pub proof fn law_event_names_what_matched(
    names: Set<Seq<char>>,
    suppress: Set<Seq<char>>,
    sans: Seq<Seq<char>>,
    meta: MetaView,
)
    requires
        inspected(names, suppress, sans, meta).event is Some,
    ensures
        ({
            let ev = inspected(names, suppress, sans, meta).event->0;
            &&& ascending(ev.matched_keywords)
            &&& ev.matched_keywords.len() > 0
            &&& ev.matched_domains.len() > 0
            &&& forall|k: Seq<char>| #[trigger]
                ev.matched_keywords.contains(k) ==> names.contains(k) && !suppress.contains(k)
                    && exists|d: Seq<char>| #[trigger]
                    ev.matched_domains.contains(d) && under(d, k)
            &&& forall|d: Seq<char>| #[trigger]
                ev.matched_domains.contains(d) ==> sans.contains(d) && exists|k: Seq<char>|
                    #[trigger]
                    ev.matched_keywords.contains(k) && under(d, k)
        }),
{
    let live = names.difference(suppress);
    let found = implicated(sans, live);
    let keep = |s: Seq<char>| under_any(s, live);
    let ev = inspected(names, suppress, sans, meta).event->0;
    lemma_implicated_finite(sans, live);
    lemma_sorted_texts(found);
    lemma_filter_members(sans, keep);
    lemma_filter_empty(sans, keep);
    lemma_implicated_nonempty(sans, live);
    assert(ev.matched_keywords.to_set() == found);
    let d0 = choose|d: Seq<char>| #[trigger] found.contains(d);
    assert(ev.matched_keywords.to_set().contains(d0));
    assert forall|k: Seq<char>| #[trigger] ev.matched_keywords.contains(k) implies names.contains(k)
        && !suppress.contains(k) && exists|d: Seq<char>| #[trigger]
        ev.matched_domains.contains(d) && under(d, k) by {
        assert(ev.matched_keywords.to_set().contains(k));
        let i = choose|i: int| 0 <= i < sans.len() && under(#[trigger] sans[i], k);
        assert(under_any(sans[i], live));
        assert(sans.contains(sans[i]));
        assert(ev.matched_domains.contains(sans[i]));
    }
    assert forall|d: Seq<char>| #[trigger] ev.matched_domains.contains(d) implies sans.contains(d)
        && exists|k: Seq<char>| #[trigger]
        ev.matched_keywords.contains(k) && under(d, k) by {
        let k = choose|k: Seq<char>| #[trigger] live.contains(k) && under(d, k);
        let i = sans.index_of(d);
        assert(under(sans[i], k));
        assert(found.contains(k));
        assert(ev.matched_keywords.to_set().contains(k));
    }
}

/// Suppression takes exactly the suppressed names out of what is implicated, and no other.
pub proof fn law_suppress_strips_exactly(
    names: Set<Seq<char>>,
    suppress: Set<Seq<char>>,
    sans: Seq<Seq<char>>,
)
    ensures
        implicated(sans, names.difference(suppress)) == implicated(sans, names).difference(
            suppress,
        ),
{
    assert(implicated(sans, names.difference(suppress)) =~= implicated(sans, names).difference(
        suppress,
    ));
}

/// Listing more names loses no match, and suppressing fewer loses none either.
pub proof fn law_larger_list_keeps_matches(
    names: Set<Seq<char>>,
    suppress: Set<Seq<char>>,
    more: Set<Seq<char>>,
    fewer: Set<Seq<char>>,
    sans: Seq<Seq<char>>,
    meta: MetaView,
)
    requires
        names.subset_of(more),
        fewer.subset_of(suppress),
        inspected(names, suppress, sans, meta).event is Some,
    ensures
        inspected(more, fewer, sans, meta).event is Some,
{
    let live = names.difference(suppress);
    let i = choose|i: int| 0 <= i < sans.len() && under_any(#[trigger] sans[i], live);
    let d = choose|d: Seq<char>| #[trigger] live.contains(d) && under(sans[i], d);
    assert(more.difference(fewer).contains(d));
    assert(under_any(sans[i], more.difference(fewer)));
}

/// A name is under a listed one only at a label boundary: the bare host is the listed name,
/// or ends with a dot and the listed name.
pub proof fn law_under_at_label_boundary(raw: Seq<char>, listed: Seq<char>)
    requires
        under(raw, listed),
    ensures
        ({
            let host = normal_host(raw)->0;
            host == listed || finishes_with(host, seq!['.'] + listed)
        }),
{
    let host = normal_host(raw)->0;
    let k = dotted_suffixes(host).index_of(listed);
    if k > 0 {
        assert(after_dots(host)[k - 1] == listed);
        lemma_after_dot(host, listed);
    }
}

/// What follows a dot follows a dot.
proof fn lemma_after_dot(s: Seq<char>, d: Seq<char>)
    requires
        after_dots(s).contains(d),
    ensures
        finishes_with(s, seq!['.'] + d),
    decreases s.len(),
{
    if s.len() > 0 {
        let rest = s.drop_first();
        if after_dots(rest).contains(d) {
            lemma_after_dot(rest, d);
            let p = seq!['.'] + d;
            assert(rest.skip(rest.len() - p.len()) =~= s.skip(s.len() - p.len()));
        } else {
            let k = after_dots(s).index_of(d);
            assert(after_dots(s)[k] == d);
            assert(s[0] == '.');
            if k > 0 {
                assert(after_dots(rest)[k - 1] == d);
            }
            assert(d == rest);
            assert(s =~= seq!['.'] + d);
            assert(s.skip(0) =~= s);
        }
    }
}

/// Whether a dot can follow a name without changing it: the name does not end in a dot with
/// whitespace behind it.
pub open spec fn takes_a_dot(raw: Seq<char>) -> bool {
    raw.len() > 0 && is_white_space(raw.last()) ==> !finishes_with(trimmed(raw), "."@)
}

/// As many dots as given.
pub open spec fn dots(n: nat) -> Seq<char> {
    Seq::new(n, |i: int| '.')
}

/// Whether `b` is another spelling of `a`: in another case, or with dots behind it.
pub open spec fn respelled(a: Seq<char>, b: Seq<char>) -> bool {
    exists|n: nat|
        lowered(b) == lowered(a) + #[trigger] dots(n) && (n > 0 ==> takes_a_dot(a))
}

/// Whether every name of the one list is spelled, in some way, on the other.
pub open spec fn spells_all(a: Seq<Seq<char>>, b: Seq<Seq<char>>) -> bool {
    forall|i: int|
        0 <= i < a.len() ==> exists|j: int|
            0 <= j < b.len() && (respelled(#[trigger] a[i], #[trigger] b[j]) || respelled(
                b[j],
                a[i],
            ))
}

/// The bare forms of a list of names.
pub open spec fn normal_hosts(list: Seq<Seq<char>>) -> Set<Seq<char>> {
    Set::new(
        |h: Seq<char>|
            exists|i: int| 0 <= i < list.len() && normal_host(#[trigger] list[i]) == Some(h),
    )
}

/// Case does not matter to the bare form of a name.
proof fn lemma_normal_host_lowered(raw: Seq<char>)
    ensures
        normal_host(lowered(raw)) == normal_host(raw),
        takes_a_dot(lowered(raw)) == takes_a_dot(raw),
{
    reveal_strlit(".");
    let t = trimmed(raw);
    let bare = without_trailing(t, '.');
    lemma_lowered_trims(raw);
    lemma_lowered_trims(trimmed_start(raw));
    assert(trimmed(lowered(raw)) == lowered(t));
    lemma_lowered_trims(t);
    lemma_lowered_trims(bare);
    lemma_lowered_trims(trimmed_start(bare));
    lemma_lowered_twice(trimmed(bare));
    if raw.len() > 0 {
        assert(is_white_space(lowered(raw).last()) == is_white_space(raw.last()));
    }
    lemma_ends_in_dot(t);
    lemma_ends_in_dot(lowered(t));
    if t.len() > 0 {
        assert((lowered(t).last() == '.') == (t.last() == '.'));
    }
}

/// A text ends in a dot if its last character is one.
proof fn lemma_ends_in_dot(s: Seq<char>)
    ensures
        finishes_with(s, "."@) == (s.len() > 0 && s.last() == '.'),
{
    reveal_strlit(".");
    if s.len() > 0 {
        let end = s.skip(s.len() - 1);
        assert(end.len() == 1 && end[0] == s.last());
        assert("."@.len() == 1 && "."@[0] == '.');
        if s.last() == '.' {
            assert(end =~= "."@);
        }
    }
}

/// A dot behind a name does not matter to its bare form.
proof fn lemma_normal_host_dot(raw: Seq<char>)
    requires
        takes_a_dot(raw),
    ensures
        normal_host(raw.push('.')) == normal_host(raw),
        takes_a_dot(raw.push('.')),
{
    let dotted = raw.push('.');
    let front = trimmed_start(raw);
    let t = trimmed(raw);
    lemma_trimmed_start_dot(raw);
    lemma_trims(raw);
    lemma_trims(front);
    assert(dotted.last() == '.');
    assert(front.push('.').last() == '.');
    assert(trimmed(dotted) == front.push('.'));
    assert(front.push('.').drop_last() =~= front);
    assert(without_trailing(trimmed(dotted), '.') == without_trailing(front, '.'));
    lemma_ends_in_dot(t);
    if front.len() > 0 {
        assert(front.last() == raw.last());
        if !is_white_space(raw.last()) {
            assert(t == front);
        } else {
            assert(without_trailing(front, '.') == front);
            assert(without_trailing(t, '.') == t);
            lemma_trimmed_twice(raw);
            assert(trimmed_start(front) == front) by {
                lemma_trims(front);
            }
            assert(trimmed(front) == t);
            assert(trimmed(t) == t);
        }
    }
}

/// Dots behind a name do not matter to its bare form.
proof fn lemma_normal_host_dots(raw: Seq<char>, n: nat)
    requires
        n > 0 ==> takes_a_dot(raw),
    ensures
        normal_host(raw + dots(n)) == normal_host(raw),
        n > 0 ==> takes_a_dot(raw + dots(n)),
    decreases n,
{
    if n == 0 {
        assert(raw + dots(n) =~= raw);
    } else {
        let m = (n - 1) as nat;
        lemma_normal_host_dots(raw, m);
        if m == 0 {
            assert(raw + dots(m) =~= raw);
        }
        assert(raw + dots(n) =~= (raw + dots(m)).push('.'));
        lemma_normal_host_dot(raw + dots(m));
    }
}

/// Spelling does not matter: another case and dots at the end change neither the bare form
/// of a name nor its listed form.
pub proof fn law_spelling_is_folded(a: Seq<char>, b: Seq<char>)
    requires
        respelled(a, b),
    ensures
        normal_host(a) == normal_host(b),
        listed_form(a) == listed_form(b),
{
    let n = choose|n: nat|
        lowered(b) == lowered(a) + #[trigger] dots(n) && (n > 0 ==> takes_a_dot(a));
    lemma_normal_host_lowered(a);
    lemma_normal_host_lowered(b);
    lemma_normal_host_dots(lowered(a), n);
}

/// Lists whose names have the same bare forms list the same names and suppress the same, so
/// that every certificate has the same outcome.
pub proof fn law_bare_forms_decide(
    names: Seq<Seq<char>>,
    suppress: Seq<Seq<char>>,
    other_names: Seq<Seq<char>>,
    other_suppress: Seq<Seq<char>>,
    sans: Seq<Seq<char>>,
    meta: MetaView,
)
    requires
        normal_hosts(names) == normal_hosts(other_names),
        normal_hosts(suppress) == normal_hosts(other_suppress),
    ensures
        listed_forms(names) == listed_forms(other_names),
        listed_forms(suppress) == listed_forms(other_suppress),
        inspected(listed_forms(names), listed_forms(suppress), sans, meta) == inspected(
            listed_forms(other_names),
            listed_forms(other_suppress),
            sans,
            meta,
        ),
{
    lemma_listed_within(names, other_names);
    lemma_listed_within(other_names, names);
    lemma_listed_within(suppress, other_suppress);
    lemma_listed_within(other_suppress, suppress);
    assert(listed_forms(names) =~= listed_forms(other_names));
    assert(listed_forms(suppress) =~= listed_forms(other_suppress));
}

/// What is listed by a name whose bare form another list has too is listed by that list.
proof fn lemma_listed_within(a: Seq<Seq<char>>, b: Seq<Seq<char>>)
    requires
        normal_hosts(a).subset_of(normal_hosts(b)),
    ensures
        listed_forms(a).subset_of(listed_forms(b)),
{
    assert forall|d: Seq<char>| listed_forms(a).contains(d) implies listed_forms(b).contains(
        d,
    ) by {
        let i = choose|i: int| 0 <= i < a.len() && listed_form(#[trigger] a[i]) == Some(d);
        let h = normal_host(a[i])->0;
        assert(normal_hosts(a).contains(h));
        assert(normal_hosts(b).contains(h));
        let j = choose|j: int| 0 <= j < b.len() && normal_host(#[trigger] b[j]) == Some(h);
        assert(listed_form(b[j]) == Some(d));
    }
}

/// The order of the entries, their case, repetitions and dots at their end change nothing of
/// a watchlist: it lists and suppresses the same names, as many of them, and every
/// certificate has the same outcome. The number of listed names is the one without a
/// suppress list.
pub proof fn law_watchlist_folds(
    names: Seq<Seq<char>>,
    suppress: Seq<Seq<char>>,
    other_names: Seq<Seq<char>>,
    other_suppress: Seq<Seq<char>>,
    sans: Seq<Seq<char>>,
    meta: MetaView,
)
    requires
        spells_all(names, other_names),
        spells_all(other_names, names),
        spells_all(suppress, other_suppress),
        spells_all(other_suppress, suppress),
    ensures
        listed_forms(names) == listed_forms(other_names),
        listed_forms(names).len() == listed_forms(other_names).len(),
        listed_forms(suppress) == listed_forms(other_suppress),
        listed_forms(suppress).len() == listed_forms(other_suppress).len(),
        inspected(listed_forms(names), listed_forms(suppress), sans, meta) == inspected(
            listed_forms(other_names),
            listed_forms(other_suppress),
            sans,
            meta,
        ),
{
    lemma_spelled_within(names, other_names);
    lemma_spelled_within(other_names, names);
    lemma_spelled_within(suppress, other_suppress);
    lemma_spelled_within(other_suppress, suppress);
    assert(normal_hosts(names) =~= normal_hosts(other_names));
    assert(normal_hosts(suppress) =~= normal_hosts(other_suppress));
    law_bare_forms_decide(names, suppress, other_names, other_suppress, sans, meta);
}

/// A list that spells all names of another has their bare forms.
proof fn lemma_spelled_within(a: Seq<Seq<char>>, b: Seq<Seq<char>>)
    requires
        spells_all(a, b),
    ensures
        normal_hosts(a).subset_of(normal_hosts(b)),
{
    assert forall|h: Seq<char>| normal_hosts(a).contains(h) implies normal_hosts(b).contains(
        h,
    ) by {
        let i = choose|i: int| 0 <= i < a.len() && normal_host(#[trigger] a[i]) == Some(h);
        let j = choose|j: int|
            0 <= j < b.len() && (respelled(a[i], #[trigger] b[j]) || respelled(b[j], a[i]));
        if respelled(a[i], b[j]) {
            law_spelling_is_folded(a[i], b[j]);
        } else {
            law_spelling_is_folded(b[j], a[i]);
        }
        assert(normal_host(b[j]) == Some(h));
    }
}

/// Reading the names of a file again, one per line, gives the same names.
pub proof fn law_names_read_back(text: Seq<char>)
    ensures
        file_names(joined(file_names(text), seq!['\n'])) == file_names(text),
{
    let keep = |l: Seq<char>| l.len() > 0 && l[0] != '#';
    let lines = split_on(text, '\n');
    let all = trimmed_lines(text);
    let names = file_names(text);
    lemma_filter_members(all, keep);
    lemma_split_on_pieces(text, '\n');
    assert forall|i: int| 0 <= i < names.len() implies keep(#[trigger] names[i]) && !names[i].contains(
        '\n',
    ) && trimmed(names[i]) == names[i] by {
        assert(names.contains(names[i]));
        let k = all.index_of(names[i]);
        assert(all[k] == trimmed(lines[k]));
        lemma_trimmed_twice(lines[k]);
        if names[i].contains('\n') {
            lemma_trimmed_holds(lines[k], '\n');
        }
    }
    let again = joined(names, seq!['\n']);
    if names.len() == 0 {
        let blank = trimmed_lines(again);
        assert(again =~= Seq::<char>::empty());
        assert(split_on(again, '\n') =~= seq![again]);
        assert(blank.len() == 1 && blank[0] == trimmed(again));
        lemma_trims(again);
        lemma_trims(trimmed_start(again));
        assert(blank[0].len() == 0);
        lemma_filter_members(blank, keep);
        if file_names(again).len() > 0 {
            let x = file_names(again)[0];
            assert(file_names(again).contains(x));
            let k = blank.index_of(x);
            assert(k == 0);
        }
        assert(file_names(again) =~= names);
    } else {
        law_split_undoes_join(names, '\n');
        assert(trimmed_lines(again) =~= names);
        lemma_filter_all(names, keep);
    }
}

} // verus!
