//! Novelty memory: first-seen brand coalitions, hosts, and brand degree.
//!
//! Mute state (coalitions, brand degree, partners) is a local delta filter: the first
//! insert of a key wins and later ones are ignored. Captured facts are the multi-brand
//! certificates only, never the degree or partner tables.
//!
//! A store keeps in memory what its rules read, together with the row changes that have
//! not been written to durable storage yet. Replaying those changes over what storage
//! holds always gives the store's own tables.
use vstd::hash_map::StringHashMap;
use vstd::prelude::*;

use crate::dates::{
    instant_text, is_instant, unix_to_instant, utc_now_instant, FIRST_SECOND, LAST_SECOND,
};
use crate::event::{EventView, MatchEvent};
use crate::names::{capped_len, row, NameSet, Pair, PairSet};
use crate::text::{
    ascending, copy_opt, insert_sorted, join, joined, lemma_sorted_texts_is, lemma_take_contains,
    lowered, opt_text, same_text, sorted_texts, texts, trimmed,
};

verus! {

/// Announced database name and collector source.
pub const DB_NAME: &'static str = "ct-firehose-filter";

/// ASCII unit separator. Stands in coalition keys only, never in a captured column.
pub const FIELD_SEP: &'static str = "\u{1f}";

/// The largest count that an integer column holds.
pub const MAX_COUNT: u64 = 0x7fff_ffff_ffff_ffff;

/// Why a store refuses a change. It is then left as it was.
#[derive(Clone, Copy, Debug, PartialEq, Eq, Structural)]
pub enum StoreError {
    /// A counter would pass the largest integer that a column holds.
    CounterOverflow,
    /// A multi-brand certificate with the same brands is already captured.
    DuplicateFact,
}

impl StoreError {
    /// The error in words.
    pub open spec fn spec_message(self) -> Seq<char> {
        match self {
            StoreError::CounterOverflow => "counter exceeds the INTEGER range"@,
            StoreError::DuplicateFact => "UNIQUE constraint failed: multi_brand_certs.brands"@,
        }
    }

    /// The error in words.
    pub fn message(&self) -> (r: &'static str)
        ensures
            r@ == self.spec_message(),
    {
        match self {
            StoreError::CounterOverflow => "counter exceeds the INTEGER range",
            StoreError::DuplicateFact => "UNIQUE constraint failed: multi_brand_certs.brands",
        }
    }
}

/// A captured fact: the first multi-brand certificate of a coalition. List columns are
/// comma separated.
#[derive(Clone, Debug, PartialEq, Eq)]
pub struct MultiBrandCert {
    pub brands: String,
    pub watchlist_hits: String,
    pub hosts: String,
    pub fingerprint: Option<String>,
    pub seen_at: String,
    pub san_count: u32,
    pub ct_log: Option<String>,
    pub ingested_at: String,
}

/// What a [`MultiBrandCert`] says.
#[verifier::ext_equal]
pub struct FactView {
    pub brands: Seq<char>,
    pub watchlist_hits: Seq<char>,
    pub hosts: Seq<char>,
    pub fingerprint: Option<Seq<char>>,
    pub seen_at: Seq<char>,
    pub san_count: u32,
    pub ct_log: Option<Seq<char>>,
    pub ingested_at: Seq<char>,
}

impl View for MultiBrandCert {
    type V = FactView;

    open spec fn view(&self) -> FactView {
        FactView {
            brands: self.brands@,
            watchlist_hits: self.watchlist_hits@,
            hosts: self.hosts@,
            fingerprint: opt_text(self.fingerprint),
            seen_at: self.seen_at@,
            san_count: self.san_count,
            ct_log: opt_text(self.ct_log),
            ingested_at: self.ingested_at@,
        }
    }
}

/// How often a brand was seen, and beside how many others.
#[derive(Clone, Copy, Debug, PartialEq, Eq, Structural)]
pub struct Degree {
    pub events: u64,
    pub partners: u64,
}

/// One row put into a table. A row with the same key is replaced.
#[derive(Clone, Debug, PartialEq, Eq)]
pub enum RowChange {
    Coalition { key: String, first_seen: i64 },
    Host { brand: String, host: String, first_seen: i64 },
    BrandDegree { brand: String, degree: Degree },
    BrandPartner { brand: String, partner: String },
    Fact { fact: MultiBrandCert },
    MultiBrandEvents { count: u64 },
    CalibrateStartedAt { unix: i64 },
}

/// What a [`RowChange`] says.
pub enum ChangeView {
    Coalition { key: Seq<char>, first_seen: i64 },
    Host { brand: Seq<char>, host: Seq<char>, first_seen: i64 },
    BrandDegree { brand: Seq<char>, degree: Degree },
    BrandPartner { brand: Seq<char>, partner: Seq<char> },
    Fact { fact: FactView },
    MultiBrandEvents { count: u64 },
    CalibrateStartedAt { unix: i64 },
}

impl View for RowChange {
    type V = ChangeView;

    open spec fn view(&self) -> ChangeView {
        match *self {
            RowChange::Coalition { key, first_seen } => ChangeView::Coalition {
                key: key@,
                first_seen,
            },
            RowChange::Host { brand, host, first_seen } => ChangeView::Host {
                brand: brand@,
                host: host@,
                first_seen,
            },
            RowChange::BrandDegree { brand, degree } => ChangeView::BrandDegree {
                brand: brand@,
                degree,
            },
            RowChange::BrandPartner { brand, partner } => ChangeView::BrandPartner {
                brand: brand@,
                partner: partner@,
            },
            RowChange::Fact { fact } => ChangeView::Fact { fact: fact@ },
            RowChange::MultiBrandEvents { count } => ChangeView::MultiBrandEvents { count },
            RowChange::CalibrateStartedAt { unix } => ChangeView::CalibrateStartedAt { unix },
        }
    }
}

/// The changes that a list of them says.
pub open spec fn changes(v: Seq<RowChange>) -> Seq<ChangeView> {
    Seq::new(v.len(), |i: int| v[i]@)
}

/// The tables: what has been seen so far.
#[verifier::ext_equal]
pub struct Tables {
    /// Coalition keys with the time of their first sighting.
    pub coalitions: Map<Seq<char>, i64>,
    /// Pairs of brand and host with the time of their first sighting.
    pub hosts: Map<Pair, i64>,
    /// Event count and partner degree of each brand.
    pub degree: Map<Seq<char>, Degree>,
    /// Pairs of brands that were seen on one leaf.
    pub partners: Set<Pair>,
    /// Captured facts by their brands column.
    pub facts: Map<Seq<char>, FactView>,
    /// Multi-brand leaves recorded into the degree graph.
    pub multi_brand_events: u64,
    /// When burn-in began.
    pub calibrate_started_at: Option<i64>,
}

/// Tables without a row.
pub open spec fn no_rows() -> Tables {
    Tables {
        coalitions: Map::empty(),
        hosts: Map::empty(),
        degree: Map::empty(),
        partners: Set::empty(),
        facts: Map::empty(),
        multi_brand_events: 0,
        calibrate_started_at: None,
    }
}

impl Tables {
    /// The event count of a brand; 0 where it has no row.
    pub open spec fn events_of(self, brand: Seq<char>) -> u64 {
        if self.degree.contains_key(brand) {
            self.degree[brand].events
        } else {
            0
        }
    }

    /// The partner degree of a brand; 0 where it has no row.
    pub open spec fn partners_of(self, brand: Seq<char>) -> u64 {
        if self.degree.contains_key(brand) {
            self.degree[brand].partners
        } else {
            0
        }
    }

    /// The tables after one row change.
    pub open spec fn with_change(self, c: ChangeView) -> Tables {
        match c {
            ChangeView::Coalition { key, first_seen } => Tables {
                coalitions: self.coalitions.insert(key, first_seen),
                ..self
            },
            ChangeView::Host { brand, host, first_seen } => Tables {
                hosts: self.hosts.insert((brand, host), first_seen),
                ..self
            },
            ChangeView::BrandDegree { brand, degree } => Tables {
                degree: self.degree.insert(brand, degree),
                ..self
            },
            ChangeView::BrandPartner { brand, partner } => Tables {
                partners: self.partners.insert((brand, partner)),
                ..self
            },
            ChangeView::Fact { fact } => Tables {
                facts: self.facts.insert(fact.brands, fact),
                ..self
            },
            ChangeView::MultiBrandEvents { count } => Tables {
                multi_brand_events: count,
                ..self
            },
            ChangeView::CalibrateStartedAt { unix } => Tables {
                calibrate_started_at: Some(unix),
                ..self
            },
        }
    }

    /// The tables after a list of row changes, first to last.
    pub open spec fn with_changes(self, cs: Seq<ChangeView>) -> Tables
        decreases cs.len(),
    {
        if cs.len() == 0 {
            self
        } else {
            self.with_changes(cs.drop_last()).with_change(cs.last())
        }
    }

    /// The tables after a coalition key was offered: its first sighting stays.
    pub open spec fn with_coalition(self, key: Seq<char>, ts: i64) -> Tables {
        if self.coalitions.contains_key(key) {
            self
        } else {
            Tables { coalitions: self.coalitions.insert(key, ts), ..self }
        }
    }

    /// The tables after a host was offered: its first sighting stays.
    pub open spec fn with_host(self, brand: Seq<char>, host: Seq<char>, ts: i64) -> Tables {
        if self.hosts.contains_key((brand, host)) {
            self
        } else {
            Tables { hosts: self.hosts.insert((brand, host), ts), ..self }
        }
    }

    /// The tables after every one of the hosts was offered under every one of the brands.
    pub open spec fn with_hosts(
        self,
        brands: Seq<Seq<char>>,
        hosts: Seq<Seq<char>>,
        ts: i64,
    ) -> Tables {
        Tables {
            hosts: Map::new(
                |p: Pair|
                    self.hosts.contains_key(p) || (brands.contains(p.0) && hosts.contains(p.1)),
                |p: Pair|
                    if self.hosts.contains_key(p) {
                        self.hosts[p]
                    } else {
                        ts
                    },
            ),
            ..self
        }
    }

    /// The tables after each of the brands was counted once for every time it is listed.
    pub open spec fn with_appearances(self, brands: Seq<Seq<char>>) -> Tables {
        Tables {
            degree: Map::new(
                |b: Seq<char>| self.degree.contains_key(b) || brands.contains(b),
                |b: Seq<char>|
                    Degree {
                        events: (self.events_of(b) + occurrences(brands, b)) as u64,
                        partners: self.partners_of(b),
                    },
            ),
            ..self
        }
    }

    /// Whether every listed brand can be counted.
    pub open spec fn can_count(self, brands: Seq<Seq<char>>) -> bool {
        forall|b: Seq<char>| #[trigger]
            brands.contains(b) ==> self.events_of(b) + occurrences(brands, b) <= MAX_COUNT
    }

    /// The tables after the brands were seen together on one leaf.
    pub open spec fn with_cooccurrence(self, brands: Seq<Seq<char>>) -> Tables {
        let partners = self.partners.union(pairs_among(brands));
        Tables {
            partners,
            degree: Map::new(
                |b: Seq<char>| self.degree.contains_key(b) || brands.contains(b),
                |b: Seq<char>|
                    if brands.contains(b) {
                        Degree {
                            events: (self.events_of(b) + occurrences(brands, b)) as u64,
                            partners: larger(self.partners_of(b), row(partners, b).len() as u64),
                        }
                    } else {
                        self.degree[b]
                    },
            ),
            multi_brand_events: (self.multi_brand_events + 1) as u64,
            ..self
        }
    }

    /// The tables after the names got a floor under their event count and partner degree.
    pub open spec fn with_floor(self, names: Set<Seq<char>>, floor: u32) -> Tables {
        if floor == 0 {
            self
        } else {
            Tables {
                degree: Map::new(
                    |b: Seq<char>| self.degree.contains_key(b) || names.contains(b),
                    |b: Seq<char>|
                        if names.contains(b) {
                            Degree {
                                events: larger(self.events_of(b), floor as u64),
                                partners: larger(self.partners_of(b), floor as u64),
                            }
                        } else {
                            self.degree[b]
                        },
                ),
                ..self
            }
        }
    }

    /// Whether burn-in gates are unmet. A gate of 0 is disabled; of two set gates both
    /// have to be met.
    pub open spec fn calibrating(self, now_unix: i64, secs: u64, events: u64) -> bool {
        let started = match self.calibrate_started_at {
            Some(t) => t,
            None => 0,
        };
        ||| secs > 0 && clamped(now_unix - started) < clamped(secs as int)
        ||| events > 0 && self.multi_brand_events < events
    }
}

/// The nearest value of `i64`.
pub open spec fn clamped(x: int) -> int {
    if x > i64::MAX {
        i64::MAX as int
    } else if x < i64::MIN {
        i64::MIN as int
    } else {
        x
    }
}

/// The larger of two numbers.
pub open spec fn larger(a: u64, b: u64) -> u64 {
    if a < b {
        b
    } else {
        a
    }
}

/// A count cut off at `u32::MAX`.
pub open spec fn capped_u32(n: u64) -> u32 {
    if n > u32::MAX {
        u32::MAX
    } else {
        n as u32
    }
}

/// How often a text stands in a list.
pub open spec fn occurrences(list: Seq<Seq<char>>, x: Seq<char>) -> nat
    decreases list.len(),
{
    if list.len() == 0 {
        0
    } else {
        occurrences(list.drop_last(), x) + if list.last() == x {
            1nat
        } else {
            0
        }
    }
}

/// The ordered pairs of different members of a list.
pub open spec fn pairs_among(list: Seq<Seq<char>>) -> Set<Pair> {
    Set::new(|p: Pair| list.contains(p.0) && list.contains(p.1) && p.0 != p.1)
}

/// The trimmed and lowered texts of a list, without the empty one.
pub open spec fn cleaned(list: Seq<Seq<char>>) -> Set<Seq<char>> {
    Set::new(
        |x: Seq<char>|
            x.len() > 0 && exists|i: int|
                0 <= i < list.len() && x == lowered(trimmed(#[trigger] list[i])),
    )
}

/// The key of a coalition: its brands with the unit separator between them.
pub open spec fn coalition_key(brands: Seq<Seq<char>>) -> Seq<char> {
    joined(brands, FIELD_SEP@)
}

/// The captured form of a list: comma separated.
pub open spec fn csv(parts: Seq<Seq<char>>) -> Seq<char> {
    joined(parts, ","@)
}

/// The fact captured about an event whose low-df brands are `brands`.
pub open spec fn fact_of(
    brands: Seq<Seq<char>>,
    ev: EventView,
    ts: i64,
    now_unix: i64,
) -> FactView {
    FactView {
        brands: csv(brands),
        watchlist_hits: csv(sorted_texts(cleaned(ev.matched_keywords))),
        hosts: csv(sorted_texts(cleaned(ev.matched_domains))),
        fingerprint: ev.fingerprint,
        seen_at: instant_text(ts),
        san_count: ev.san_count,
        ct_log: ev.source,
        ingested_at: instant_text(now_unix),
    }
}

/// The parts with the unit separator between them.
pub fn join_fields(parts: &[String]) -> (r: String)
    ensures
        r@ == coalition_key(texts(parts@)),
{
    join(parts, FIELD_SEP)
}

/// The parts with a comma between them.
pub fn join_csv(parts: &[String]) -> (r: String)
    ensures
        r@ == csv(texts(parts@)),
{
    join(parts, ",")
}

/// The trimmed and lowered parts, without empty ones and repetitions, in ascending order
/// and comma separated.
pub fn sorted_csv(parts: &[String]) -> (r: String)
    ensures
        r@ == csv(sorted_texts(cleaned(texts(parts@)))),
{
    let mut v: Vec<String> = Vec::new();
    let ghost list = texts(parts@);
    assert(texts(v@).to_set() =~= cleaned(list.take(0)));
    for i in 0..parts.len()
        invariant
            list == texts(parts@),
            ascending(texts(v@)),
            texts(v@).to_set() == cleaned(list.take(i as int)),
    {
        let s = parts[i].as_str().trim().to_ascii_lowercase();
        proof {
            lemma_cleaned_step(list, i as int);
        }
        if !s.as_str().is_empty() {
            insert_sorted(&mut v, s);
        }
    }
    proof {
        assert(list.take(parts@.len() as int) =~= list);
        lemma_sorted_texts_is(texts(v@));
    }
    join_csv(v.as_slice())
}

/// One more entry of a list adds its cleaned text, unless that is empty.
pub proof fn lemma_cleaned_step(list: Seq<Seq<char>>, i: int)
    requires
        0 <= i < list.len(),
    ensures
        cleaned(list.take(i + 1)) == if lowered(trimmed(list[i])).len() > 0 {
            cleaned(list.take(i)).insert(lowered(trimmed(list[i])))
        } else {
            cleaned(list.take(i))
        },
{
    let x = lowered(trimmed(list[i]));
    let a = list.take(i);
    let b = list.take(i + 1);
    assert forall|y: Seq<char>| cleaned(b).contains(y) == (cleaned(a).contains(y) || (x.len() > 0
        && y == x)) by {
        if cleaned(b).contains(y) {
            let k = choose|k: int| 0 <= k < b.len() && y == lowered(trimmed(#[trigger] b[k]));
            if k < i {
                assert(a[k] == b[k]);
            }
        }
        if cleaned(a).contains(y) {
            let k = choose|k: int| 0 <= k < a.len() && y == lowered(trimmed(#[trigger] a[k]));
            assert(a[k] == b[k]);
        }
        assert(b[i] == list[i]);
    }
    assert(cleaned(b) =~= if x.len() > 0 {
        cleaned(a).insert(x)
    } else {
        cleaned(a)
    });
}

/// What a [`NoveltyStore`] holds: the tables as durable storage has them, the tables as
/// they are now, and the changes that lead from the one to the other.
pub struct StoreView {
    pub stored: Tables,
    pub tables: Tables,
    pub pending: Seq<ChangeView>,
}

/// Novelty memory for multi-brand delta alerts and listen-first degree.
pub struct NoveltyStore {
    coalitions: NameSet,
    hosts: PairSet,
    degree: StringHashMap<Degree>,
    partners: PairSet,
    facts: NameSet,
    multi_brand_events: u64,
    calibrate_started_at: Option<i64>,
    pending: Vec<RowChange>,
    stored: Ghost<Tables>,
    tables: Ghost<Tables>,
}

impl View for NoveltyStore {
    type V = StoreView;

    closed spec fn view(&self) -> StoreView {
        StoreView {
            stored: self.stored@,
            tables: self.tables@,
            pending: changes(self.pending@),
        }
    }
}

impl NoveltyStore {
    /// Memory mirrors the tables, and the pending changes lead to them.
    pub closed spec fn wf(&self) -> bool {
        let t = self.tables@;
        &&& self.coalitions@ == t.coalitions.dom()
        &&& self.hosts.wf()
        &&& self.hosts@ == t.hosts.dom()
        &&& self.degree@ == t.degree
        &&& self.partners.wf()
        &&& self.partners@ == t.partners
        &&& self.facts@ == t.facts.dom()
        &&& self.multi_brand_events == t.multi_brand_events
        &&& self.calibrate_started_at == t.calibrate_started_at
        &&& t == self.stored@.with_changes(changes(self.pending@))
    }

    /// The pending changes, replayed over what storage holds, give the present tables.
    pub proof fn law_pending_replays(&self)
        requires
            self.wf(),
        ensures
            self@.stored.with_changes(self@.pending) == self@.tables,
    {
    }

    /// Puts one row into its table.
    fn put(&mut self, change: RowChange)
        requires
            old(self).wf(),
        ensures
            final(self).wf(),
            final(self)@.stored == old(self)@.stored,
            final(self)@.tables == old(self)@.tables.with_change(change@),
            final(self)@.pending == old(self)@.pending.push(change@),
    {
        let ghost t = self.tables@;
        let ghost before = self.pending@;
        match &change {
            RowChange::Coalition { key, first_seen } => {
                self.coalitions.insert(key.clone());
            },
            RowChange::Host { brand, host, first_seen } => {
                self.hosts.insert(brand.as_str(), host.as_str());
            },
            RowChange::BrandDegree { brand, degree } => {
                self.degree.insert(brand.clone(), *degree);
            },
            RowChange::BrandPartner { brand, partner } => {
                self.partners.insert(brand.as_str(), partner.as_str());
            },
            RowChange::Fact { fact } => {
                self.facts.insert(fact.brands.clone());
            },
            RowChange::MultiBrandEvents { count } => {
                self.multi_brand_events = *count;
            },
            RowChange::CalibrateStartedAt { unix } => {
                self.calibrate_started_at = Some(*unix);
            },
        }
        proof {
            self.tables@ = t.with_change(change@);
            assert(changes(before.push(change)) =~= changes(before).push(change@));
            assert(changes(before).push(change@).drop_last() =~= changes(before));
            assert(self.coalitions@ =~= self.tables@.coalitions.dom());
            assert(self.hosts@ =~= self.tables@.hosts.dom());
            assert(self.facts@ =~= self.tables@.facts.dom());
        }
        self.pending.push(change);
    }

    /// A store without a row.
    fn blank() -> (r: Self)
        ensures
            r.wf(),
            r@.stored == no_rows(),
            r@.tables == no_rows(),
            r@.pending == Seq::<ChangeView>::empty(),
    {
        let r = NoveltyStore {
            coalitions: NameSet::new(),
            hosts: PairSet::new(),
            degree: StringHashMap::new(),
            partners: PairSet::new(),
            facts: NameSet::new(),
            multi_brand_events: 0,
            calibrate_started_at: None,
            pending: Vec::new(),
            stored: Ghost(no_rows()),
            tables: Ghost(no_rows()),
        };
        assert(r.coalitions@ =~= no_rows().coalitions.dom());
        assert(r.hosts@ =~= no_rows().hosts.dom());
        assert(r.facts@ =~= no_rows().facts.dom());
        assert(changes(r.pending@) =~= Seq::<ChangeView>::empty());
        r
    }

    /// A new store. Burn-in begins now.
    pub fn open(now_unix: i64) -> (r: Self)
        ensures
            r.wf(),
            r@.stored == no_rows(),
            r@.tables == (Tables { calibrate_started_at: Some(now_unix), ..no_rows() }),
    {
        NoveltyStore::restore(Vec::new(), now_unix)
    }

    /// The store whose durable rows are the given ones. Burn-in begins now, unless the
    /// rows say when it began.
    pub fn restore(rows: Vec<RowChange>, now_unix: i64) -> (r: Self)
        ensures
            r.wf(),
            r@.stored == no_rows().with_changes(changes(rows@)),
            r@.tables == (Tables {
                calibrate_started_at: match r@.stored.calibrate_started_at {
                    Some(t) => Some(t),
                    None => Some(now_unix),
                },
                ..r@.stored
            }),
    {
        let mut r = NoveltyStore::blank();
        let ghost all = changes(rows@);
        assert(all.take(0) =~= Seq::<ChangeView>::empty());
        for row in it: rows
            invariant
                r.wf(),
                it.seq() == rows@,
                all == changes(rows@),
                r@.stored == no_rows(),
                r@.tables == no_rows().with_changes(all.take(it.index() as int)),
        {
            assert(row@ == all[it.index() as int]);
            r.put(row);
            assert(all.take(it.index() + 1).drop_last() =~= all.take(it.index() as int));
        }
        assert(all.take(rows@.len() as int) =~= all);
        r.pending = Vec::new();
        proof {
            r.stored@ = r.tables@;
            assert(changes(r.pending@) =~= Seq::<ChangeView>::empty());
        }
        if r.calibrate_started_at.is_none() {
            r.put(RowChange::CalibrateStartedAt { unix: now_unix });
        }
        r
    }

    /// Distinct partner count (co-occurrence degree), including any seed floor.
    pub fn partner_degree(&self, brand: &str) -> (r: u32)
        requires
            self.wf(),
        ensures
            r == capped_u32(self@.tables.partners_of(brand@)),
    {
        cap_u32(self.degree_of(brand).partners)
    }

    /// Solo and multi watchlist appearances (document frequency), including any seed floor.
    pub fn event_count(&self, brand: &str) -> (r: u32)
        requires
            self.wf(),
        ensures
            r == capped_u32(self@.tables.events_of(brand@)),
    {
        cap_u32(self.degree_of(brand).events)
    }

    /// Both counts of a brand.
    fn degree_of(&self, brand: &str) -> (r: Degree)
        requires
            self.wf(),
        ensures
            r.events == self@.tables.events_of(brand@),
            r.partners == self@.tables.partners_of(brand@),
    {
        match self.degree.get(brand) {
            Some(d) => *d,
            None => Degree { events: 0, partners: 0 },
        }
    }

    /// Multi-brand leaves recorded into the degree graph.
    pub fn multi_brand_events(&self) -> (r: u64)
        requires
            self.wf(),
        ensures
            r == self@.tables.multi_brand_events,
    {
        self.multi_brand_events
    }

    /// When burn-in began, in Unix seconds; 0 where that is not known.
    pub fn calibrate_started_at(&self) -> (r: i64)
        requires
            self.wf(),
        ensures
            r == (match self@.tables.calibrate_started_at {
                Some(t) => t,
                None => 0,
            }),
    {
        match self.calibrate_started_at {
            Some(t) => t,
            None => 0,
        }
    }

    /// Floors these names' event count and partner degree. Names are trimmed and lowered,
    /// and empty ones are passed over. Not an ingest drop.
    pub fn seed_degree_floor(&mut self, brands: &[String], floor: u32)
        requires
            old(self).wf(),
        ensures
            final(self).wf(),
            final(self)@.stored == old(self)@.stored,
            final(self)@.tables == old(self)@.tables.with_floor(cleaned(texts(brands@)), floor),
    {
        if floor == 0 {
            return;
        }
        let ghost t = self@.tables;
        let ghost list = texts(brands@);
        assert(cleaned(list.take(0)) =~= Set::empty());
        assert(t.with_floor(cleaned(list.take(0)), floor) =~= t);
        for i in 0..brands.len()
            invariant
                floor > 0,
                list == texts(brands@),
                self.wf(),
                self@.stored == old(self)@.stored,
                self@.tables == t.with_floor(cleaned(list.take(i as int)), floor),
        {
            proof {
                lemma_cleaned_step(list, i as int);
            }
            let brand = brands[i].as_str().trim().to_ascii_lowercase();
            if !brand.as_str().is_empty() {
                let d = self.degree_of(brand.as_str());
                let degree = Degree {
                    events: max_u64(d.events, floor as u64),
                    partners: max_u64(d.partners, floor as u64),
                };
                self.put(RowChange::BrandDegree { brand, degree });
                assert(self@.tables =~= t.with_floor(cleaned(list.take(i + 1)), floor));
            }
        }
        assert(list.take(brands@.len() as int) =~= list);
    }

    /// Whether every listed brand can be counted.
    fn countable(&self, brands: &[String]) -> (r: bool)
        requires
            self.wf(),
        ensures
            r == self@.tables.can_count(texts(brands@)),
    {
        let ghost list = texts(brands@);
        for i in 0..brands.len()
            invariant
                list == texts(brands@),
                self.wf(),
                forall|k: int|
                    0 <= k < i ==> self@.tables.events_of(#[trigger] list[k]) + occurrences(
                        list,
                        list[k],
                    ) <= MAX_COUNT,
        {
            let n: usize = count_text(brands, brands[i].as_str());
            let events: u64 = self.degree_of(brands[i].as_str()).events;
            assert(list.contains(list[i as int]));
            if n as u64 > MAX_COUNT || events > MAX_COUNT - n as u64 {
                return false;
            }
        }
        true
    }

    /// Counts every implicated name once for each time that it is listed, hub leaves with
    /// one name among them. Stops at the first name whose count cannot grow.
    pub fn record_appearances(&mut self, brands: &[String]) -> (r: Result<(), StoreError>)
        requires
            old(self).wf(),
        ensures
            final(self).wf(),
            final(self)@.stored == old(self)@.stored,
            r is Ok <==> old(self)@.tables.can_count(texts(brands@)),
            r is Ok ==> final(self)@.tables == old(self)@.tables.with_appearances(texts(brands@)),
            r is Err ==> r->Err_0 == StoreError::CounterOverflow && exists|k: int|
                {
                    &&& 0 <= k < brands@.len()
                    &&& old(self)@.tables.can_count(#[trigger] texts(brands@).take(k))
                    &&& !old(self)@.tables.can_count(texts(brands@).take(k + 1))
                    &&& final(self)@.tables == old(self)@.tables.with_appearances(
                        texts(brands@).take(k),
                    )
                },
    {
        let ghost t = self@.tables;
        let ghost list = texts(brands@);
        assert(t.with_appearances(list.take(0)) =~= t);
        for i in 0..brands.len()
            invariant
                t == old(self)@.tables,
                list == texts(brands@),
                self.wf(),
                self@.stored == old(self)@.stored,
                t.can_count(list.take(i as int)),
                self@.tables == t.with_appearances(list.take(i as int)),
        {
            let ghost b = list[i as int];
            proof {
                lemma_occurrences_step(list, i as int);
                lemma_no_occurrence(list.take(i as int), b);
            }
            let d = self.degree_of(brands[i].as_str());
            if d.events >= MAX_COUNT {
                proof {
                    assert(list.take(i + 1)[i as int] == b);
                    assert(list.take(i + 1).contains(b));
                    assert(!t.can_count(list.take(i + 1)));
                    lemma_can_count_prefix(t, list, i + 1);
                }
                return Err(StoreError::CounterOverflow);
            }
            let degree = Degree { events: d.events + 1, partners: d.partners };
            self.put(RowChange::BrandDegree { brand: brands[i].clone(), degree });
            assert(self@.tables =~= t.with_appearances(list.take(i + 1)));
        }
        assert(list.take(brands@.len() as int) =~= list);
        Ok(())
    }

    /// Records a multi-brand co-occurrence: the full watchlist implication, not stripped.
    /// Fewer than two brands change nothing; on an error nothing changes either.
    pub fn record_cooccurrence(&mut self, brands: &[String]) -> (r: Result<(), StoreError>)
        requires
            old(self).wf(),
        ensures
            final(self).wf(),
            final(self)@.stored == old(self)@.stored,
            r is Ok <==> (brands@.len() < 2 || (old(self)@.tables.can_count(texts(brands@))
                && old(self)@.tables.multi_brand_events < MAX_COUNT)),
            r is Ok && brands@.len() >= 2 ==> final(self)@.tables
                == old(self)@.tables.with_cooccurrence(texts(brands@)),
            r is Ok && brands@.len() < 2 ==> final(self)@.tables == old(self)@.tables,
            r is Err ==> r->Err_0 == StoreError::CounterOverflow && final(self)@.tables
                == old(self)@.tables,
    {
        if brands.len() < 2 {
            return Ok(());
        }
        if !self.countable(brands) || self.multi_brand_events >= MAX_COUNT {
            return Err(StoreError::CounterOverflow);
        }
        let ghost t = self@.tables;
        let ghost list = texts(brands@);
        let counted = self.record_appearances(brands);
        assert(counted is Ok);
        self.link_all(brands);
        self.raise_degrees(brands);
        let count: u64 = self.multi_brand_events + 1;
        self.put(RowChange::MultiBrandEvents { count });
        assert forall|b: Seq<char>| !list.contains(b) implies occurrences(list, b) == 0 by {
            lemma_no_occurrence(list, b);
        }
        assert(self@.tables.degree =~= t.with_cooccurrence(list).degree);
        assert(self@.tables =~= t.with_cooccurrence(list));
        Ok(())
    }

    /// Makes partners of every two different listed brands.
    fn link_all(&mut self, brands: &[String])
        requires
            old(self).wf(),
        ensures
            final(self).wf(),
            final(self)@.stored == old(self)@.stored,
            final(self)@.tables == (Tables {
                partners: old(self)@.tables.partners.union(pairs_among(texts(brands@))),
                ..old(self)@.tables
            }),
    {
        let ghost t = self@.tables;
        let ghost list = texts(brands@);
        assert(self@.tables =~= (Tables {
            partners: t.partners.union(pairs_upto(list, 0, 0)),
            ..t
        })) by {
            assert(t.partners.union(pairs_upto(list, 0, 0)) =~= t.partners);
        }
        for i in 0..brands.len()
            invariant
                list == texts(brands@),
                self.wf(),
                self@.stored == old(self)@.stored,
                self@.tables == (Tables {
                    partners: t.partners.union(pairs_upto(list, i as int, 0)),
                    ..t
                }),
        {
            for j in 0..brands.len()
                invariant
                    0 <= i < brands@.len(),
                    list == texts(brands@),
                    self.wf(),
                    self@.stored == old(self)@.stored,
                    self@.tables == (Tables {
                        partners: t.partners.union(pairs_upto(list, i as int, j as int)),
                        ..t
                    }),
            {
                let ghost before = pairs_upto(list, i as int, j as int);
                let ghost after = pairs_upto(list, i as int, j + 1);
                let ghost p = (list[i as int], list[j as int]);
                proof {
                    lemma_pairs_upto_step(list, i as int, j as int);
                    assert(t.partners.union(before.insert(p)) =~= t.partners.union(before).insert(
                        p,
                    ));
                }
                if brands[i] != brands[j] {
                    if !self.partners.contains(brands[i].as_str(), brands[j].as_str()) {
                        self.put(
                            RowChange::BrandPartner {
                                brand: brands[i].clone(),
                                partner: brands[j].clone(),
                            },
                        );
                    } else {
                        assert(t.partners.union(before).insert(p) =~= t.partners.union(before));
                    }
                }
                assert(self@.tables =~= (Tables { partners: t.partners.union(after), ..t }));
            }
            proof {
                lemma_pairs_upto_row(list, i as int);
            }
        }
        proof {
            lemma_pairs_upto_all(list);
        }
    }

    /// Raises the partner degree of each listed brand to its number of partners.
    fn raise_degrees(&mut self, brands: &[String])
        requires
            old(self).wf(),
            forall|i: int|
                0 <= i < brands@.len() ==> old(self)@.tables.degree.contains_key(
                    #[trigger] texts(brands@)[i],
                ),
        ensures
            final(self).wf(),
            final(self)@.stored == old(self)@.stored,
            final(self)@.tables == (Tables {
                degree: raised(old(self)@.tables, texts(brands@)),
                ..old(self)@.tables
            }),
    {
        let ghost t = self@.tables;
        let ghost list = texts(brands@);
        assert(raised(t, list.take(0)) =~= t.degree);
        assert(self@.tables =~= (Tables { degree: raised(t, list.take(0)), ..t }));
        for i in 0..brands.len()
            invariant
                list == texts(brands@),
                forall|k: int|
                    0 <= k < list.len() ==> t.degree.contains_key(#[trigger] list[k]),
                self.wf(),
                self@.stored == old(self)@.stored,
                self@.tables == (Tables { degree: raised(t, list.take(i as int)), ..t }),
        {
            let ghost b = list[i as int];
            let n: u64 = self.partners.row_len(brands[i].as_str()) as u64;
            let d = self.degree_of(brands[i].as_str());
            proof {
                let a = list.take(i as int);
                let c = list.take(i + 1);
                assert(t.degree.contains_key(b));
                assert forall|x: Seq<char>| c.contains(x) == (a.contains(x) || x == b) by {
                    lemma_take_contains(list, i as int, x);
                }
                assert(raised(t, c) =~= raised(t, a).insert(
                    b,
                    Degree {
                        events: t.degree[b].events,
                        partners: larger(t.degree[b].partners, row(t.partners, b).len() as u64),
                    },
                ));
            }
            if n > d.partners {
                let degree = Degree { events: d.events, partners: n };
                self.put(RowChange::BrandDegree { brand: brands[i].clone(), degree });
            } else {
                assert(raised(t, list.take(i + 1)) =~= raised(t, list.take(i as int)));
            }
            assert(self@.tables =~= (Tables { degree: raised(t, list.take(i + 1)), ..t }));
        }
        assert(list.take(brands@.len() as int) =~= list);
    }

    /// Whether burn-in gates are unmet. A gate of 0 is disabled: with both at 0 the answer
    /// is always no, and of two set gates both have to be met.
    pub fn is_calibrating(&self, now_unix: i64, secs: u64, events: u64) -> (r: bool)
        requires
            self.wf(),
        ensures
            r == self@.tables.calibrating(now_unix, secs, events),
    {
        if secs == 0 && events == 0 {
            return false;
        }
        let elapsed: i64 = minus_clamped(now_unix, self.calibrate_started_at());
        let wanted: i64 = if secs > i64::MAX as u64 {
            i64::MAX
        } else {
            secs as i64
        };
        let time_ok = secs == 0 || elapsed >= wanted;
        let events_ok = events == 0 || self.multi_brand_events >= events;
        !(time_ok && events_ok)
    }

    /// Offers a coalition key; whether it was new.
    pub fn insert_coalition(&mut self, key: &str, ts: i64) -> (r: bool)
        requires
            old(self).wf(),
        ensures
            final(self).wf(),
            final(self)@.stored == old(self)@.stored,
            final(self)@.tables == old(self)@.tables.with_coalition(key@, ts),
            r == !old(self)@.tables.coalitions.contains_key(key@),
    {
        if self.coalitions.contains(key) {
            return false;
        }
        self.put(RowChange::Coalition { key: key.to_owned(), first_seen: ts });
        true
    }

    /// Offers the key of a coalition together with the fact to capture about it, both or
    /// neither; whether they were new. `brands` is the low-df set, already sorted. The clocks
    /// of a new fact read `YYYY-MM-DDTHH:MM:SSZ` for the years 0 to 9999.
    pub fn insert_multi_brand_cert(
        &mut self,
        brands: &[String],
        ev: &MatchEvent,
        ts: i64,
        now_unix: i64,
    ) -> (r: Result<bool, StoreError>)
        requires
            old(self).wf(),
        ensures
            final(self).wf(),
            final(self)@.stored == old(self)@.stored,
            ({
                let t = old(self)@.tables;
                let key = coalition_key(texts(brands@));
                let fact = fact_of(texts(brands@), ev@, ts, now_unix);
                if t.coalitions.contains_key(key) {
                    r == Ok::<bool, StoreError>(false) && final(self)@.tables == t
                } else if t.facts.contains_key(fact.brands) {
                    r == Err::<bool, StoreError>(StoreError::DuplicateFact)
                        && final(self)@.tables == t
                } else {
                    r == Ok::<bool, StoreError>(true) && final(self)@.tables == t.with_coalition(
                        key,
                        ts,
                    ).with_change(ChangeView::Fact { fact })
                }
            }),
            r == Ok::<bool, StoreError>(true) ==> ({
                let fact = final(self)@.tables.facts[csv(texts(brands@))];
                &&& FIRST_SECOND <= ts <= LAST_SECOND ==> is_instant(fact.seen_at)
                &&& FIRST_SECOND <= now_unix <= LAST_SECOND ==> is_instant(fact.ingested_at)
            }),
    {
        let key = join_fields(brands);
        if self.coalitions.contains(key.as_str()) {
            return Ok(false);
        }
        let name = join_csv(brands);
        if self.facts.contains(name.as_str()) {
            return Err(StoreError::DuplicateFact);
        }
        let fact = MultiBrandCert {
            brands: name,
            watchlist_hits: sorted_csv(ev.matched_keywords.as_slice()),
            hosts: sorted_csv(ev.matched_domains.as_slice()),
            fingerprint: copy_opt(&ev.fingerprint),
            seen_at: unix_to_instant(ts),
            san_count: ev.san_count,
            ct_log: copy_opt(&ev.source),
            ingested_at: utc_now_instant(now_unix),
        };
        assert(fact@ == fact_of(texts(brands@), ev@, ts, now_unix));
        self.put(RowChange::Coalition { key, first_seen: ts });
        self.put(RowChange::Fact { fact });
        Ok(true)
    }

    /// The number of captured facts.
    pub fn multi_brand_cert_count(&self) -> (r: u64)
        requires
            self.wf(),
        ensures
            r == self@.tables.facts.dom().len(),
    {
        self.facts.len() as u64
    }

    /// Offers a host under a brand; whether the pair was new.
    pub fn insert_host(&mut self, brand: &str, host: &str, ts: i64) -> (r: bool)
        requires
            old(self).wf(),
        ensures
            final(self).wf(),
            final(self)@.stored == old(self)@.stored,
            final(self)@.tables == old(self)@.tables.with_host(brand@, host@, ts),
            r == !old(self)@.tables.hosts.contains_key((brand@, host@)),
    {
        if self.hosts.contains(brand, host) {
            return false;
        }
        self.put(
            RowChange::Host { brand: brand.to_owned(), host: host.to_owned(), first_seen: ts },
        );
        true
    }

    /// The numbers of coalitions and of hosts.
    pub fn counts(&self) -> (r: (u64, u64))
        requires
            self.wf(),
        ensures
            r.0 == self@.tables.coalitions.dom().len(),
            r.1 == capped_len(self@.tables.hosts.dom()),
    {
        (self.coalitions.len() as u64, self.hosts.len())
    }

    /// Hands over the pending changes for durable storage. What storage holds is from
    /// then on taken to be the present tables.
    pub fn take_changes(&mut self) -> (r: Vec<RowChange>)
        requires
            old(self).wf(),
        ensures
            final(self).wf(),
            changes(r@) == old(self)@.pending,
            old(self)@.stored.with_changes(changes(r@)) == old(self)@.tables,
            final(self)@.tables == old(self)@.tables,
            final(self)@.stored == old(self)@.tables,
            final(self)@.pending == Seq::<ChangeView>::empty(),
    {
        let mut r: Vec<RowChange> = Vec::new();
        r.append(&mut self.pending);
        proof {
            self.stored@ = self.tables@;
            assert(changes(self.pending@) =~= Seq::<ChangeView>::empty());
            assert(r@ =~= old(self).pending@);
        }
        r
    }
}

/// The degree table with each listed brand's partner degree raised to its partners.
pub open spec fn raised(t: Tables, list: Seq<Seq<char>>) -> Map<Seq<char>, Degree> {
    Map::new(
        |b: Seq<char>| t.degree.contains_key(b),
        |b: Seq<char>|
            if list.contains(b) {
                Degree {
                    events: t.degree[b].events,
                    partners: larger(t.degree[b].partners, row(t.partners, b).len() as u64),
                }
            } else {
                t.degree[b]
            },
    )
}

/// The pairs of the first `i` members with all, and of member `i` with the first `j`.
spec fn pairs_upto(list: Seq<Seq<char>>, i: int, j: int) -> Set<Pair> {
    Set::new(
        |p: Pair|
            p.0 != p.1 && ((list.take(i).contains(p.0) && list.contains(p.1)) || (i < list.len()
                && p.0 == list[i] && list.take(j).contains(p.1))),
    )
}

proof fn lemma_pairs_upto_step(list: Seq<Seq<char>>, i: int, j: int)
    requires
        0 <= i < list.len(),
        0 <= j < list.len(),
    ensures
        pairs_upto(list, i, j + 1) == if list[i] == list[j] {
            pairs_upto(list, i, j)
        } else {
            pairs_upto(list, i, j).insert((list[i], list[j]))
        },
{
    let before = pairs_upto(list, i, j);
    let after = pairs_upto(list, i, j + 1);
    let q = (list[i], list[j]);
    assert forall|p: Pair| #[trigger]
        after.contains(p) == (before.contains(p) || (list[i] != list[j] && p == q)) by {
        lemma_take_contains(list, j, p.1);
        if p.0 == list[i] && p.1 == list[j] {
            assert(p == q);
        }
    }
    if list[i] == list[j] {
        assert(after =~= before);
    } else {
        assert(after =~= before.insert(q));
    }
}

proof fn lemma_pairs_upto_row(list: Seq<Seq<char>>, i: int)
    requires
        0 <= i < list.len(),
    ensures
        pairs_upto(list, i, list.len() as int) == pairs_upto(list, i + 1, 0),
{
    assert(list.take(list.len() as int) =~= list);
    assert forall|p: Pair| pairs_upto(list, i, list.len() as int).contains(p) == pairs_upto(
        list,
        i + 1,
        0,
    ).contains(p) by {
        lemma_take_contains(list, i, p.0);
    }
    assert(pairs_upto(list, i, list.len() as int) =~= pairs_upto(list, i + 1, 0));
}

proof fn lemma_pairs_upto_all(list: Seq<Seq<char>>)
    ensures
        pairs_upto(list, list.len() as int, 0) == pairs_among(list),
{
    assert(list.take(list.len() as int) =~= list);
    assert(pairs_upto(list, list.len() as int, 0) =~= pairs_among(list));
}

/// One more entry of a list adds one occurrence of its text.
proof fn lemma_occurrences_step(list: Seq<Seq<char>>, i: int)
    requires
        0 <= i < list.len(),
    ensures
        forall|x: Seq<char>| #[trigger]
            occurrences(list.take(i + 1), x) == occurrences(list.take(i), x) + if list[i] == x {
                1int
            } else {
                0
            },
        forall|x: Seq<char>| #[trigger]
            list.take(i + 1).contains(x) == (list.take(i).contains(x) || list[i] == x),
{
    assert(list.take(i + 1).drop_last() =~= list.take(i));
    assert forall|x: Seq<char>| #[trigger]
        list.take(i + 1).contains(x) == (list.take(i).contains(x) || list[i] == x) by {
        lemma_take_contains(list, i, x);
    }
}

/// A text that a list does not hold does not occur in it.
pub proof fn lemma_no_occurrence(list: Seq<Seq<char>>, x: Seq<char>)
    ensures
        !list.contains(x) ==> occurrences(list, x) == 0,
    decreases list.len(),
{
    if list.len() > 0 && !list.contains(x) {
        assert(list.last() == list[list.len() - 1]);
        let rest = list.drop_last();
        if rest.contains(x) {
            let k = rest.index_of(x);
            assert(list[k] == x);
        }
        lemma_no_occurrence(rest, x);
    }
}

/// Occurrences in a prefix are at most those in the list.
proof fn lemma_occurrences_prefix(list: Seq<Seq<char>>, n: int, x: Seq<char>)
    requires
        0 <= n <= list.len(),
    ensures
        occurrences(list.take(n), x) <= occurrences(list, x),
    decreases list.len(),
{
    if n == list.len() {
        assert(list.take(n) =~= list);
    } else {
        lemma_occurrences_prefix(list.drop_last(), n, x);
        assert(list.drop_last().take(n) =~= list.take(n));
    }
}

/// A list whose prefix cannot be counted cannot be counted.
proof fn lemma_can_count_prefix(t: Tables, list: Seq<Seq<char>>, n: int)
    requires
        0 <= n <= list.len(),
        !t.can_count(list.take(n)),
    ensures
        !t.can_count(list),
{
    let b = choose|b: Seq<char>| #[trigger]
        list.take(n).contains(b) && t.events_of(b) + occurrences(list.take(n), b) > MAX_COUNT;
    lemma_occurrences_prefix(list, n, b);
    let k = list.take(n).index_of(b);
    assert(list[k] == b);
    assert(list.contains(b));
}

/// How often a text stands in a list.
fn count_text(list: &[String], x: &str) -> (r: usize)
    ensures
        r == occurrences(texts(list@), x@),
        r <= list@.len(),
{
    let mut n: usize = 0;
    for i in 0..list.len()
        invariant
            n == occurrences(texts(list@).take(i as int), x@),
            n <= i,
    {
        assert(texts(list@).take(i + 1).drop_last() =~= texts(list@).take(i as int));
        if same_text(list[i].as_str(), x) {
            n = n + 1;
        }
    }
    assert(texts(list@).take(list@.len() as int) =~= texts(list@));
    n
}

fn max_u64(a: u64, b: u64) -> (r: u64)
    ensures
        r == larger(a, b),
{
    if a < b {
        b
    } else {
        a
    }
}

fn cap_u32(n: u64) -> (r: u32)
    ensures
        r == capped_u32(n),
{
    if n > u32::MAX as u64 {
        u32::MAX
    } else {
        n as u32
    }
}

/// The difference, or the nearest value of `i64`.
fn minus_clamped(a: i64, b: i64) -> (r: i64)
    ensures
        r == clamped(a - b),
{
    let d: i128 = a as i128 - b as i128;
    if d > i64::MAX as i128 {
        i64::MAX
    } else if d < i64::MIN as i128 {
        i64::MIN
    } else {
        d as i64
    }
}

} // verus!
