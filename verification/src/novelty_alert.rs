//! Novelty alerts: coalitions of brands (A′) and, where wanted, new hosts (B′).
//!
//! A match is first recorded into the degree graph. Brands that are hubs, by the operator's
//! ignore list or by what was learned, are then taken out. Two or more brands left over are
//! a coalition, which alerts the first time it is seen.
use vstd::prelude::*;

use crate::event::{event_seconds, event_ts, EventView, MatchEvent};
use crate::names::{NameSet, Pair};
use crate::novelty::{
    capped_u32, coalition_key, fact_of, join_csv, join_fields, ChangeView, NoveltyStore,
    StoreError, Tables, MAX_COUNT,
};
use crate::numbers::{setting, setting_or};
use crate::text::{
    all_lowered, ascending, begins_with, copy_opt, copy_texts, has_char, has_prefix, in_order,
    joined, lemma_filter_ascending, lemma_filter_step, lemma_precedes_irreflexive,
    lemma_split_on_nonempty, lemma_take_contains, lower_all, lowered, opt_text, precedes, same_text,
    skip_chars, sort_distinct, sort_texts, sorted_texts, split, split_on, strip_trailing, texts,
    trimmed, without_trailing,
};

verus! {

/// Schema version of alert and archive lines, by which the two join.
pub const MATCH_ARCHIVE_SCHEMA_VERSION: u32 = 1;

/// SHA-1 of empty input: a common placeholder where a frame omits leaf data.
pub const EMPTY_SHA1_FP: &'static str =
    "DA:39:A3:EE:5E:6B:4B:0D:32:55:BF:EF:95:60:18:90:AF:D8:07:09";

/// What an alert is about.
#[derive(Clone, Debug, PartialEq, Eq)]
pub enum NoveltyKind {
    A { coalition: Vec<String> },
    B { brand: String, host: String, novel_hosts: Vec<String> },
}

/// One alert, with the event that gave rise to it.
#[derive(Clone, Debug, PartialEq, Eq)]
pub struct NoveltyAlert {
    pub schema_version: u32,
    pub kind: NoveltyKind,
    pub event: MatchEvent,
}

/// What a [`NoveltyKind`] says.
pub enum KindView {
    A { coalition: Seq<Seq<char>> },
    B { brand: Seq<char>, host: Seq<char>, novel_hosts: Seq<Seq<char>> },
}

/// What a [`NoveltyAlert`] says.
pub struct AlertView {
    pub schema_version: u32,
    pub kind: KindView,
    pub event: EventView,
}

impl View for NoveltyKind {
    type V = KindView;

    open spec fn view(&self) -> KindView {
        match *self {
            NoveltyKind::A { coalition } => KindView::A { coalition: texts(coalition@) },
            NoveltyKind::B { brand, host, novel_hosts } => KindView::B {
                brand: brand@,
                host: host@,
                novel_hosts: texts(novel_hosts@),
            },
        }
    }
}

impl View for NoveltyAlert {
    type V = AlertView;

    open spec fn view(&self) -> AlertView {
        AlertView {
            schema_version: self.schema_version,
            kind: self.kind@,
            event: self.event@,
        }
    }
}

/// What the alerts of a list say.
pub open spec fn alerts_of(v: Seq<NoveltyAlert>) -> Seq<AlertView> {
    Seq::new(v.len(), |i: int| v[i]@)
}

/// Which matches alert.
#[derive(Clone, Copy, Debug, PartialEq, Eq, Structural)]
pub struct NoveltyPolicy {
    pub want_a: bool,
    pub want_b: bool,
    pub skip_routine: bool,
    /// Most brands in a coalition that is emitted. Larger ones are recorded only.
    pub max_coalition_len: usize,
    /// Most names on a leaf whose coalition is emitted. Larger leaves are recorded only.
    /// 0 disables.
    pub max_san_count: u32,
    /// A brand with at least this partner degree is a hub. 0 disables.
    pub max_partner_degree: u32,
    /// A brand with at least this event count is a hub. 0 disables.
    pub max_brand_df: u32,
    /// Burn-in: coalitions and degree are recorded and A′ is not emitted.
    pub calibrating: bool,
    /// Burn-in time in seconds since the store was first opened. 0 disables it.
    pub calibrate_secs: u64,
    /// Burn-in count of multi-brand events. 0 disables it.
    pub calibrate_events: u64,
    /// Whether a match fills [`ProcessStats::candidate`] for the learning feed.
    pub emit_candidates: bool,
}

/// The policy of an unconfigured process: A′ only.
pub open spec fn default_policy() -> NoveltyPolicy {
    NoveltyPolicy {
        want_a: true,
        want_b: false,
        skip_routine: true,
        max_coalition_len: 5,
        max_san_count: 32,
        max_partner_degree: 25,
        max_brand_df: 25,
        calibrating: false,
        calibrate_secs: 0,
        calibrate_events: 0,
        emit_candidates: false,
    }
}

impl Default for NoveltyPolicy {
    fn default() -> (r: Self)
        ensures
            r == default_policy(),
    {
        NoveltyPolicy {
            want_a: true,
            want_b: false,
            skip_routine: true,
            max_coalition_len: 5,
            max_san_count: 32,
            max_partner_degree: 25,
            max_brand_df: 25,
            calibrating: false,
            calibrate_secs: 0,
            calibrate_events: 0,
            emit_candidates: false,
        }
    }
}

/// The policy settings as given: `NOVELTY_MAX_COALITION`, `NOVELTY_MAX_SANS`,
/// `NOVELTY_MAX_PARTNER_DEGREE`, `NOVELTY_MAX_BRAND_DF`, `NOVELTY_CALIBRATE_SECS` and
/// `NOVELTY_CALIBRATE_EVENTS`.
#[derive(Clone, Debug, Default)]
pub struct PolicyVars {
    pub max_coalition: Option<String>,
    pub max_sans: Option<String>,
    pub max_partner_degree: Option<String>,
    pub max_brand_df: Option<String>,
    pub calibrate_secs: Option<String>,
    pub calibrate_events: Option<String>,
}

impl NoveltyPolicy {
    /// Reads the wanted tiers (the letters `A` and `B` in either case; A′ where neither
    /// stands or nothing is given) and the settings. A setting that is no number is passed
    /// over.
    pub fn from_tiers(raw: Option<&str>, vars: &PolicyVars) -> (r: Self)
        ensures
            ({
                let tiers = match raw {
                    Some(s) => s@,
                    None => seq!['A'],
                };
                let a = tiers.contains('A') || tiers.contains('a');
                let b = tiers.contains('B') || tiers.contains('b');
                let d = default_policy();
                r == NoveltyPolicy {
                    want_a: a || !b,
                    want_b: b,
                    max_coalition_len: setting_or(
                        opt_text(vars.max_coalition),
                        usize::MAX as nat,
                        d.max_coalition_len as nat,
                    ) as usize,
                    max_san_count: setting_or(
                        opt_text(vars.max_sans),
                        u32::MAX as nat,
                        d.max_san_count as nat,
                    ) as u32,
                    max_partner_degree: setting_or(
                        opt_text(vars.max_partner_degree),
                        u32::MAX as nat,
                        d.max_partner_degree as nat,
                    ) as u32,
                    max_brand_df: setting_or(
                        opt_text(vars.max_brand_df),
                        u32::MAX as nat,
                        d.max_brand_df as nat,
                    ) as u32,
                    calibrate_secs: setting_or(
                        opt_text(vars.calibrate_secs),
                        u64::MAX as nat,
                        0,
                    ) as u64,
                    calibrate_events: setting_or(
                        opt_text(vars.calibrate_events),
                        u64::MAX as nat,
                        0,
                    ) as u64,
                    ..d
                }
            }),
    {
        let (a, b) = match raw {
            Some(s) => (
                has_char(s, 'A') || has_char(s, 'a'),
                has_char(s, 'B') || has_char(s, 'b'),
            ),
            None => {
                assert(seq!['A'].contains('A')) by {
                    assert(seq!['A'][0] == 'A');
                }
                (true, false)
            },
        };
        let mut policy = NoveltyPolicy::default();
        policy.want_a = a || !b;
        policy.want_b = b;
        policy.max_coalition_len = setting(&vars.max_coalition, usize::MAX as u64, 5) as usize;
        policy.max_san_count = setting(&vars.max_sans, u32::MAX as u64, 32) as u32;
        policy.max_partner_degree = setting(&vars.max_partner_degree, u32::MAX as u64, 25) as u32;
        policy.max_brand_df = setting(&vars.max_brand_df, u32::MAX as u64, 25) as u32;
        policy.calibrate_secs = setting(&vars.calibrate_secs, u64::MAX, 0);
        policy.calibrate_events = setting(&vars.calibrate_events, u64::MAX, 0);
        policy
    }
}

/// A first-seen coalition for human evaluation. Not the product pager.
#[derive(Clone, Debug, PartialEq, Eq)]
pub struct NoveltyCandidate {
    pub schema_version: u32,
    pub kind: &'static str,
    pub reason: &'static str,
    pub coalition: Vec<String>,
    /// Partner degree of every implicated brand, in ascending order of the brands.
    pub degrees: Vec<(String, u32)>,
    /// Event count of every implicated brand, in ascending order of the brands.
    pub event_counts: Vec<(String, u32)>,
    pub fingerprint: Option<String>,
}

/// What a [`NoveltyCandidate`] says.
#[verifier::ext_equal]
pub struct CandidateView {
    pub schema_version: u32,
    pub kind: Seq<char>,
    pub reason: Seq<char>,
    pub coalition: Seq<Seq<char>>,
    pub degrees: Seq<(Seq<char>, u32)>,
    pub event_counts: Seq<(Seq<char>, u32)>,
    pub fingerprint: Option<Seq<char>>,
}

/// The counts of a list, by name.
pub open spec fn counts_of(v: Seq<(String, u32)>) -> Seq<(Seq<char>, u32)> {
    Seq::new(v.len(), |i: int| (v[i].0@, v[i].1))
}

impl View for NoveltyCandidate {
    type V = CandidateView;

    open spec fn view(&self) -> CandidateView {
        CandidateView {
            schema_version: self.schema_version,
            kind: self.kind@,
            reason: self.reason@,
            coalition: texts(self.coalition@),
            degrees: counts_of(self.degrees@),
            event_counts: counts_of(self.event_counts@),
            fingerprint: opt_text(self.fingerprint),
        }
    }
}

/// What became of one match.
#[derive(Debug)]
pub struct ProcessStats {
    /// No brand of a solo leaf, or none at all, was left over.
    pub fully_ignored: u64,
    pub alerts_a: u64,
    pub alerts_b: u64,
    /// A coalition key was new, whether or not it was emitted.
    pub coalitions_inserted: u64,
    /// New, and too many brands to emit.
    pub a_oversized_dropped: u64,
    /// New, and too many names on the leaf to emit.
    pub a_mega_san_dropped: u64,
    /// New, and fewer than two low-df brands left over.
    pub a_high_df_dropped: u64,
    /// New, and muted by burn-in.
    pub a_calibrate_muted: u64,
    /// Row for the learning feed, where the policy asks for it.
    pub candidate: Option<NoveltyCandidate>,
}

/// What a [`ProcessStats`] says.
#[verifier::ext_equal]
pub struct StatsView {
    pub fully_ignored: u64,
    pub alerts_a: u64,
    pub alerts_b: u64,
    pub coalitions_inserted: u64,
    pub a_oversized_dropped: u64,
    pub a_mega_san_dropped: u64,
    pub a_high_df_dropped: u64,
    pub a_calibrate_muted: u64,
    pub candidate: Option<CandidateView>,
}

impl View for ProcessStats {
    type V = StatsView;

    open spec fn view(&self) -> StatsView {
        StatsView {
            fully_ignored: self.fully_ignored,
            alerts_a: self.alerts_a,
            alerts_b: self.alerts_b,
            coalitions_inserted: self.coalitions_inserted,
            a_oversized_dropped: self.a_oversized_dropped,
            a_mega_san_dropped: self.a_mega_san_dropped,
            a_high_df_dropped: self.a_high_df_dropped,
            a_calibrate_muted: self.a_calibrate_muted,
            candidate: match self.candidate {
                Some(c) => Some(c@),
                None => None,
            },
        }
    }
}

/// Nothing happened.
pub open spec fn no_stats() -> StatsView {
    StatsView {
        fully_ignored: 0,
        alerts_a: 0,
        alerts_b: 0,
        coalitions_inserted: 0,
        a_oversized_dropped: 0,
        a_mega_san_dropped: 0,
        a_high_df_dropped: 0,
        a_calibrate_muted: 0,
        candidate: None,
    }
}

impl Default for ProcessStats {
    fn default() -> (r: Self)
        ensures
            r@ == no_stats(),
    {
        ProcessStats {
            fully_ignored: 0,
            alerts_a: 0,
            alerts_b: 0,
            coalitions_inserted: 0,
            a_oversized_dropped: 0,
            a_mega_san_dropped: 0,
            a_high_df_dropped: 0,
            a_calibrate_muted: 0,
            candidate: None,
        }
    }
}

/// The number of names on the leaf: the one noted at inspection, or where that is not
/// known the number of matched names.
pub open spec fn leaf_names(ev: EventView) -> u32 {
    if ev.san_count > 0 {
        ev.san_count
    } else if ev.matched_domains.len() > u32::MAX {
        u32::MAX
    } else {
        ev.matched_domains.len() as u32
    }
}

/// Leaf name count for the mega-SAN limit. Prefers the count noted at inspection; where it
/// is 0, falls back to the matched names so that the limit always holds.
pub fn effective_san_count(ev: &MatchEvent) -> (r: u32)
    ensures
        r == leaf_names(ev@),
{
    if ev.san_count > 0 {
        ev.san_count
    } else {
        let n: usize = ev.matched_domains.len();
        if n > u32::MAX as usize {
            u32::MAX
        } else {
            n as u32
        }
    }
}

/// The implicated brands of an event: its keywords in lower case, ascending.
pub open spec fn full_brands(ev: EventView) -> Seq<Seq<char>> {
    sorted_texts(all_lowered(ev.matched_keywords).to_set())
}

/// The implicated brands of an event.
pub fn unique_keywords(ev: &MatchEvent) -> (r: Vec<String>)
    ensures
        texts(r@) == full_brands(ev@),
        ascending(texts(r@)),
{
    sort_distinct(lower_all(ev.matched_keywords.as_slice()))
}

/// The implicated brands of an event that the operator does not ignore.
pub fn filter_brands(ev: &MatchEvent, ignore: &NameSet) -> (r: Vec<String>)
    ensures
        texts(r@) == full_brands(ev@).filter(|b: Seq<char>| !ignore@.contains(b)),
        ascending(texts(r@)),
{
    let full = unique_keywords(ev);
    let r = without_ignored(full.as_slice(), ignore);
    proof {
        lemma_filter_ascending(texts(full@), |b: Seq<char>| !ignore@.contains(b));
    }
    r
}

/// The listed brands that are not ignored, in the same order.
fn without_ignored(full: &[String], ignore: &NameSet) -> (r: Vec<String>)
    ensures
        texts(r@) == texts(full@).filter(|b: Seq<char>| !ignore@.contains(b)),
{
    let ghost keep = |b: Seq<char>| !ignore@.contains(b);
    let ghost list = texts(full@);
    let mut r: Vec<String> = Vec::new();
    assert(texts(r@) =~= list.take(0).filter(keep)) by {
        reveal(Seq::filter);
    }
    for i in 0..full.len()
        invariant
            keep == (|b: Seq<char>| !ignore@.contains(b)),
            list == texts(full@),
            texts(r@) == list.take(i as int).filter(keep),
    {
        let ghost before = texts(r@);
        proof {
            lemma_filter_step(list, keep, i as int);
        }
        if !ignore.contains(full[i].as_str()) {
            r.push(full[i].clone());
            assert(texts(r@) =~= before.push(list[i as int]));
        }
    }
    assert(list.take(full@.len() as int) =~= list);
    r
}

/// Whether a brand does not form coalitions: an ignored one while either gate is on, or one
/// at or above an enabled cap.
pub open spec fn is_hub(
    t: Tables,
    ignore: Set<Seq<char>>,
    policy: NoveltyPolicy,
    brand: Seq<char>,
) -> bool {
    ||| ignore.contains(brand) && (policy.max_partner_degree > 0 || policy.max_brand_df > 0)
    ||| policy.max_brand_df > 0 && capped_u32(t.events_of(brand)) >= policy.max_brand_df
    ||| policy.max_partner_degree > 0 && capped_u32(t.partners_of(brand))
        >= policy.max_partner_degree
}

/// The partner degree of a brand, where an ignored brand has at least the cap.
fn effective_degree(
    store: &NoveltyStore,
    brand: &str,
    ignore: &NameSet,
    max_partner_degree: u32,
) -> (r: u32)
    requires
        store.wf(),
    ensures
        ({
            let observed = capped_u32(store@.tables.partners_of(brand@));
            r == if max_partner_degree > 0 && ignore@.contains(brand@) && observed
                < max_partner_degree {
                max_partner_degree
            } else {
                observed
            }
        }),
{
    let observed: u32 = store.partner_degree(brand);
    if max_partner_degree > 0 && ignore.contains(brand) && observed < max_partner_degree {
        max_partner_degree
    } else {
        observed
    }
}

fn is_learned_hub(
    store: &NoveltyStore,
    brand: &str,
    ignore: &NameSet,
    policy: &NoveltyPolicy,
) -> (r: bool)
    requires
        store.wf(),
    ensures
        r == is_hub(store@.tables, ignore@, *policy, brand@),
{
    let seed = ignore.contains(brand) && (policy.max_partner_degree > 0 || policy.max_brand_df
        > 0);
    if seed {
        return true;
    }
    if policy.max_brand_df > 0 && store.event_count(brand) >= policy.max_brand_df {
        return true;
    }
    policy.max_partner_degree > 0 && effective_degree(
        store,
        brand,
        ignore,
        policy.max_partner_degree,
    ) >= policy.max_partner_degree
}

/// The brands that may form a coalition. With both caps disabled only the ignore list
/// takes brands out, and the rest is sorted.
pub open spec fn low_df(
    t: Tables,
    full: Seq<Seq<char>>,
    ignore: Set<Seq<char>>,
    policy: NoveltyPolicy,
) -> Seq<Seq<char>> {
    if policy.max_partner_degree == 0 && policy.max_brand_df == 0 {
        in_order(full.filter(|b: Seq<char>| !ignore.contains(b)))
    } else {
        full.filter(|b: Seq<char>| !is_hub(t, ignore, policy, b))
    }
}

/// The brands that may form an A′ coalition: below event-df and partner-degree caps.
pub fn a_prime_brands(
    store: &NoveltyStore,
    full: &[String],
    ignore: &NameSet,
    policy: &NoveltyPolicy,
) -> (r: Vec<String>)
    requires
        store.wf(),
    ensures
        texts(r@) == low_df(store@.tables, texts(full@), ignore@, *policy),
{
    if policy.max_partner_degree == 0 && policy.max_brand_df == 0 {
        let brands = without_ignored(full, ignore);
        return sort_texts(brands.as_slice());
    }
    let ghost keep = |b: Seq<char>| !is_hub(store@.tables, ignore@, *policy, b);
    let ghost list = texts(full@);
    let mut r: Vec<String> = Vec::new();
    assert(texts(r@) =~= list.take(0).filter(keep)) by {
        reveal(Seq::filter);
    }
    for i in 0..full.len()
        invariant
            store.wf(),
            keep == (|b: Seq<char>| !is_hub(store@.tables, ignore@, *policy, b)),
            list == texts(full@),
            texts(r@) == list.take(i as int).filter(keep),
    {
        let ghost before = texts(r@);
        proof {
            lemma_filter_step(list, keep, i as int);
        }
        if !is_learned_hub(store, full[i].as_str(), ignore, policy) {
            r.push(full[i].clone());
            assert(texts(r@) =~= before.push(list[i as int]));
        }
    }
    assert(list.take(full@.len() as int) =~= list);
    r
}

/// A name without surrounding whitespace, trailing dots and a leading `*.`, in lower case.
pub open spec fn bare_host(raw: Seq<char>) -> Seq<char> {
    let host = lowered(without_trailing(trimmed(raw), '.'));
    if begins_with(host, "*."@) {
        host.skip(2)
    } else {
        host
    }
}

/// The matched hosts of an event in bare form, ascending; the empty one is left out.
pub open spec fn event_hosts(ev: EventView) -> Seq<Seq<char>> {
    sorted_texts(bare_hosts(ev.matched_domains).to_set())
}

/// The bare forms of a list of names, without empty ones.
pub open spec fn bare_hosts(list: Seq<Seq<char>>) -> Seq<Seq<char>> {
    Seq::new(list.len(), |i: int| bare_host(list[i])).filter(|h: Seq<char>| h.len() > 0)
}

/// The matched hosts of an event.
pub fn normalized_hosts(ev: &MatchEvent) -> (r: Vec<String>)
    ensures
        texts(r@) == event_hosts(ev@),
        ascending(texts(r@)),
{
    let ghost bare = Seq::new(
        ev@.matched_domains.len(),
        |i: int| bare_host(ev@.matched_domains[i]),
    );
    let ghost keep = |h: Seq<char>| h.len() > 0;
    let mut hosts: Vec<String> = Vec::new();
    assert(texts(hosts@) =~= bare.take(0).filter(keep)) by {
        reveal(Seq::filter);
    }
    for i in 0..ev.matched_domains.len()
        invariant
            keep == (|h: Seq<char>| h.len() > 0),
            bare.len() == ev.matched_domains@.len(),
            forall|k: int|
                0 <= k < bare.len() ==> #[trigger] bare[k] == bare_host(
                    ev.matched_domains@[k]@,
                ),
            texts(hosts@) == bare.take(i as int).filter(keep),
    {
        let ghost before = texts(hosts@);
        proof {
            lemma_filter_step(bare, keep, i as int);
            reveal_strlit("*.");
        }
        let lower = strip_trailing(ev.matched_domains[i].as_str().trim(), '.').as_str()
            .to_ascii_lowercase();
        let host = if has_prefix(lower.as_str(), "*.") {
            skip_chars(lower.as_str(), 2)
        } else {
            lower
        };
        assert(host@ == bare[i as int]);
        if !host.as_str().is_empty() {
            hosts.push(host);
            assert(texts(hosts@) =~= before.push(bare[i as int]));
        }
    }
    assert(bare.take(bare.len() as int) =~= bare);
    sort_distinct(hosts)
}

/// A fingerprint that says something of the certificate: not the empty text, and not the
/// SHA-1 of nothing.
pub open spec fn real_fingerprint(fingerprint: Option<Seq<char>>) -> Option<Seq<char>> {
    match fingerprint {
        Some(fp) => if fp.len() > 0 && fp != EMPTY_SHA1_FP@ {
            Some(fp)
        } else {
            None
        },
        None => None,
    }
}

/// The key by which repeated deliveries of one match are recognised.
pub open spec fn dedupe_text(ev: EventView) -> Seq<char> {
    let domains = joined(sorted_texts(all_lowered(ev.matched_domains).to_set()), ","@);
    match real_fingerprint(ev.fingerprint) {
        Some(fp) => fp + "|"@ + domains,
        None => domains,
    }
}

/// The key by which repeated deliveries of one match are recognised: the fingerprint, where
/// it is a real one, and the matched names without regard to case and order.
pub fn dedupe_key(ev: &MatchEvent) -> (r: String)
    ensures
        r@ == dedupe_text(ev@),
{
    let list = sort_distinct(lower_all(ev.matched_domains.as_slice()));
    let domains = join_csv(list.as_slice());
    match &ev.fingerprint {
        Some(fp) => {
            if !fp.as_str().is_empty() && !same_text(fp.as_str(), EMPTY_SHA1_FP) {
                let mut r = fp.clone();
                r.append("|");
                r.append(domains.as_str());
                r
            } else {
                domains
            }
        },
        None => domains,
    }
}

/// The left-most labels that say nothing new about a brand.
pub open spec fn routine_labels() -> Seq<Seq<char>> {
    seq![
        "www"@, "mail"@, "autodiscover"@, "cpanel"@, "webmail"@, "webdisk"@, "cpcalendars"@,
        "cpcontacts"@, "ftp"@, "pop"@, "imap"@, "smtp"@, "ns1"@, "ns2"@, "mx"@, "m"@, "cdn"@,
        "static"@, "img"@, "images"@, "api"@, "app"@, "dev"@, "test"@, "qa"@, "staging"@,
        "sandbox"@, "sbx"@, "graphql"@, "mcpserver"@,
    ]
}

/// Whether a host says nothing new about a brand: it is the brand, or its left-most label
/// is a routine one.
pub open spec fn routine(brand: Seq<char>, host: Seq<char>) -> bool {
    host == brand || routine_labels().contains(split_on(host, '.')[0])
}

/// The left-most labels that say nothing new about a brand.
fn routine_list() -> (r: Vec<&'static str>)
    ensures
        r@.len() == routine_labels().len(),
        forall|i: int| 0 <= i < r@.len() ==> (#[trigger] r@[i])@ == routine_labels()[i],
{
    vec![
        "www", "mail", "autodiscover", "cpanel", "webmail", "webdisk", "cpcalendars",
        "cpcontacts", "ftp", "pop", "imap", "smtp", "ns1", "ns2", "mx", "m", "cdn", "static",
        "img", "images", "api", "app", "dev", "test", "qa", "staging", "sandbox", "sbx",
        "graphql", "mcpserver",
    ]
}

/// Whether a host says nothing new about a brand.
pub fn is_routine_host(brand: &str, host: &str) -> (r: bool)
    ensures
        r == routine(brand@, host@),
{
    if same_text(host, brand) {
        return true;
    }
    let labels = split(host, '.');
    proof {
        lemma_split_on_nonempty(host@, '.');
        assert(texts(labels@).len() > 0);
    }
    let ghost left = split_on(host@, '.')[0];
    assert(labels@[0]@ == left);
    let list = routine_list();
    for i in 0..list.len()
        invariant
            labels@.len() > 0,
            left == split_on(host@, '.')[0],
            labels@[0]@ == left,
            list@.len() == routine_labels().len(),
            forall|k: int| 0 <= k < list@.len() ==> (#[trigger] list@[k])@ == routine_labels()[k],
            forall|k: int| 0 <= k < i ==> #[trigger] routine_labels()[k] != left,
    {
        if same_text(list[i], labels[0].as_str()) {
            assert(routine_labels()[i as int] == left);
            return true;
        }
    }
    assert(!routine_labels().contains(left));
    false
}

/// What becomes of a new coalition.
pub enum Fate {
    /// A′ is not wanted.
    NotWanted,
    /// More brands than a coalition that is emitted may have.
    Oversized,
    /// More names on the leaf than a coalition that is emitted may have.
    MegaSan,
    /// Burn-in.
    Muted,
    /// Emitted.
    Emitted,
}

/// What a policy decides about a new coalition of `brands`.
pub open spec fn fate(policy: NoveltyPolicy, ev: EventView, brands: Seq<Seq<char>>) -> Fate {
    if !policy.want_a {
        Fate::NotWanted
    } else if brands.len() > policy.max_coalition_len {
        Fate::Oversized
    } else if policy.max_san_count > 0 && leaf_names(ev) > policy.max_san_count {
        Fate::MegaSan
    } else if policy.calibrating {
        Fate::Muted
    } else {
        Fate::Emitted
    }
}

/// The learning-feed row of a match, where the policy asks for one.
pub open spec fn candidate_of(
    t: Tables,
    policy: NoveltyPolicy,
    full: Seq<Seq<char>>,
    coalition: Seq<Seq<char>>,
    ev: EventView,
    reason: Seq<char>,
) -> Option<CandidateView> {
    if policy.emit_candidates {
        Some(
            CandidateView {
                schema_version: MATCH_ARCHIVE_SCHEMA_VERSION,
                kind: "candidate"@,
                reason,
                coalition,
                degrees: Seq::new(
                    full.len(),
                    |i: int| (full[i], capped_u32(t.partners_of(full[i]))),
                ),
                event_counts: Seq::new(
                    full.len(),
                    |i: int| (full[i], capped_u32(t.events_of(full[i]))),
                ),
                fingerprint: ev.fingerprint,
            },
        )
    } else {
        None
    }
}

/// The tables after the implicated brands of a match were recorded.
pub open spec fn observed(t: Tables, full: Seq<Seq<char>>) -> Tables {
    if full.len() >= 2 {
        t.with_cooccurrence(full)
    } else if full.len() == 1 {
        t.with_appearances(full)
    } else {
        t
    }
}

/// Whether the implicated brands of a match can be recorded.
pub open spec fn observable(t: Tables, full: Seq<Seq<char>>) -> bool {
    t.can_count(full) && (full.len() >= 2 ==> t.multi_brand_events < MAX_COUNT)
}

/// What processing one match leaves behind and gives back.
pub struct Processed {
    pub tables: Tables,
    pub result: Result<(Seq<AlertView>, StatsView), StoreError>,
}

/// An alert about an event.
pub open spec fn alert(kind: KindView, ev: EventView) -> AlertView {
    AlertView { schema_version: MATCH_ARCHIVE_SCHEMA_VERSION, kind, event: ev }
}

/// 1 for yes and 0 for no.
pub open spec fn one_if(b: bool) -> u64 {
    if b {
        1
    } else {
        0
    }
}

/// A match with two or more low-df brands. `t` already has its brands recorded. An emitted
/// coalition has one captured fact: where there is one under its brands already, it stays.
pub open spec fn processed_coalition(
    t: Tables,
    policy: NoveltyPolicy,
    full: Seq<Seq<char>>,
    low: Seq<Seq<char>>,
    ev: EventView,
    now_unix: i64,
) -> Processed {
    let ts = event_seconds(ev, now_unix);
    let fresh = !t.coalitions.contains_key(coalition_key(low));
    let f = fate(policy, ev, low);
    let fact = fact_of(low, ev, ts, now_unix);
    let t1 = t.with_coalition(coalition_key(low), ts);
    let t2 = if fresh && f is Emitted && !t.facts.contains_key(fact.brands) {
        t1.with_change(ChangeView::Fact { fact })
    } else {
        t1
    };
    let t3 = if policy.want_b {
        t2.with_hosts(low, event_hosts(ev), ts)
    } else {
        t2
    };
    Processed {
        tables: t3,
        result: Ok(
            (
                if fresh && f is Emitted {
                    seq![alert(KindView::A { coalition: low }, ev)]
                } else {
                    Seq::empty()
                },
                StatsView {
                    coalitions_inserted: one_if(fresh),
                    a_oversized_dropped: one_if(fresh && f is Oversized),
                    a_mega_san_dropped: one_if(fresh && f is MegaSan),
                    a_calibrate_muted: one_if(fresh && f is Muted),
                    alerts_a: one_if(fresh && f is Emitted),
                    candidate: if fresh && f is Muted {
                        candidate_of(t, policy, full, low, ev, "calibrating"@)
                    } else if fresh && f is Emitted {
                        candidate_of(t, policy, full, low, ev, "a_prime"@)
                    } else {
                        None
                    },
                    ..no_stats()
                },
            ),
        ),
    }
}

/// The hosts that a B′ alert about one brand names.
pub open spec fn novel_hosts(
    t: Tables,
    policy: NoveltyPolicy,
    brand: Seq<char>,
    hosts: Seq<Seq<char>>,
) -> Seq<Seq<char>> {
    hosts.filter(
        |h: Seq<char>|
            !t.hosts.contains_key((brand, h)) && !(policy.skip_routine && routine(brand, h)),
    )
}

/// A match with at most one low-df brand. `t` already has its brands recorded.
pub open spec fn processed_rest(
    t: Tables,
    policy: NoveltyPolicy,
    full: Seq<Seq<char>>,
    low: Seq<Seq<char>>,
    ev: EventView,
    now_unix: i64,
) -> Processed {
    let ts = event_seconds(ev, now_unix);
    let several = full.len() >= 2;
    let fresh = several && !t.coalitions.contains_key(coalition_key(full));
    let t1 = if several {
        t.with_coalition(coalition_key(full), ts)
    } else {
        t
    };
    let stats = StatsView {
        fully_ignored: one_if(low.len() == 0 && !several),
        coalitions_inserted: one_if(fresh),
        a_high_df_dropped: one_if(fresh),
        candidate: if fresh {
            candidate_of(
                t,
                policy,
                full,
                if low.len() == 0 {
                    full
                } else {
                    low
                },
                ev,
                "high_df"@,
            )
        } else {
            None
        },
        ..no_stats()
    };
    if low.len() == 0 || !policy.want_b {
        Processed { tables: t1, result: Ok((Seq::empty(), stats)) }
    } else {
        let novel = novel_hosts(t1, policy, low[0], event_hosts(ev));
        Processed {
            tables: t1.with_hosts(low, event_hosts(ev), ts),
            result: Ok(
                if novel.len() == 0 {
                    (Seq::empty(), stats)
                } else {
                    (
                        seq![
                            alert(
                                KindView::B {
                                    brand: low[0],
                                    host: novel[0],
                                    novel_hosts: novel,
                                },
                                ev,
                            ),
                        ],
                        StatsView { alerts_b: 1, ..stats },
                    )
                },
            ),
        }
    }
}

/// What processing one match leaves behind and gives back.
pub open spec fn processed(
    t: Tables,
    ignore: Set<Seq<char>>,
    policy: NoveltyPolicy,
    ev: EventView,
    now_unix: i64,
) -> Processed {
    let full = full_brands(ev);
    if !observable(t, full) {
        Processed { tables: t, result: Err(StoreError::CounterOverflow) }
    } else {
        let t1 = observed(t, full);
        let low = low_df(t1, full, ignore, policy);
        if low.len() >= 2 {
            processed_coalition(t1, policy, full, low, ev, now_unix)
        } else {
            processed_rest(t1, policy, full, low, ev, now_unix)
        }
    }
}

/// Whether the outcome of a call is the given one.
pub open spec fn same_outcome(
    r: Result<(Vec<NoveltyAlert>, ProcessStats), StoreError>,
    p: Result<(Seq<AlertView>, StatsView), StoreError>,
) -> bool {
    match r {
        Ok(v) => p is Ok && alerts_of(v.0@) == p->Ok_0.0 && v.1@ == p->Ok_0.1,
        Err(e) => p is Err && p->Err_0 == e,
    }
}

/// The learning-feed row of a match, where the policy asks for one.
fn maybe_candidate(
    policy: &NoveltyPolicy,
    store: &NoveltyStore,
    full: &[String],
    coalition: &[String],
    ev: &MatchEvent,
    reason: &'static str,
) -> (r: Option<NoveltyCandidate>)
    requires
        store.wf(),
    ensures
        (match r {
            Some(c) => Some(c@),
            None => None,
        }) == candidate_of(
            store@.tables,
            *policy,
            texts(full@),
            texts(coalition@),
            ev@,
            reason@,
        ),
{
    if !policy.emit_candidates {
        return None;
    }
    let ghost t = store@.tables;
    let ghost list = texts(full@);
    let ghost all_degrees = Seq::new(
        list.len(),
        |i: int| (list[i], capped_u32(t.partners_of(list[i]))),
    );
    let ghost all_events = Seq::new(
        list.len(),
        |i: int| (list[i], capped_u32(t.events_of(list[i]))),
    );
    let mut degrees: Vec<(String, u32)> = Vec::new();
    let mut event_counts: Vec<(String, u32)> = Vec::new();
    for i in 0..full.len()
        invariant
            store.wf(),
            t == store@.tables,
            list == texts(full@),
            all_degrees.len() == list.len(),
            all_events.len() == list.len(),
            forall|k: int|
                0 <= k < list.len() ==> #[trigger] all_degrees[k] == (
                    list[k],
                    capped_u32(t.partners_of(list[k])),
                ),
            forall|k: int|
                0 <= k < list.len() ==> #[trigger] all_events[k] == (
                    list[k],
                    capped_u32(t.events_of(list[k])),
                ),
            counts_of(degrees@) == all_degrees.take(i as int),
            counts_of(event_counts@) == all_events.take(i as int),
    {
        let ghost d0 = counts_of(degrees@);
        let ghost e0 = counts_of(event_counts@);
        degrees.push((full[i].clone(), store.partner_degree(full[i].as_str())));
        event_counts.push((full[i].clone(), store.event_count(full[i].as_str())));
        assert(counts_of(degrees@) =~= d0.push(all_degrees[i as int]));
        assert(counts_of(event_counts@) =~= e0.push(all_events[i as int]));
        assert(all_degrees.take(i + 1) =~= all_degrees.take(i as int).push(all_degrees[i as int]));
        assert(all_events.take(i + 1) =~= all_events.take(i as int).push(all_events[i as int]));
    }
    assert(all_degrees.take(list.len() as int) =~= all_degrees);
    assert(all_events.take(list.len() as int) =~= all_events);
    Some(
        NoveltyCandidate {
            schema_version: MATCH_ARCHIVE_SCHEMA_VERSION,
            kind: "candidate",
            reason,
            coalition: copy_texts(coalition),
            degrees,
            event_counts,
            fingerprint: copy_opt(&ev.fingerprint),
        },
    )
}

/// Offers every one of the hosts under every one of the brands.
fn insert_hosts(store: &mut NoveltyStore, brands: &[String], hosts: &[String], ts: i64)
    requires
        old(store).wf(),
    ensures
        final(store).wf(),
        final(store)@.stored == old(store)@.stored,
        final(store)@.tables == old(store)@.tables.with_hosts(texts(brands@), texts(hosts@), ts),
{
    let ghost t = store@.tables;
    let ghost bs = texts(brands@);
    let ghost hs = texts(hosts@);
    assert(t.with_hosts(bs.take(0), hs, ts) =~= t);
    for i in 0..brands.len()
        invariant
            bs == texts(brands@),
            hs == texts(hosts@),
            store.wf(),
            store@.stored == old(store)@.stored,
            store@.tables == t.with_hosts(bs.take(i as int), hs, ts),
    {
        let ghost u = store@.tables;
        let ghost one = seq![bs[i as int]];
        assert(one.contains(bs[i as int])) by {
            assert(one[0] == bs[i as int]);
        }
        assert(u.with_hosts(one, hs.take(0), ts) =~= u);
        for j in 0..hosts.len()
            invariant
                0 <= i < brands@.len(),
                bs == texts(brands@),
                hs == texts(hosts@),
                one == seq![bs[i as int]],
                one.contains(bs[i as int]),
                store.wf(),
                store@.stored == old(store)@.stored,
                store@.tables == u.with_hosts(one, hs.take(j as int), ts),
        {
            store.insert_host(brands[i].as_str(), hosts[j].as_str(), ts);
            proof {
                assert forall|x: Seq<char>| #[trigger]
                    hs.take(j + 1).contains(x) == (hs.take(j as int).contains(x) || hs[j as int]
                        == x) by {
                    lemma_take_contains(hs, j as int, x);
                }
                assert forall|p: Pair| one.contains(p.0) && p.1 == hs[j as int] implies p == (
                    bs[i as int],
                    hs[j as int],
                ) by {
                    assert(p.0 == bs[i as int]);
                }
                assert(store@.tables.hosts =~= u.with_hosts(one, hs.take(j + 1), ts).hosts);
                assert(store@.tables =~= u.with_hosts(one, hs.take(j + 1), ts));
            }
        }
        proof {
            assert(hs.take(hs.len() as int) =~= hs);
            assert forall|x: Seq<char>| #[trigger]
                bs.take(i + 1).contains(x) == (bs.take(i as int).contains(x) || one.contains(x))
                by {
                lemma_take_contains(bs, i as int, x);
            }
            assert(t.with_hosts(bs.take(i + 1), hs, ts) =~= u.with_hosts(one, hs, ts));
        }
    }
    assert(bs.take(bs.len() as int) =~= bs);
}

/// Offers the hosts under a brand; the new ones that are worth an alert.
fn insert_novel_hosts(
    store: &mut NoveltyStore,
    policy: &NoveltyPolicy,
    brand: &str,
    hosts: &[String],
    ts: i64,
) -> (r: Vec<String>)
    requires
        old(store).wf(),
        ascending(texts(hosts@)),
    ensures
        final(store).wf(),
        final(store)@.stored == old(store)@.stored,
        final(store)@.tables == old(store)@.tables.with_hosts(seq![brand@], texts(hosts@), ts),
        texts(r@) == novel_hosts(old(store)@.tables, *policy, brand@, texts(hosts@)),
{
    let ghost t = store@.tables;
    let ghost hs = texts(hosts@);
    let ghost one = seq![brand@];
    let ghost keep = |h: Seq<char>|
        !t.hosts.contains_key((brand@, h)) && !(policy.skip_routine && routine(brand@, h));
    let mut novel: Vec<String> = Vec::new();
    proof {
        assert(one[0] == brand@);
        assert(one.contains(brand@));
        assert(t.with_hosts(one, hs.take(0), ts) =~= t);
        reveal(Seq::filter);
        assert(texts(novel@) =~= hs.take(0).filter(keep));
    }
    for i in 0..hosts.len()
        invariant
            hs == texts(hosts@),
            ascending(hs),
            one == seq![brand@],
            one.contains(brand@),
            keep == (|h: Seq<char>|
                !t.hosts.contains_key((brand@, h)) && !(policy.skip_routine && routine(
                    brand@,
                    h,
                ))),
            store.wf(),
            store@.stored == old(store)@.stored,
            store@.tables == t.with_hosts(one, hs.take(i as int), ts),
            texts(novel@) == hs.take(i as int).filter(keep),
    {
        let ghost before = texts(novel@);
        let ghost h = hs[i as int];
        proof {
            lemma_filter_step(hs, keep, i as int);
            if hs.take(i as int).contains(h) {
                let k = hs.take(i as int).index_of(h);
                assert(precedes(hs[k], hs[i as int]));
                lemma_precedes_irreflexive(h);
            }
        }
        let fresh = store.insert_host(brand, hosts[i].as_str(), ts);
        assert(fresh == !t.hosts.contains_key((brand@, h)));
        proof {
            assert forall|x: Seq<char>| #[trigger]
                hs.take(i + 1).contains(x) == (hs.take(i as int).contains(x) || h == x) by {
                lemma_take_contains(hs, i as int, x);
            }
            assert forall|p: Pair| one.contains(p.0) && p.1 == h implies p == (brand@, h) by {
                assert(p.0 == brand@);
            }
            assert(store@.tables.hosts =~= t.with_hosts(one, hs.take(i + 1), ts).hosts);
            assert(store@.tables =~= t.with_hosts(one, hs.take(i + 1), ts));
        }
        if fresh && !(policy.skip_routine && is_routine_host(brand, hosts[i].as_str())) {
            novel.push(hosts[i].clone());
            assert(texts(novel@) =~= before.push(h));
        }
    }
    assert(hs.take(hs.len() as int) =~= hs);
    novel
}

/// Records a match, takes the hubs out of its brands, and gives the alerts that are due,
/// with counts of what became of it. `now_unix` is the clock's reading: it stands in for a
/// missing timestamp, and is the time of ingest of a captured fact.
///
/// An emitted coalition and its captured fact are written together. A fact is captured once:
/// where one stands under the same brands, no second one is written.
pub fn process_match(
    store: &mut NoveltyStore,
    ignore: &NameSet,
    policy: &NoveltyPolicy,
    ev: &MatchEvent,
    now_unix: i64,
) -> (r: Result<(Vec<NoveltyAlert>, ProcessStats), StoreError>)
    requires
        old(store).wf(),
    ensures
        final(store).wf(),
        final(store)@.stored == old(store)@.stored,
        final(store)@.tables == processed(
            old(store)@.tables,
            ignore@,
            *policy,
            ev@,
            now_unix,
        ).tables,
        same_outcome(r, processed(old(store)@.tables, ignore@, *policy, ev@, now_unix).result),
{
    let full = unique_keywords(ev);
    let ghost t0 = store@.tables;
    let ghost fl = texts(full@);
    if full.len() >= 2 {
        match store.record_cooccurrence(full.as_slice()) {
            Ok(()) => {},
            Err(e) => {
                return Err(e);
            },
        }
    } else if full.len() == 1 {
        match store.record_appearances(full.as_slice()) {
            Ok(()) => {},
            Err(e) => {
                proof {
                    assert forall|k: int| 0 <= k < 1 implies t0.with_appearances(
                        #[trigger] fl.take(k),
                    ) == t0 by {
                        assert(fl.take(k) =~= Seq::<Seq<char>>::empty());
                        assert(t0.with_appearances(fl.take(k)) =~= t0);
                    }
                }
                return Err(e);
            },
        }
    } else {
        assert(t0.can_count(fl));
    }
    assert(observable(t0, fl));
    let ghost t1 = store@.tables;
    assert(t1 == observed(t0, fl));

    let low = a_prime_brands(store, full.as_slice(), ignore, policy);
    let ghost lw = texts(low@);
    let ts: i64 = event_ts(ev, now_unix);
    let mut stats = ProcessStats::default();
    let mut alerts: Vec<NoveltyAlert> = Vec::new();
    assert(alerts_of(alerts@) =~= Seq::<AlertView>::empty());

    if low.len() >= 2 {
        let emits = policy.want_a && low.len() <= policy.max_coalition_len && !(
        policy.max_san_count > 0 && effective_san_count(ev) > policy.max_san_count)
            && !policy.calibrating;
        assert(emits == fate(*policy, ev@, lw) is Emitted);
        let fresh = if emits {
            match store.insert_multi_brand_cert(low.as_slice(), ev, ts, now_unix) {
                Ok(fresh) => fresh,
                Err(_) => {
                    let key = join_fields(low.as_slice());
                    store.insert_coalition(key.as_str(), ts)
                },
            }
        } else {
            let key = join_fields(low.as_slice());
            store.insert_coalition(key.as_str(), ts)
        };
        if fresh {
            stats.coalitions_inserted = 1;
        }
        let ghost t2 = store@.tables;
        assert(t2.degree == t1.degree);
        if policy.want_b {
            let hosts = normalized_hosts(ev);
            insert_hosts(store, low.as_slice(), hosts.as_slice(), ts);
        }
        let ghost t3 = store@.tables;
        assert(t3.degree == t1.degree);
        proof {
            lemma_candidate_by_degree(t1, t3, *policy, fl, lw, ev@);
        }
        if fresh && policy.want_a {
            if low.len() > policy.max_coalition_len {
                stats.a_oversized_dropped = 1;
            } else if policy.max_san_count > 0 && effective_san_count(ev) > policy.max_san_count {
                stats.a_mega_san_dropped = 1;
            } else if policy.calibrating {
                stats.a_calibrate_muted = 1;
                stats.candidate =
                maybe_candidate(
                    policy,
                    store,
                    full.as_slice(),
                    low.as_slice(),
                    ev,
                    "calibrating",
                );
            } else {
                stats.alerts_a = 1;
                stats.candidate =
                maybe_candidate(policy, store, full.as_slice(), low.as_slice(), ev, "a_prime");
                alerts.push(
                    NoveltyAlert {
                        schema_version: MATCH_ARCHIVE_SCHEMA_VERSION,
                        kind: NoveltyKind::A { coalition: low },
                        event: ev.duplicate(),
                    },
                );
                assert(alerts_of(alerts@) =~= seq![alert(KindView::A { coalition: lw }, ev@)]);
            }
        }
        return Ok((alerts, stats));
    }

    if full.len() >= 2 {
        let key = join_fields(full.as_slice());
        if store.insert_coalition(key.as_str(), ts) {
            stats.coalitions_inserted = 1;
            stats.a_high_df_dropped = 1;
            proof {
                lemma_candidate_by_degree(
                    t1,
                    store@.tables,
                    *policy,
                    fl,
                    if lw.len() == 0 {
                        fl
                    } else {
                        lw
                    },
                    ev@,
                );
            }
            stats.candidate =
            if low.len() == 0 {
                maybe_candidate(policy, store, full.as_slice(), full.as_slice(), ev, "high_df")
            } else {
                maybe_candidate(policy, store, full.as_slice(), low.as_slice(), ev, "high_df")
            };
        }
    } else if low.len() == 0 {
        stats.fully_ignored = 1;
    }
    if low.len() == 0 || !policy.want_b {
        return Ok((alerts, stats));
    }
    let hosts = normalized_hosts(ev);
    assert(lw =~= seq![low@[0]@]);
    let novel = insert_novel_hosts(store, policy, low[0].as_str(), hosts.as_slice(), ts);
    if novel.len() > 0 {
        stats.alerts_b = 1;
        let ghost nv = texts(novel@);
        let host = novel[0].clone();
        let brand = low[0].clone();
        alerts.push(
            NoveltyAlert {
                schema_version: MATCH_ARCHIVE_SCHEMA_VERSION,
                kind: NoveltyKind::B { brand, host, novel_hosts: novel },
                event: ev.duplicate(),
            },
        );
        assert(alerts_of(alerts@) =~= seq![
            alert(KindView::B { brand: lw[0], host: nv[0], novel_hosts: nv }, ev@),
        ]);
    }
    Ok((alerts, stats))
}

/// A learning-feed row depends on the degree table alone.
proof fn lemma_candidate_by_degree(
    a: Tables,
    b: Tables,
    policy: NoveltyPolicy,
    full: Seq<Seq<char>>,
    coalition: Seq<Seq<char>>,
    ev: EventView,
)
    requires
        a.degree == b.degree,
    ensures
        forall|reason: Seq<char>| #[trigger]
            candidate_of(a, policy, full, coalition, ev, reason) == candidate_of(
                b,
                policy,
                full,
                coalition,
                ev,
                reason,
            ),
{
    assert forall|reason: Seq<char>| #[trigger]
        candidate_of(a, policy, full, coalition, ev, reason) == candidate_of(
            b,
            policy,
            full,
            coalition,
            ev,
            reason,
        ) by {
        if policy.emit_candidates {
            let x = candidate_of(a, policy, full, coalition, ev, reason)->0;
            let y = candidate_of(b, policy, full, coalition, ev, reason)->0;
            assert(x.degrees =~= y.degrees);
            assert(x.event_counts =~= y.event_counts);
        }
    }
}

} // verus!
