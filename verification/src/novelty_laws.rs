//! What holds of novelty processing as a whole.
use vstd::prelude::*;

use crate::event::{event_seconds, EventView};
use crate::novelty::{
    coalition_key, csv, fact_of, lemma_no_occurrence, occurrences, pairs_among, ChangeView, Tables,
    MAX_COUNT,
};
use crate::novelty_alert::{
    dedupe_text, event_hosts, full_brands, is_hub, leaf_names, low_df, novel_hosts, observable,
    observed, processed, real_fingerprint, routine, KindView, NoveltyPolicy, Processed,
};
use crate::text::{
    all_lowered, ascending, law_split_undoes_join, lemma_ascending_in_order,
    lemma_filter_ascending, lemma_filter_members, lemma_sorted_texts, split_on,
};

verus! {

/// One match as it comes in: the operator's list, the policy, the event and the clock.
pub struct Input {
    pub ignore: Set<Seq<char>>,
    pub policy: NoveltyPolicy,
    pub ev: EventView,
    pub now_unix: i64,
}

/// What processing an input does to the tables and gives back.
pub open spec fn step(t: Tables, i: Input) -> Processed {
    processed(t, i.ignore, i.policy, i.ev, i.now_unix)
}

/// The tables after a history of inputs.
pub open spec fn after(t: Tables, history: Seq<Input>) -> Tables
    decreases history.len(),
{
    if history.len() == 0 {
        t
    } else {
        step(after(t, history.drop_last()), history.last()).tables
    }
}

/// Whether processing gave an A′ alert about the coalition.
pub open spec fn alerts_about(p: Processed, coalition: Seq<Seq<char>>) -> bool {
    p.result is Ok && exists|k: int|
        0 <= k < p.result->Ok_0.0.len() && (#[trigger] p.result->Ok_0.0[k]).kind == (KindView::A {
            coalition,
        })
}

/// The implicated brands of an event are ascending and are its lowered keywords.
pub proof fn law_full_brands(ev: EventView)
    ensures
        ascending(full_brands(ev)),
        full_brands(ev).to_set() == all_lowered(ev.matched_keywords).to_set(),
{
    vstd::seq_lib::seq_to_set_is_finite(all_lowered(ev.matched_keywords));
    lemma_sorted_texts(all_lowered(ev.matched_keywords).to_set());
}

/// Order, case and repetition of keywords do not matter.
pub proof fn law_keywords_fold(a: EventView, b: EventView)
    requires
        all_lowered(a.matched_keywords).to_set() == all_lowered(b.matched_keywords).to_set(),
    ensures
        full_brands(a) == full_brands(b),
{
}

/// Order, case and repetition of matched names do not change the delivery key, and neither
/// does it matter in which way a certificate has no real fingerprint.
pub proof fn law_dedupe_folds(a: EventView, b: EventView)
    requires
        all_lowered(a.matched_domains).to_set() == all_lowered(b.matched_domains).to_set(),
        real_fingerprint(a.fingerprint) == real_fingerprint(b.fingerprint),
    ensures
        dedupe_text(a) == dedupe_text(b),
{
}

/// The brands left over are ascending members of the implicated ones, and no hub or, with
/// the gates off, no ignored brand is among them.
pub proof fn law_low_df(t: Tables, i: Input)
    ensures
        ({
            let low = low_df(t, full_brands(i.ev), i.ignore, i.policy);
            &&& ascending(low)
            &&& forall|b: Seq<char>| #[trigger]
                low.contains(b) ==> full_brands(i.ev).contains(b) && !i.ignore.contains(b)
                    && !is_hub(t, i.ignore, i.policy, b)
        }),
{
    let full = full_brands(i.ev);
    law_full_brands(i.ev);
    if i.policy.max_partner_degree == 0 && i.policy.max_brand_df == 0 {
        let keep = |b: Seq<char>| !i.ignore.contains(b);
        lemma_filter_ascending(full, keep);
        lemma_ascending_in_order(full.filter(keep));
    } else {
        lemma_filter_ascending(full, |b: Seq<char>| !is_hub(t, i.ignore, i.policy, b));
    }
}

/// An emitted coalition has at least two and at most the allowed number of brands. They are
/// ascending, implicated by the event, not ignored, and no hubs once the match is counted.
pub proof fn law_emitted_coalition(t: Tables, i: Input, coalition: Seq<Seq<char>>)
    requires
        alerts_about(step(t, i), coalition),
    ensures
        2 <= coalition.len() <= i.policy.max_coalition_len,
        ascending(coalition),
        forall|b: Seq<char>| #[trigger]
            coalition.contains(b) ==> full_brands(i.ev).contains(b) && !i.ignore.contains(b)
                && !is_hub(observed(t, full_brands(i.ev)), i.ignore, i.policy, b),
        i.policy.want_a,
        !i.policy.calibrating,
        i.policy.max_san_count > 0 ==> leaf_names(i.ev) <= i.policy.max_san_count,
{
    law_low_df(observed(t, full_brands(i.ev)), i);
}

/// A match gives at most one alert, about the event as it came in, and the counts say which.
pub proof fn law_at_most_one_alert(t: Tables, i: Input)
    requires
        step(t, i).result is Ok,
    ensures
        ({
            let alerts = step(t, i).result->Ok_0.0;
            let stats = step(t, i).result->Ok_0.1;
            &&& alerts.len() <= 1
            &&& alerts.len() == stats.alerts_a + stats.alerts_b
            &&& forall|k: int| 0 <= k < alerts.len() ==> (#[trigger] alerts[k]).event == i.ev
            &&& forall|k: int|
                0 <= k < alerts.len() ==> ((#[trigger] alerts[k]).kind is A <==> stats.alerts_a
                    == 1)
        }),
{
}

/// Every new coalition is accounted for once: emitted, or dropped for one reason, or not
/// wanted.
pub proof fn law_new_coalition_accounted(t: Tables, i: Input)
    requires
        step(t, i).result is Ok,
        i.policy.want_a,
    ensures
        ({
            let s = step(t, i).result->Ok_0.1;
            s.coalitions_inserted == s.alerts_a + s.a_oversized_dropped + s.a_mega_san_dropped
                + s.a_high_df_dropped + s.a_calibrate_muted
        }),
{
}

/// A recorded coalition stays recorded, with the time of its first sighting.
pub proof fn law_coalitions_stay(t: Tables, i: Input, key: Seq<char>)
    requires
        t.coalitions.contains_key(key),
    ensures
        step(t, i).tables.coalitions.contains_key(key),
        step(t, i).tables.coalitions[key] == t.coalitions[key],
{
}

/// A recorded coalition stays recorded through any history.
pub proof fn law_coalitions_stay_forever(t: Tables, history: Seq<Input>, key: Seq<char>)
    requires
        t.coalitions.contains_key(key),
    ensures
        after(t, history).coalitions.contains_key(key),
        after(t, history).coalitions[key] == t.coalitions[key],
    decreases history.len(),
{
    if history.len() > 0 {
        law_coalitions_stay_forever(t, history.drop_last(), key);
        law_coalitions_stay(after(t, history.drop_last()), history.last(), key);
    }
}

/// A match with two or more implicated brands leaves a coalition recorded, also when it is
/// not emitted: too many brands, too many names, burn-in, hubs, or A′ not wanted.
pub proof fn law_multi_brand_match_is_recorded(t: Tables, i: Input)
    requires
        step(t, i).result is Ok,
        full_brands(i.ev).len() >= 2,
    ensures
        ({
            let full = full_brands(i.ev);
            let low = low_df(observed(t, full), full, i.ignore, i.policy);
            step(t, i).tables.coalitions.contains_key(
                coalition_key(
                    if low.len() >= 2 {
                        low
                    } else {
                        full
                    },
                ),
            )
        }),
{
}

/// An alert is about a coalition that was not recorded before, and is recorded from then on.
pub proof fn law_alert_is_first_sighting(t: Tables, i: Input, coalition: Seq<Seq<char>>)
    requires
        alerts_about(step(t, i), coalition),
    ensures
        !t.coalitions.contains_key(coalition_key(coalition)),
        step(t, i).tables.coalitions.contains_key(coalition_key(coalition)),
{
}

/// A coalition that was ever recorded does not alert again, whatever comes between: neither
/// on renewal, nor because burn-in, a size gate or the policy kept it silent at first.
pub proof fn law_recorded_coalition_is_silent(
    t: Tables,
    history: Seq<Input>,
    i: Input,
    coalition: Seq<Seq<char>>,
)
    requires
        t.coalitions.contains_key(coalition_key(coalition)),
    ensures
        !alerts_about(step(after(t, history), i), coalition),
{
    law_coalitions_stay_forever(t, history, coalition_key(coalition));
    if alerts_about(step(after(t, history), i), coalition) {
        law_alert_is_first_sighting(after(t, history), i, coalition);
    }
}

/// In any history a coalition alerts at most once.
pub proof fn law_coalition_alerts_at_most_once(
    t: Tables,
    history: Seq<Input>,
    m: int,
    n: int,
    coalition: Seq<Seq<char>>,
)
    requires
        0 <= m < n < history.len(),
        alerts_about(step(after(t, history.take(m)), history[m]), coalition),
    ensures
        !alerts_about(step(after(t, history.take(n)), history[n]), coalition),
{
    let a = after(t, history.take(m));
    let b = after(t, history.take(m + 1));
    assert(history.take(m + 1).drop_last() =~= history.take(m));
    law_alert_is_first_sighting(a, history[m], coalition);
    let between = history.subrange(m + 1, n);
    lemma_after_splits(t, history.take(m + 1), between);
    assert(history.take(m + 1) + between =~= history.take(n));
    law_recorded_coalition_is_silent(b, between, history[n], coalition);
}

/// A history in two parts is the second part run after the first.
pub proof fn lemma_after_splits(t: Tables, a: Seq<Input>, b: Seq<Input>)
    ensures
        after(t, a + b) == after(after(t, a), b),
    decreases b.len(),
{
    if b.len() == 0 {
        assert(a + b =~= a);
    } else {
        lemma_after_splits(t, a, b.drop_last());
        assert((a + b).drop_last() =~= a + b.drop_last());
    }
}

/// Different coalitions have different keys, as long as no brand holds the unit separator.
pub proof fn law_coalition_keys_are_distinct(a: Seq<Seq<char>>, b: Seq<Seq<char>>)
    requires
        a.len() > 0,
        b.len() > 0,
        forall|k: int| 0 <= k < a.len() ==> !(#[trigger] a[k]).contains('\u{1f}'),
        forall|k: int| 0 <= k < b.len() ==> !(#[trigger] b[k]).contains('\u{1f}'),
        coalition_key(a) == coalition_key(b),
    ensures
        a == b,
{
    reveal_strlit("\u{1f}");
    assert("\u{1f}"@ =~= seq!['\u{1f}']);
    law_split_undoes_join(a, '\u{1f}');
    law_split_undoes_join(b, '\u{1f}');
}

/// A captured list can be taken apart at its commas, as long as none of its members has one.
pub proof fn law_captured_lists_unnest(parts: Seq<Seq<char>>)
    requires
        parts.len() > 0,
        forall|k: int| 0 <= k < parts.len() ==> !(#[trigger] parts[k]).contains(','),
    ensures
        split_on(csv(parts), ',') == parts,
{
    reveal_strlit(",");
    assert(","@ =~= seq![',']);
    law_split_undoes_join(parts, ',');
}

/// A B′ alert comes only where B′ is wanted, and names only hosts that were not recorded
/// under its brand before and are from then on.
pub proof fn law_host_alert_is_first_sighting(t: Tables, i: Input, k: int)
    requires
        step(t, i).result is Ok,
        0 <= k < step(t, i).result->Ok_0.0.len(),
        step(t, i).result->Ok_0.0[k].kind is B,
    ensures
        i.policy.want_b,
        ({
            let kind = step(t, i).result->Ok_0.0[k].kind;
            &&& kind->novel_hosts.len() > 0
            &&& kind->host == kind->novel_hosts[0]
            &&& forall|h: Seq<char>| #[trigger]
                kind->novel_hosts.contains(h) ==> !t.hosts.contains_key((kind->brand, h))
                    && step(t, i).tables.hosts.contains_key((kind->brand, h))
        }),
{
    let full = full_brands(i.ev);
    let t1 = observed(t, full);
    let low = low_df(t1, full, i.ignore, i.policy);
    let ts = event_seconds(i.ev, i.now_unix);
    let t2 = if full.len() >= 2 {
        t1.with_coalition(coalition_key(full), ts)
    } else {
        t1
    };
    assert(t2.hosts == t.hosts);
    let hosts = event_hosts(i.ev);
    let keep = |h: Seq<char>|
        !t2.hosts.contains_key((low[0], h)) && !(i.policy.skip_routine && routine(low[0], h));
    lemma_filter_members(hosts, keep);
    assert(novel_hosts(t2, i.policy, low[0], hosts) == hosts.filter(keep));
    assert(low.contains(low[0]));
}

/// Without B′ no host is ever written.
pub proof fn law_hosts_only_for_b(t: Tables, i: Input)
    requires
        !i.policy.want_b,
    ensures
        step(t, i).tables.hosts == t.hosts,
{
}

/// A fact is captured only when a coalition is emitted, and then it is the fact about that
/// coalition, unless one stands under its brands already; captured facts never change.
pub proof fn law_facts_are_alerts(t: Tables, i: Input)
    requires
        step(t, i).result is Ok,
    ensures
        ({
            let p = step(t, i);
            let low = low_df(observed(t, full_brands(i.ev)), full_brands(i.ev), i.ignore, i.policy);
            let fact = fact_of(low, i.ev, event_seconds(i.ev, i.now_unix), i.now_unix);
            if p.result->Ok_0.1.alerts_a == 1 {
                p.tables.facts == if t.facts.contains_key(fact.brands) {
                    t.facts
                } else {
                    t.facts.insert(fact.brands, fact)
                }
            } else {
                p.tables.facts == t.facts
            }
        }),
{
}

/// Whether no brand holds a comma, as no domain name does.
pub open spec fn without_commas(brands: Seq<Seq<char>>) -> bool {
    forall|k: int| 0 <= k < brands.len() ==> !(#[trigger] brands[k]).contains(',')
}

/// Whether every coalition about which a fact is captured is recorded.
pub open spec fn facts_are_recorded(t: Tables) -> bool {
    forall|c: Seq<Seq<char>>|
        c.len() > 0 && without_commas(c) && #[trigger] t.facts.contains_key(csv(c))
            ==> t.coalitions.contains_key(coalition_key(c))
}

/// Every emitted coalition has a captured fact, which is captured with it: the coalitions of
/// the facts are recorded and stay so, and there is no fact about one that is not.
pub proof fn law_alert_captures_its_fact(t: Tables, i: Input, coalition: Seq<Seq<char>>)
    requires
        facts_are_recorded(t),
        without_commas(full_brands(i.ev)),
    ensures
        facts_are_recorded(step(t, i).tables),
        alerts_about(step(t, i), coalition) ==> {
            &&& !t.facts.contains_key(csv(coalition))
            &&& step(t, i).tables.facts.contains_key(csv(coalition))
        },
{
    let full = full_brands(i.ev);
    let low = low_df(observed(t, full), full, i.ignore, i.policy);
    let after = step(t, i).tables;
    law_low_df(observed(t, full), i);
    assert forall|k: int| 0 <= k < low.len() implies !(#[trigger] low[k]).contains(',') by {
        assert(low.contains(low[k]));
        let j = full.index_of(low[k]);
        assert(full[j] == low[k]);
    }
    assert forall|c: Seq<Seq<char>>|
        c.len() > 0 && without_commas(c) && #[trigger] after.facts.contains_key(
            csv(c),
        ) implies after.coalitions.contains_key(coalition_key(c)) by {
        if t.facts.contains_key(csv(c)) {
            law_coalitions_stay(t, i, coalition_key(c));
        } else {
            assert(csv(c) == csv(low));
            law_captured_lists_unnest(c);
            law_captured_lists_unnest(low);
        }
    }
}

/// A refused match captures no fact and records no coalition.
pub proof fn law_refused_match(t: Tables, i: Input)
    requires
        step(t, i).result is Err,
    ensures
        step(t, i).tables.facts == t.facts,
        step(t, i).tables.coalitions == t.coalitions,
        step(t, i).tables.hosts == t.hosts,
{
}

/// Recording a match never lowers a brand's event count or partner degree, so a seed floor
/// outlives sparse observations.
pub proof fn law_degree_never_shrinks(t: Tables, i: Input, brand: Seq<char>)
    ensures
        step(t, i).tables.events_of(brand) >= t.events_of(brand),
        step(t, i).tables.partners_of(brand) >= t.partners_of(brand),
{
    let full = full_brands(i.ev);
    if observable(t, full) {
        if full.len() >= 1 && full.contains(brand) {
            assert(t.events_of(brand) + occurrences(full, brand) <= MAX_COUNT);
        } else {
            lemma_no_occurrence(full, brand);
        }
    }
}

/// A floor is a lower bound of both counts, and lowers neither.
pub proof fn law_floor(t: Tables, names: Set<Seq<char>>, floor: u32, brand: Seq<char>)
    ensures
        t.with_floor(names, floor).events_of(brand) >= t.events_of(brand),
        t.with_floor(names, floor).partners_of(brand) >= t.partners_of(brand),
        names.contains(brand) ==> t.with_floor(names, floor).events_of(brand) >= floor
            && t.with_floor(names, floor).partners_of(brand) >= floor,
{
}

/// A leaf with one brand raises that brand's event count by one and no partner degree.
pub proof fn law_solo_raises_events_only(t: Tables, brand: Seq<char>, other: Seq<char>)
    requires
        t.can_count(seq![brand]),
    ensures
        t.with_appearances(seq![brand]).events_of(brand) == t.events_of(brand) + 1,
        t.with_appearances(seq![brand]).partners_of(other) == t.partners_of(other),
        other != brand ==> t.with_appearances(seq![brand]).events_of(other) == t.events_of(other),
        t.with_appearances(seq![brand]).partners == t.partners,
        t.with_appearances(seq![brand]).multi_brand_events == t.multi_brand_events,
{
    let one = seq![brand];
    assert(one[0] == brand);
    assert(one.contains(brand));
    assert(one.drop_last() =~= Seq::<Seq<char>>::empty());
    assert(occurrences(one.drop_last(), brand) == 0);
    assert(occurrences(one, brand) == 1);
    lemma_no_occurrence(one, other);
}

/// Partnership goes both ways.
pub open spec fn symmetric(t: Tables) -> bool {
    forall|a: Seq<char>, b: Seq<char>| #[trigger]
        t.partners.contains((a, b)) ==> t.partners.contains((b, a))
}

/// Partnership stays symmetric, and no brand becomes its own partner.
pub proof fn law_partners_symmetric(t: Tables, i: Input)
    requires
        symmetric(t),
        forall|a: Seq<char>| !(#[trigger] t.partners.contains((a, a))),
    ensures
        symmetric(step(t, i).tables),
        forall|a: Seq<char>| !(#[trigger] step(t, i).tables.partners.contains((a, a))),
{
    let full = full_brands(i.ev);
    let u = step(t, i).tables;
    assert(u.partners == t.partners || u.partners == t.partners.union(pairs_among(full)));
    assert forall|a: Seq<char>, b: Seq<char>| #[trigger]
        u.partners.contains((a, b)) implies u.partners.contains((b, a)) by {
        if !t.partners.contains((a, b)) {
            assert(pairs_among(full).contains((a, b)));
            assert(pairs_among(full).contains((b, a)));
        }
    }
}

/// Once burn-in is over it stays over: later on the clock, and with more events.
pub proof fn law_burn_in_ends(
    t: Tables,
    u: Tables,
    now_unix: i64,
    later: i64,
    secs: u64,
    events: u64,
)
    requires
        !t.calibrating(now_unix, secs, events),
        later >= now_unix,
        u.calibrate_started_at == t.calibrate_started_at,
        u.multi_brand_events >= t.multi_brand_events,
    ensures
        !u.calibrating(later, secs, events),
{
}

/// Processing leaves the start of burn-in alone and counts each multi-brand match once.
pub proof fn law_burn_in_clocks(t: Tables, i: Input)
    ensures
        step(t, i).tables.calibrate_started_at == t.calibrate_started_at,
        step(t, i).tables.multi_brand_events == t.multi_brand_events + (if observable(
            t,
            full_brands(i.ev),
        ) && full_brands(i.ev).len() >= 2 {
            1int
        } else {
            0
        }),
{
}

/// Storage that applies each batch of changes in turn ends where one long batch ends, so a
/// store that is restored from what was handed over has the same tables.
pub proof fn law_changes_compose(t: Tables, a: Seq<ChangeView>, b: Seq<ChangeView>)
    ensures
        t.with_changes(a + b) == t.with_changes(a).with_changes(b),
    decreases b.len(),
{
    if b.len() == 0 {
        assert(a + b =~= a);
    } else {
        law_changes_compose(t, a, b.drop_last());
        assert((a + b).drop_last() =~= a + b.drop_last());
    }
}

/// Burn-in lasts as long as less time than its seconds has passed since it started, or fewer
/// matches with several brands than its events were counted; a setting of 0 is none.
pub proof fn law_burn_in(t: Tables, now_unix: i64, secs: u64, events: u64)
    requires
        t.calibrate_started_at is Some,
        i64::MIN <= now_unix - t.calibrate_started_at->0 <= i64::MAX,
        secs <= i64::MAX,
    ensures
        t.calibrating(now_unix, secs, events) <==> (secs > 0 && now_unix
            - t.calibrate_started_at->0 < secs) || (events > 0 && t.multi_brand_events < events),
{
}

/// A floor raises both counts of the given names to it, leaves larger ones and all other
/// names alone, and changes nothing else. A floor of 0 changes nothing.
pub proof fn law_floor_is_exact(t: Tables, names: Set<Seq<char>>, floor: u32, b: Seq<char>)
    ensures
        ({
            let u = t.with_floor(names, floor);
            &&& names.contains(b) && floor > t.events_of(b) ==> u.events_of(b) == floor
            &&& !(names.contains(b) && floor > t.events_of(b)) ==> u.events_of(b) == t.events_of(
                b,
            )
            &&& names.contains(b) && floor > t.partners_of(b) ==> u.partners_of(b) == floor
            &&& !(names.contains(b) && floor > t.partners_of(b)) ==> u.partners_of(b)
                == t.partners_of(b)
            &&& floor == 0 ==> u == t
            &&& u.coalitions == t.coalitions && u.hosts == t.hosts && u.partners == t.partners
                && u.facts == t.facts && u.multi_brand_events == t.multi_brand_events
                && u.calibrate_started_at == t.calibrate_started_at
        }),
{
}

/// A key or a host that is offered is recorded from then on, with the time of the first offer.
pub proof fn law_first_offer_counts(
    t: Tables,
    key: Seq<char>,
    brand: Seq<char>,
    host: Seq<char>,
    ts: i64,
    other: Seq<char>,
)
    ensures
        ({
            let u = t.with_coalition(key, ts);
            &&& u.coalitions.contains_key(other) <==> t.coalitions.contains_key(other) || other
                == key
            &&& t.coalitions.contains_key(other) ==> u.coalitions[other] == t.coalitions[other]
            &&& !t.coalitions.contains_key(key) ==> u.coalitions[key] == ts
            &&& u.hosts == t.hosts && u.degree == t.degree && u.facts == t.facts
        }),
        ({
            let u = t.with_host(brand, host, ts);
            &&& u.hosts.contains_key((brand, other)) <==> t.hosts.contains_key((brand, other))
                || other == host
            &&& t.hosts.contains_key((brand, other)) ==> u.hosts[(brand, other)] == t.hosts[(
                brand,
                other,
            )]
            &&& !t.hosts.contains_key((brand, host)) ==> u.hosts[(brand, host)] == ts
            &&& u.coalitions == t.coalitions && u.degree == t.degree && u.facts == t.facts
        }),
{
}

/// A stored row is what a change says, and only that row.
pub proof fn law_change_sets_one_row(t: Tables, c: ChangeView)
    ensures
        ({
            let u = t.with_change(c);
            &&& match c {
                ChangeView::Coalition { key, first_seen } => u.coalitions == t.coalitions.insert(
                    key,
                    first_seen,
                ),
                _ => u.coalitions == t.coalitions,
            }
            &&& match c {
                ChangeView::Host { brand, host, first_seen } => u.hosts == t.hosts.insert(
                    (brand, host),
                    first_seen,
                ),
                _ => u.hosts == t.hosts,
            }
            &&& match c {
                ChangeView::BrandDegree { brand, degree } => u.degree == t.degree.insert(
                    brand,
                    degree,
                ),
                _ => u.degree == t.degree,
            }
            &&& match c {
                ChangeView::BrandPartner { brand, partner } => u.partners == t.partners.insert(
                    (brand, partner),
                ),
                _ => u.partners == t.partners,
            }
            &&& match c {
                ChangeView::Fact { fact } => u.facts == t.facts.insert(fact.brands, fact),
                _ => u.facts == t.facts,
            }
            &&& match c {
                ChangeView::MultiBrandEvents { count } => u.multi_brand_events == count,
                _ => u.multi_brand_events == t.multi_brand_events,
            }
            &&& match c {
                ChangeView::CalibrateStartedAt { unix } => u.calibrate_started_at == Some(unix),
                _ => u.calibrate_started_at == t.calibrate_started_at,
            }
        }),
{
}

/// Burn-in whose start is not known counts from second 0.
pub proof fn law_burn_in_without_a_start(t: Tables, now_unix: i64, secs: u64, events: u64)
    requires
        t.calibrate_started_at is None,
    ensures
        t.calibrating(now_unix, secs, events) == (Tables {
            calibrate_started_at: Some(0),
            ..t
        }).calibrating(now_unix, secs, events),
{
}

} // verus!
