//! What becomes of a match, said through the brands that it names, the counts that are kept
//! of them and the coalitions that were seen before.
use vstd::arithmetic::div_mod::{
    lemma_div_pos_is_pos, lemma_fundamental_div_mod, lemma_mod_bound,
};
use vstd::arithmetic::power2::{lemma_pow2_pos, pow2};
use vstd::prelude::*;

use crate::dates::instant_text;
use crate::event::{
    double_exponent, double_finite, double_fraction, double_magnitude, double_negative,
    double_seconds, event_seconds, EventView,
};
use crate::names::row;
use crate::novelty::{
    cleaned, coalition_key, csv, fact_of, lemma_no_occurrence, occurrences, pairs_among, Tables,
    MAX_COUNT,
};
use crate::novelty_alert::{
    bare_host, bare_hosts, dedupe_text, default_policy, event_hosts, fate, full_brands, is_hub,
    low_df, novel_hosts, observable, observed, real_fingerprint, routine, routine_labels, KindView,
};
use crate::novelty_laws::{law_captured_lists_unnest, law_full_brands, law_low_df, step, Input};
use crate::text::{
    all_lowered, ascending, begins_with, lemma_ascending_in_order, lemma_ascending_unique,
    lemma_filter_ascending, lemma_filter_members, lemma_precedes_irreflexive, lemma_sorted_texts,
    lowered, precedes, sorted_texts, split_on, trimmed,
};
use crate::text_laws::{
    has_no_blank_ends, is_blank, law_split_cuts, law_trimmed, law_without_trailing,
    lemma_lowered_parts,
};
use crate::watchlist::dots;
use crate::watchlist_laws::is_plain_host;

verus! {

/// Whether a list is the brands of an event: its keywords in lower case, each once, in
/// ascending order.
pub open spec fn are_brands(ev: EventView, full: Seq<Seq<char>>) -> bool {
    &&& ascending(full)
    &&& forall|b: Seq<char>| #[trigger]
        full.contains(b) <==> exists|k: int|
            0 <= k < ev.matched_keywords.len() && lowered(#[trigger] ev.matched_keywords[k]) == b
}

/// The number of matches that named a brand before.
pub open spec fn events_before(t: Tables, b: Seq<char>) -> int {
    if t.degree.contains_key(b) {
        t.degree[b].events as int
    } else {
        0
    }
}

/// The partner degree that is kept of a brand.
pub open spec fn partners_before(t: Tables, b: Seq<char>) -> int {
    if t.degree.contains_key(b) {
        t.degree[b].partners as int
    } else {
        0
    }
}

/// The partners of a brand once it was seen with the given ones.
pub open spec fn partners_seen(t: Tables, full: Seq<Seq<char>>, b: Seq<char>) -> Set<Seq<char>> {
    Set::new(|c: Seq<char>| t.partners.contains((b, c)) || (full.contains(c) && c != b))
}

/// The partner degree of a brand once the match is counted: with another brand beside it,
/// the number of its partners, if that is more than was kept.
pub open spec fn partners_now(t: Tables, full: Seq<Seq<char>>, b: Seq<char>) -> int {
    let n = partners_seen(t, full, b).len() as u64 as int;
    if full.len() >= 2 && n > partners_before(t, b) {
        n
    } else {
        partners_before(t, b)
    }
}

/// Whether a brand is left over once the match is counted: it is not ignored, and no hub by
/// either count. A gate of 0 is none.
pub open spec fn is_left(t: Tables, i: Input, full: Seq<Seq<char>>, b: Seq<char>) -> bool {
    &&& full.contains(b)
    &&& !i.ignore.contains(b)
    &&& i.policy.max_brand_df > 0 ==> events_before(t, b) + 1 < i.policy.max_brand_df
    &&& i.policy.max_partner_degree > 0 ==> partners_now(t, full, b)
        < i.policy.max_partner_degree
}

/// Whether a list is the brands that are left over, in ascending order.
pub open spec fn are_left(
    t: Tables,
    i: Input,
    full: Seq<Seq<char>>,
    c: Seq<Seq<char>>,
) -> bool {
    &&& ascending(c)
    &&& forall|b: Seq<char>| #[trigger] c.contains(b) <==> is_left(t, i, full, b)
}

/// Whether the counters have room for one more match.
pub open spec fn has_room(t: Tables, full: Seq<Seq<char>>) -> bool {
    &&& forall|b: Seq<char>| #[trigger] full.contains(b) ==> events_before(t, b) < i64::MAX
    &&& full.len() >= 2 ==> t.multi_brand_events < i64::MAX
}

/// The number of names on the leaf, as far as it is known.
pub open spec fn names_on_leaf(ev: EventView) -> int {
    if ev.san_count > 0 {
        ev.san_count as int
    } else {
        at_most_u32(ev.matched_domains.len() as int)
    }
}

/// Whether the leaf has more names than the policy allows.
pub open spec fn too_many_names(i: Input) -> bool {
    i.policy.max_san_count > 0 && names_on_leaf(i.ev) > i.policy.max_san_count
}

proof fn lemma_brands(ev: EventView, full: Seq<Seq<char>>)
    requires
        are_brands(ev, full),
    ensures
        full == full_brands(ev),
{
    law_full_brands(ev);
    let all = all_lowered(ev.matched_keywords);
    assert(full.to_set() =~= all.to_set()) by {
        assert forall|b: Seq<char>| full.to_set().contains(b) == all.to_set().contains(b) by {
            if full.contains(b) {
                let k = choose|k: int|
                    0 <= k < ev.matched_keywords.len() && lowered(
                        #[trigger] ev.matched_keywords[k],
                    ) == b;
                assert(all[k] == b);
            }
            if all.contains(b) {
                let k = all.index_of(b);
                assert(lowered(ev.matched_keywords[k]) == b);
            }
        }
    }
    lemma_ascending_unique(full, full_brands(ev));
}

proof fn lemma_once(list: Seq<Seq<char>>, b: Seq<char>)
    requires
        ascending(list),
        list.contains(b),
    ensures
        occurrences(list, b) == 1,
    decreases list.len(),
{
    let rest = list.drop_last();
    let k = list.index_of(b);
    assert(ascending(rest)) by {
        assert forall|i: int, j: int| 0 <= i < j < rest.len() implies precedes(
            #[trigger] rest[i],
            #[trigger] rest[j],
        ) by {
            assert(precedes(list[i], list[j]));
        }
    }
    if list.last() == b {
        if rest.contains(b) {
            let j = rest.index_of(b);
            assert(precedes(list[j], list[list.len() - 1]));
            lemma_precedes_irreflexive(b);
        }
        lemma_no_occurrence(rest, b);
    } else {
        assert(rest[k] == b);
        lemma_once(rest, b);
    }
}

/// What counting a match does, brand by brand.
proof fn lemma_counted(t: Tables, full: Seq<Seq<char>>)
    requires
        ascending(full),
        has_room(t, full),
    ensures
        observable(t, full),
        forall|b: Seq<char>| #[trigger]
            full.contains(b) ==> observed(t, full).events_of(b) == events_before(t, b) + 1
                && observed(t, full).partners_of(b) == partners_now(t, full, b),
        forall|b: Seq<char>| #[trigger]
            observed(t, full).degree.contains_key(b) <==> t.degree.contains_key(b)
                || full.contains(b),
        forall|b: Seq<char>|
            t.degree.contains_key(b) && !full.contains(b) ==> #[trigger] observed(
                t,
                full,
            ).degree[b] == t.degree[b],
{
    let u = observed(t, full);
    assert forall|b: Seq<char>| #[trigger] full.contains(b) implies t.events_of(b) + occurrences(
        full,
        b,
    ) <= MAX_COUNT && u.events_of(b) == events_before(t, b) + 1 && u.partners_of(b)
        == partners_now(t, full, b) by {
        lemma_once(full, b);
        if full.len() >= 2 {
            let partners = t.partners.union(pairs_among(full));
            assert(row(partners, b) =~= partners_seen(t, full, b));
        } else {
            assert(full.len() == 1);
        }
    }
    assert forall|b: Seq<char>| t.degree.contains_key(b) && !full.contains(b) implies #[trigger]
        u.degree[b] == t.degree[b] by {
        lemma_no_occurrence(full, b);
    }
    assert forall|b: Seq<char>| #[trigger] u.degree.contains_key(b) <==> t.degree.contains_key(b)
        || full.contains(b) by {
        if full.len() == 0 {
            assert(!full.contains(b));
        }
    }
}

proof fn lemma_left(t: Tables, i: Input, full: Seq<Seq<char>>, c: Seq<Seq<char>>)
    requires
        are_brands(i.ev, full),
        are_left(t, i, full, c),
        has_room(t, full),
    ensures
        full == full_brands(i.ev),
        observable(t, full),
        c == low_df(observed(t, full), full, i.ignore, i.policy),
{
    lemma_brands(i.ev, full);
    lemma_counted(t, full);
    let u = observed(t, full);
    let low = low_df(u, full, i.ignore, i.policy);
    law_low_df(u, i);
    assert(c.to_set() =~= low.to_set()) by {
        assert forall|b: Seq<char>| c.to_set().contains(b) == low.to_set().contains(b) by {
            if i.policy.max_partner_degree == 0 && i.policy.max_brand_df == 0 {
                let keep = |x: Seq<char>| !i.ignore.contains(x);
                lemma_filter_ascending(full, keep);
                lemma_ascending_in_order(full.filter(keep));
                lemma_filter_members(full, keep);
            } else {
                lemma_filter_members(full, |x: Seq<char>| !is_hub(u, i.ignore, i.policy, x));
            }
            if full.contains(b) {
                assert(u.events_of(b) == events_before(t, b) + 1);
            }
        }
    }
    lemma_ascending_unique(c, low);
}

/// A match is refused exactly where a counter would overflow, and then nothing changes.
pub proof fn law_match_is_counted(t: Tables, i: Input, full: Seq<Seq<char>>)
    requires
        are_brands(i.ev, full),
    ensures
        step(t, i).result is Ok <==> has_room(t, full),
        step(t, i).result is Err ==> step(t, i).tables == t,
{
    lemma_brands(i.ev, full);
    if has_room(t, full) {
        lemma_counted(t, full);
    } else if observable(t, full) {
        assert forall|b: Seq<char>| #[trigger] full.contains(b) implies events_before(t, b)
            < MAX_COUNT by {
            lemma_once(full, b);
            assert(t.events_of(b) + occurrences(full, b) <= MAX_COUNT);
        }
    }
}

/// Counting a match: every brand of it is seen once more, with two or more of them each is
/// the partner of every other, the match is counted as one with several brands, and nothing
/// else of the counts changes.
pub proof fn law_counts_after_a_match(t: Tables, i: Input, full: Seq<Seq<char>>, b: Seq<char>)
    requires
        are_brands(i.ev, full),
        has_room(t, full),
    ensures
        ({
            let u = step(t, i).tables;
            &&& full.contains(b) ==> events_before(u, b) == events_before(t, b) + 1
                && partners_before(u, b) == partners_now(t, full, b)
            &&& !full.contains(b) ==> events_before(u, b) == events_before(t, b)
                && partners_before(u, b) == partners_before(t, b)
            &&& forall|c: Seq<char>| #[trigger]
                u.partners.contains((b, c)) <==> t.partners.contains((b, c)) || (full.len() >= 2
                    && full.contains(b) && full.contains(c) && b != c)
            &&& u.multi_brand_events == t.multi_brand_events + if full.len() >= 2 {
                1int
            } else {
                0
            }
            &&& u.calibrate_started_at == t.calibrate_started_at
        }),
{
    lemma_brands(i.ev, full);
    lemma_counted(t, full);
    let v = observed(t, full);
    let u = step(t, i).tables;
    assert(u.degree == v.degree);
    assert(u.partners == v.partners);
    if full.contains(b) {
        assert(v.degree.contains_key(b));
        assert(v.events_of(b) == events_before(t, b) + 1);
    } else if t.degree.contains_key(b) {
        assert(v.degree[b] == t.degree[b]);
    } else {
        assert(!v.degree.contains_key(b));
    }
}

/// An alert is owed: where the brands that are left over are two or more and no more than a
/// coalition may have, their coalition was not recorded, A′ is wanted, burn-in is over and
/// the leaf has no more names than allowed, the match gives exactly one alert, of kind A,
/// about exactly those brands and with the event as it came in.
pub proof fn law_alert_is_owed(
    t: Tables,
    i: Input,
    full: Seq<Seq<char>>,
    c: Seq<Seq<char>>,
)
    requires
        are_brands(i.ev, full),
        has_room(t, full),
        are_left(t, i, full, c),
        2 <= c.len() <= i.policy.max_coalition_len,
        !t.coalitions.contains_key(coalition_key(c)),
        i.policy.want_a,
        !i.policy.calibrating,
        !too_many_names(i),
    ensures
        step(t, i).result is Ok,
        ({
            let alerts = step(t, i).result->Ok_0.0;
            &&& alerts.len() == 1
            &&& alerts[0].kind == (KindView::A { coalition: c })
            &&& alerts[0].event == i.ev
            &&& alerts[0].schema_version == 1
        }),
{
    lemma_left(t, i, full, c);
}

/// What becomes of two or more brands that are left over: a coalition that was recorded is
/// silent; a new one is recorded with the time of the match and, where A′ is wanted, is
/// dropped for its own size, for the names on the leaf or for burn-in, in that order, or else
/// emitted.
pub proof fn law_what_becomes_of_a_coalition(
    t: Tables,
    i: Input,
    full: Seq<Seq<char>>,
    c: Seq<Seq<char>>,
)
    requires
        are_brands(i.ev, full),
        has_room(t, full),
        are_left(t, i, full, c),
        c.len() >= 2,
    ensures
        ({
            let p = step(t, i);
            let alerts = p.result->Ok_0.0;
            let s = p.result->Ok_0.1;
            let fresh = !t.coalitions.contains_key(coalition_key(c));
            let oversized = c.len() > i.policy.max_coalition_len;
            let wanted = fresh && i.policy.want_a;
            let emitted = wanted && !oversized && !too_many_names(i) && !i.policy.calibrating;
            &&& p.result is Ok
            &&& (s.coalitions_inserted == 1 <==> fresh) && s.coalitions_inserted <= 1
            &&& (s.a_oversized_dropped == 1 <==> wanted && oversized) && s.a_oversized_dropped
                <= 1
            &&& (s.a_mega_san_dropped == 1 <==> wanted && !oversized && too_many_names(i))
                && s.a_mega_san_dropped <= 1
            &&& (s.a_calibrate_muted == 1 <==> wanted && !oversized && !too_many_names(i)
                && i.policy.calibrating) && s.a_calibrate_muted <= 1
            &&& (s.alerts_a == 1 <==> emitted) && s.alerts_a <= 1
            &&& alerts.len() == s.alerts_a
            &&& s.alerts_b == 0 && s.fully_ignored == 0 && s.a_high_df_dropped == 0
            &&& fresh ==> p.tables.coalitions == t.coalitions.insert(
                coalition_key(c),
                event_seconds(i.ev, i.now_unix),
            )
            &&& !fresh ==> p.tables.coalitions == t.coalitions
            &&& !emitted ==> p.tables.facts == t.facts
        }),
{
    lemma_left(t, i, full, c);
}

/// What becomes of fewer brands than two that are left over: no A′ alert; several brands of
/// which too few are left are recorded under all of them, and counted as dropped for it when
/// they are new; with no brand left of at most one, the match is ignored.
pub proof fn law_what_becomes_of_hubs(
    t: Tables,
    i: Input,
    full: Seq<Seq<char>>,
    c: Seq<Seq<char>>,
)
    requires
        are_brands(i.ev, full),
        has_room(t, full),
        are_left(t, i, full, c),
        c.len() < 2,
    ensures
        ({
            let p = step(t, i);
            let s = p.result->Ok_0.1;
            let several = full.len() >= 2;
            let fresh = several && !t.coalitions.contains_key(coalition_key(full));
            &&& p.result is Ok
            &&& s.alerts_a == 0 && s.a_oversized_dropped == 0 && s.a_mega_san_dropped == 0
                && s.a_calibrate_muted == 0
            &&& (s.coalitions_inserted == 1 <==> fresh) && s.coalitions_inserted <= 1
            &&& s.a_high_df_dropped == s.coalitions_inserted
            &&& (s.fully_ignored == 1 <==> c.len() == 0 && !several) && s.fully_ignored <= 1
            &&& fresh ==> p.tables.coalitions == t.coalitions.insert(
                coalition_key(full),
                event_seconds(i.ev, i.now_unix),
            )
            &&& !fresh ==> p.tables.coalitions == t.coalitions
            &&& p.tables.facts == t.facts
            &&& forall|k: int|
                0 <= k < p.result->Ok_0.0.len() ==> (#[trigger] p.result->Ok_0.0[k]).kind is B
        }),
{
    lemma_left(t, i, full, c);
}

/// Whether a list is the hosts of an event: its matched names in their bare form, each once,
/// in ascending order.
pub open spec fn are_hosts(ev: EventView, hosts: Seq<Seq<char>>) -> bool {
    &&& ascending(hosts)
    &&& forall|h: Seq<char>| #[trigger]
        hosts.contains(h) <==> h.len() > 0 && exists|k: int|
            0 <= k < ev.matched_domains.len() && bare_host(#[trigger] ev.matched_domains[k]) == h
}

proof fn lemma_hosts(ev: EventView, hosts: Seq<Seq<char>>)
    requires
        are_hosts(ev, hosts),
    ensures
        hosts == event_hosts(ev),
{
    let list = ev.matched_domains;
    let bare = Seq::new(list.len(), |k: int| bare_host(list[k]));
    let keep = |h: Seq<char>| h.len() > 0;
    let kept = bare_hosts(list);
    lemma_filter_members(bare, keep);
    vstd::seq_lib::seq_to_set_is_finite(kept);
    lemma_sorted_texts(kept.to_set());
    assert(hosts.to_set() =~= kept.to_set()) by {
        assert forall|h: Seq<char>| hosts.to_set().contains(h) == kept.to_set().contains(h) by {
            if hosts.contains(h) {
                let k = choose|k: int| 0 <= k < list.len() && bare_host(#[trigger] list[k]) == h;
                assert(bare[k] == h);
                assert(bare.contains(h));
            }
            if kept.contains(h) {
                let k = bare.index_of(h);
                assert(bare_host(list[k]) == h);
            }
        }
    }
    lemma_ascending_unique(hosts, event_hosts(ev));
}

/// Hosts are recorded only where B′ is wanted, and then every host of the match under every
/// brand that is left over, with the time of its first sighting.
pub proof fn law_hosts_after_a_match(
    t: Tables,
    i: Input,
    full: Seq<Seq<char>>,
    c: Seq<Seq<char>>,
    hosts: Seq<Seq<char>>,
    b: Seq<char>,
    h: Seq<char>,
)
    requires
        are_brands(i.ev, full),
        has_room(t, full),
        are_left(t, i, full, c),
        are_hosts(i.ev, hosts),
    ensures
        ({
            let u = step(t, i).tables;
            let new = i.policy.want_b && c.contains(b) && hosts.contains(h);
            &&& u.hosts.contains_key((b, h)) <==> t.hosts.contains_key((b, h)) || new
            &&& t.hosts.contains_key((b, h)) ==> u.hosts[(b, h)] == t.hosts[(b, h)]
            &&& !t.hosts.contains_key((b, h)) && new ==> u.hosts[(b, h)] == event_seconds(
                i.ev,
                i.now_unix,
            )
        }),
{
    lemma_left(t, i, full, c);
    lemma_hosts(i.ev, hosts);
    if c.len() == 0 {
        assert(!c.contains(b));
    }
}

/// A B′ alert is owed: where B′ is wanted and one brand is left over, the match gives an
/// alert about exactly those of its hosts that were not recorded under the brand and, where
/// routine ones are skipped, are not routine; and none where there is no such host.
pub proof fn law_host_alert_is_owed(
    t: Tables,
    i: Input,
    full: Seq<Seq<char>>,
    brand: Seq<char>,
    hosts: Seq<Seq<char>>,
)
    requires
        are_brands(i.ev, full),
        has_room(t, full),
        are_left(t, i, full, seq![brand]),
        are_hosts(i.ev, hosts),
    ensures
        ({
            let p = step(t, i);
            let alerts = p.result->Ok_0.0;
            let news = |h: Seq<char>|
                hosts.contains(h) && !t.hosts.contains_key((brand, h)) && !(i.policy.skip_routine
                    && routine(brand, h));
            let any = exists|h: Seq<char>| #[trigger] hosts.contains(h) && news(h);
            &&& p.result is Ok
            &&& !(i.policy.want_b && any) ==> alerts.len() == 0 && p.result->Ok_0.1.alerts_b == 0
            &&& i.policy.want_b && any ==> ({
                let kind = alerts[0].kind;
                &&& alerts.len() == 1 && p.result->Ok_0.1.alerts_b == 1
                &&& kind is B && kind->brand == brand && alerts[0].event == i.ev
                &&& kind->novel_hosts.len() > 0 && kind->host == kind->novel_hosts[0]
                &&& ascending(kind->novel_hosts)
                &&& forall|h: Seq<char>| #[trigger] kind->novel_hosts.contains(h) <==> news(h)
            })
        }),
{
    lemma_left(t, i, full, seq![brand]);
    lemma_hosts(i.ev, hosts);
    let t1 = observed(t, full);
    let ts = event_seconds(i.ev, i.now_unix);
    let t2 = if full.len() >= 2 {
        t1.with_coalition(coalition_key(full), ts)
    } else {
        t1
    };
    assert(t2.hosts == t.hosts);
    let keep = |h: Seq<char>|
        !t2.hosts.contains_key((brand, h)) && !(i.policy.skip_routine && routine(brand, h));
    let novel = novel_hosts(t2, i.policy, brand, hosts);
    assert(novel == hosts.filter(keep));
    lemma_filter_members(hosts, keep);
    lemma_filter_ascending(hosts, keep);
    assert(seq![brand][0] == brand);
    if novel.len() > 0 {
        assert(novel.contains(novel[0]));
    }
    if exists|h: Seq<char>| #[trigger] hosts.contains(h) && keep(h) {
        let h = choose|h: Seq<char>| #[trigger] hosts.contains(h) && keep(h);
        assert(novel.contains(h));
    }
}

/// The learning feed: a row exactly where it is asked for and a coalition is new and emitted,
/// muted by burn-in, or left with too few brands, for that reason. It has the counts of every
/// brand of the match after it was counted.
pub proof fn law_learning_feed(
    t: Tables,
    i: Input,
    full: Seq<Seq<char>>,
    c: Seq<Seq<char>>,
)
    requires
        are_brands(i.ev, full),
        has_room(t, full),
        are_left(t, i, full, c),
    ensures
        ({
            let s = step(t, i).result->Ok_0.1;
            let row = s.candidate;
            &&& row is Some <==> i.policy.emit_candidates && (s.alerts_a == 1
                || s.a_calibrate_muted == 1 || s.a_high_df_dropped == 1)
            &&& row is Some ==> ({
                let r = row->0;
                &&& s.alerts_a == 1 ==> r.reason == "a_prime"@
                &&& s.a_calibrate_muted == 1 ==> r.reason == "calibrating"@
                &&& s.a_high_df_dropped == 1 ==> r.reason == "high_df"@
                &&& r.coalition == if c.len() == 0 {
                    full
                } else {
                    c
                }
                &&& r.kind == "candidate"@
                &&& r.fingerprint == i.ev.fingerprint
                &&& r.degrees.len() == full.len() && r.event_counts.len() == full.len()
                &&& forall|k: int|
                    0 <= k < full.len() ==> (#[trigger] r.degrees[k]).0 == full[k]
                        && r.degrees[k].1 == at_most_u32(partners_now(t, full, full[k]))
                &&& forall|k: int|
                    0 <= k < full.len() ==> (#[trigger] r.event_counts[k]).0 == full[k]
                        && r.event_counts[k].1 == at_most_u32(events_before(t, full[k]) + 1)
            })
        }),
{
    lemma_left(t, i, full, c);
    lemma_counted(t, full);
    let u = observed(t, full);
    assert forall|k: int| 0 <= k < full.len() implies u.events_of(#[trigger] full[k])
        == events_before(t, full[k]) + 1 && u.partners_of(full[k]) == partners_now(
        t,
        full,
        full[k],
    ) by {
        assert(full.contains(full[k]));
    }
}

/// A number, or the largest that fits.
pub open spec fn at_most_u32(n: int) -> int {
    if n > u32::MAX {
        u32::MAX as int
    } else {
        n
    }
}

/// What a captured fact says: the brands and, in ascending order and lower case, the keywords
/// and names of the event; its fingerprint, source and number of names; and the two clocks.
pub proof fn law_fact_says(brands: Seq<Seq<char>>, ev: EventView, ts: i64, now_unix: i64)
    ensures
        ({
            let f = fact_of(brands, ev, ts, now_unix);
            &&& f.brands == csv(brands)
            &&& f.fingerprint == ev.fingerprint
            &&& f.san_count == ev.san_count
            &&& f.ct_log == ev.source
            &&& f.seen_at == instant_text(ts)
            &&& f.ingested_at == instant_text(now_unix)
            &&& lists(f.watchlist_hits, ev.matched_keywords)
            &&& lists(f.hosts, ev.matched_domains)
        }),
{
    lemma_lists(ev.matched_keywords);
    lemma_lists(ev.matched_domains);
}

/// Whether a text lists texts: each that is not blank once, trimmed and in lower case, in
/// ascending order and with commas between them.
pub open spec fn lists(text: Seq<char>, list: Seq<Seq<char>>) -> bool {
    exists|parts: Seq<Seq<char>>|
        ascending(parts) && text == #[trigger] csv(parts) && forall|x: Seq<char>| #[trigger]
            parts.contains(x) <==> x.len() > 0 && exists|k: int|
                0 <= k < list.len() && lowered(trimmed(#[trigger] list[k])) == x
}

proof fn lemma_lists(list: Seq<Seq<char>>)
    ensures
        lists(csv(sorted_texts(cleaned(list))), list),
{
    let all = Seq::new(list.len(), |k: int| lowered(trimmed(list[k])));
    let set = cleaned(list);
    vstd::seq_lib::seq_to_set_is_finite(all);
    assert(set.subset_of(all.to_set())) by {
        assert forall|x: Seq<char>| set.contains(x) implies all.to_set().contains(x) by {
            let k = choose|k: int| 0 <= k < list.len() && x == lowered(trimmed(#[trigger] list[k]));
            assert(all[k] == x);
        }
    }
    vstd::set_lib::lemma_len_subset(set, all.to_set());
    lemma_sorted_texts(set);
    let parts = sorted_texts(set);
    assert forall|x: Seq<char>| #[trigger] parts.contains(x) <==> x.len() > 0 && exists|k: int|
        0 <= k < list.len() && lowered(trimmed(#[trigger] list[k])) == x by {
        assert(parts.to_set().contains(x) == parts.contains(x));
        if set.contains(x) {
            let k = choose|k: int| 0 <= k < list.len() && x == lowered(trimmed(#[trigger] list[k]));
            assert(lowered(trimmed(list[k])) == x);
        }
    }
    assert(csv(parts) == csv(sorted_texts(set)));
}

/// The bare form of a matched name, written in either case, with or without a wildcard
/// before it, dots behind it and whitespace around it, is the host in lower case.
pub proof fn law_bare_host(a: Seq<char>, wild: bool, host: Seq<char>, n: nat, b: Seq<char>)
    requires
        is_blank(a),
        is_blank(b),
        is_plain_host(host),
    ensures
        ({
            let star = if wild {
                seq!['*', '.']
            } else {
                Seq::<char>::empty()
            };
            bare_host(a + (star + host + dots(n)) + b) == lowered(host)
        }),
{
    let star = if wild {
        seq!['*', '.']
    } else {
        Seq::<char>::empty()
    };
    let core = star + host;
    let t = core + dots(n);
    assert(t =~= star + host + dots(n));
    assert(core[core.len() - 1] == host[host.len() - 1]);
    if n > 0 {
        assert(t[t.len() - 1] == '.');
    } else {
        assert(t =~= core);
    }
    assert(t[0] == core[0]);
    assert(has_no_blank_ends(t));
    law_trimmed(a, t, b);
    law_without_trailing(core, '.', n);
    assert(dots(n) =~= Seq::new(n, |i: int| '.'));
    lemma_lowered_parts(star, host);
    reveal_strlit("*.");
    assert("*."@ =~= seq!['*', '.']);
    let lower = lowered(core);
    if wild {
        assert(lowered(star) =~= star);
        assert(lower.take(2) =~= "*."@);
        assert(lower.skip(2) =~= lowered(host));
    } else {
        assert(core =~= host);
        if begins_with(lower, "*."@) {
            assert(lower.take(2)[0] == '*' && lower.take(2)[1] == '.');
            assert(lower[0] == '*' && lower[1] == '.');
            assert(host[0] == '*' && host[1] == '.');
        }
    }
}

/// A host is routine exactly where it is the brand or its first label is a routine one.
pub proof fn law_routine_hosts(brand: Seq<char>, label: Seq<char>, rest: Seq<char>)
    requires
        !label.contains('.'),
    ensures
        routine(brand, brand),
        label + seq!['.'] + rest != brand ==> (routine(brand, label + seq!['.'] + rest)
            <==> is_routine_label(label)),
        label != brand ==> (routine(brand, label) <==> is_routine_label(label)),
{
    law_split_cuts(label, rest, '.');
    assert((seq![label] + split_on(rest, '.'))[0] == label);
    lemma_routine_labels(label);
}

/// The labels that say nothing new about a brand.
pub open spec fn is_routine_label(l: Seq<char>) -> bool {
    ||| l == "www"@ || l == "mail"@ || l == "autodiscover"@ || l == "cpanel"@ || l == "webmail"@
    ||| l == "webdisk"@ || l == "cpcalendars"@ || l == "cpcontacts"@ || l == "ftp"@ || l == "pop"@
    ||| l == "imap"@ || l == "smtp"@ || l == "ns1"@ || l == "ns2"@ || l == "mx"@ || l == "m"@
    ||| l == "cdn"@ || l == "static"@ || l == "img"@ || l == "images"@ || l == "api"@
    ||| l == "app"@ || l == "dev"@ || l == "test"@ || l == "qa"@ || l == "staging"@
    ||| l == "sandbox"@ || l == "sbx"@ || l == "graphql"@ || l == "mcpserver"@
}

proof fn lemma_routine_labels(l: Seq<char>)
    ensures
        routine_labels().contains(l) <==> is_routine_label(l),
{
    let all = routine_labels();
    if all.contains(l) {
        let k = all.index_of(l);
        assert(all[k] == l);
    }
    if is_routine_label(l) {
        assert(all[0] == "www"@ && all[1] == "mail"@ && all[2] == "autodiscover"@ && all[3]
            == "cpanel"@ && all[4] == "webmail"@ && all[5] == "webdisk"@ && all[6]
            == "cpcalendars"@ && all[7] == "cpcontacts"@ && all[8] == "ftp"@ && all[9] == "pop"@
            && all[10] == "imap"@ && all[11] == "smtp"@ && all[12] == "ns1"@ && all[13] == "ns2"@
            && all[14] == "mx"@ && all[15] == "m"@ && all[16] == "cdn"@ && all[17] == "static"@
            && all[18] == "img"@ && all[19] == "images"@ && all[20] == "api"@ && all[21]
            == "app"@ && all[22] == "dev"@ && all[23] == "test"@ && all[24] == "qa"@ && all[25]
            == "staging"@ && all[26] == "sandbox"@ && all[27] == "sbx"@ && all[28] == "graphql"@
            && all[29] == "mcpserver"@);
    }
}

/// The time of a match is the log's timestamp cut to whole seconds, or the clock's reading
/// where there is none.
pub proof fn law_event_seconds(ev: EventView, now_unix: i64)
    ensures
        ev.seen is None ==> event_seconds(ev, now_unix) == now_unix,
        ev.seen is Some ==> event_seconds(ev, now_unix) == double_seconds(ev.seen->0),
{
}

/// A delivery key tells matches apart: with real fingerprints that hold no bar, and names
/// that hold neither bar nor comma, the same key means the same fingerprint and the same
/// names in lower case.
pub proof fn law_delivery_keys_tell_apart(a: EventView, b: EventView, x: Seq<char>)
    requires
        dedupe_text(a) == dedupe_text(b),
        real_fingerprint(a.fingerprint) is Some,
        real_fingerprint(b.fingerprint) is Some,
        !a.fingerprint->0.contains('|'),
        !b.fingerprint->0.contains('|'),
        plain_names(a),
        plain_names(b),
    ensures
        a.fingerprint == b.fingerprint,
        all_lowered(a.matched_domains).contains(x) <==> all_lowered(b.matched_domains).contains(x),
{
    reveal_strlit("|");
    assert("|"@ =~= seq!['|']);
    lemma_key(a);
    lemma_key(b);
    let pa = sorted_texts(all_lowered(a.matched_domains).to_set());
    let pb = sorted_texts(all_lowered(b.matched_domains).to_set());
    law_split_cuts(a.fingerprint->0, csv(pa), '|');
    law_split_cuts(b.fingerprint->0, csv(pb), '|');
    let da = split_on(dedupe_text(a), '|');
    assert(da == seq![a.fingerprint->0] + split_on(csv(pa), '|'));
    assert(da == seq![b.fingerprint->0] + split_on(csv(pb), '|'));
    assert(da[0] == a.fingerprint->0 && da[0] == b.fingerprint->0);
    let n = a.fingerprint->0.len() as int;
    assert(dedupe_text(a).skip(n + 1) =~= csv(pa));
    assert(dedupe_text(b).skip(n + 1) =~= csv(pb));
    law_captured_lists_unnest(pa);
    law_captured_lists_unnest(pb);
    assert(pa == pb);
    assert(pa.to_set().contains(x) == pa.contains(x));
    assert(all_lowered(a.matched_domains).to_set().contains(x) == all_lowered(
        a.matched_domains,
    ).contains(x));
    assert(all_lowered(b.matched_domains).to_set().contains(x) == all_lowered(
        b.matched_domains,
    ).contains(x));
}

/// Whether an event has names, and none holds a comma.
pub open spec fn plain_names(ev: EventView) -> bool {
    &&& ev.matched_domains.len() > 0
    &&& forall|k: int|
        0 <= k < ev.matched_domains.len() ==> !(#[trigger] ev.matched_domains[k]).contains(',')
}

proof fn lemma_key(ev: EventView)
    requires
        plain_names(ev),
    ensures
        ({
            let all = all_lowered(ev.matched_domains);
            let parts = sorted_texts(all.to_set());
            &&& ascending(parts)
            &&& parts.to_set() == all.to_set()
            &&& parts.len() > 0
            &&& forall|k: int| 0 <= k < parts.len() ==> !(#[trigger] parts[k]).contains(',')
        }),
{
    let all = all_lowered(ev.matched_domains);
    let parts = sorted_texts(all.to_set());
    vstd::seq_lib::seq_to_set_is_finite(all);
    lemma_sorted_texts(all.to_set());
    assert(all.to_set().contains(all[0]));
    assert(parts.to_set().contains(all[0]));
    assert forall|k: int| 0 <= k < parts.len() implies !(#[trigger] parts[k]).contains(',') by {
        assert(parts.to_set().contains(parts[k]));
        let j = all.index_of(parts[k]);
        assert(all[j] == lowered(ev.matched_domains[j]));
        if parts[k].contains(',') {
            let m = parts[k].index_of(',');
            assert(ev.matched_domains[j][m] == ',');
        }
    }
}

/// Whole seconds are the double cut towards zero: with the 53-bit number `m` and the exponent
/// `e`, the magnitude is the largest whole number that is not above `m * 2^e`.
pub proof fn law_whole_seconds(bits: u64)
    ensures
        !double_finite(bits) ==> double_seconds(bits) == 0,
        double_finite(bits) ==> double_seconds(bits) as int == ({
            let n = if double_negative(bits) {
                -double_magnitude(bits)
            } else {
                double_magnitude(bits)
            };
            if n > i64::MAX {
                i64::MAX as int
            } else if n < i64::MIN {
                i64::MIN as int
            } else {
                n
            }
        }),
        ({
            let m = pow2(52) + double_fraction(bits);
            let e = double_exponent(bits);
            &&& e == 0 ==> double_magnitude(bits) == 0
            &&& e >= 1075 ==> double_magnitude(bits) == m * pow2(
                (e - 1075) as nat,
            )
            &&& 0 < e < 1075 ==> ({
                let unit = pow2((1075 - e) as nat) as int;
                double_magnitude(bits) * unit <= m < (double_magnitude(bits) + 1) * unit
            })
        }),
{
    let m = pow2(52) + double_fraction(bits);
    let e = double_exponent(bits);
    lemma_pow2_pos(52);
    lemma_mod_bound(
        bits as int,
        pow2(52) as int,
    );
    if e >= 1075 {
        let unit = pow2((e - 1075) as nat);
        assert(m * unit >= 0) by (nonlinear_arith)
            requires
                m >= 0,
        ;
    }
    if 0 < e < 1075 {
        let unit = pow2((1075 - e) as nat) as int;
        lemma_pow2_pos((1075 - e) as nat);
        lemma_fundamental_div_mod(m, unit);
        lemma_mod_bound(m, unit);
        let q = m / unit;
        assert((q + 1) * unit == q * unit + unit) by (nonlinear_arith);
        assert(unit * q == q * unit) by (nonlinear_arith);
        lemma_div_pos_is_pos(m, unit);
    }
}

/// An empty fingerprint, and that of the empty text, stand for none: the delivery key is then
/// that of the names alone. Any other fingerprint stands before it.
pub proof fn law_delivery_key(ev: EventView)
    ensures
        ({
            let names = dedupe_text(EventView { fingerprint: None, ..ev });
            let none = ev.fingerprint is None || ev.fingerprint->0.len() == 0
                || ev.fingerprint->0
                == "DA:39:A3:EE:5E:6B:4B:0D:32:55:BF:EF:95:60:18:90:AF:D8:07:09"@;
            &&& none ==> dedupe_text(ev) == names
            &&& !none ==> dedupe_text(ev) == ev.fingerprint->0 + seq!['|'] + names
        }),
{
    reveal_strlit("|");
    assert("|"@ =~= seq!['|']);
}

/// By default, outside burn-in, a coalition of at most 5 brands on a leaf of at most 32 names
/// is told of, and a brand is a hub from 25 matches or 25 partners on, or where it is ignored.
pub proof fn law_default_policy(
    t: Tables,
    ignore: Set<Seq<char>>,
    ev: EventView,
    brands: Seq<Seq<char>>,
    b: Seq<char>,
)
    ensures
        ({
            let p = default_policy();
            &&& fate(p, ev, brands) is Emitted <==> brands.len() <= 5 && names_on_leaf(ev) <= 32
            &&& fate(p, ev, brands) is Oversized <==> brands.len() > 5
            &&& is_hub(t, ignore, p, b) <==> ignore.contains(b) || t.events_of(b) >= 25
                || t.partners_of(b) >= 25
            &&& !p.want_b && p.skip_routine && !p.emit_candidates
        }),
{
}

} // verus!
