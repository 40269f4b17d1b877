//! The novelty sink: match events in, alerts out, with everything else remembered.
use vstd::prelude::*;

use crate::config::{DEFAULT_NOVELTY_ALERTS, DEFAULT_NOVELTY_DB};
use crate::egress::delivery;
use crate::error::{EgressError, EgressErrorView};
use crate::event::{EventView, MatchEvent};
use crate::metrics::PipelineMetrics;
use crate::names::NameSet;
use crate::novelty::{changes, NoveltyStore, RowChange, StoreError, StoreView};
use crate::novelty_alert::{
    alerts_of, process_match, processed, CandidateView, NoveltyAlert, NoveltyCandidate,
    NoveltyPolicy, Processed, StatsView,
};
use crate::text::{all_lowered, same_text, texts};

verus! {

/// Path of the novelty database where none is given.
pub fn default_novelty_db() -> (r: String)
    ensures
        r@ == DEFAULT_NOVELTY_DB@,
{
    DEFAULT_NOVELTY_DB.to_owned()
}

/// Path of the alerts file where none is given.
pub fn default_novelty_alerts() -> (r: String)
    ensures
        r@ == DEFAULT_NOVELTY_ALERTS@,
{
    DEFAULT_NOVELTY_ALERTS.to_owned()
}

/// Whether the path of a database is that of a database in memory.
pub fn is_memory_path(path: &str) -> (r: bool)
    ensures
        r == (path@ == ":memory:"@),
{
    same_text(path, ":memory:")
}

/// A database that has to be there and is not is an error.
pub fn check_database(path: &str, exists: bool, required: bool) -> (r: Result<(), EgressError>)
    ensures
        delivery(r) == (if required && !exists {
            Some(
                EgressErrorView::Sink(
                    "NOVELTY_REQUIRE_DB=1 but novelty DB missing: "@ + path@,
                ),
            )
        } else {
            None
        }),
{
    if required && !exists {
        let mut m = "NOVELTY_REQUIRE_DB=1 but novelty DB missing: ".to_owned();
        m.append(path);
        return Err(EgressError::Sink(m));
    }
    Ok(())
}

/// The novelty sink. Matches themselves are not kept.
pub struct NoveltySink {
    store: NoveltyStore,
    ignore: NameSet,
    policy: NoveltyPolicy,
}

/// What a [`NoveltySink`] holds.
pub struct SinkView {
    pub store: StoreView,
    pub ignore: Set<Seq<char>>,
    pub policy: NoveltyPolicy,
}

impl View for NoveltySink {
    type V = SinkView;

    closed spec fn view(&self) -> SinkView {
        SinkView { store: self.store@, ignore: self.ignore@, policy: self.policy }
    }
}

impl SinkView {
    /// The policy under which a match is processed: burn-in is as the store says.
    pub open spec fn policy_now(self, now_unix: i64) -> NoveltyPolicy {
        NoveltyPolicy {
            calibrating: self.store.tables.calibrating(
                now_unix,
                self.policy.calibrate_secs,
                self.policy.calibrate_events,
            ),
            ..self.policy
        }
    }

    /// What processing a match leaves behind and gives back.
    pub open spec fn processed(self, ev: EventView, now_unix: i64) -> Processed {
        processed(self.store.tables, self.ignore, self.policy_now(now_unix), ev, now_unix)
    }
}

/// The error of a sink whose store refuses a change.
pub open spec fn store_failure(e: StoreError) -> EgressErrorView {
    EgressErrorView::Sink(e.spec_message())
}

/// The counters after a match was processed.
pub open spec fn novelty_counted(
    m: PipelineMetrics,
    calibrating: bool,
    stats: StatsView,
) -> PipelineMetrics {
    PipelineMetrics {
        novelty_calibrating: if calibrating {
            1
        } else {
            0
        },
        novelty_fully_ignored: m.novelty_fully_ignored.wrapping_add(stats.fully_ignored),
        novelty_alerts_a: m.novelty_alerts_a.wrapping_add(stats.alerts_a),
        novelty_alerts_b: m.novelty_alerts_b.wrapping_add(stats.alerts_b),
        novelty_oversized_dropped: m.novelty_oversized_dropped.wrapping_add(
            stats.a_oversized_dropped,
        ),
        novelty_mega_san_dropped: m.novelty_mega_san_dropped.wrapping_add(
            stats.a_mega_san_dropped,
        ),
        novelty_coalitions_inserted: m.novelty_coalitions_inserted.wrapping_add(
            stats.coalitions_inserted,
        ),
        novelty_high_df_dropped: m.novelty_high_df_dropped.wrapping_add(stats.a_high_df_dropped),
        novelty_calibrate_muted: m.novelty_calibrate_muted.wrapping_add(stats.a_calibrate_muted),
        ..m
    }
}

/// What an optional candidate says.
pub open spec fn opt_candidate(c: Option<NoveltyCandidate>) -> Option<CandidateView> {
    match c {
        Some(x) => Some(x@),
        None => None,
    }
}

impl NoveltySink {
    /// Whether the store is well formed.
    pub closed spec fn wf(&self) -> bool {
        self.store.wf()
    }

    /// A sink with the given memory. Ignored names are taken in lower case.
    pub fn open(store: NoveltyStore, ignore: &[String], policy: NoveltyPolicy) -> (r: Self)
        requires
            store.wf(),
        ensures
            r.wf(),
            r@ == (SinkView {
                store: store@,
                ignore: all_lowered(texts(ignore@)).to_set(),
                policy,
            }),
    {
        NoveltySink { store, ignore: NameSet::of_lowered(ignore), policy }
    }

    /// The memory.
    pub fn store(&self) -> (r: &NoveltyStore)
        ensures
            r@ == self@.store,
            self.wf() ==> r.wf(),
    {
        &self.store
    }

    /// Hands over the changes for durable storage.
    pub fn take_changes(&mut self) -> (r: Vec<RowChange>)
        requires
            old(self).wf(),
        ensures
            final(self).wf(),
            changes(r@) == old(self)@.store.pending,
            old(self)@.store.stored.with_changes(changes(r@)) == old(
                self)@.store.tables,
            final(self)@.store.tables == old(self)@.store.tables,
            final(self)@.store.stored == old(self)@.store.tables,
            final(self)@.ignore == old(self)@.ignore,
            final(self)@.policy == old(self)@.policy,
    {
        self.store.take_changes()
    }

    /// Processes one match: the alerts that are due, and the row for the learning feed.
    /// Burn-in is decided by the store, for each match anew.
    pub fn process_event(&mut self, ev: &MatchEvent, now_unix: i64, metrics: &mut PipelineMetrics)
        -> (r: Result<(Vec<NoveltyAlert>, Option<NoveltyCandidate>), EgressError>)
        requires
            old(self).wf(),
        ensures
            final(self).wf(),
            final(self)@.ignore == old(self)@.ignore,
            final(self)@.policy == old(self)@.policy,
            final(self)@.store.stored == old(self)@.store.stored,
            ({
                let p = old(self)@.processed(ev@, now_unix);
                let calibrating = old(self)@.policy_now(now_unix).calibrating;
                &&& final(self)@.store.tables == p.tables
                &&& match (r, p.result) {
                    (Ok(v), Ok(w)) => alerts_of(v.0@) == w.0 && opt_candidate(v.1) == w.1.candidate
                        && *final(metrics) == novelty_counted(*old(metrics), calibrating, w.1),
                    (Err(e), Err(s)) => e@ == store_failure(s) && *final(metrics) == (
                    PipelineMetrics {
                        novelty_calibrating: if calibrating {
                            1
                        } else {
                            0
                        },
                        ..*old(metrics)
                    }),
                    _ => false,
                }
            }),
    {
        let mut policy = self.policy;
        policy.calibrating =
        self.store.is_calibrating(now_unix, policy.calibrate_secs, policy.calibrate_events);
        metrics.set_novelty_calibrating(policy.calibrating);
        match process_match(&mut self.store, &self.ignore, &policy, ev, now_unix) {
            Ok((alerts, stats)) => {
                metrics.record_novelty(&stats);
                Ok((alerts, stats.candidate))
            },
            Err(e) => Err(EgressError::Sink(e.message().to_owned())),
        }
    }
}

/// The sink processes a match under its own list and policy, muted exactly while burn-in
/// lasts.
pub proof fn law_sink_mutes_burn_in(s: SinkView, ev: EventView, now_unix: i64)
    ensures
        s.processed(ev, now_unix) == processed(
            s.store.tables,
            s.ignore,
            NoveltyPolicy {
                calibrating: s.store.tables.calibrating(
                    now_unix,
                    s.policy.calibrate_secs,
                    s.policy.calibrate_events,
                ),
                ..s.policy
            },
            ev,
            now_unix,
        ),
{
}

/// The counters grow by what became of a match, each by its own, and no other counter does.
pub proof fn law_novelty_is_counted(m: PipelineMetrics, calibrating: bool, s: StatsView)
    requires
        m.novelty_fully_ignored + s.fully_ignored <= u64::MAX,
        m.novelty_alerts_a + s.alerts_a <= u64::MAX,
        m.novelty_alerts_b + s.alerts_b <= u64::MAX,
        m.novelty_oversized_dropped + s.a_oversized_dropped <= u64::MAX,
        m.novelty_mega_san_dropped + s.a_mega_san_dropped <= u64::MAX,
        m.novelty_coalitions_inserted + s.coalitions_inserted <= u64::MAX,
        m.novelty_high_df_dropped + s.a_high_df_dropped <= u64::MAX,
        m.novelty_calibrate_muted + s.a_calibrate_muted <= u64::MAX,
    ensures
        ({
            let n = novelty_counted(m, calibrating, s);
            &&& n.novelty_fully_ignored == m.novelty_fully_ignored + s.fully_ignored
            &&& n.novelty_alerts_a == m.novelty_alerts_a + s.alerts_a
            &&& n.novelty_alerts_b == m.novelty_alerts_b + s.alerts_b
            &&& n.novelty_oversized_dropped == m.novelty_oversized_dropped + s.a_oversized_dropped
            &&& n.novelty_mega_san_dropped == m.novelty_mega_san_dropped + s.a_mega_san_dropped
            &&& n.novelty_coalitions_inserted == m.novelty_coalitions_inserted
                + s.coalitions_inserted
            &&& n.novelty_high_df_dropped == m.novelty_high_df_dropped + s.a_high_df_dropped
            &&& n.novelty_calibrate_muted == m.novelty_calibrate_muted + s.a_calibrate_muted
            &&& n.novelty_calibrating == (if calibrating {
                1u64
            } else {
                0
            })
            &&& n.frames_seen == m.frames_seen && n.frames_ignored == m.frames_ignored
                && n.frames_malformed == m.frames_malformed
            &&& n.matches_enqueued == m.matches_enqueued && n.matches_suppressed
                == m.matches_suppressed && n.channel_full == m.channel_full
            &&& n.reconnects == m.reconnects && n.batches_sent == m.batches_sent
                && n.egress_retries == m.egress_retries
            &&& n.archive_events_written == m.archive_events_written && n.archive_bytes_written
                == m.archive_bytes_written
        }),
{
}

} // verus!
