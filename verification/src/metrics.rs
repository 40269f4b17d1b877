//! Process-wide counters. Every counter wraps around at its largest value.
use vstd::prelude::*;

use crate::novelty_alert::ProcessStats;

verus! {

/// Counters for lag and delivery.
#[derive(Clone, Copy, Debug, PartialEq, Eq, Structural)]
pub struct PipelineMetrics {
    /// Frames that came in.
    pub frames_seen: u64,
    /// Frames without a match.
    pub frames_ignored: u64,
    /// Frames that could not be read.
    pub frames_malformed: u64,
    /// Matches handed to the batcher.
    pub matches_enqueued: u64,
    /// Matches whose implicated names were all suppressed at inspection.
    pub matches_suppressed: u64,
    /// Matches that had to wait for room.
    pub channel_full: u64,
    /// Connections that ended.
    pub reconnects: u64,
    /// Batches that the sink took.
    pub batches_sent: u64,
    /// Batches that the sink refused.
    pub egress_retries: u64,
    /// A′ alerts.
    pub novelty_alerts_a: u64,
    /// B′ alerts.
    pub novelty_alerts_b: u64,
    /// New coalitions with too many brands.
    pub novelty_oversized_dropped: u64,
    /// New coalitions on leaves with too many names.
    pub novelty_mega_san_dropped: u64,
    /// Matches with no brand left over.
    pub novelty_fully_ignored: u64,
    /// New coalitions.
    pub novelty_coalitions_inserted: u64,
    /// New coalitions with fewer than two low-df brands.
    pub novelty_high_df_dropped: u64,
    /// New coalitions muted by burn-in.
    pub novelty_calibrate_muted: u64,
    /// 1 while burn-in lasts.
    pub novelty_calibrating: u64,
    /// Archive lines written.
    pub archive_events_written: u64,
    /// Archive bytes written.
    pub archive_bytes_written: u64,
}

/// The counters at one moment.
#[derive(Clone, Copy, Debug, PartialEq, Eq, Structural)]
pub struct MetricsSnapshot {
    pub frames_seen: u64,
    pub frames_ignored: u64,
    pub frames_malformed: u64,
    pub matches_enqueued: u64,
    pub matches_suppressed: u64,
    pub channel_full: u64,
    pub reconnects: u64,
    pub batches_sent: u64,
    pub egress_retries: u64,
    pub novelty_alerts_a: u64,
    pub novelty_alerts_b: u64,
    pub novelty_oversized_dropped: u64,
    pub novelty_mega_san_dropped: u64,
    pub novelty_fully_ignored: u64,
    pub novelty_coalitions_inserted: u64,
    pub novelty_high_df_dropped: u64,
    pub novelty_calibrate_muted: u64,
    pub novelty_calibrating: u64,
    pub archive_events_written: u64,
    pub archive_bytes_written: u64,
}

/// All counters at 0.
pub open spec fn no_metrics() -> PipelineMetrics {
    PipelineMetrics {
        frames_seen: 0,
        frames_ignored: 0,
        frames_malformed: 0,
        matches_enqueued: 0,
        matches_suppressed: 0,
        channel_full: 0,
        reconnects: 0,
        batches_sent: 0,
        egress_retries: 0,
        novelty_alerts_a: 0,
        novelty_alerts_b: 0,
        novelty_oversized_dropped: 0,
        novelty_mega_san_dropped: 0,
        novelty_fully_ignored: 0,
        novelty_coalitions_inserted: 0,
        novelty_high_df_dropped: 0,
        novelty_calibrate_muted: 0,
        novelty_calibrating: 0,
        archive_events_written: 0,
        archive_bytes_written: 0,
    }
}

impl Default for PipelineMetrics {
    fn default() -> (r: Self)
        ensures
            r == no_metrics(),
    {
        PipelineMetrics {
            frames_seen: 0,
            frames_ignored: 0,
            frames_malformed: 0,
            matches_enqueued: 0,
            matches_suppressed: 0,
            channel_full: 0,
            reconnects: 0,
            batches_sent: 0,
            egress_retries: 0,
            novelty_alerts_a: 0,
            novelty_alerts_b: 0,
            novelty_oversized_dropped: 0,
            novelty_mega_san_dropped: 0,
            novelty_fully_ignored: 0,
            novelty_coalitions_inserted: 0,
            novelty_high_df_dropped: 0,
            novelty_calibrate_muted: 0,
            novelty_calibrating: 0,
            archive_events_written: 0,
            archive_bytes_written: 0,
        }
    }
}

impl PipelineMetrics {
    /// All counters at 0.
    pub fn new() -> (r: Self)
        ensures
            r == no_metrics(),
    {
        PipelineMetrics::default()
    }

    /// Adds what became of one match.
    pub fn record_novelty(&mut self, stats: &ProcessStats)
        ensures
            *final(self) == (PipelineMetrics {
                novelty_fully_ignored: old(self).novelty_fully_ignored.wrapping_add(
                    stats.fully_ignored,
                ),
                novelty_alerts_a: old(self).novelty_alerts_a.wrapping_add(
                    stats.alerts_a,
                ),
                novelty_alerts_b: old(self).novelty_alerts_b.wrapping_add(
                    stats.alerts_b,
                ),
                novelty_oversized_dropped: old(self).novelty_oversized_dropped.wrapping_add(
                    stats.a_oversized_dropped,
                ),
                novelty_mega_san_dropped: old(self).novelty_mega_san_dropped.wrapping_add(
                    stats.a_mega_san_dropped,
                ),
                novelty_coalitions_inserted: old(self).novelty_coalitions_inserted.wrapping_add(
                    stats.coalitions_inserted,
                ),
                novelty_high_df_dropped: old(self).novelty_high_df_dropped.wrapping_add(
                    stats.a_high_df_dropped,
                ),
                novelty_calibrate_muted: old(self).novelty_calibrate_muted.wrapping_add(
                    stats.a_calibrate_muted,
                ),
                ..*old(self)
            }),
    {
        self.novelty_fully_ignored = self.novelty_fully_ignored.wrapping_add(stats.fully_ignored);
        self.novelty_alerts_a = self.novelty_alerts_a.wrapping_add(stats.alerts_a);
        self.novelty_alerts_b = self.novelty_alerts_b.wrapping_add(stats.alerts_b);
        self.novelty_oversized_dropped =
        self.novelty_oversized_dropped.wrapping_add(stats.a_oversized_dropped);
        self.novelty_mega_san_dropped =
        self.novelty_mega_san_dropped.wrapping_add(stats.a_mega_san_dropped);
        self.novelty_coalitions_inserted =
        self.novelty_coalitions_inserted.wrapping_add(stats.coalitions_inserted);
        self.novelty_high_df_dropped =
        self.novelty_high_df_dropped.wrapping_add(stats.a_high_df_dropped);
        self.novelty_calibrate_muted =
        self.novelty_calibrate_muted.wrapping_add(stats.a_calibrate_muted);
    }

    /// Notes whether burn-in lasts.
    pub fn set_novelty_calibrating(&mut self, on: bool)
        ensures
            *final(self) == (PipelineMetrics {
                novelty_calibrating: if on {
                    1
                } else {
                    0
                },
                ..*old(self)
            }),
    {
        self.novelty_calibrating = if on {
            1
        } else {
            0
        };
    }

    /// The counters at this moment.
    pub fn snapshot(&self) -> (r: MetricsSnapshot)
        ensures
            r == (MetricsSnapshot {
                frames_seen: self.frames_seen,
                frames_ignored: self.frames_ignored,
                frames_malformed: self.frames_malformed,
                matches_enqueued: self.matches_enqueued,
                matches_suppressed: self.matches_suppressed,
                channel_full: self.channel_full,
                reconnects: self.reconnects,
                batches_sent: self.batches_sent,
                egress_retries: self.egress_retries,
                novelty_alerts_a: self.novelty_alerts_a,
                novelty_alerts_b: self.novelty_alerts_b,
                novelty_oversized_dropped: self.novelty_oversized_dropped,
                novelty_mega_san_dropped: self.novelty_mega_san_dropped,
                novelty_fully_ignored: self.novelty_fully_ignored,
                novelty_coalitions_inserted: self.novelty_coalitions_inserted,
                novelty_high_df_dropped: self.novelty_high_df_dropped,
                novelty_calibrate_muted: self.novelty_calibrate_muted,
                novelty_calibrating: self.novelty_calibrating,
                archive_events_written: self.archive_events_written,
                archive_bytes_written: self.archive_bytes_written,
            }),
    {
        MetricsSnapshot {
            frames_seen: self.frames_seen,
            frames_ignored: self.frames_ignored,
            frames_malformed: self.frames_malformed,
            matches_enqueued: self.matches_enqueued,
            matches_suppressed: self.matches_suppressed,
            channel_full: self.channel_full,
            reconnects: self.reconnects,
            batches_sent: self.batches_sent,
            egress_retries: self.egress_retries,
            novelty_alerts_a: self.novelty_alerts_a,
            novelty_alerts_b: self.novelty_alerts_b,
            novelty_oversized_dropped: self.novelty_oversized_dropped,
            novelty_mega_san_dropped: self.novelty_mega_san_dropped,
            novelty_fully_ignored: self.novelty_fully_ignored,
            novelty_coalitions_inserted: self.novelty_coalitions_inserted,
            novelty_high_df_dropped: self.novelty_high_df_dropped,
            novelty_calibrate_muted: self.novelty_calibrate_muted,
            novelty_calibrating: self.novelty_calibrating,
            archive_events_written: self.archive_events_written,
            archive_bytes_written: self.archive_bytes_written,
        }
    }
}

/// Nothing is counted at the start.
pub proof fn law_nothing_counted_at_first()
    ensures
        ({
            let m = no_metrics();
            &&& m.frames_seen == 0 && m.frames_ignored == 0 && m.frames_malformed == 0
            &&& m.matches_enqueued == 0 && m.matches_suppressed == 0 && m.channel_full == 0
            &&& m.reconnects == 0 && m.batches_sent == 0 && m.egress_retries == 0
            &&& m.novelty_alerts_a == 0 && m.novelty_alerts_b == 0
            &&& m.novelty_oversized_dropped == 0 && m.novelty_mega_san_dropped == 0
            &&& m.novelty_fully_ignored == 0 && m.novelty_coalitions_inserted == 0
            &&& m.novelty_high_df_dropped == 0 && m.novelty_calibrate_muted == 0
            &&& m.novelty_calibrating == 0
            &&& m.archive_events_written == 0 && m.archive_bytes_written == 0
        }),
{
}

} // verus!
