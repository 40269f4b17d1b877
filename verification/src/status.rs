//! What the status page says.
use vstd::prelude::*;

use crate::archive::{archive_disk_warn, disk_warn, volume_is_short};
use crate::metrics::MetricsSnapshot;
use crate::text::{copy_opt, opt_text, same_text};

verus! {

/// Frames after which the stream counts as warmed up.
pub const WARM_FRAMES: u64 = 1_000;

/// Matches after which alerts are expected.
pub const WARM_MATCHES: u64 = 1_000;

/// Whether the filter keeps up with the stream.
#[derive(Clone, Copy, Debug, PartialEq, Eq)]
pub struct KeepUpHint {
    pub ok: bool,
    pub detail: &'static str,
}

/// Whether the product looks healthy. A quiet alerts file often is.
#[derive(Clone, Copy, Debug, PartialEq, Eq)]
pub struct ProductHint {
    pub ok: bool,
    pub detail: &'static str,
}

/// Whether the filter keeps up: the channel was never full, and, once warmed up, frames flow.
pub open spec fn keeps_up(snap: MetricsSnapshot, stalled: bool) -> (bool, Seq<char>) {
    if snap.channel_full > 0 {
        (
            false,
            "channel_full > 0 — match channel saturated; filter may be behind CertStream"@,
        )
    } else if snap.frames_seen > WARM_FRAMES && stalled {
        (
            false,
            "frames_per_sec near zero after warmup — check CertStream / WS reconnects"@,
        )
    } else {
        (true, "channel_full=0 and frames flowing (proxy — not true CT tip lag)"@)
    }
}

/// Whether the filter keeps up. `stalled` is whether less than one frame a second came in
/// since the last look.
pub fn keep_up_hint(snap: &MetricsSnapshot, stalled: bool) -> (r: KeepUpHint)
    ensures
        (r.ok, r.detail@) == keeps_up(*snap, stalled),
{
    if snap.channel_full > 0 {
        return KeepUpHint {
            ok: false,
            detail: "channel_full > 0 — match channel saturated; filter may be behind CertStream",
        };
    }
    if snap.frames_seen > WARM_FRAMES && stalled {
        return KeepUpHint {
            ok: false,
            detail: "frames_per_sec near zero after warmup — check CertStream / WS reconnects",
        };
    }
    KeepUpHint {
        ok: true,
        detail: "channel_full=0 and frames flowing (proxy — not true CT tip lag)",
    }
}

/// Whether the product looks healthy: with the novelty backend, after an hour with matches,
/// a coalition is expected.
pub open spec fn looks_healthy(
    snap: MetricsSnapshot,
    past_first_hour: bool,
    egress: Seq<char>,
) -> (bool, Seq<char>) {
    if egress != "novelty"@ {
        (true, "stdout egress — not the product novelty trickle"@)
    } else if past_first_hour && snap.matches_enqueued > WARM_MATCHES && snap.novelty_alerts_a == 0
        && snap.novelty_coalitions_inserted == 0 {
        (
            false,
            "no A′ inserts after 1h with matches — check novelty DB / watchlist / glue"@,
        )
    } else {
        (
            true,
            "warm A′ is tens/hour; tiny alerts.jsonl is expected until 256MiB rotate"@,
        )
    }
}

/// Whether the product looks healthy. `past_first_hour` is whether the process is up for
/// more than an hour.
pub fn product_hint(snap: &MetricsSnapshot, past_first_hour: bool, egress: &str) -> (r:
    ProductHint)
    ensures
        (r.ok, r.detail@) == looks_healthy(*snap, past_first_hour, egress@),
{
    if !same_text(egress, "novelty") {
        return ProductHint {
            ok: true,
            detail: "stdout egress — not the product novelty trickle",
        };
    }
    if past_first_hour && snap.matches_enqueued > WARM_MATCHES && snap.novelty_alerts_a == 0
        && snap.novelty_coalitions_inserted == 0 {
        return ProductHint {
            ok: false,
            detail: "no A′ inserts after 1h with matches — check novelty DB / watchlist / glue",
        };
    }
    ProductHint {
        ok: true,
        detail: "warm A′ is tens/hour; tiny alerts.jsonl is expected until 256MiB rotate",
    }
}

/// Counters at the last look, from which rates are computed.
#[derive(Clone, Copy, Debug, PartialEq, Eq, Structural)]
pub struct RateSample {
    pub frames_seen: u64,
    pub matches_enqueued: u64,
}

impl RateSample {
    /// The counters now.
    pub fn of(snap: &MetricsSnapshot) -> (r: Self)
        ensures
            r == (RateSample {
                frames_seen: snap.frames_seen,
                matches_enqueued: snap.matches_enqueued,
            }),
    {
        RateSample { frames_seen: snap.frames_seen, matches_enqueued: snap.matches_enqueued }
    }

    /// How many frames and matches came in since the last look, which is now.
    pub fn advance(&mut self, snap: &MetricsSnapshot) -> (r: (u64, u64))
        ensures
            r.0 == (if snap.frames_seen < old(self).frames_seen {
                0
            } else {
                (snap.frames_seen - old(self).frames_seen) as u64
            }),
            r.1 == (if snap.matches_enqueued < old(self).matches_enqueued {
                0
            } else {
                (snap.matches_enqueued - old(self).matches_enqueued) as u64
            }),
            final(self).frames_seen == snap.frames_seen,
            final(self).matches_enqueued == snap.matches_enqueued,
    {
        let frames: u64 = snap.frames_seen.saturating_sub(self.frames_seen);
        let matches: u64 = snap.matches_enqueued.saturating_sub(self.matches_enqueued);
        self.frames_seen = snap.frames_seen;
        self.matches_enqueued = snap.matches_enqueued;
        (frames, matches)
    }
}

/// What there is of the archive.
#[derive(Clone, Debug, PartialEq, Eq)]
pub struct ArchiveStatus {
    pub dir: String,
    pub dir_bytes: u64,
    pub max_total_bytes: u64,
    pub disk_warn_bytes: u64,
    /// Bytes that the volume has left, where that is known.
    pub fs_available_bytes: Option<u64>,
    /// Bytes of the volume, where that is known.
    pub fs_total_bytes: Option<u64>,
    pub config_hash: String,
    pub snapshot_id: String,
}

/// What the status page is made from.
#[derive(Clone, Debug, PartialEq, Eq)]
pub struct StatusInput {
    pub snapshot: MetricsSnapshot,
    pub egress: String,
    pub novelty_db: Option<String>,
    pub novelty_alerts: Option<String>,
    pub alerts_file_bytes: Option<u64>,
    pub alerts_file_lines: Option<u64>,
    pub archive: Option<ArchiveStatus>,
    /// Less than one frame a second came in since the last look.
    pub stalled: bool,
    /// The process is up for more than an hour.
    pub past_first_hour: bool,
}

/// The status page, without the rates.
#[derive(Clone, Debug, PartialEq, Eq)]
pub struct StatusResponse {
    pub ok: bool,
    pub egress: String,
    pub novelty_db: Option<String>,
    pub novelty_alerts: Option<String>,
    pub counters: MetricsSnapshot,
    pub alerts_file_bytes: Option<u64>,
    pub alerts_file_lines: Option<u64>,
    pub archive_dir: Option<String>,
    pub archive_dir_bytes: Option<u64>,
    pub archive_max_total_bytes: Option<u64>,
    pub archive_disk_warn: bool,
    pub fs_available_bytes: Option<u64>,
    pub fs_total_bytes: Option<u64>,
    pub config_hash: Option<String>,
    pub snapshot_id: Option<String>,
    pub keep_up: KeepUpHint,
    pub product: ProductHint,
}

/// Whether the page warns about the disk: the threshold or 80% of the cap is reached, or the
/// volume has too little room for the rest of the cap.
pub open spec fn warns(a: ArchiveStatus) -> bool {
    ||| disk_warn(a.dir_bytes, a.disk_warn_bytes, a.max_total_bytes)
    ||| a.max_total_bytes > 0 && a.fs_available_bytes is Some && a.fs_available_bytes->0
        < a.max_total_bytes - a.dir_bytes
}

/// Whether the page says of the archive what there is of it.
pub open spec fn says_archive(r: StatusResponse, archive: Option<ArchiveStatus>) -> bool {
    match archive {
        Some(a) => {
            &&& opt_text(r.archive_dir) == Some(a.dir@)
            &&& r.archive_dir_bytes == Some(a.dir_bytes)
            &&& r.archive_max_total_bytes == Some(a.max_total_bytes)
            &&& r.archive_disk_warn == warns(a)
            &&& r.fs_available_bytes == a.fs_available_bytes
            &&& r.fs_total_bytes == a.fs_total_bytes
            &&& opt_text(r.config_hash) == Some(a.config_hash@)
            &&& opt_text(r.snapshot_id) == Some(a.snapshot_id@)
        },
        None => {
            &&& r.archive_dir is None
            &&& r.archive_dir_bytes is None
            &&& r.archive_max_total_bytes is None
            &&& !r.archive_disk_warn
            &&& r.fs_available_bytes is None
            &&& r.fs_total_bytes is None
            &&& r.config_hash is None
            &&& r.snapshot_id is None
        },
    }
}

/// Makes the status page.
pub fn build_status(input: &StatusInput) -> (r: StatusResponse)
    ensures
        r.ok,
        r.egress@ == input.egress@,
        opt_text(r.novelty_db) == opt_text(input.novelty_db),
        opt_text(r.novelty_alerts) == opt_text(input.novelty_alerts),
        r.counters == input.snapshot,
        r.alerts_file_bytes == input.alerts_file_bytes,
        r.alerts_file_lines == input.alerts_file_lines,
        says_archive(r, input.archive),
        (r.keep_up.ok, r.keep_up.detail@) == keeps_up(input.snapshot, input.stalled),
        (r.product.ok, r.product.detail@) == looks_healthy(
            input.snapshot,
            input.past_first_hour,
            input.egress@,
        ),
{
    let mut r = StatusResponse {
        ok: true,
        egress: input.egress.clone(),
        novelty_db: copy_opt(&input.novelty_db),
        novelty_alerts: copy_opt(&input.novelty_alerts),
        counters: input.snapshot,
        alerts_file_bytes: input.alerts_file_bytes,
        alerts_file_lines: input.alerts_file_lines,
        archive_dir: None,
        archive_dir_bytes: None,
        archive_max_total_bytes: None,
        archive_disk_warn: false,
        fs_available_bytes: None,
        fs_total_bytes: None,
        config_hash: None,
        snapshot_id: None,
        keep_up: keep_up_hint(&input.snapshot, input.stalled),
        product: product_hint(
            &input.snapshot,
            input.past_first_hour,
            input.egress.as_str(),
        ),
    };
    if let Some(a) = &input.archive {
        r.archive_dir = Some(a.dir.clone());
        r.archive_dir_bytes = Some(a.dir_bytes);
        r.archive_max_total_bytes = Some(a.max_total_bytes);
        r.archive_disk_warn =
        archive_disk_warn(a.dir_bytes, a.disk_warn_bytes, a.max_total_bytes) || volume_is_short(
            a.dir_bytes,
            a.max_total_bytes,
            a.fs_available_bytes,
        );
        r.fs_available_bytes = a.fs_available_bytes;
        r.fs_total_bytes = a.fs_total_bytes;
        r.config_hash = Some(a.config_hash.clone());
        r.snapshot_id = Some(a.snapshot_id.clone());
    }
    r
}

/// The filter keeps up unless the channel was ever full, or frames have stopped after the
/// first ones came in.
pub proof fn law_keeping_up(snap: MetricsSnapshot, stalled: bool)
    ensures
        keeps_up(snap, stalled).0 <==> snap.channel_full == 0 && !(stalled && snap.frames_seen
            > 1_000),
{
}

/// The product looks healthy unless, with alerts as egress, an hour has passed with matches
/// and without any coalition or alert.
pub proof fn law_looking_healthy(snap: MetricsSnapshot, past_first_hour: bool, egress: Seq<char>)
    ensures
        !looks_healthy(snap, past_first_hour, egress).0 <==> egress == "novelty"@
            && past_first_hour && snap.matches_enqueued > 1_000 && snap.novelty_alerts_a
            == 0 && snap.novelty_coalitions_inserted == 0,
{
}

/// The page warns about the disk at the threshold, at 80% of the cap, and where the volume has
/// less room than the cap still allows.
pub proof fn law_page_warns(a: ArchiveStatus)
    ensures
        warns(a) <==> {
            ||| a.dir_bytes >= a.disk_warn_bytes
            ||| a.max_total_bytes > 0 && 100 * a.dir_bytes >= 80 * a.max_total_bytes
            ||| a.max_total_bytes > 0 && a.fs_available_bytes is Some && a.dir_bytes
                + a.fs_available_bytes->0 < a.max_total_bytes
        },
{
}

} // verus!
