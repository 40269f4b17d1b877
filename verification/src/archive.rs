//! Research archive: every enqueued match, with the names of its leaf and the configuration
//! under which it was seen, so that filters stay reversible offline.
use sha2::Digest;
use vstd::prelude::*;
use vstd::utf8::encode_utf8;

use crate::alerts_file::{at_least_file, raise_to_least};
use crate::chunks::{
    is_rotated_sibling, is_sealed, rotated_sort_key, seal_time, sealed_chunks, Pruner, PrunerView,
};
use crate::event::{EventView, MatchEvent};
use crate::metrics::PipelineMetrics;
use crate::names::NameSet;
use crate::novelty_alert::MATCH_ARCHIVE_SCHEMA_VERSION;
use crate::numbers::{decimal, decimal_text, setting, setting_or};
use crate::text::{
    copy_opt, copy_texts, lemma_push_to_set, lowered, opt_text, same_text, split_on, texts,
    trimmed,
};

verus! {

/// Name of the live archive file.
pub const DEFAULT_ARCHIVE_LIVE_NAME: &'static str = "matches.jsonl";

/// Bytes at which the live file is sealed (256 MiB).
pub const DEFAULT_ARCHIVE_MAX_BYTES: u64 = 268_435_456;

/// Bytes of the archive directory at which to warn (100 GiB).
pub const DEFAULT_ARCHIVE_DISK_WARN_BYTES: u64 = 107_374_182_400;

/// Bytes of the archive directory beyond which the oldest chunks go (50 GiB).
pub const DEFAULT_ARCHIVE_MAX_TOTAL_BYTES: u64 = 53_687_091_200;

/// Most names of a leaf in one line.
pub const DEFAULT_ARCHIVE_MAX_ALL_DOMAINS: usize = 32;

/// Bytes after which written lines are flushed.
pub const FLUSH_BYTES: u64 = 65_536;

/// Archive directory where none is given.
pub const DEFAULT_ARCHIVE_DIR: &'static str = "/var/lib/ct-firehose-filter/archive";

/// Whether the directory has reached the warning threshold or 80% of its cap. A cap of 0 is
/// none.
pub open spec fn disk_warn(bytes: u64, disk_warn_bytes: u64, max_total_bytes: u64) -> bool {
    ||| bytes >= disk_warn_bytes
    ||| max_total_bytes > 0 && 10 * bytes >= 8 * max_total_bytes
}

/// Whether the directory has reached the warning threshold or 80% of its cap.
pub fn archive_disk_warn(bytes: u64, disk_warn_bytes: u64, max_total_bytes: u64) -> (r: bool)
    ensures
        r == disk_warn(bytes, disk_warn_bytes, max_total_bytes),
{
    if bytes >= disk_warn_bytes {
        return true;
    }
    max_total_bytes > 0 && 10 * (bytes as u128) >= 8 * (max_total_bytes as u128)
}

/// Whether the volume has too little room for the rest of the cap.
pub fn volume_is_short(bytes: u64, max_total_bytes: u64, available: Option<u64>) -> (r: bool)
    ensures
        r == (max_total_bytes > 0 && available is Some && available->0 < max_total_bytes - bytes),
{
    match available {
        Some(a) => max_total_bytes > bytes && a < max_total_bytes - bytes,
        None => false,
    }
}

/// Archive directory where none is given.
pub fn default_archive_dir() -> (r: String)
    ensures
        r@ == DEFAULT_ARCHIVE_DIR@,
{
    DEFAULT_ARCHIVE_DIR.to_owned()
}

/// One line of the archive.
#[derive(Clone, Debug, PartialEq, Eq)]
pub struct MatchArchiveEvent {
    pub schema_version: u32,
    /// The filter's clock, which has nothing to do with the log's timestamp.
    pub ingest_ts_unix: i64,
    pub config_hash: String,
    pub snapshot_id: String,
    /// Names of the leaf, or a sample of them.
    pub all_domains: Vec<String>,
    /// Whether the names are a sample; `san_count` is their number all the same.
    pub all_domains_truncated: bool,
    pub matched_domains: Vec<String>,
    pub matched_keywords: Vec<String>,
    pub seen: Option<u64>,
    pub source: Option<String>,
    pub fingerprint: Option<String>,
    pub san_count: u32,
    /// Always `enqueued`: what becomes of a match later is not archived.
    pub drop_stage: &'static str,
}

/// What a [`MatchArchiveEvent`] says.
#[verifier::ext_equal]
pub struct ArchiveView {
    pub schema_version: u32,
    pub ingest_ts_unix: i64,
    pub config_hash: Seq<char>,
    pub snapshot_id: Seq<char>,
    pub all_domains: Seq<Seq<char>>,
    pub all_domains_truncated: bool,
    pub event: EventView,
    pub drop_stage: Seq<char>,
}

impl View for MatchArchiveEvent {
    type V = ArchiveView;

    open spec fn view(&self) -> ArchiveView {
        ArchiveView {
            schema_version: self.schema_version,
            ingest_ts_unix: self.ingest_ts_unix,
            config_hash: self.config_hash@,
            snapshot_id: self.snapshot_id@,
            all_domains: texts(self.all_domains@),
            all_domains_truncated: self.all_domains_truncated,
            event: EventView {
                matched_domains: texts(self.matched_domains@),
                matched_keywords: texts(self.matched_keywords@),
                seen: self.seen,
                source: opt_text(self.source),
                fingerprint: opt_text(self.fingerprint),
                san_count: self.san_count,
            },
            drop_stage: self.drop_stage@,
        }
    }
}

impl MatchArchiveEvent {
    /// The line of a match.
    pub fn from_match(
        ev: &MatchEvent,
        all_domains: Vec<String>,
        all_domains_truncated: bool,
        config_hash: String,
        snapshot_id: String,
        now_unix: i64,
    ) -> (r: Self)
        ensures
            r@ == (ArchiveView {
                schema_version: MATCH_ARCHIVE_SCHEMA_VERSION,
                ingest_ts_unix: now_unix,
                config_hash: config_hash@,
                snapshot_id: snapshot_id@,
                all_domains: texts(all_domains@),
                all_domains_truncated,
                event: ev@,
                drop_stage: "enqueued"@,
            }),
    {
        MatchArchiveEvent {
            schema_version: MATCH_ARCHIVE_SCHEMA_VERSION,
            ingest_ts_unix: now_unix,
            config_hash,
            snapshot_id,
            all_domains,
            all_domains_truncated,
            matched_domains: copy_texts(ev.matched_domains.as_slice()),
            matched_keywords: copy_texts(ev.matched_keywords.as_slice()),
            seen: ev.seen,
            source: copy_opt(&ev.source),
            fingerprint: copy_opt(&ev.fingerprint),
            san_count: ev.san_count,
            drop_stage: "enqueued",
        }
    }
}

/// The texts of a list without repetitions, each at its first place.
pub open spec fn distinct(list: Seq<Seq<char>>) -> Seq<Seq<char>>
    decreases list.len(),
{
    if list.len() == 0 {
        Seq::empty()
    } else {
        let before = distinct(list.drop_last());
        if before.contains(list.last()) {
            before
        } else {
            before.push(list.last())
        }
    }
}

/// The first `n` of a list, or all where there are fewer.
pub open spec fn up_to(list: Seq<Seq<char>>, n: nat) -> Seq<Seq<char>> {
    if list.len() <= n {
        list
    } else {
        list.take(n as int)
    }
}

/// The names that go into the archive, and whether they are a sample: all of them where they
/// are within the cap, else the matched ones first and then the others, without repetitions.
pub open spec fn compacted(
    all: Seq<Seq<char>>,
    matched: Seq<Seq<char>>,
    cap: usize,
) -> (Seq<Seq<char>>, bool) {
    if cap == 0 || all.len() <= cap {
        (all, false)
    } else {
        (up_to(distinct(matched + all), cap as nat), true)
    }
}

/// The members of a list without repetitions are those of the list.
proof fn lemma_distinct_members(list: Seq<Seq<char>>)
    ensures
        distinct(list).to_set() == list.to_set(),
        distinct(list).no_duplicates(),
    decreases list.len(),
{
    if list.len() == 0 {
        assert(distinct(list).to_set() =~= list.to_set());
    } else {
        let rest = list.drop_last();
        let x = list.last();
        lemma_distinct_members(rest);
        lemma_push_to_set(rest, x);
        assert(rest.push(x) =~= list);
        let before = distinct(rest);
        if before.contains(x) {
            assert(before.to_set().contains(x));
            assert(rest.to_set().insert(x) =~= rest.to_set());
        } else {
            lemma_push_to_set(before, x);
        }
    }
}

/// Adds to `out` the texts of a list that are not in it yet, as long as it has room.
fn fill(out: &mut Vec<String>, seen: &mut NameSet, list: &[String], cap: usize, Ghost(done): Ghost<
    Seq<Seq<char>>,
>)
    requires
        texts(old(out)@) == up_to(distinct(done), cap as nat),
        old(out)@.len() < cap ==> old(seen)@ == done.to_set(),
    ensures
        texts(final(out)@) == up_to(distinct(done + texts(list@)), cap as nat),
        final(out)@.len() < cap ==> final(seen)@ == (done + texts(list@)).to_set(),
{
    let ghost all = texts(list@);
    assert(done + all.take(0) =~= done);
    for i in 0..list.len()
        invariant
            all == texts(list@),
            texts(out@) == up_to(distinct(done + all.take(i as int)), cap as nat),
            out@.len() < cap ==> seen@ == (done + all.take(i as int)).to_set(),
    {
        let ghost now = done + all.take(i as int);
        let ghost x = all[i as int];
        let ghost before = texts(out@);
        proof {
            assert(done + all.take(i + 1) =~= now.push(x));
            assert(now.push(x).drop_last() =~= now);
            lemma_push_to_set(now, x);
            lemma_distinct_members(now);
            assert(before.len() == out@.len());
        }
        if out.len() < cap {
            assert(before == distinct(now));
            assert(distinct(now).contains(x) == distinct(now).to_set().contains(x));
            if seen.insert(list[i].clone()) {
                out.push(list[i].clone());
                assert(texts(out@) =~= before.push(x));
            } else {
                assert(now.to_set().insert(x) =~= now.to_set());
            }
        } else {
            proof {
                let d = distinct(now);
                assert(d.len() >= cap);
                assert(up_to(d, cap as nat) =~= up_to(d.push(x), cap as nat));
            }
        }
    }
    assert(all.take(all.len() as int) =~= all);
}

/// The names that go into the archive, and whether they are a sample. A cap of 0 is none.
pub fn compact_all_domains(
    all_domains: &[String],
    matched_domains: &[String],
    cap: usize,
) -> (r: (Vec<String>, bool))
    ensures
        (texts(r.0@), r.1) == compacted(texts(all_domains@), texts(matched_domains@), cap),
{
    if cap == 0 || all_domains.len() <= cap {
        return (copy_texts(all_domains), false);
    }
    let mut out: Vec<String> = Vec::new();
    let mut seen = NameSet::new();
    let ghost none = Seq::<Seq<char>>::empty();
    assert(texts(out@) =~= up_to(distinct(none), cap as nat));
    assert(none.to_set() =~= Set::empty());
    fill(&mut out, &mut seen, matched_domains, cap, Ghost(none));
    assert(none + texts(matched_domains@) =~= texts(matched_domains@));
    fill(&mut out, &mut seen, all_domains, cap, Ghost(texts(matched_domains@)));
    (out, true)
}

/// A leaf within the cap, or without one, is archived as it is: all its names in their order,
/// repetitions too, however many of them matched. What is archived is called a sample exactly
/// where the leaf has more names than a cap that is not 0.
pub proof fn law_small_leaf_is_archived_whole(
    all: Seq<Seq<char>>,
    matched: Seq<Seq<char>>,
    cap: usize,
)
    ensures
        cap == 0 || all.len() <= cap ==> compacted(all, matched, cap).0 == all,
        compacted(all, matched, cap).1 <==> cap != 0 && all.len() > cap,
{
}

/// A sample is as large as it can be: it fills the cap, or has every name, and a matched name
/// that it leaves out is left out for want of room after other matched names alone.
pub proof fn law_sample_is_filled(
    all: Seq<Seq<char>>,
    matched: Seq<Seq<char>>,
    cap: usize,
    x: Seq<char>,
)
    requires
        cap != 0,
        all.len() > cap,
        matched.contains(x) || all.contains(x),
    ensures
        ({
            let sample = compacted(all, matched, cap).0;
            &&& sample.contains(x) || sample.len() == cap
            &&& matched.contains(x) && !sample.contains(x) ==> forall|k: int|
                0 <= k < sample.len() ==> matched.contains(#[trigger] sample[k])
        }),
{
    let list = matched + all;
    let d = distinct(list);
    let sample = compacted(all, matched, cap).0;
    lemma_distinct_members(list);
    assert(list.contains(x)) by {
        if matched.contains(x) {
            let j = matched.index_of(x);
            assert(list[j] == x);
        } else {
            let j = all.index_of(x);
            assert(list[matched.len() + j] == x);
        }
    }
    assert(list.to_set().contains(x));
    assert(d.to_set().contains(x));
    let k = d.index_of(x);
    if k < sample.len() {
        assert(sample[k] == x);
    }
    if matched.contains(x) && !sample.contains(x) {
        let first = distinct(matched);
        lemma_distinct_members(matched);
        lemma_distinct_prefix(matched, all);
        assert(matched.to_set().contains(x));
        assert(first.to_set().contains(x));
        let j = first.index_of(x);
        assert(d.take(first.len() as int)[j] == x);
        assert(j >= sample.len());
        assert forall|k: int| 0 <= k < sample.len() implies matched.contains(
            #[trigger] sample[k],
        ) by {
            assert(sample[k] == d[k]);
            assert(d.take(first.len() as int)[k] == first[k]);
            assert(first.to_set().contains(first[k]));
            assert(matched.to_set().contains(first[k]));
        }
    }
}

/// A sample has its names in the order in which they first come, the matched ones before the
/// others.
pub proof fn law_sample_keeps_order(
    all: Seq<Seq<char>>,
    matched: Seq<Seq<char>>,
    cap: usize,
    i: int,
    j: int,
)
    requires
        cap != 0,
        all.len() > cap,
        0 <= i < j < compacted(all, matched, cap).0.len(),
    ensures
        ({
            let sample = compacted(all, matched, cap).0;
            let list = matched + all;
            exists|p: int|
                0 <= p < list.len() && #[trigger] list[p] == sample[i] && !list.take(
                    p + 1,
                ).contains(sample[j])
        }),
{
    let list = matched + all;
    let sample = compacted(all, matched, cap).0;
    lemma_distinct_order(list, i, j);
}

proof fn lemma_distinct_order(list: Seq<Seq<char>>, i: int, j: int)
    requires
        0 <= i < j < distinct(list).len(),
    ensures
        exists|p: int|
            0 <= p < list.len() && #[trigger] list[p] == distinct(list)[i] && !list.take(
                p + 1,
            ).contains(distinct(list)[j]),
    decreases list.len(),
{
    let rest = list.drop_last();
    let x = list.last();
    let before = distinct(rest);
    let d = distinct(list);
    lemma_distinct_members(rest);
    if j < before.len() {
        lemma_distinct_order(rest, i, j);
        let p = choose|p: int|
            0 <= p < rest.len() && #[trigger] rest[p] == before[i] && !rest.take(p + 1).contains(
                before[j],
            );
        assert(list[p] == d[i]);
        assert(rest.take(p + 1) =~= list.take(p + 1));
    } else {
        assert(d[j] == x && !before.contains(x));
        assert(before.to_set().contains(before[i]));
        assert(rest.to_set().contains(before[i]));
        let p = rest.index_of(before[i]);
        assert(list[p] == d[i]);
        if list.take(p + 1).contains(x) {
            let q = list.take(p + 1).index_of(x);
            assert(rest[q] == x);
            assert(rest.to_set().contains(x));
            assert(before.to_set().contains(x));
        }
    }
}

/// The warning comes at the threshold, and at 80% of a cap that is not 0.
pub proof fn law_disk_warning(bytes: u64, disk_warn_bytes: u64, max_total_bytes: u64)
    ensures
        bytes >= disk_warn_bytes ==> disk_warn(bytes, disk_warn_bytes, max_total_bytes),
        bytes < disk_warn_bytes && max_total_bytes == 0 ==> !disk_warn(
            bytes,
            disk_warn_bytes,
            max_total_bytes,
        ),
        bytes < disk_warn_bytes && max_total_bytes > 0 ==> (disk_warn(
            bytes,
            disk_warn_bytes,
            max_total_bytes,
        ) <==> 100 * bytes >= 80 * max_total_bytes),
{
}

/// The archive directory is the given one without the whitespace around it, unless that is
/// empty or a word for off; where none is given, production has the default one.
pub proof fn law_archive_dir(raw: Seq<char>, prod: bool)
    ensures
        ({
            let dir = trimmed(raw);
            let off = dir.len() == 0 || lowered(dir) == "off"@ || lowered(dir) == "disabled"@
                || lowered(dir) == "none"@;
            &&& off ==> archive_dir(Some(raw), prod) is None
            &&& !off ==> archive_dir(Some(raw), prod) == Some(dir)
            &&& archive_dir(None, true) == Some("/var/lib/ct-firehose-filter/archive"@)
            &&& archive_dir(None, false) is None
        }),
{
}

/// A sample never has more names than the cap, names no text twice, and invents none.
pub proof fn law_sample_is_bounded(all: Seq<Seq<char>>, matched: Seq<Seq<char>>, cap: usize)
    requires
        compacted(all, matched, cap).1,
    ensures
        ({
            let sample = compacted(all, matched, cap).0;
            &&& sample.len() <= cap
            &&& sample.no_duplicates()
            &&& forall|x: Seq<char>| #[trigger]
                sample.contains(x) ==> matched.contains(x) || all.contains(x)
        }),
{
    let list = matched + all;
    let sample = compacted(all, matched, cap).0;
    lemma_distinct_members(list);
    assert forall|x: Seq<char>| #[trigger] sample.contains(x) implies matched.contains(x)
        || all.contains(x) by {
        let k = sample.index_of(x);
        assert(distinct(list)[k] == x);
        assert(distinct(list).to_set().contains(x));
        assert(list.to_set().contains(x));
        let j = list.index_of(x);
        if j < matched.len() {
            assert(matched[j] == x);
        } else {
            assert(all[j - matched.len()] == x);
        }
    }
}

/// A sample keeps the matched names first, and all of them where they are within the cap.
pub proof fn law_sample_keeps_matched(all: Seq<Seq<char>>, matched: Seq<Seq<char>>, cap: usize)
    requires
        compacted(all, matched, cap).1,
        distinct(matched).len() <= cap,
    ensures
        ({
            let sample = compacted(all, matched, cap).0;
            let first = distinct(matched);
            sample.len() >= first.len() && sample.take(first.len() as int) == first
        }),
{
    lemma_distinct_prefix(matched, all);
    let list = matched + all;
    let first = distinct(matched);
    let sample = compacted(all, matched, cap).0;
    assert(sample.take(first.len() as int) =~= distinct(list).take(first.len() as int));
}

proof fn lemma_distinct_prefix(a: Seq<Seq<char>>, b: Seq<Seq<char>>)
    ensures
        distinct(a + b).len() >= distinct(a).len(),
        distinct(a + b).take(distinct(a).len() as int) == distinct(a),
    decreases b.len(),
{
    if b.len() == 0 {
        assert(a + b =~= a);
        assert(distinct(a).take(distinct(a).len() as int) =~= distinct(a));
    } else {
        lemma_distinct_prefix(a, b.drop_last());
        assert((a + b).drop_last() =~= a + b.drop_last());
        let d = distinct(a + b.drop_last());
        let n = distinct(a).len() as int;
        assert(d.push((a + b).last()).take(n) =~= d.take(n));
    }
}

/// Configuration under which a line was written.
#[derive(Clone, Debug, PartialEq, Eq)]
pub struct ConfigProvenance {
    pub config_hash: String,
    pub snapshot_id: String,
}

/// Settings of the archive. Sealed chunks are deleted to stay within `max_total_bytes`; the
/// live file and the configuration snapshots never are.
#[derive(Clone, Debug, PartialEq, Eq)]
pub struct ArchiveConfig {
    pub dir: String,
    pub max_bytes: u64,
    pub disk_warn_bytes: u64,
    /// Bytes of the archive directory. 0 is no limit.
    pub max_total_bytes: u64,
    /// Most names of a leaf in one line. 0 is no limit.
    pub max_all_domains: usize,
}

/// What an [`ArchiveConfig`] says.
#[verifier::ext_equal]
pub struct ArchiveConfigView {
    pub dir: Seq<char>,
    pub max_bytes: u64,
    pub disk_warn_bytes: u64,
    pub max_total_bytes: u64,
    pub max_all_domains: usize,
}

impl View for ArchiveConfig {
    type V = ArchiveConfigView;

    open spec fn view(&self) -> ArchiveConfigView {
        ArchiveConfigView {
            dir: self.dir@,
            max_bytes: self.max_bytes,
            disk_warn_bytes: self.disk_warn_bytes,
            max_total_bytes: self.max_total_bytes,
            max_all_domains: self.max_all_domains,
        }
    }
}

/// The settings as given: `ARCHIVE_DIR`, `ARCHIVE_MAX_BYTES`, `ARCHIVE_DISK_WARN_BYTES`,
/// `ARCHIVE_MAX_TOTAL_BYTES` and `ARCHIVE_MAX_ALL_DOMAINS`.
#[derive(Clone, Debug, Default)]
pub struct ArchiveVars {
    pub dir: Option<String>,
    pub max_bytes: Option<String>,
    pub disk_warn_bytes: Option<String>,
    pub max_total_bytes: Option<String>,
    pub max_all_domains: Option<String>,
}

/// The archive directory that the settings say: none where it is switched off, and where it
/// is not given, the default one in production and none otherwise.
pub open spec fn archive_dir(raw: Option<Seq<char>>, prod: bool) -> Option<Seq<char>> {
    match raw {
        Some(s) => {
            let dir = trimmed(s);
            let word = lowered(dir);
            if dir.len() == 0 || word == "off"@ || word == "disabled"@ || word == "none"@ {
                None
            } else {
                Some(dir)
            }
        },
        None => if prod {
            Some(DEFAULT_ARCHIVE_DIR@)
        } else {
            None
        },
    }
}

impl ArchiveConfig {
    /// Reads the settings of the archive; none where there is no archive.
    pub fn from_env_optional(egress_is_novelty: bool, vars: &ArchiveVars) -> (r: Option<Self>)
        ensures
            match r {
                None => archive_dir(opt_text(vars.dir), egress_is_novelty) is None,
                Some(c) => {
                    &&& archive_dir(opt_text(vars.dir), egress_is_novelty) == Some(c@.dir)
                    &&& c@.max_bytes == at_least_file(
                        setting_or(
                            opt_text(vars.max_bytes),
                            u64::MAX as nat,
                            DEFAULT_ARCHIVE_MAX_BYTES as nat,
                        ),
                    )
                    &&& c@.disk_warn_bytes == setting_or(
                        opt_text(vars.disk_warn_bytes),
                        u64::MAX as nat,
                        DEFAULT_ARCHIVE_DISK_WARN_BYTES as nat,
                    )
                    &&& c@.max_total_bytes == setting_or(
                        opt_text(vars.max_total_bytes),
                        u64::MAX as nat,
                        DEFAULT_ARCHIVE_MAX_TOTAL_BYTES as nat,
                    )
                    &&& c@.max_all_domains == setting_or(
                        opt_text(vars.max_all_domains),
                        usize::MAX as nat,
                        DEFAULT_ARCHIVE_MAX_ALL_DOMAINS as nat,
                    )
                },
            },
    {
        let dir = match &vars.dir {
            Some(raw) => {
                let s = raw.as_str().trim();
                let word = s.to_ascii_lowercase();
                let w = word.as_str();
                if s.is_empty() || same_text(w, "off") || same_text(w, "disabled") || same_text(
                    w,
                    "none",
                ) {
                    return None;
                }
                s.to_owned()
            },
            None => {
                if !egress_is_novelty {
                    return None;
                }
                default_archive_dir()
            },
        };
        Some(
            ArchiveConfig {
                dir,
                max_bytes: raise_to_least(
                    setting(&vars.max_bytes, u64::MAX, DEFAULT_ARCHIVE_MAX_BYTES),
                ),
                disk_warn_bytes: setting(
                    &vars.disk_warn_bytes,
                    u64::MAX,
                    DEFAULT_ARCHIVE_DISK_WARN_BYTES,
                ),
                max_total_bytes: setting(
                    &vars.max_total_bytes,
                    u64::MAX,
                    DEFAULT_ARCHIVE_MAX_TOTAL_BYTES,
                ),
                max_all_domains: setting(
                    &vars.max_all_domains,
                    usize::MAX as u64,
                    DEFAULT_ARCHIVE_MAX_ALL_DOMAINS as u64,
                ) as usize,
            },
        )
    }

    /// Whether the live file is to be sealed, given its size.
    pub fn rotation_due(&self, live_len: u64) -> (r: bool)
        ensures
            r == (live_len >= self@.max_bytes),
    {
        live_len >= self.max_bytes
    }

    /// The pruner of the sealed chunks among the names in the archive directory; none where
    /// there is no limit.
    pub fn pruner(&self, names: &[String]) -> (r: Option<Pruner>)
        ensures
            match r {
                None => self@.max_total_bytes == 0,
                Some(p) => self@.max_total_bytes > 0 && p@ == (PrunerView {
                    budget: self@.max_total_bytes,
                    queue: sealed_chunks(DEFAULT_ARCHIVE_LIVE_NAME@, texts(names@)),
                }),
            },
    {
        if self.max_total_bytes == 0 {
            return None;
        }
        Some(Pruner::new(DEFAULT_ARCHIVE_LIVE_NAME, names, self.max_total_bytes))
    }
}

/// Whether a name is that of a sealed archive chunk.
pub fn is_sealed_archive_name(name: &str) -> (r: bool)
    ensures
        r == is_sealed(DEFAULT_ARCHIVE_LIVE_NAME@, name@),
{
    is_rotated_sibling(DEFAULT_ARCHIVE_LIVE_NAME, name)
}

/// The time in an archive chunk's name; 0 where there is none.
pub fn sealed_sort_key(name: &str) -> (r: u128)
    ensures
        r == seal_time(name@),
{
    rotated_sort_key(name)
}

/// Which lines the archive writes, and when it flushes them.
#[derive(Clone, Debug)]
pub struct MatchArchive {
    cfg: ArchiveConfig,
    provenance: ConfigProvenance,
    session_bytes: u64,
}

/// What a [`MatchArchive`] holds.
#[verifier::ext_equal]
pub struct MatchArchiveView {
    pub cfg: ArchiveConfigView,
    pub config_hash: Seq<char>,
    pub snapshot_id: Seq<char>,
    /// Bytes written since the last flush.
    pub session_bytes: u64,
}

impl View for MatchArchive {
    type V = MatchArchiveView;

    closed spec fn view(&self) -> MatchArchiveView {
        MatchArchiveView {
            cfg: self.cfg@,
            config_hash: self.provenance.config_hash@,
            snapshot_id: self.provenance.snapshot_id@,
            session_bytes: self.session_bytes,
        }
    }
}

impl MatchArchive {
    /// An archive that has written nothing yet.
    pub fn open(cfg: ArchiveConfig, provenance: ConfigProvenance) -> (r: Self)
        ensures
            r@ == (MatchArchiveView {
                cfg: cfg@,
                config_hash: provenance.config_hash@,
                snapshot_id: provenance.snapshot_id@,
                session_bytes: 0,
            }),
    {
        MatchArchive { cfg, provenance, session_bytes: 0 }
    }

    /// The settings.
    pub fn config(&self) -> (r: &ArchiveConfig)
        ensures
            r@ == self@.cfg,
    {
        &self.cfg
    }

    /// The archive directory.
    pub fn dir(&self) -> (r: &str)
        ensures
            r@ == self@.cfg.dir,
    {
        self.cfg.dir.as_str()
    }

    /// Bytes at which to warn.
    pub fn disk_warn_bytes(&self) -> (r: u64)
        ensures
            r == self@.cfg.disk_warn_bytes,
    {
        self.cfg.disk_warn_bytes
    }

    /// Bytes of the archive directory; 0 is no limit.
    pub fn max_total_bytes(&self) -> (r: u64)
        ensures
            r == self@.cfg.max_total_bytes,
    {
        self.cfg.max_total_bytes
    }

    /// The configuration under which lines are written.
    pub fn provenance(&self) -> (r: &ConfigProvenance)
        ensures
            r.config_hash@ == self@.config_hash,
            r.snapshot_id@ == self@.snapshot_id,
    {
        &self.provenance
    }

    /// Lines are written under the given configuration from now on.
    pub fn set_provenance(&mut self, provenance: ConfigProvenance)
        ensures
            final(self)@ == (MatchArchiveView {
                config_hash: provenance.config_hash@,
                snapshot_id: provenance.snapshot_id@,
                ..old(self)@
            }),
    {
        self.provenance = provenance;
    }

    /// The line of an enqueued match. A long list of names is compacted; `san_count` stays
    /// the number of names on the leaf.
    pub fn record_enqueued(&self, ev: &MatchEvent, all_domains: &[String], now_unix: i64) -> (r:
        MatchArchiveEvent)
        ensures
            ({
                let kept = compacted(
                    texts(all_domains@),
                    ev@.matched_domains,
                    self@.cfg.max_all_domains,
                );
                r@ == (ArchiveView {
                    schema_version: MATCH_ARCHIVE_SCHEMA_VERSION,
                    ingest_ts_unix: now_unix,
                    config_hash: self@.config_hash,
                    snapshot_id: self@.snapshot_id,
                    all_domains: kept.0,
                    all_domains_truncated: kept.1,
                    event: ev@,
                    drop_stage: "enqueued"@,
                })
            }),
    {
        let (domains, truncated) = compact_all_domains(
            all_domains,
            ev.matched_domains.as_slice(),
            self.cfg.max_all_domains,
        );
        MatchArchiveEvent::from_match(
            ev,
            domains,
            truncated,
            self.provenance.config_hash.clone(),
            self.provenance.snapshot_id.clone(),
            now_unix,
        )
    }

    /// Notes that a line of `n` bytes was written; whether to flush now, which is after
    /// every 64 KiB.
    pub fn written(&mut self, n: u64, metrics: &mut PipelineMetrics) -> (r: bool)
        ensures
            r == (old(self)@.session_bytes + n >= FLUSH_BYTES),
            final(self)@ == (MatchArchiveView {
                session_bytes: if r {
                    0
                } else {
                    (old(self)@.session_bytes + n) as u64
                },
                ..old(self)@
            }),
            *final(metrics) == (PipelineMetrics {
                archive_events_written: old(metrics).archive_events_written.wrapping_add(1),
                archive_bytes_written: old(metrics).archive_bytes_written.wrapping_add(n),
                ..*old(metrics)
            }),
    {
        metrics.archive_events_written = metrics.archive_events_written.wrapping_add(1);
        metrics.archive_bytes_written = metrics.archive_bytes_written.wrapping_add(n);
        let total: u128 = self.session_bytes as u128 + n as u128;
        if total >= FLUSH_BYTES as u128 {
            self.session_bytes = 0;
            true
        } else {
            self.session_bytes = total as u64;
            false
        }
    }
}

/// The SHA-256 digest of bytes.
pub uninterp spec fn sha256(bytes: Seq<u8>) -> Seq<u8>;

/// `Sha256::digest` of the crate `sha2`: 32 bytes that depend on the input alone.
#[verifier::external_body]
fn sha256_digest(bytes: &[u8]) -> (r: Vec<u8>)
    ensures
        r@ == sha256(bytes@),
        r@.len() == 32,
{
    sha2::Sha256::digest(bytes).to_vec()
}

/// The character of a hexadecimal digit, in lower case.
pub open spec fn hex_char(n: int) -> char {
    if n < 10 {
        ('0' as int + n) as char
    } else {
        ('a' as int + (n - 10)) as char
    }
}

/// Bytes as hexadecimal digits in lower case, two for each.
pub open spec fn hex(bytes: Seq<u8>) -> Seq<char>
    decreases bytes.len(),
{
    if bytes.len() == 0 {
        Seq::empty()
    } else {
        hex(bytes.drop_last()).push(hex_char(bytes.last() as int / 16)).push(
            hex_char(bytes.last() as int % 16),
        )
    }
}

/// Whether a text is made of hexadecimal digits in lower case.
pub open spec fn is_hex(s: Seq<char>) -> bool {
    forall|i: int| 0 <= i < s.len() ==> is_hex_digit(#[trigger] s[i])
}

/// Whether a character is a hexadecimal digit in lower case.
pub open spec fn is_hex_digit(c: char) -> bool {
    '0' as int <= c as int <= '9' as int || 'a' as int <= c as int <= 'f' as int
}

fn hex_digit(n: u8) -> (r: char)
    requires
        n < 16,
    ensures
        r == hex_char(n as int),
{
    if n < 10 {
        (48 + n) as char
    } else {
        (87 + n) as char
    }
}

/// Bytes as hexadecimal digits in lower case, two for each.
pub fn to_hex(bytes: &[u8]) -> (r: String)
    ensures
        r@ == hex(bytes@),
{
    let mut r = String::new();
    assert(bytes@.take(0) =~= Seq::<u8>::empty());
    for i in 0..bytes.len()
        invariant
            r@ == hex(bytes@.take(i as int)),
    {
        assert(bytes@.take(i + 1).drop_last() =~= bytes@.take(i as int));
        let b: u8 = bytes[i];
        r.push(hex_digit(b / 16));
        r.push(hex_digit(b % 16));
    }
    assert(bytes@.take(bytes@.len() as int) =~= bytes@);
    r
}

/// Different bytes have different hexadecimal forms.
pub proof fn law_hex_is_injective(a: Seq<u8>, b: Seq<u8>)
    requires
        hex(a) == hex(b),
    ensures
        a == b,
    decreases a.len(),
{
    lemma_hex(a);
    lemma_hex(b);
    if a.len() == 0 {
        assert(a =~= b);
    } else {
        let ha = hex(a);
        let hb = hex(b);
        let n = ha.len() as int;
        let x = a.last();
        let y = b.last();
        assert(ha[n - 1] == hex_char(x as int % 16) && hb[n - 1] == hex_char(y as int % 16));
        assert(ha[n - 2] == hex_char(x as int / 16) && hb[n - 2] == hex_char(y as int / 16));
        assert(x == y);
        assert(ha.take(n - 2) =~= hex(a.drop_last()));
        assert(hb.take(n - 2) =~= hex(b.drop_last()));
        law_hex_is_injective(a.drop_last(), b.drop_last());
        assert(a =~= a.drop_last().push(x));
        assert(b =~= b.drop_last().push(y));
    }
}

/// The hexadecimal form of bytes gives each byte back: its upper half in the first of its two
/// digits, its lower half in the second.
pub proof fn law_hex_digits(bytes: Seq<u8>, b: u8)
    ensures
        hex(Seq::empty()) == Seq::<char>::empty(),
        ({
            let h = hex(bytes.push(b));
            let n = hex(bytes).len() as int;
            &&& h.len() == n + 2
            &&& h.take(n) == hex(bytes)
            &&& 16 * digit_of(h[n]) + digit_of(h[n + 1]) == b
        }),
{
    assert(bytes.push(b).drop_last() =~= bytes);
    assert(hex(bytes.push(b)).take(hex(bytes).len() as int) =~= hex(bytes));
}

/// The value of a hexadecimal digit in lower case.
pub open spec fn digit_of(c: char) -> int {
    if c as int <= '9' as int {
        c as int - '0' as int
    } else {
        c as int - 'a' as int + 10
    }
}

/// The hexadecimal form of bytes has two digits for each.
proof fn lemma_hex(a: Seq<u8>)
    ensures
        hex(a).len() == 2 * a.len(),
        is_hex(hex(a)),
    decreases a.len(),
{
    if a.len() > 0 {
        lemma_hex(a.drop_last());
        assert(is_hex_digit(hex_char(a.last() as int / 16)));
        assert(is_hex_digit(hex_char(a.last() as int % 16)));
    }
}

/// SHA-256 of bytes, in hexadecimal.
pub fn sha256_hex(bytes: &[u8]) -> (r: String)
    ensures
        r@ == hex(sha256(bytes@)),
        r@.len() == 64,
        is_hex(r@),
{
    let digest = sha256_digest(bytes);
    proof {
        lemma_hex(digest@);
    }
    to_hex(digest.as_slice())
}

/// SHA-256 of a file's contents, in hexadecimal; a file that is not there counts as empty.
pub fn content_hash(content: Option<&[u8]>) -> (r: String)
    ensures
        r@ == hex(
            sha256(
                match content {
                    Some(b) => b@,
                    None => Seq::empty(),
                },
            ),
        ),
        r@.len() == 64,
        is_hex(r@),
{
    match content {
        Some(b) => sha256_hex(b),
        None => {
            let none: Vec<u8> = Vec::new();
            assert(none@ =~= Seq::<u8>::empty());
            sha256_hex(none.as_slice())
        },
    }
}

/// The settings that a snapshot notes: `GIT_SHA`, `SOURCE_VERSION`, `NOVELTY_TIERS`,
/// `NOVELTY_MAX_COALITION`, `NOVELTY_MAX_SANS` and `CERTSTREAM_URL`.
#[derive(Clone, Debug, Default)]
pub struct SnapshotVars {
    pub git_sha: Option<String>,
    pub source_version: Option<String>,
    pub novelty_tiers: Option<String>,
    pub novelty_max_coalition: Option<String>,
    pub novelty_max_sans: Option<String>,
    pub certstream_url: Option<String>,
}

/// A snapshot of the configuration.
#[derive(Clone, Debug, PartialEq, Eq)]
pub struct ConfigSnapshot {
    pub schema_version: u32,
    pub snapshot_id: String,
    pub git_sha: String,
    pub watchlist_sha256: String,
    pub suppress_sha256: String,
    pub glue_sha256: String,
    pub novelty_tiers: String,
    pub novelty_max_coalition: String,
    pub novelty_max_sans: String,
    pub certstream_url: String,
    /// Identity of the configuration: the same settings and files have the same one.
    pub config_hash: String,
}

/// What a [`ConfigSnapshot`] says.
#[verifier::ext_equal]
pub struct SnapshotView {
    pub schema_version: u32,
    pub snapshot_id: Seq<char>,
    pub git_sha: Seq<char>,
    pub watchlist_sha256: Seq<char>,
    pub suppress_sha256: Seq<char>,
    pub glue_sha256: Seq<char>,
    pub novelty_tiers: Seq<char>,
    pub novelty_max_coalition: Seq<char>,
    pub novelty_max_sans: Seq<char>,
    pub certstream_url: Seq<char>,
    pub config_hash: Seq<char>,
}

impl View for ConfigSnapshot {
    type V = SnapshotView;

    open spec fn view(&self) -> SnapshotView {
        SnapshotView {
            schema_version: self.schema_version,
            snapshot_id: self.snapshot_id@,
            git_sha: self.git_sha@,
            watchlist_sha256: self.watchlist_sha256@,
            suppress_sha256: self.suppress_sha256@,
            glue_sha256: self.glue_sha256@,
            novelty_tiers: self.novelty_tiers@,
            novelty_max_coalition: self.novelty_max_coalition@,
            novelty_max_sans: self.novelty_max_sans@,
            certstream_url: self.certstream_url@,
            config_hash: self.config_hash@,
        }
    }
}

/// The fields one after the other, each on a line of its own.
pub open spec fn lines_of(fields: Seq<Seq<char>>) -> Seq<char>
    decreases fields.len(),
{
    if fields.len() == 0 {
        Seq::empty()
    } else {
        lines_of(fields.drop_last()) + fields.last() + "\n"@
    }
}

/// A setting, or the default where it is not given.
pub open spec fn given_or(raw: Option<Seq<char>>, default: Seq<char>) -> Seq<char> {
    match raw {
        Some(s) => s,
        None => default,
    }
}

/// The version of the sources that a snapshot notes.
pub open spec fn noted_version(vars: SnapshotVars) -> Seq<char> {
    given_or(opt_text(vars.git_sha), given_or(opt_text(vars.source_version), "unknown"@))
}

/// The text that stands for a configuration, given the hashes of the three files.
pub open spec fn config_text(
    watchlist: Seq<char>,
    suppress: Seq<char>,
    glue: Seq<char>,
    vars: SnapshotVars,
) -> Seq<char> {
    lines_of(
        seq![
            watchlist,
            suppress,
            glue,
            noted_version(vars),
            given_or(opt_text(vars.novelty_tiers), "A"@),
            given_or(opt_text(vars.novelty_max_coalition), "5"@),
            given_or(opt_text(vars.novelty_max_sans), "32"@),
        ],
    )
}

/// The snapshot of the settings and of the three files, given by their hashes.
pub open spec fn snapshot_of(
    watchlist: Seq<char>,
    suppress: Seq<char>,
    glue: Seq<char>,
    vars: SnapshotVars,
    now_secs: u64,
) -> SnapshotView {
    SnapshotView {
        schema_version: MATCH_ARCHIVE_SCHEMA_VERSION,
        snapshot_id: decimal(now_secs as nat),
        git_sha: noted_version(vars),
        watchlist_sha256: watchlist,
        suppress_sha256: suppress,
        glue_sha256: glue,
        novelty_tiers: given_or(opt_text(vars.novelty_tiers), "A"@),
        novelty_max_coalition: given_or(opt_text(vars.novelty_max_coalition), "5"@),
        novelty_max_sans: given_or(opt_text(vars.novelty_max_sans), "32"@),
        certstream_url: given_or(opt_text(vars.certstream_url), ""@),
        config_hash: hex(sha256(encode_utf8(config_text(watchlist, suppress, glue, vars)))),
    }
}

fn text_given(raw: &Option<String>, default: &str) -> (r: String)
    ensures
        r@ == given_or(opt_text(*raw), default@),
{
    match raw {
        Some(s) => s.clone(),
        None => default.to_owned(),
    }
}

/// The fields one after the other, each on a line of its own.
pub fn field_lines(fields: &Vec<String>) -> (r: String)
    ensures
        r@ == lines_of(texts(fields@)),
{
    let mut r = String::new();
    let ghost all = texts(fields@);
    assert(all.take(0) =~= Seq::<Seq<char>>::empty());
    for i in 0..fields.len()
        invariant
            all == texts(fields@),
            r@ == lines_of(all.take(i as int)),
    {
        assert(all.take(i + 1).drop_last() =~= all.take(i as int));
        r.append(fields[i].as_str());
        r.append("\n");
    }
    assert(all.take(all.len() as int) =~= all);
    r
}

/// Takes a snapshot of the settings and of the three files, given by their hashes.
pub fn write_config_snapshot(
    watchlist_hash: &str,
    suppress_hash: &str,
    glue_hash: &str,
    vars: &SnapshotVars,
    now_secs: u64,
) -> (r: ConfigSnapshot)
    ensures
        r@ == snapshot_of(watchlist_hash@, suppress_hash@, glue_hash@, *vars, now_secs),
        r.config_hash@.len() == 64,
        is_hex(r.config_hash@),
{
    let version = text_given(&vars.source_version, "unknown");
    let git_sha = text_given(&vars.git_sha, version.as_str());
    let novelty_tiers = text_given(&vars.novelty_tiers, "A");
    let novelty_max_coalition = text_given(&vars.novelty_max_coalition, "5");
    let novelty_max_sans = text_given(&vars.novelty_max_sans, "32");
    let mut fields: Vec<String> = Vec::new();
    fields.push(watchlist_hash.to_owned());
    fields.push(suppress_hash.to_owned());
    fields.push(glue_hash.to_owned());
    fields.push(git_sha.clone());
    fields.push(novelty_tiers.clone());
    fields.push(novelty_max_coalition.clone());
    fields.push(novelty_max_sans.clone());
    assert(texts(fields@) =~= seq![
        watchlist_hash@,
        suppress_hash@,
        glue_hash@,
        git_sha@,
        novelty_tiers@,
        novelty_max_coalition@,
        novelty_max_sans@,
    ]);
    let input = field_lines(&fields);
    let config_hash = sha256_hex(input.as_str().as_bytes());
    ConfigSnapshot {
        schema_version: MATCH_ARCHIVE_SCHEMA_VERSION,
        snapshot_id: decimal_text(now_secs as u128),
        git_sha,
        watchlist_sha256: watchlist_hash.to_owned(),
        suppress_sha256: suppress_hash.to_owned(),
        glue_sha256: glue_hash.to_owned(),
        novelty_tiers,
        novelty_max_coalition,
        novelty_max_sans,
        certstream_url: text_given(&vars.certstream_url, ""),
        config_hash,
    }
}

impl ConfigSnapshot {
    /// What every archive line notes of the snapshot.
    pub fn provenance(&self) -> (r: ConfigProvenance)
        ensures
            r.config_hash@ == self@.config_hash,
            r.snapshot_id@ == self@.snapshot_id,
    {
        ConfigProvenance {
            config_hash: self.config_hash.clone(),
            snapshot_id: self.snapshot_id.clone(),
        }
    }
}

/// The identity of a configuration does not depend on when its snapshot was taken.
pub proof fn law_config_hash_ignores_time(
    watchlist: Seq<char>,
    suppress: Seq<char>,
    glue: Seq<char>,
    vars: SnapshotVars,
    a: u64,
    b: u64,
)
    ensures
        snapshot_of(watchlist, suppress, glue, vars, a).config_hash == snapshot_of(
            watchlist,
            suppress,
            glue,
            vars,
            b,
        ).config_hash,
{
}

/// Which file is which counts: exchanging suppress and glue contents with different digests
/// changes the bytes that the identity of the configuration is the hash of.
pub proof fn law_config_tells_lists_apart(
    watchlist: Seq<char>,
    suppress: Seq<u8>,
    glue: Seq<u8>,
    vars: SnapshotVars,
)
    requires
        sha256(suppress) != sha256(glue),
    ensures
        encode_utf8(
            config_text(watchlist, hex(sha256(suppress)), hex(sha256(glue)), vars),
        ) != encode_utf8(
            config_text(watchlist, hex(sha256(glue)), hex(sha256(suppress)), vars),
        ),
{
    let s = hex(sha256(suppress));
    let g = hex(sha256(glue));
    if s == g {
        law_hex_is_injective(sha256(suppress), sha256(glue));
    }
    lemma_hex(sha256(suppress));
    lemma_hex(sha256(glue));
    let a = config_text(watchlist, s, g, vars);
    let b = config_text(watchlist, g, s, vars);
    let at = watchlist.len() as int + 1;
    lemma_config_text(watchlist, s, g, vars);
    lemma_config_text(watchlist, g, s, vars);
    if a == b {
        let x = a.skip(at);
        if s.len() == g.len() {
            assert(x.take(s.len() as int) == x.take(g.len() as int));
        } else if s.len() < g.len() {
            assert(x.take(g.len() as int)[s.len() as int] == x[s.len() as int]);
            assert(is_hex_digit(g[s.len() as int]));
        } else {
            assert(x.take(s.len() as int)[g.len() as int] == x[g.len() as int]);
            assert(is_hex_digit(s[g.len() as int]));
        }
    }
    vstd::utf8::encode_utf8_decode_utf8(a);
    vstd::utf8::encode_utf8_decode_utf8(b);
}

/// The first line of the text is the watchlist's hash, and the second is the one after it.
proof fn lemma_config_text(
    watchlist: Seq<char>,
    second: Seq<char>,
    third: Seq<char>,
    vars: SnapshotVars,
)
    ensures
        ({
            let rest = config_text(watchlist, second, third, vars).skip(
                watchlist.len() as int + 1,
            );
            &&& rest.len() > second.len()
            &&& rest.take(second.len() as int) == second
            &&& rest[second.len() as int] == '\n'
        }),
{
    reveal_strlit("\n");
    let fields = seq![
        watchlist,
        second,
        third,
        noted_version(vars),
        given_or(opt_text(vars.novelty_tiers), "A"@),
        given_or(opt_text(vars.novelty_max_coalition), "5"@),
        given_or(opt_text(vars.novelty_max_sans), "32"@),
    ];
    lemma_lines_prefix(fields, 2);
    let two = fields.take(2);
    let one = fields.take(1);
    assert(two.drop_last() =~= one);
    assert(one.drop_last() =~= Seq::<Seq<char>>::empty());
    reveal_with_fuel(lines_of, 3);
    assert(lines_of(two) =~= watchlist + "\n"@ + second + "\n"@);
    let text = lines_of(fields);
    let at = watchlist.len() as int + 1;
    let n = lines_of(two).len() as int;
    assert(text.skip(at).take(second.len() as int) =~= second) by {
        assert forall|i: int| 0 <= i < second.len() implies text[at + i] == second[i] by {
            assert(text.take(n)[at + i] == text[at + i]);
        }
    }
    assert(text.take(n)[n - 1] == text[n - 1]);
}

/// The first lines stand at the beginning.
proof fn lemma_lines_prefix(fields: Seq<Seq<char>>, k: int)
    requires
        0 <= k <= fields.len(),
    ensures
        lines_of(fields).len() >= lines_of(fields.take(k)).len(),
        lines_of(fields).take(lines_of(fields.take(k)).len() as int) == lines_of(fields.take(k)),
    decreases fields.len(),
{
    if k == fields.len() {
        assert(fields.take(k) =~= fields);
        assert(lines_of(fields).take(lines_of(fields).len() as int) =~= lines_of(fields));
    } else {
        let rest = fields.drop_last();
        lemma_lines_prefix(rest, k);
        assert(rest.take(k) =~= fields.take(k));
        let n = lines_of(fields.take(k)).len() as int;
        assert(lines_of(fields).take(n) =~= lines_of(rest).take(n));
    }
}

/// The identity of a configuration is the hash of seven lines: the hashes of the three files,
/// the version, and three settings of the alert filter, each as given or its default. Where
/// no line holds a line break, the lines can be read back.
pub proof fn law_config_text_reads_back(
    watchlist: Seq<char>,
    suppress: Seq<char>,
    glue: Seq<char>,
    vars: SnapshotVars,
)
    ensures
        ({
            let s = snapshot_of(watchlist, suppress, glue, vars, 0);
            let lines = seq![
                watchlist,
                suppress,
                glue,
                s.git_sha,
                s.novelty_tiers,
                s.novelty_max_coalition,
                s.novelty_max_sans,
            ];
            (forall|i: int| 0 <= i < lines.len() ==> !(#[trigger] lines[i]).contains('\n'))
                ==> split_on(config_text(watchlist, suppress, glue, vars), '\n') == lines.push(
                Seq::empty(),
            )
        }),
{
    let s = snapshot_of(watchlist, suppress, glue, vars, 0);
    let lines = seq![
        watchlist,
        suppress,
        glue,
        s.git_sha,
        s.novelty_tiers,
        s.novelty_max_coalition,
        s.novelty_max_sans,
    ];
    if forall|i: int| 0 <= i < lines.len() ==> !(#[trigger] lines[i]).contains('\n') {
        lemma_lines_split(lines);
    }
}

proof fn lemma_lines_split(lines: Seq<Seq<char>>)
    requires
        forall|i: int| 0 <= i < lines.len() ==> !(#[trigger] lines[i]).contains('\n'),
    ensures
        split_on(lines_of(lines), '\n') == lines.push(Seq::empty()),
    decreases lines.len(),
{
    let none = Seq::<char>::empty();
    if lines.len() == 0 {
        assert(lines_of(lines) =~= none);
        assert(split_on(none, '\n') =~= lines.push(none));
    } else {
        let rest = lines.drop_last();
        assert forall|i: int| 0 <= i < rest.len() implies !(#[trigger] rest[i]).contains(
            '\n',
        ) by {
            assert(rest[i] == lines[i]);
        }
        lemma_lines_split(rest);
        reveal_strlit("\n");
        assert("\n"@ =~= seq!['\n']);
        let x = lines[lines.len() - 1];
        lemma_split_last_line(lines_of(rest), rest, x);
        assert(rest.push(x) =~= lines);
        assert(lines_of(lines) =~= lines_of(rest) + x + seq!['\n']);
    }
}

/// A line behind whole lines is split off.
proof fn lemma_split_last_line(text: Seq<char>, lines: Seq<Seq<char>>, x: Seq<char>)
    requires
        split_on(text, '\n') == lines.push(Seq::empty()),
        !x.contains('\n'),
    ensures
        split_on(text + x, '\n') == lines.push(x),
        split_on(text + x + seq!['\n'], '\n') == lines.push(x).push(Seq::empty()),
    decreases x.len(),
{
    let none = Seq::<char>::empty();
    if x.len() == 0 {
        assert(text + x =~= text);
        assert(x =~= none);
    } else {
        let y = x.drop_last();
        assert(x[x.len() - 1] == x.last());
        if y.contains('\n') {
            let k = y.index_of('\n');
            assert(x[k] == '\n');
        }
        lemma_split_last_line(text, lines, y);
        let whole = text + x;
        assert(whole.drop_last() =~= text + y);
        assert(whole.last() == x.last());
        assert(y.push(x.last()) =~= x);
        assert(split_on(whole, '\n') =~= lines.push(x));
    }
    let whole = text + x + seq!['\n'];
    assert(whole.drop_last() =~= text + x);
    assert(split_on(whole, '\n') =~= lines.push(x).push(none));
}

/// A snapshot notes the hashes and settings as they are given, or the defaults.
pub proof fn law_snapshot_notes_what_is_given(
    watchlist: Seq<char>,
    suppress: Seq<char>,
    glue: Seq<char>,
    vars: SnapshotVars,
    now_secs: u64,
)
    ensures
        ({
            let s = snapshot_of(watchlist, suppress, glue, vars, now_secs);
            &&& s.schema_version == 1
            &&& s.snapshot_id == decimal(now_secs as nat)
            &&& s.watchlist_sha256 == watchlist
            &&& s.suppress_sha256 == suppress
            &&& s.glue_sha256 == glue
            &&& vars.git_sha is Some ==> s.git_sha == vars.git_sha->0@
            &&& vars.git_sha is None && vars.source_version is Some ==> s.git_sha
                == vars.source_version->0@
            &&& vars.git_sha is None && vars.source_version is None ==> s.git_sha == "unknown"@
            &&& s.novelty_tiers == match vars.novelty_tiers {
                Some(t) => t@,
                None => "A"@,
            }
            &&& s.novelty_max_coalition == match vars.novelty_max_coalition {
                Some(t) => t@,
                None => "5"@,
            }
            &&& s.novelty_max_sans == match vars.novelty_max_sans {
                Some(t) => t@,
                None => "32"@,
            }
            &&& s.certstream_url == match vars.certstream_url {
                Some(t) => t@,
                None => ""@,
            }
            &&& s.config_hash == hex(
                sha256(encode_utf8(config_text(watchlist, suppress, glue, vars))),
            )
        }),
{
}

} // verus!
