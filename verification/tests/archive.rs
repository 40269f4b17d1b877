use ct_firehose_filter::archive::{
    content_hash, field_lines, is_sealed_archive_name, sealed_sort_key, to_hex, volume_is_short,
};
use ct_firehose_filter::chunks::total_size;
use ct_firehose_filter::{
    archive_disk_warn, compact_all_domains, default_archive_dir, sha256_hex,
    write_config_snapshot, ArchiveConfig, ArchiveVars, ConfigProvenance, MatchArchive, MatchEvent,
    PipelineMetrics, SnapshotVars, DEFAULT_ARCHIVE_DISK_WARN_BYTES, DEFAULT_ARCHIVE_LIVE_NAME,
    DEFAULT_ARCHIVE_MAX_ALL_DOMAINS, DEFAULT_ARCHIVE_MAX_BYTES, DEFAULT_ARCHIVE_MAX_TOTAL_BYTES,
};

fn strs(list: &[&str]) -> Vec<String> {
    list.iter().map(|s| s.to_string()).collect()
}

fn config(max_total_bytes: u64, max_all_domains: usize) -> ArchiveConfig {
    ArchiveConfig {
        dir: "archive".into(),
        max_bytes: 1_048_576,
        disk_warn_bytes: u64::MAX,
        max_total_bytes,
        max_all_domains,
    }
}

fn archive(max_all_domains: usize) -> MatchArchive {
    MatchArchive::open(
        config(0, max_all_domains),
        ConfigProvenance {
            config_hash: "hash".into(),
            snapshot_id: "7".into(),
        },
    )
}

#[test]
fn archive_writes_schema_v1_with_all_domains() {
    let arch = archive(0);
    let ev = MatchEvent::new(
        strs(&["sso.acme.com"]),
        strs(&["acme.com"]),
        Some(1.0f64.to_bits()),
        Some("test".into()),
        Some("fp".into()),
    )
    .with_san_count(3);
    let all = strs(&["sso.acme.com", "cdn.example", "other.net"]);
    let rec = arch.record_enqueued(&ev, &all, 99);
    assert_eq!(rec.schema_version, 1);
    assert_eq!(rec.ingest_ts_unix, 99);
    assert_eq!(rec.config_hash, "hash");
    assert_eq!(rec.snapshot_id, "7");
    assert_eq!(rec.all_domains, all);
    assert!(!rec.all_domains_truncated);
    assert_eq!(rec.drop_stage, "enqueued");
    assert_eq!(rec.matched_domains, ev.matched_domains);
    assert_eq!(rec.matched_keywords, ev.matched_keywords);
    assert_eq!(rec.seen, ev.seen);
    assert_eq!(rec.source, ev.source);
    assert_eq!(rec.fingerprint, ev.fingerprint);
    assert_eq!(rec.san_count, 3);
}

#[test]
fn compact_all_domains_keeps_matched_then_samples() {
    let all: Vec<String> = (0..40).map(|i| format!("h{i}.example")).collect();
    let matched = vec!["h0.example".into(), "h39.example".into()];
    let (sample, truncated) = compact_all_domains(&all, &matched, 8);
    assert!(truncated);
    assert_eq!(sample.len(), 8);
    assert_eq!(sample[0], "h0.example");
    assert_eq!(sample[1], "h39.example");
    assert!(sample.contains(&"h1.example".into()));
}

#[test]
fn compacting_drops_repetitions_and_stops_at_the_cap() {
    let all = strs(&["a", "b", "a", "c", "d"]);
    assert_eq!(
        compact_all_domains(&all, &strs(&["d", "d"]), 3),
        (strs(&["d", "a", "b"]), true)
    );
    assert_eq!(
        compact_all_domains(&all, &strs(&["w", "x", "y", "z"]), 3),
        (strs(&["w", "x", "y"]), true)
    );
    assert_eq!(compact_all_domains(&all, &[], 5), (all.clone(), false));
    assert_eq!(compact_all_domains(&all, &[], 0), (all.clone(), false));
    assert_eq!(
        compact_all_domains(&all, &[], 4),
        (strs(&["a", "b", "c", "d"]), true)
    );
}

#[test]
fn archive_truncates_oversized_san_lists() {
    let arch = archive(4);
    let all: Vec<String> = (0..20).map(|i| format!("h{i}.acme.com")).collect();
    let ev = MatchEvent::new(
        strs(&["h0.acme.com"]),
        strs(&["acme.com"]),
        Some(1.0f64.to_bits()),
        Some("test".into()),
        Some("fp".into()),
    )
    .with_san_count(20);
    let rec = arch.record_enqueued(&ev, &all, 0);
    assert_eq!(rec.all_domains.len(), 4);
    assert!(rec.all_domains_truncated);
    assert_eq!(rec.san_count, 20);
    assert_eq!(rec.all_domains[0], "h0.acme.com");
}

#[test]
fn prune_deletes_oldest_sealed_keeps_live() {
    let live = DEFAULT_ARCHIVE_LIVE_NAME;
    let mut files: Vec<(String, u64)> = vec![
        (format!("{live}.300.gz"), 1000),
        (live.to_string(), 100),
        (format!("{live}.100"), 1000),
        (format!("{live}.200"), 1000),
        ("notes.txt".to_string(), 10),
    ];
    let names: Vec<String> = files.iter().map(|f| f.0.clone()).collect();
    let mut pruner = config(1_500, 0).pruner(&names).expect("a limit is set");
    let mut gone = Vec::new();
    loop {
        let sizes: Vec<u64> = files.iter().map(|f| f.1).collect();
        match pruner.next(total_size(&sizes)) {
            Some(name) => {
                files.retain(|f| f.0 != name);
                gone.push(name);
            }
            None => break,
        }
    }
    assert_eq!(gone, vec![format!("{live}.100"), format!("{live}.200")]);
    let left: Vec<&str> = files.iter().map(|f| f.0.as_str()).collect();
    assert_eq!(left, vec!["matches.jsonl.300.gz", live, "notes.txt"]);
}

#[test]
fn prune_disabled_when_max_total_is_zero() {
    let names = vec![format!("{DEFAULT_ARCHIVE_LIVE_NAME}.1.gz")];
    assert!(config(0, 0).pruner(&names).is_none());
}

#[test]
fn archive_disk_warn_trips_at_eighty_percent_of_cap() {
    assert!(!archive_disk_warn(799, u64::MAX, 1_000));
    assert!(archive_disk_warn(800, u64::MAX, 1_000));
    assert!(archive_disk_warn(50, 50, 0));
    assert!(!archive_disk_warn(49, 50, 0));
}

#[test]
fn disk_warn_is_exact_for_every_cap() {
    assert!(!archive_disk_warn(2_000_000_000_000_000_000, u64::MAX, u64::MAX));
    assert!(!archive_disk_warn(14_757_395_258_967_641_291, u64::MAX, u64::MAX));
    assert!(archive_disk_warn(14_757_395_258_967_641_292, u64::MAX, u64::MAX));
    assert!(!archive_disk_warn(0, u64::MAX, 1));
    assert!(archive_disk_warn(1, u64::MAX, 1));
    assert!(!archive_disk_warn(10, u64::MAX, 13));
    assert!(archive_disk_warn(11, u64::MAX, 13));
}

#[test]
fn a_short_volume_is_one_that_cannot_hold_the_rest_of_the_cap() {
    assert!(volume_is_short(200, 1_000, Some(799)));
    assert!(!volume_is_short(200, 1_000, Some(800)));
    assert!(!volume_is_short(1_000, 1_000, Some(0)));
    assert!(!volume_is_short(2_000, 1_000, Some(0)));
    assert!(!volume_is_short(0, 0, Some(0)));
    assert!(!volume_is_short(0, 1_000, None));
}

#[test]
fn sealed_archive_names_have_a_time() {
    assert!(is_sealed_archive_name("matches.jsonl.1712"));
    assert!(is_sealed_archive_name("matches.jsonl.1712.gz"));
    assert!(!is_sealed_archive_name("matches.jsonl"));
    assert!(!is_sealed_archive_name("matches.jsonl."));
    assert!(!is_sealed_archive_name("matches.jsonl..gz"));
    assert!(!is_sealed_archive_name("matches.jsonl.17a"));
    assert!(!is_sealed_archive_name("matches.jsonl.17.gz.gz"));
    assert!(!is_sealed_archive_name("other.jsonl.1712"));
    assert_eq!(sealed_sort_key("matches.jsonl.1712"), 1712);
    assert_eq!(sealed_sort_key("matches.jsonl.1712.gz"), 1712);
    assert_eq!(sealed_sort_key("matches.jsonl.1712.gz.gz"), 1712);
    assert_eq!(sealed_sort_key("matches.jsonl"), 0);
    assert_eq!(sealed_sort_key("1712"), 0);
    assert_eq!(
        sealed_sort_key("m.340282366920938463463374607431768211455"),
        u128::MAX
    );
    assert_eq!(
        sealed_sort_key("m.340282366920938463463374607431768211456"),
        0
    );
}

#[test]
fn lines_are_flushed_every_64_kib() {
    let mut arch = archive(0);
    let mut m = PipelineMetrics::new();
    assert!(!arch.written(65_535, &mut m));
    assert!(arch.written(1, &mut m));
    assert!(!arch.written(10, &mut m));
    assert!(arch.written(u64::MAX, &mut m));
    assert_eq!(m.archive_events_written, 4);
    assert_eq!(m.archive_bytes_written, 65_545);
    assert!(arch.config().rotation_due(1_048_576));
    assert!(!arch.config().rotation_due(1_048_575));
    assert_eq!(arch.dir(), "archive");
    assert_eq!(arch.disk_warn_bytes(), u64::MAX);
    assert_eq!(arch.max_total_bytes(), 0);
    arch.set_provenance(ConfigProvenance {
        config_hash: "new".into(),
        snapshot_id: "8".into(),
    });
    assert_eq!(arch.provenance().config_hash, "new");
    assert_eq!(arch.provenance().snapshot_id, "8");
}

#[test]
fn archive_settings_are_read() {
    let none = ArchiveVars::default();
    assert_eq!(ArchiveConfig::from_env_optional(false, &none), None);
    assert_eq!(
        ArchiveConfig::from_env_optional(true, &none),
        Some(ArchiveConfig {
            dir: default_archive_dir(),
            max_bytes: DEFAULT_ARCHIVE_MAX_BYTES,
            disk_warn_bytes: DEFAULT_ARCHIVE_DISK_WARN_BYTES,
            max_total_bytes: DEFAULT_ARCHIVE_MAX_TOTAL_BYTES,
            max_all_domains: DEFAULT_ARCHIVE_MAX_ALL_DOMAINS,
        })
    );
    assert_eq!(DEFAULT_ARCHIVE_MAX_BYTES, 256 * 1024 * 1024);
    assert_eq!(DEFAULT_ARCHIVE_DISK_WARN_BYTES, 100 * 1024 * 1024 * 1024);
    assert_eq!(DEFAULT_ARCHIVE_MAX_TOTAL_BYTES, 50 * 1024 * 1024 * 1024);
    for off in ["", "  ", "Off", "DISABLED", "none"] {
        let vars = ArchiveVars {
            dir: Some(off.to_string()),
            ..ArchiveVars::default()
        };
        assert_eq!(ArchiveConfig::from_env_optional(true, &vars), None);
    }
    let vars = ArchiveVars {
        dir: Some(" /data/a ".into()),
        max_bytes: Some("5".into()),
        disk_warn_bytes: Some("oops".into()),
        max_total_bytes: Some("0".into()),
        max_all_domains: Some("0".into()),
    };
    assert_eq!(
        ArchiveConfig::from_env_optional(false, &vars),
        Some(ArchiveConfig {
            dir: "/data/a".into(),
            max_bytes: 1024,
            disk_warn_bytes: DEFAULT_ARCHIVE_DISK_WARN_BYTES,
            max_total_bytes: 0,
            max_all_domains: 0,
        })
    );
}

#[test]
fn digests_are_hexadecimal() {
    assert_eq!(
        sha256_hex(b""),
        "e3b0c44298fc1c149afbf4c8996fb92427ae41e4649b934ca495991b7852b855"
    );
    assert_eq!(
        sha256_hex(b"abc"),
        "ba7816bf8f01cfea414140de5dae2223b00361a396177a9cb410ff61f20015ad"
    );
    assert_eq!(content_hash(None), sha256_hex(b""));
    assert_eq!(content_hash(Some(b"abc")), sha256_hex(b"abc"));
    assert_eq!(to_hex(&[0x00, 0x0f, 0xa0, 0xff]), "000fa0ff");
}

#[test]
fn a_snapshot_notes_settings_and_files() {
    let wl = content_hash(Some(b"acme.com\n"));
    let none = content_hash(None);
    let snap = write_config_snapshot(&wl, &none, &none, &SnapshotVars::default(), 1_700_000_000);
    assert_eq!(snap.schema_version, 1);
    assert_eq!(snap.snapshot_id, "1700000000");
    assert_eq!(snap.git_sha, "unknown");
    assert_eq!(snap.novelty_tiers, "A");
    assert_eq!(snap.novelty_max_coalition, "5");
    assert_eq!(snap.novelty_max_sans, "32");
    assert_eq!(snap.certstream_url, "");
    assert_eq!(snap.watchlist_sha256, wl);
    let input = format!("{wl}\n{none}\n{none}\nunknown\nA\n5\n32\n");
    assert_eq!(snap.config_hash, sha256_hex(input.as_bytes()));
    assert_eq!(snap.provenance().config_hash, snap.config_hash);
    assert_eq!(snap.provenance().snapshot_id, "1700000000");

    let later = write_config_snapshot(&wl, &none, &none, &SnapshotVars::default(), 1_800_000_000);
    assert_eq!(later.config_hash, snap.config_hash);
    assert_eq!(later.snapshot_id, "1800000000");

    let vars = SnapshotVars {
        git_sha: Some("abc123".into()),
        source_version: Some("ignored".into()),
        ..SnapshotVars::default()
    };
    let other = write_config_snapshot(&wl, &none, &none, &vars, 0);
    assert_eq!(other.git_sha, "abc123");
    assert_eq!(other.snapshot_id, "0");
    assert_ne!(other.config_hash, snap.config_hash);
    assert_eq!(field_lines(&strs(&["a", "", "b"])), "a\n\nb\n");
}

#[test]
fn exchanged_suppress_and_glue_have_another_identity() {
    let (wl, a, b) = (
        content_hash(Some(b"acme.com")),
        content_hash(Some(b"google.com")),
        content_hash(None),
    );
    let vars = SnapshotVars::default();
    let snap = write_config_snapshot(&wl, &a, &b, &vars, 0);
    let exchanged = write_config_snapshot(&wl, &b, &a, &vars, 0);
    assert_ne!(snap.config_hash, exchanged.config_hash);
    assert_eq!(snap.config_hash.len(), 64);
    assert!(snap.config_hash.chars().all(|c| matches!(c, '0'..='9' | 'a'..='f')));
}
