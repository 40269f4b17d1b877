use ct_firehose_filter::consumer::{DeliveryWindow, CHECKPOINT_EVERY, DEDUPE_CAP};
use ct_firehose_filter::numbers::{decimal_text, parse_up_to, NumberError};
use ct_firehose_filter::status::{
    build_status, keep_up_hint, product_hint, ArchiveStatus, RateSample, StatusInput,
};
use ct_firehose_filter::text::{join, sort_texts, split, strip_trailing};
use ct_firehose_filter::watchlist::{
    build_watchlist, etld1, etld1_of, host_suffixes, load_domain_file, load_suppress_and_glue,
    load_suppress_file, normalize_host, FileRead, ParsedName,
};
use ct_firehose_filter::{
    parse_domain_lines, unix_to_instant, utc_now_instant, FileKeywordSource, KeywordSource,
    MatchEvent, MemoryKeywordSource, PipelineMetrics,
};

fn strs(list: &[&str]) -> Vec<String> {
    list.iter().map(|s| s.to_string()).collect()
}

#[test]
fn unix_to_instant_is_zulu_second_resolution() {
    assert_eq!(unix_to_instant(0), "1970-01-01T00:00:00Z");
    assert_eq!(unix_to_instant(1_787_570_994), "2026-08-24T11:29:54Z");
    assert!(!unix_to_instant(1_787_570_994).contains('.'));
}

#[test]
fn seconds_outside_the_calendar_become_the_epoch() {
    assert_eq!(unix_to_instant(i64::MAX), "1970-01-01T00:00:00Z");
    assert_eq!(unix_to_instant(i64::MIN), "1970-01-01T00:00:00Z");
    assert_eq!(unix_to_instant(-1), "1969-12-31T23:59:59Z");
    assert_eq!(utc_now_instant(951_782_400), "2000-02-29T00:00:00Z");
    assert_eq!(unix_to_instant(-62_167_219_200), "0000-01-01T00:00:00Z");
    assert_eq!(unix_to_instant(253_402_300_799), "9999-12-31T23:59:59Z");
    assert_eq!(unix_to_instant(253_402_300_800), "+10000-01-01T00:00:00Z");
}

#[test]
fn watchlist_lines_are_trimmed_and_comments_dropped() {
    let text = "\u{feff}a.com\r\n# note\n\n  b.com\t\n\u{a0}c.com\u{3000}\n#\nd.com # tail";
    assert_eq!(
        parse_domain_lines(text),
        strs(&["\u{feff}a.com", "b.com", "c.com", "d.com # tail"])
    );
    assert!(parse_domain_lines("").is_empty());
    let names = parse_domain_lines(text);
    assert_eq!(parse_domain_lines(&names.join("\n")), names);
}

#[test]
fn names_are_loaded_from_files() {
    let text = FileRead::Text("a.com\n#x\nb.com\n".into());
    let gone = FileRead::Missing("No such file or directory (os error 2)".into());
    let broken = FileRead::Failed("Permission denied (os error 13)".into());
    assert_eq!(
        load_domain_file("w.txt", &text).unwrap(),
        strs(&["a.com", "b.com"])
    );
    assert_eq!(
        load_domain_file("w.txt", &gone).unwrap_err().message(),
        "failed to load keywords: w.txt: No such file or directory (os error 2)"
    );
    assert_eq!(load_suppress_file("s.txt", &gone).unwrap(), strs(&[]));
    assert_eq!(load_suppress_file("", &text).unwrap(), strs(&[]));
    assert_eq!(
        load_suppress_file("s.txt", &broken).unwrap_err().message(),
        "failed to load keywords: s.txt: Permission denied (os error 13)"
    );
    let glue = FileRead::Text("c.com".into());
    assert_eq!(
        load_suppress_and_glue("s.txt", &text, "g.txt", &glue).unwrap(),
        strs(&["a.com", "b.com", "c.com"])
    );
    assert!(load_suppress_and_glue("s.txt", &text, "g.txt", &broken).is_err());
    assert!(load_suppress_and_glue("s.txt", &broken, "g.txt", &glue).is_err());
}

#[test]
fn a_watchlist_is_built_from_its_two_files() {
    let names = FileRead::Text("a.com\nwww.b.com\n".into());
    let mega = FileRead::Text("b.com".into());
    let gone = FileRead::Missing("gone".into());
    let broken = FileRead::Failed("boom".into());
    let list = build_watchlist("w.txt", &names, "s.txt", &mega).unwrap();
    assert_eq!((list.len(), list.suppress_len()), (2, 1));
    assert!(list.inspect(&strs(&["x.a.com"])).is_some());
    assert!(list.inspect(&strs(&["x.b.com"])).is_none());
    let open = build_watchlist("w.txt", &names, "s.txt", &gone).unwrap();
    assert_eq!((open.len(), open.suppress_len()), (2, 0));
    assert!(open.inspect(&strs(&["x.b.com"])).is_some());
    let error = |watch: &FileRead, suppress: &FileRead| {
        match build_watchlist("w.txt", watch, "s.txt", suppress) {
            Ok(_) => panic!("built"),
            Err(e) => e.message(),
        }
    };
    assert_eq!(
        error(&gone, &broken),
        "failed to load watchlist: failed to load keywords: w.txt: gone"
    );
    assert_eq!(
        error(&names, &broken),
        "failed to load watchlist: failed to load keywords: s.txt: boom"
    );
}

#[test]
fn keyword_sources_give_what_they_hold() {
    let mut source = MemoryKeywordSource::new(&strs(&["a", "b"]));
    assert_eq!(source.load().unwrap(), strs(&["a", "b"]));
    source.set(&strs(&["c"]));
    assert_eq!(source.load().unwrap(), strs(&["c"]));
    let file = FileKeywordSource::new("k.txt");
    assert_eq!(file.path(), "k.txt");
    assert_eq!(
        file.load_from(&FileRead::Text("x\n# y\n z ".into())).unwrap(),
        strs(&["x", "z"])
    );
    assert_eq!(
        file.load_from(&FileRead::Failed("boom".into()))
            .unwrap_err()
            .message(),
        "failed to load keywords: k.txt: boom"
    );
}

#[test]
fn hosts_are_normalised() {
    assert_eq!(normalize_host(" *.Shop.APPLE.com. ").as_deref(), Some("shop.apple.com"));
    assert_eq!(normalize_host("a.com .").as_deref(), Some("a.com"));
    assert_eq!(normalize_host("*.*.a.com").as_deref(), Some("*.a.com"));
    assert_eq!(normalize_host("*."), Some("*".to_string()));
    assert_eq!(normalize_host(" . "), None);
    assert_eq!(normalize_host(""), None);
    assert_eq!(
        host_suffixes("a.b.c.com"),
        strs(&["a.b.c.com", "b.c.com", "c.com", "com"])
    );
    assert_eq!(host_suffixes("x"), strs(&["x"]));
    assert_eq!(host_suffixes("a..b"), strs(&["a..b", ".b", "b"]));
}

#[test]
fn registrable_domains_come_from_the_public_suffix_list() {
    assert_eq!(etld1("WWW.Example.CO.UK").as_deref(), Some("example.co.uk"));
    assert_eq!(etld1("com"), None);
    assert_eq!(etld1("co.uk"), None);
    assert_eq!(etld1("github.io"), None);
    assert_eq!(etld1("acme.github.io").as_deref(), Some("acme.github.io"));
    assert_eq!(etld1("s3.amazonaws.com").as_deref(), Some("s3.amazonaws.com"));
    assert_eq!(etld1("not a host"), None);
    assert_eq!(etld1(""), None);
}

#[test]
fn the_listed_form_follows_what_the_suffix_list_says() {
    let parsed = |suffix: &str, known: bool, icann: bool, root: Option<&str>| {
        Some(ParsedName {
            suffix: suffix.to_string(),
            known_suffix: known,
            icann,
            root: root.map(str::to_string),
        })
    };
    assert_eq!(etld1_of("x.y.z", None), None);
    assert_eq!(etld1_of("x.y.z", parsed("X.Y.Z", true, true, None)), None);
    assert_eq!(
        etld1_of("x.y.z", parsed("x.y.z", true, false, None)).as_deref(),
        Some("x.y.z")
    );
    assert_eq!(etld1_of("y.z", parsed("y.z", true, false, None)), None);
    assert_eq!(
        etld1_of("a.y.z", parsed("y.z", true, false, Some("A.y.z"))).as_deref(),
        Some("a.y.z")
    );
    assert_eq!(etld1_of("z", parsed("z", false, false, None)), None);
}

#[test]
fn texts_are_split_joined_and_sorted() {
    assert_eq!(split("a,,b,", ','), strs(&["a", "", "b", ""]));
    assert_eq!(split("", ','), strs(&[""]));
    assert_eq!(join(&strs(&["a", "", "b"]), "--"), "a----b");
    assert_eq!(
        sort_texts(&strs(&["b", "ab", "", "b", "\u{10000}", "\u{ffff}"])),
        strs(&["", "ab", "b", "b", "\u{ffff}", "\u{10000}"])
    );
    let parts = strs(&["a.com", "", "b.com"]);
    assert_eq!(split(&join(&parts, ","), ','), parts);
    assert_eq!(strip_trailing("a.b...", '.'), "a.b");
    assert_eq!(strip_trailing("...", '.'), "");
}

#[test]
fn numbers_are_read_and_written() {
    assert_eq!(parse_up_to("00042", 100), Ok(42));
    assert_eq!(parse_up_to("+7", 100), Ok(7));
    assert_eq!(parse_up_to("", 100), Err(NumberError::Empty));
    assert_eq!(parse_up_to("+", 100), Err(NumberError::InvalidDigit));
    assert_eq!(parse_up_to("-1", 100), Err(NumberError::InvalidDigit));
    assert_eq!(parse_up_to("1 ", 100), Err(NumberError::InvalidDigit));
    assert_eq!(parse_up_to("٣", 100), Err(NumberError::InvalidDigit));
    assert_eq!(parse_up_to("101", 100), Err(NumberError::TooLarge));
    assert_eq!(parse_up_to("101x", 100), Err(NumberError::TooLarge));
    assert_eq!(parse_up_to("18446744073709551615", u64::MAX), Ok(u64::MAX));
    assert_eq!(decimal_text(0), "0");
    assert_eq!(decimal_text(1_002_003), "1002003");
    assert_eq!(decimal_text(u128::MAX), u128::MAX.to_string());
}

#[test]
fn repeated_deliveries_are_dropped_until_the_window_is_full() {
    let ev = |n: usize| MatchEvent::new(vec![format!("h{n}.com")], vec![], None, None, None);
    let mut w = DeliveryWindow::new();
    assert!(w.accept(&ev(0)));
    assert!(!w.accept(&ev(0)));
    for n in 1..DEDUPE_CAP {
        assert!(w.accept(&ev(n)));
    }
    assert!(!w.accept(&ev(0)));
    assert!(w.accept(&ev(DEDUPE_CAP)), "one too many: all are forgotten");
    assert!(w.accept(&ev(0)));
    let due: Vec<bool> = (0..CHECKPOINT_EVERY).map(|_| w.processed()).collect();
    assert_eq!(due.iter().filter(|d| **d).count(), 1);
    assert!(due[CHECKPOINT_EVERY as usize - 1]);
}

fn status_input() -> StatusInput {
    StatusInput {
        snapshot: PipelineMetrics::new().snapshot(),
        egress: "novelty".into(),
        novelty_db: Some("n.db".into()),
        novelty_alerts: Some("a.jsonl".into()),
        alerts_file_bytes: Some(10),
        alerts_file_lines: Some(1),
        archive: None,
        stalled: false,
        past_first_hour: false,
    }
}

#[test]
fn healthz_and_status_respond() {
    let mut metrics = PipelineMetrics::new();
    metrics.frames_seen = 42;
    metrics.novelty_alerts_a = 3;
    let mut input = status_input();
    input.snapshot = metrics.snapshot();
    let page = build_status(&input);
    assert!(page.ok);
    assert_eq!(page.counters.frames_seen, 42);
    assert_eq!(page.counters.novelty_alerts_a, 3);
    assert_eq!(page.egress, "novelty");
    assert_eq!(page.novelty_db.as_deref(), Some("n.db"));
    assert_eq!(page.alerts_file_bytes, Some(10));
    assert_eq!(page.archive_dir, None);
    assert!(!page.archive_disk_warn);
    assert!(page.keep_up.ok);
    assert!(page.product.ok);
}

#[test]
fn status_reports_the_archive_and_warns() {
    let archive = ArchiveStatus {
        dir: "/a".into(),
        dir_bytes: 100,
        max_total_bytes: 1_000,
        disk_warn_bytes: u64::MAX,
        fs_available_bytes: Some(900),
        fs_total_bytes: Some(5_000),
        config_hash: "h".into(),
        snapshot_id: "s".into(),
    };
    let mut input = status_input();
    input.archive = Some(archive.clone());
    let page = build_status(&input);
    assert_eq!(page.archive_dir.as_deref(), Some("/a"));
    assert_eq!(page.archive_dir_bytes, Some(100));
    assert_eq!(page.archive_max_total_bytes, Some(1_000));
    assert_eq!(page.fs_total_bytes, Some(5_000));
    assert_eq!(page.config_hash.as_deref(), Some("h"));
    assert_eq!(page.snapshot_id.as_deref(), Some("s"));
    assert!(!page.archive_disk_warn);
    input.archive = Some(ArchiveStatus {
        fs_available_bytes: Some(899),
        ..archive.clone()
    });
    assert!(build_status(&input).archive_disk_warn);
    input.archive = Some(ArchiveStatus {
        dir_bytes: 800,
        ..archive
    });
    assert!(build_status(&input).archive_disk_warn);
}

#[test]
fn hints_say_what_is_wrong() {
    let mut m = PipelineMetrics::new();
    m.frames_seen = 1_001;
    assert!(keep_up_hint(&m.snapshot(), false).ok);
    let hint = keep_up_hint(&m.snapshot(), true);
    assert!(!hint.ok && hint.detail.starts_with("frames_per_sec near zero"));
    m.channel_full = 1;
    let hint = keep_up_hint(&m.snapshot(), false);
    assert!(!hint.ok && hint.detail.starts_with("channel_full > 0"));

    m.matches_enqueued = 1_001;
    assert!(product_hint(&m.snapshot(), false, "novelty").ok);
    assert!(product_hint(&m.snapshot(), true, "stdout").ok);
    let hint = product_hint(&m.snapshot(), true, "novelty");
    assert!(!hint.ok && hint.detail.starts_with("no A′ inserts"));
    m.novelty_coalitions_inserted = 1;
    assert!(product_hint(&m.snapshot(), true, "novelty").ok);
}

#[test]
fn rates_count_from_the_last_look() {
    let mut m = PipelineMetrics::new();
    m.frames_seen = 10;
    let mut rate = RateSample::of(&m.snapshot());
    m.frames_seen = 25;
    m.matches_enqueued = 2;
    assert_eq!(rate.advance(&m.snapshot()), (15, 2));
    assert_eq!(rate.advance(&m.snapshot()), (0, 0));
    m.frames_seen = 5;
    assert_eq!(rate.advance(&m.snapshot()), (0, 0));
}

#[test]
fn counters_wrap_around() {
    let mut m = PipelineMetrics::default();
    m.novelty_alerts_a = u64::MAX;
    let stats = ct_firehose_filter::ProcessStats {
        alerts_a: 2,
        a_high_df_dropped: 3,
        ..Default::default()
    };
    m.record_novelty(&stats);
    assert_eq!(m.novelty_alerts_a, 1);
    assert_eq!(m.novelty_high_df_dropped, 3);
    m.set_novelty_calibrating(true);
    assert_eq!(m.snapshot().novelty_calibrating, 1);
    m.set_novelty_calibrating(false);
    assert_eq!(m.snapshot().novelty_calibrating, 0);
}
