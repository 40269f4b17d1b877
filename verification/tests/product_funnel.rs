//! Product funnel: inspect, archive every watchlist hit, and alert after burn-in and event-df.

use ct_firehose_filter::archive::{content_hash, write_config_snapshot};
use ct_firehose_filter::{
    process_match, ArchiveConfig, DomainWatchlist, FrameMeta, MatchArchive, NameSet, NoveltyKind,
    NoveltyPolicy, NoveltyStore, SnapshotVars,
};

const NOW: i64 = 1_800_000_000;

const WATCH: &[&str] = &[
    "pagerduty.com",
    "acme.com",
    "widget.com",
    "amazonaws.com",
    "zendesk.com",
];
const SUPPRESS: &[&str] = &["amazonaws.com"];
const GLUE: &[&str] = &["pagerduty.com", "zendesk.com"];

fn strs(list: &[&str]) -> Vec<String> {
    list.iter().map(|s| s.to_string()).collect()
}

fn implicated(ev: &ct_firehose_filter::MatchEvent) -> Vec<String> {
    let mut v = ev.matched_keywords.clone();
    v.sort();
    v
}

fn open_archive() -> MatchArchive {
    let hash = |names: &[&str]| content_hash(Some(names.join("\n").as_bytes()));
    let snapshot = write_config_snapshot(
        &hash(WATCH),
        &hash(SUPPRESS),
        &hash(GLUE),
        &SnapshotVars::default(),
        1_800_000_000,
    );
    MatchArchive::open(
        ArchiveConfig {
            dir: "archive".into(),
            max_bytes: 1_048_576,
            disk_warn_bytes: u64::MAX,
            max_total_bytes: 0,
            max_all_domains: 0,
        },
        snapshot.provenance(),
    )
}

struct Case {
    name: &'static str,
    sans: &'static [&'static str],
    expect_suppressed: bool,
    expect_implicated: &'static [&'static str],
    /// `None` = no A′ alert. `Some` = exact coalition (sorted).
    expect_coalition: Option<&'static [&'static str]>,
    replay: bool,
}

#[test]
fn inspect_archive_novelty_funnel() {
    let watch = DomainWatchlist::new(&strs(WATCH));
    let mut ignore_names = strs(SUPPRESS);
    ignore_names.extend(strs(GLUE));
    let ignore = NameSet::of(&ignore_names);
    let policy = NoveltyPolicy::default();

    let cases = [
        Case {
            name: "hub-only glue",
            sans: &["acme.hosted-status.pagerduty.com"],
            expect_suppressed: false,
            expect_implicated: &["pagerduty.com"],
            expect_coalition: None,
            replay: false,
        },
        Case {
            name: "hub-only zendesk glue",
            sans: &["acme.zendesk.com"],
            expect_suppressed: false,
            expect_implicated: &["zendesk.com"],
            expect_coalition: None,
            replay: false,
        },
        Case {
            name: "mega-apex only",
            sans: &["s3.amazonaws.com"],
            expect_suppressed: false,
            expect_implicated: &["amazonaws.com"],
            expect_coalition: None,
            replay: false,
        },
        Case {
            name: "mega-apex plus customer",
            sans: &["s3.amazonaws.com", "sso.acme.com"],
            expect_suppressed: false,
            expect_implicated: &["acme.com", "amazonaws.com"],
            expect_coalition: None,
            replay: false,
        },
        Case {
            name: "glue plus one customer",
            sans: &["acme.hosted-status.pagerduty.com", "sso.acme.com"],
            expect_suppressed: false,
            expect_implicated: &["acme.com", "pagerduty.com"],
            expect_coalition: None,
            replay: false,
        },
        Case {
            name: "glue plus two customers",
            sans: &[
                "acme.hosted-status.pagerduty.com",
                "sso.acme.com",
                "vpn.widget.com",
            ],
            expect_suppressed: false,
            expect_implicated: &["acme.com", "pagerduty.com", "widget.com"],
            expect_coalition: Some(&["acme.com", "widget.com"]),
            replay: true,
        },
    ];

    for case in cases {
        let arch = open_archive();
        let sans = strs(case.sans);

        let outcome = watch.inspect_outcome(&sans, FrameMeta::default());
        assert_eq!(
            outcome.fully_suppressed, case.expect_suppressed,
            "{}: suppressed",
            case.name
        );

        let ev = outcome
            .event
            .unwrap_or_else(|| panic!("{}: enqueued", case.name));
        assert_eq!(
            implicated(&ev),
            strs(case.expect_implicated),
            "{}: inspect brands",
            case.name
        );

        let line = arch.record_enqueued(&ev, &sans, NOW);
        assert_eq!(line.all_domains, sans, "{}: archive line", case.name);
        assert_eq!(line.matched_keywords, ev.matched_keywords);

        let mut store = NoveltyStore::open(NOW);
        let (alerts, stats) = process_match(&mut store, &ignore, &policy, &ev, NOW).unwrap();
        match case.expect_coalition {
            None => {
                assert!(alerts.is_empty(), "{}: no A′ (got {alerts:?})", case.name);
                if case.expect_implicated == ["pagerduty.com"]
                    || case.expect_implicated == ["zendesk.com"]
                    || case.expect_implicated == ["amazonaws.com"]
                {
                    assert_eq!(
                        stats.fully_ignored, 1,
                        "{}: ignore-set fully ignored",
                        case.name
                    );
                }
            }
            Some(want) => {
                assert_eq!(alerts.len(), 1, "{}: one A′", case.name);
                assert_eq!(stats.alerts_a, 1, "{}: alerts_a", case.name);
                match &alerts[0].kind {
                    NoveltyKind::A { coalition } => {
                        assert_eq!(coalition, &strs(want), "{}: coalition", case.name);
                    }
                    other => panic!("{}: expected A′ got {other:?}", case.name),
                }
            }
        }

        if case.replay {
            let (alerts2, stats2) = process_match(&mut store, &ignore, &policy, &ev, NOW).unwrap();
            assert!(
                alerts2.is_empty(),
                "{}: replay must not re-alert",
                case.name
            );
            assert_eq!(stats2.alerts_a, 0, "{}: replay alerts_a", case.name);
        }
    }
}

#[test]
fn listen_first_empty_ignore_degree_and_calibrate() {
    let watch = DomainWatchlist::new(&strs(WATCH));
    let ignore = NameSet::new();
    let policy = NoveltyPolicy {
        max_partner_degree: 3,
        ..NoveltyPolicy::default()
    };

    let mut store = NoveltyStore::open(NOW);
    for i in 0..4 {
        store
            .record_cooccurrence(&["amazonaws.com".into(), format!("cust{i}.com")])
            .unwrap();
    }
    assert!(store.partner_degree("amazonaws.com") >= 3);

    let aws_acme = watch
        .inspect(&strs(&["s3.amazonaws.com", "sso.acme.com"]))
        .expect("mixed leaf enqueues");
    let (alerts, stats) = process_match(&mut store, &ignore, &policy, &aws_acme, NOW).unwrap();
    assert!(
        alerts.is_empty(),
        "high-df Amazon is T′, not A′: {alerts:?}"
    );
    assert_eq!(stats.alerts_a, 0);
    assert_eq!(stats.a_high_df_dropped, 1);

    let scarce = watch
        .inspect(&strs(&["sso.acme.com", "vpn.widget.com"]))
        .expect("scarce pair enqueues");
    let (alerts, stats) = process_match(&mut store, &ignore, &policy, &scarce, NOW).unwrap();
    assert_eq!(stats.alerts_a, 1);
    match &alerts[0].kind {
        NoveltyKind::A { coalition } => {
            assert_eq!(
                coalition,
                &["acme.com".to_string(), "widget.com".to_string()]
            );
        }
        other => panic!("expected A′ got {other:?}"),
    }

    let mut store2 = NoveltyStore::open(NOW);
    let cal = NoveltyPolicy {
        calibrating: true,
        max_partner_degree: 25,
        ..NoveltyPolicy::default()
    };
    let (alerts, stats) = process_match(&mut store2, &ignore, &cal, &scarce, NOW).unwrap();
    assert!(alerts.is_empty(), "burn-in must not page A′");
    assert_eq!(stats.a_calibrate_muted, 1);
    assert_eq!(stats.coalitions_inserted, 1);
    let live = NoveltyPolicy::default();
    let (alerts2, stats2) = process_match(&mut store2, &ignore, &live, &scarce, NOW).unwrap();
    assert!(alerts2.is_empty(), "listening window must not replay");
    assert_eq!(stats2.alerts_a, 0);
}

#[test]
fn cold_start_empty_lists_calibrate_then_event_df() {
    let watch = DomainWatchlist::new(&strs(WATCH));
    let empty = NameSet::new();
    let aws_acme = watch
        .inspect(&strs(&["s3.amazonaws.com", "sso.acme.com"]))
        .expect("mixed leaf enqueues");

    let mut store = NoveltyStore::open(NOW);
    let cal = NoveltyPolicy {
        calibrating: true,
        ..NoveltyPolicy::default()
    };
    let (alerts, stats) = process_match(&mut store, &empty, &cal, &aws_acme, NOW).unwrap();
    assert!(
        alerts.is_empty(),
        "6h-style mute must hold cold AWS×Acme: {alerts:?}"
    );
    assert_eq!(stats.a_calibrate_muted, 1);
    assert_eq!(stats.coalitions_inserted, 1);
    let live = NoveltyPolicy::default();
    let (alerts2, stats2) = process_match(&mut store, &empty, &live, &aws_acme, NOW).unwrap();
    assert!(alerts2.is_empty(), "calibrate first-seen must not replay");
    assert_eq!(stats2.alerts_a, 0);

    let mut cold = NoveltyStore::open(NOW);
    let (alerts, stats) = process_match(&mut cold, &empty, &live, &aws_acme, NOW).unwrap();
    assert_eq!(
        stats.alerts_a, 1,
        "calibrate off + empty lists pages the first AWS×customer (why 21600 is the default)"
    );
    assert_eq!(alerts.len(), 1);
}

#[test]
fn seed_lists_optional_once_event_df_is_warm() {
    let watch = DomainWatchlist::new(&strs(WATCH));
    let aws_acme = watch
        .inspect(&strs(&["s3.amazonaws.com", "sso.acme.com"]))
        .expect("mixed leaf enqueues");
    let policy = NoveltyPolicy::default();

    let mut seeded = NoveltyStore::open(NOW);
    seeded.seed_degree_floor(&strs(&["amazonaws.com"]), 25);
    let ignore = NameSet::of(&strs(&["amazonaws.com"]));
    let (alerts, stats) = process_match(&mut seeded, &ignore, &policy, &aws_acme, NOW).unwrap();
    assert!(
        alerts.is_empty(),
        "seed floor must silence AWS×Acme with no observed partners: {alerts:?}"
    );
    assert_eq!(stats.a_high_df_dropped, 1);
    assert_eq!(seeded.partner_degree("amazonaws.com"), 25);

    let mut cold = NoveltyStore::open(NOW);
    let empty = NameSet::new();
    let (alerts, stats) = process_match(&mut cold, &empty, &policy, &aws_acme, NOW).unwrap();
    assert_eq!(
        stats.alerts_a, 1,
        "empty ignore + cold DB pages the first AWS×customer as A′"
    );
    assert_eq!(alerts.len(), 1);

    let mut df = NoveltyStore::open(NOW);
    for i in 0..25 {
        let solo = watch
            .inspect(&strs(&["s3.amazonaws.com"]))
            .unwrap_or_else(|| panic!("solo amazonaws {i}"));
        let _ = process_match(&mut df, &empty, &policy, &solo, NOW).unwrap();
    }
    assert_eq!(df.event_count("amazonaws.com"), 25);
    assert_eq!(df.partner_degree("amazonaws.com"), 0);
    let (alerts, stats) = process_match(&mut df, &empty, &policy, &aws_acme, NOW).unwrap();
    assert!(
        alerts.is_empty(),
        "live event-df must silence AWS×Acme without seed lists: {alerts:?}"
    );
    assert_eq!(stats.a_high_df_dropped, 1);
}
