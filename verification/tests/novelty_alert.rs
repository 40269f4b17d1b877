use ct_firehose_filter::event::{event_ts, whole_seconds};
use ct_firehose_filter::novelty::{Degree, MAX_COUNT};
use ct_firehose_filter::novelty_alert::{is_routine_host, normalized_hosts, unique_keywords};
use ct_firehose_filter::{
    dedupe_key, effective_san_count, filter_brands, process_match, MatchEvent, NameSet,
    NoveltyAlert, NoveltyKind, NoveltyPolicy, NoveltySink, NoveltyStore, PipelineMetrics,
    PolicyVars, RowChange, EMPTY_SHA1_FP, MATCH_ARCHIVE_SCHEMA_VERSION,
};

/// What the clock says in these tests.
const NOW: i64 = 1_800_000_000;

#[test]
fn a_prime_fires_once_for_coalition() {
    let mut store = NoveltyStore::open(0);
    let ignore = NameSet::new();
    let policy = NoveltyPolicy::default();
    let ev = MatchEvent::new(
        vec!["sso.a.com".into(), "vpn.b.com".into()],
        vec!["a.com".into(), "b.com".into()],
        Some(1.0f64.to_bits()),
        None,
        None,
    );
    let (a1, s1) = process_match(&mut store, &ignore, &policy, &ev, NOW).unwrap();
    assert_eq!(s1.alerts_a, 1);
    assert_eq!(a1.len(), 1);
    let (a2, s2) = process_match(&mut store, &ignore, &policy, &ev, NOW).unwrap();
    assert_eq!(s2.alerts_a, 0);
    assert!(a2.is_empty());
}

#[test]
fn a_prime_drops_oversized_coalitions() {
    let mut store = NoveltyStore::open(0);
    let ignore = NameSet::new();
    let policy = NoveltyPolicy {
        max_coalition_len: 5,
        ..NoveltyPolicy::default()
    };
    let ev = MatchEvent::new(
        (0..8).map(|i| format!("h{i}.example.com")).collect(),
        (0..8).map(|i| format!("b{i}.com")).collect(),
        Some(1.0f64.to_bits()),
        None,
        None,
    );
    let (alerts, s) = process_match(&mut store, &ignore, &policy, &ev, NOW).unwrap();
    assert!(alerts.is_empty());
    assert_eq!(s.a_oversized_dropped, 1);
    assert_eq!(s.alerts_a, 0);
    assert_eq!(store.counts().0, 1);
}

#[test]
fn a_prime_drops_mega_san_certs() {
    let mut store = NoveltyStore::open(0);
    let ignore = NameSet::new();
    let policy = NoveltyPolicy {
        max_san_count: 32,
        ..NoveltyPolicy::default()
    };
    // Four watchlist brands on a Firebase-style ~100-SAN cert.
    let ev = MatchEvent::new(
        vec![
            "welcome.a.com".into(),
            "b.jp".into(),
            "studio.c.dk".into(),
            "cust.d.com".into(),
        ],
        vec!["a.com".into(), "b.jp".into(), "c.dk".into(), "d.com".into()],
        Some(1.0f64.to_bits()),
        None,
        Some("fp-mega".into()),
    )
    .with_san_count(100);
    let (alerts, s) = process_match(&mut store, &ignore, &policy, &ev, NOW).unwrap();
    assert!(alerts.is_empty());
    assert_eq!(s.a_mega_san_dropped, 1);
    assert_eq!(s.alerts_a, 0);
    assert_eq!(s.a_oversized_dropped, 0);
    assert_eq!(store.counts().0, 1);

    // Same brands, small SAN list → emit.
    let mut store2 = NoveltyStore::open(0);
    let ev_small = MatchEvent::new(
        vec![
            "welcome.a.com".into(),
            "b.jp".into(),
            "studio.c.dk".into(),
            "cust.d.com".into(),
        ],
        vec!["a.com".into(), "b.jp".into(), "c.dk".into(), "d.com".into()],
        Some(2.0f64.to_bits()),
        None,
        Some("fp-small".into()),
    )
    .with_san_count(10);
    let (alerts2, s2) = process_match(&mut store2, &ignore, &policy, &ev_small, NOW).unwrap();
    assert_eq!(alerts2.len(), 1);
    assert_eq!(s2.alerts_a, 1);
    assert_eq!(s2.a_mega_san_dropped, 0);
}

#[test]
fn a_prime_mega_san_falls_back_when_san_count_zero() {
    let mut store = NoveltyStore::open(0);
    let ignore = NameSet::new();
    let policy = NoveltyPolicy {
        max_san_count: 32,
        ..NoveltyPolicy::default()
    };
    // san_count unset (0) but many matched_domains — the limit still holds.
    let mut domains = vec![
        "a.com".into(),
        "b.com".into(),
        "welcome.a.com".into(),
        "vpn.b.com".into(),
    ];
    for i in 0..40 {
        domains.push(format!("h{i}.a.com"));
    }
    let ev = MatchEvent::new(
        domains,
        vec!["a.com".into(), "b.com".into()],
        Some(1.0f64.to_bits()),
        None,
        Some("fp-zero-san".into()),
    )
    .with_san_count(0);
    assert_eq!(ev.san_count, 0);
    assert!(effective_san_count(&ev) > 32);
    let (alerts, s) = process_match(&mut store, &ignore, &policy, &ev, NOW).unwrap();
    assert!(alerts.is_empty());
    assert_eq!(s.a_mega_san_dropped, 1);
    assert_eq!(s.coalitions_inserted, 1);
}

#[test]
fn a_only_skips_host_table() {
    let mut store = NoveltyStore::open(0);
    let ignore = NameSet::new();
    let policy = NoveltyPolicy::default(); // A′ only
    let multi = MatchEvent::new(
        vec!["sso.a.com".into(), "vpn.b.com".into()],
        vec!["a.com".into(), "b.com".into()],
        Some(1.0f64.to_bits()),
        None,
        None,
    );
    let single = MatchEvent::new(
        vec!["www.a.com".into()],
        vec!["a.com".into()],
        Some(2.0f64.to_bits()),
        None,
        None,
    );
    let _ = process_match(&mut store, &ignore, &policy, &multi, NOW).unwrap();
    let _ = process_match(&mut store, &ignore, &policy, &single, NOW).unwrap();
    let (coalitions, hosts) = store.counts();
    assert_eq!(coalitions, 1);
    assert_eq!(hosts, 0);
}

#[test]
fn glue_in_ignore_strips_a_prime_but_filter_keeps_other_brands() {
    let mut store = NoveltyStore::open(0);
    let ignore = NameSet::of(&["pagerduty.com".to_string()]);
    let policy = NoveltyPolicy::default();
    let hub_only = MatchEvent::new(
        vec!["acme.hosted-status.pagerduty.com".into()],
        vec!["pagerduty.com".into()],
        Some(1.0f64.to_bits()),
        None,
        Some("fp-glue".into()),
    );
    let (alerts, s) = process_match(&mut store, &ignore, &policy, &hub_only, NOW).unwrap();
    assert!(alerts.is_empty());
    assert_eq!(s.fully_ignored, 1);

    let mixed = MatchEvent::new(
        vec![
            "acme.hosted-status.pagerduty.com".into(),
            "sso.acme.com".into(),
        ],
        vec!["pagerduty.com".into(), "acme.com".into()],
        Some(1.0f64.to_bits()),
        None,
        Some("fp-mixed".into()),
    );
    assert_eq!(filter_brands(&mixed, &ignore), vec!["acme.com".to_string()]);
}

#[test]
fn high_df_brand_silences_aws_plus_customer() {
    let mut store = NoveltyStore::open(0);
    let ignore = NameSet::new();
    let policy = NoveltyPolicy {
        max_partner_degree: 3,
        ..NoveltyPolicy::default()
    };
    for i in 0..4 {
        store
            .record_cooccurrence(&["amazonaws.com".into(), format!("cust{i}.com")])
            .unwrap();
    }
    assert!(store.partner_degree("amazonaws.com") >= 3);

    let ev = MatchEvent::new(
        vec!["s3.amazonaws.com".into(), "sso.acme.com".into()],
        vec!["amazonaws.com".into(), "acme.com".into()],
        Some(1.0f64.to_bits()),
        None,
        Some("fp-aws-acme".into()),
    );
    let (alerts, s) = process_match(&mut store, &ignore, &policy, &ev, NOW).unwrap();
    assert!(alerts.is_empty(), "{alerts:?}");
    assert_eq!(s.alerts_a, 0);
    assert_eq!(s.a_high_df_dropped, 1);
    assert_eq!(s.coalitions_inserted, 1);
}

#[test]
fn scarce_pair_still_alerts_after_unrelated_hub_df() {
    let mut store = NoveltyStore::open(0);
    let ignore = NameSet::new();
    let policy = NoveltyPolicy {
        max_partner_degree: 3,
        ..NoveltyPolicy::default()
    };
    for i in 0..4 {
        store
            .record_cooccurrence(&["amazonaws.com".into(), format!("cust{i}.com")])
            .unwrap();
    }
    let ev = MatchEvent::new(
        vec!["sso.acme.com".into(), "vpn.widget.com".into()],
        vec!["acme.com".into(), "widget.com".into()],
        Some(1.0f64.to_bits()),
        None,
        Some("fp-scarce".into()),
    );
    let (alerts, s) = process_match(&mut store, &ignore, &policy, &ev, NOW).unwrap();
    assert_eq!(s.alerts_a, 1);
    match &alerts[0].kind {
        NoveltyKind::A { coalition } => {
            assert_eq!(
                coalition,
                &["acme.com".to_string(), "widget.com".to_string()]
            );
        }
        other => panic!("{other:?}"),
    }
}

#[test]
fn calibrate_records_coalition_but_does_not_emit() {
    let mut store = NoveltyStore::open(0);
    let ignore = NameSet::new();
    let policy = NoveltyPolicy {
        calibrating: true,
        emit_candidates: true,
        ..NoveltyPolicy::default()
    };
    let ev = MatchEvent::new(
        vec!["sso.acme.com".into(), "vpn.widget.com".into()],
        vec!["acme.com".into(), "widget.com".into()],
        Some(1.0f64.to_bits()),
        None,
        Some("fp-cal".into()),
    );
    let (alerts, s) = process_match(&mut store, &ignore, &policy, &ev, NOW).unwrap();
    assert!(alerts.is_empty());
    assert_eq!(s.a_calibrate_muted, 1);
    assert_eq!(s.coalitions_inserted, 1);
    assert_eq!(s.candidate.as_ref().map(|c| c.reason), Some("calibrating"));

    let policy_live = NoveltyPolicy::default();
    let (alerts2, s2) = process_match(&mut store, &ignore, &policy_live, &ev, NOW).unwrap();
    assert!(
        alerts2.is_empty(),
        "burn-in first-seen must not replay as A′"
    );
    assert_eq!(s2.alerts_a, 0);
    assert_eq!(s2.coalitions_inserted, 0);
}

#[test]
fn ignore_set_silences_cold_aws_acme_with_no_partners() {
    let mut store = NoveltyStore::open(0);
    store.seed_degree_floor(&["amazonaws.com".to_string()], 25);
    let ignore = NameSet::of(&["amazonaws.com".to_string()]);
    let policy = NoveltyPolicy::default();
    let ev = MatchEvent::new(
        vec!["s3.amazonaws.com".into(), "sso.acme.com".into()],
        vec!["amazonaws.com".into(), "acme.com".into()],
        Some(1.0f64.to_bits()),
        None,
        Some("fp-seed-cold".into()),
    );
    let (alerts, s) = process_match(&mut store, &ignore, &policy, &ev, NOW).unwrap();
    assert!(
        alerts.is_empty(),
        "seed floor must mute AWS×Acme: {alerts:?}"
    );
    assert_eq!(s.alerts_a, 0);
    assert_eq!(s.a_high_df_dropped, 1);
    assert_eq!(store.partner_degree("amazonaws.com"), 25);
}

#[test]
fn empty_ignore_cold_aws_acme_still_alerts() {
    let mut store = NoveltyStore::open(0);
    let ignore = NameSet::new();
    let policy = NoveltyPolicy::default();
    let ev = MatchEvent::new(
        vec!["s3.amazonaws.com".into(), "sso.acme.com".into()],
        vec!["amazonaws.com".into(), "acme.com".into()],
        Some(1.0f64.to_bits()),
        None,
        Some("fp-empty-cold".into()),
    );
    let (alerts, s) = process_match(&mut store, &ignore, &policy, &ev, NOW).unwrap();
    assert_eq!(s.alerts_a, 1, "without lists, first mixed is A′");
    match &alerts[0].kind {
        NoveltyKind::A { coalition } => {
            assert_eq!(
                coalition,
                &["acme.com".to_string(), "amazonaws.com".to_string()]
            );
        }
        other => panic!("{other:?}"),
    }
}

#[test]
fn live_event_df_silences_aws_after_solo_hits() {
    let mut store = NoveltyStore::open(0);
    let ignore = NameSet::new();
    let policy = NoveltyPolicy::default();
    for i in 0..25 {
        let solo = MatchEvent::new(
            vec!["s3.amazonaws.com".into()],
            vec!["amazonaws.com".into()],
            Some(1.0f64.to_bits()),
            None,
            Some(format!("fp-solo-{i}")),
        );
        let (alerts, _) = process_match(&mut store, &ignore, &policy, &solo, NOW).unwrap();
        assert!(alerts.is_empty());
    }
    assert_eq!(store.event_count("amazonaws.com"), 25);
    assert_eq!(store.partner_degree("amazonaws.com"), 0);

    let mixed = MatchEvent::new(
        vec!["s3.amazonaws.com".into(), "sso.acme.com".into()],
        vec!["amazonaws.com".into(), "acme.com".into()],
        Some(1.0f64.to_bits()),
        None,
        Some("fp-df-mixed".into()),
    );
    let (alerts, s) = process_match(&mut store, &ignore, &policy, &mixed, NOW).unwrap();
    assert!(alerts.is_empty(), "event-df must mute AWS×Acme: {alerts:?}");
    assert_eq!(s.a_high_df_dropped, 1);
}

fn strs(list: &[&str]) -> Vec<String> {
    list.iter().map(|s| s.to_string()).collect()
}

fn event(domains: &[&str], keywords: &[&str]) -> MatchEvent {
    MatchEvent::new(
        strs(domains),
        strs(keywords),
        Some(1.0f64.to_bits()),
        None,
        Some("fp".into()),
    )
}

fn fact_count(changes: &[RowChange]) -> usize {
    changes
        .iter()
        .filter(|c| matches!(c, RowChange::Fact { .. }))
        .count()
}

#[test]
fn process_match_file_backed_writes_outbox() {
    let mut store = NoveltyStore::open(NOW);
    let ev = MatchEvent::new(
        strs(&["sso.a.com", "vpn.b.com"]),
        strs(&["a.com", "b.com"]),
        Some(1_787_570_994.0f64.to_bits()),
        Some("test".into()),
        Some("fp".into()),
    );
    let ignore = NameSet::new();
    let policy = NoveltyPolicy::default();
    let (alerts, stats) = process_match(&mut store, &ignore, &policy, &ev, NOW).unwrap();
    assert_eq!(stats.alerts_a, 1);
    assert_eq!(alerts.len(), 1);
    assert_eq!(fact_count(&store.take_changes()), 1);
    let (alerts2, stats2) = process_match(&mut store, &ignore, &policy, &ev, NOW).unwrap();
    assert_eq!(stats2.alerts_a, 0);
    assert!(alerts2.is_empty());
    assert_eq!(fact_count(&store.take_changes()), 0);
    assert_eq!(store.multi_brand_cert_count(), 1);
}

#[test]
fn an_alert_carries_the_event_and_the_schema_version() {
    let mut store = NoveltyStore::open(NOW);
    let ev = event(&["sso.a.com", "vpn.b.com"], &["B.com", "a.com", "A.COM"]);
    let (alerts, stats) = process_match(
        &mut store,
        &NameSet::new(),
        &NoveltyPolicy::default(),
        &ev,
        NOW,
    )
    .unwrap();
    assert_eq!(
        alerts,
        vec![NoveltyAlert {
            schema_version: MATCH_ARCHIVE_SCHEMA_VERSION,
            kind: NoveltyKind::A {
                coalition: strs(&["a.com", "b.com"])
            },
            event: ev,
        }]
    );
    assert!(stats.candidate.is_none());
}

#[test]
fn tier_b_alerts_on_new_hosts_that_are_not_routine() {
    let mut store = NoveltyStore::open(NOW);
    let policy = NoveltyPolicy {
        want_a: false,
        want_b: true,
        ..NoveltyPolicy::default()
    };
    let ev = event(
        &["www.acme.com", "*.SSO.acme.com.", "acme.com", "vpn.acme.com"],
        &["acme.com"],
    );
    let (alerts, stats) =
        process_match(&mut store, &NameSet::new(), &policy, &ev, NOW).unwrap();
    assert_eq!(stats.alerts_b, 1);
    assert_eq!(
        alerts[0].kind,
        NoveltyKind::B {
            brand: "acme.com".into(),
            host: "sso.acme.com".into(),
            novel_hosts: strs(&["sso.acme.com", "vpn.acme.com"]),
        }
    );
    assert_eq!(store.counts(), (0, 4));
    let (again, stats) = process_match(&mut store, &NameSet::new(), &policy, &ev, NOW).unwrap();
    assert!(again.is_empty());
    assert_eq!(stats.alerts_b, 0);

    let chatty = NoveltyPolicy {
        skip_routine: false,
        ..policy
    };
    let ev = event(&["mail.acme.com"], &["acme.com"]);
    let (alerts, _) = process_match(&mut store, &NameSet::new(), &chatty, &ev, NOW).unwrap();
    assert_eq!(alerts.len(), 1);
}

#[test]
fn tier_b_records_hosts_of_every_brand_of_a_coalition() {
    let mut store = NoveltyStore::open(NOW);
    let policy = NoveltyPolicy {
        want_b: true,
        ..NoveltyPolicy::default()
    };
    let ev = event(&["sso.a.com", "vpn.b.com"], &["a.com", "b.com"]);
    let (alerts, stats) =
        process_match(&mut store, &NameSet::new(), &policy, &ev, NOW).unwrap();
    assert_eq!(alerts.len(), 1);
    assert_eq!(stats.alerts_b, 0);
    assert_eq!(store.counts(), (1, 4));
}

#[test]
fn candidates_name_degrees_and_counts_of_every_implicated_brand() {
    let mut store = NoveltyStore::open(NOW);
    let policy = NoveltyPolicy {
        emit_candidates: true,
        ..NoveltyPolicy::default()
    };
    let ignore = NameSet::of(&strs(&["hub.com"]));
    let ev = event(&["x"], &["hub.com", "b.com", "a.com"]);
    let (_, stats) = process_match(&mut store, &ignore, &policy, &ev, NOW).unwrap();
    let c = stats.candidate.unwrap();
    assert_eq!(c.kind, "candidate");
    assert_eq!(c.reason, "a_prime");
    assert_eq!(c.coalition, strs(&["a.com", "b.com"]));
    let two = |n: &str| (n.to_string(), 2u32);
    let one = |n: &str| (n.to_string(), 1u32);
    assert_eq!(c.degrees, vec![two("a.com"), two("b.com"), two("hub.com")]);
    assert_eq!(
        c.event_counts,
        vec![one("a.com"), one("b.com"), one("hub.com")]
    );
    assert_eq!(c.fingerprint.as_deref(), Some("fp"));

    let ev = event(&["x"], &["hub.com", "c.com"]);
    let (_, stats) = process_match(&mut store, &ignore, &policy, &ev, NOW).unwrap();
    let c = stats.candidate.unwrap();
    assert_eq!(c.reason, "high_df");
    assert_eq!(c.coalition, strs(&["c.com"]));

    let all_hubs = NameSet::of(&strs(&["hub.com", "d.com"]));
    let ev = event(&["x"], &["hub.com", "d.com"]);
    let (_, stats) = process_match(&mut store, &all_hubs, &policy, &ev, NOW).unwrap();
    let c = stats.candidate.unwrap();
    assert_eq!(c.reason, "high_df");
    assert_eq!(c.coalition, strs(&["d.com", "hub.com"]));
    assert_eq!(stats.fully_ignored, 0);
}

#[test]
fn with_both_gates_off_only_the_ignore_list_strips() {
    let mut store = NoveltyStore::open(NOW);
    store.seed_degree_floor(&strs(&["hub.com"]), 1000);
    let policy = NoveltyPolicy {
        max_partner_degree: 0,
        max_brand_df: 0,
        ..NoveltyPolicy::default()
    };
    let ev = event(&["x"], &["hub.com", "a.com"]);
    let (alerts, _) = process_match(&mut store, &NameSet::new(), &policy, &ev, NOW).unwrap();
    assert_eq!(alerts.len(), 1);
    let ignore = NameSet::of(&strs(&["hub.com"]));
    let ev = event(&["x"], &["hub.com", "b.com"]);
    let (alerts, stats) = process_match(&mut store, &ignore, &policy, &ev, NOW).unwrap();
    assert!(alerts.is_empty());
    assert_eq!(stats.a_high_df_dropped, 1);
}

#[test]
fn without_tier_a_a_coalition_is_recorded_and_silent_for_good() {
    let mut store = NoveltyStore::open(NOW);
    let quiet = NoveltyPolicy {
        want_a: false,
        ..NoveltyPolicy::default()
    };
    let ev = event(&["x"], &["a.com", "b.com"]);
    let (alerts, stats) = process_match(&mut store, &NameSet::new(), &quiet, &ev, NOW).unwrap();
    assert!(alerts.is_empty());
    assert_eq!(stats.coalitions_inserted, 1);
    let loud = NoveltyPolicy::default();
    let (alerts, _) = process_match(&mut store, &NameSet::new(), &loud, &ev, NOW).unwrap();
    assert!(alerts.is_empty());
}

#[test]
fn coalitions_whose_lists_read_alike_both_alert_and_share_a_fact() {
    let mut store = NoveltyStore::open(NOW);
    let policy = NoveltyPolicy::default();
    let first = event(&["x"], &["a,b", "c"]);
    assert!(process_match(&mut store, &NameSet::new(), &policy, &first, NOW).is_ok());
    let second = event(&["x"], &["a", "b,c"]);
    let (alerts, _) = process_match(&mut store, &NameSet::new(), &policy, &second, NOW).unwrap();
    assert_eq!(alerts.len(), 1);
    assert_eq!(store.counts().0, 2);
    assert_eq!(store.multi_brand_cert_count(), 1);
}

#[test]
fn policy_is_read_from_tiers_and_settings() {
    let none = PolicyVars::default();
    assert_eq!(NoveltyPolicy::from_tiers(None, &none), NoveltyPolicy::default());
    assert_eq!(
        NoveltyPolicy::from_tiers(Some("xyz"), &none),
        NoveltyPolicy::default()
    );
    let b = NoveltyPolicy::from_tiers(Some("b"), &none);
    assert!(b.want_b && !b.want_a);
    let ab = NoveltyPolicy::from_tiers(Some("A+B"), &none);
    assert!(ab.want_b && ab.want_a);
    let vars = PolicyVars {
        max_coalition: Some("3".into()),
        max_sans: Some("0".into()),
        max_partner_degree: Some("7".into()),
        max_brand_df: Some("4294967296".into()),
        calibrate_secs: Some("21600".into()),
        calibrate_events: Some("x".into()),
    };
    let p = NoveltyPolicy::from_tiers(Some("A"), &vars);
    assert_eq!(p.max_coalition_len, 3);
    assert_eq!(p.max_san_count, 0);
    assert_eq!(p.max_partner_degree, 7);
    assert_eq!(p.max_brand_df, 25, "out of range is passed over");
    assert_eq!(p.calibrate_secs, 21600);
    assert_eq!(p.calibrate_events, 0);
}

#[test]
fn event_time_is_the_whole_seconds_of_seen() {
    let at = |x: f64| whole_seconds(x.to_bits());
    assert_eq!(at(0.0), 0);
    assert_eq!(at(-0.0), 0);
    assert_eq!(at(1.999), 1);
    assert_eq!(at(-1.999), -1);
    assert_eq!(at(0.5), 0);
    assert_eq!(at(1_712_345_678.125), 1_712_345_678);
    assert_eq!(at(9_007_199_254_740_993.0), 9_007_199_254_740_992);
    assert_eq!(at(4_611_686_018_427_387_904.0), 4_611_686_018_427_387_904);
    assert_eq!(at(1e300), i64::MAX);
    assert_eq!(at(-1e300), i64::MIN);
    assert_eq!(at(9_223_372_036_854_775_808.0), i64::MAX);
    assert_eq!(at(-9_223_372_036_854_775_808.0), i64::MIN);
    assert_eq!(at(f64::MIN_POSITIVE / 2.0), 0);
    assert_eq!(at(f64::INFINITY), 0);
    assert_eq!(at(f64::NEG_INFINITY), 0);
    assert_eq!(at(f64::NAN), 0);
    for x in [3.7, -2.5e9, 123_456_789.987, 1e15 + 0.5, -7e18] {
        assert_eq!(at(x), x.trunc() as i64);
    }
    let mut ev = event(&["x"], &["a.com"]);
    assert_eq!(event_ts(&ev, NOW), 1);
    ev.seen = None;
    assert_eq!(event_ts(&ev, NOW), NOW);
}

#[test]
fn hosts_are_bare_sorted_and_distinct() {
    let ev = event(&[" *.B.com.. ", "a.com", "A.com", ".", "*.", ""], &[]);
    assert_eq!(normalized_hosts(&ev), strs(&["*", "a.com", "b.com"]));
    assert_eq!(
        unique_keywords(&event(&[], &["b.com", "A.com", "a.COM"])),
        strs(&["a.com", "b.com"])
    );
    let ignore = NameSet::of(&strs(&["a.com"]));
    assert_eq!(
        filter_brands(&event(&[], &["b.com", "A.com"]), &ignore),
        strs(&["b.com"])
    );
}

#[test]
fn routine_hosts_are_the_brand_and_common_labels() {
    assert!(is_routine_host("acme.com", "acme.com"));
    assert!(is_routine_host("acme.com", "www.acme.com"));
    assert!(is_routine_host("acme.com", "mcpserver.acme.com"));
    assert!(is_routine_host("acme.com", "mail"));
    assert!(!is_routine_host("acme.com", "sso.acme.com"));
    assert!(!is_routine_host("acme.com", "WWW.acme.com"));
    assert!(!is_routine_host("acme.com", ""));
}

#[test]
fn delivery_keys_fold_case_and_order() {
    let a = event(&["B.com", "a.com"], &[]);
    let b = event(&["A.com", "b.COM", "a.com"], &["x.com"]);
    assert_eq!(dedupe_key(&a), "fp|a.com,b.com");
    assert_eq!(dedupe_key(&a), dedupe_key(&b));
    let mut c = a.clone();
    c.fingerprint = Some(EMPTY_SHA1_FP.to_string());
    assert_eq!(dedupe_key(&c), "a.com,b.com");
    c.fingerprint = Some(String::new());
    assert_eq!(dedupe_key(&c), "a.com,b.com");
    c.fingerprint = None;
    assert_eq!(dedupe_key(&c), "a.com,b.com");
}

#[test]
fn a_prime_writes_once_then_silent() {
    let mut sink = NoveltySink::open(NoveltyStore::open(NOW), &[], NoveltyPolicy::default());
    let mut m = PipelineMetrics::new();
    let ev = event(&["sso.acme.com", "vpn.globex.com"], &["acme.com", "globex.com"]);
    let (alerts, _) = sink.process_event(&ev, NOW, &mut m).unwrap();
    assert_eq!(alerts.len(), 1);
    let (alerts, _) = sink.process_event(&ev, NOW, &mut m).unwrap();
    assert!(alerts.is_empty(), "renewal must not re-alert");
    assert_eq!(m.novelty_alerts_a, 1);
    assert_eq!(m.novelty_coalitions_inserted, 1);
    assert_eq!(m.novelty_calibrating, 0);
    assert_eq!(fact_count(&sink.take_changes()), 1);
}

#[test]
fn the_sink_mutes_during_burn_in_and_never_replays() {
    let policy = NoveltyPolicy {
        calibrate_secs: 100,
        ..NoveltyPolicy::default()
    };
    let mut sink = NoveltySink::open(NoveltyStore::open(NOW), &strs(&["HUB.com"]), policy);
    let mut m = PipelineMetrics::new();
    let ev = event(&["x"], &["acme.com", "globex.com"]);
    assert!(sink.process_event(&ev, NOW + 99, &mut m).unwrap().0.is_empty());
    assert_eq!(m.novelty_calibrating, 1);
    assert_eq!(m.novelty_calibrate_muted, 1);
    assert!(sink.process_event(&ev, NOW + 100, &mut m).unwrap().0.is_empty());
    assert_eq!(m.novelty_calibrating, 0);
    let hub = event(&["x"], &["hub.com", "initech.com"]);
    assert!(sink.process_event(&hub, NOW + 100, &mut m).unwrap().0.is_empty());
    assert_eq!(m.novelty_high_df_dropped, 1);
    let fresh = event(&["x"], &["acme.com", "initech.com"]);
    assert_eq!(sink.process_event(&fresh, NOW + 101, &mut m).unwrap().0.len(), 1);
    assert_eq!(sink.store().multi_brand_events(), 4);
}

#[test]
fn the_sink_reports_a_refused_change() {
    let full = RowChange::BrandDegree {
        brand: "a.com".into(),
        degree: Degree {
            events: MAX_COUNT,
            partners: 4,
        },
    };
    let store = NoveltyStore::restore(vec![full], NOW);
    let mut sink = NoveltySink::open(store, &[], NoveltyPolicy::default());
    let mut m = PipelineMetrics::new();
    let err = sink
        .process_event(&event(&["x"], &["a.com", "b.com"]), NOW, &mut m)
        .unwrap_err();
    assert_eq!(
        err.message(),
        "egress sink rejected batch: counter exceeds the INTEGER range"
    );
    assert_eq!(m.novelty_alerts_a, 0);
}

#[test]
fn a_coalition_with_an_older_fact_alerts_without_a_second_one() {
    let first = event(&["x.a.com", "x.b.com"], &["a.com", "b.com"]);
    let policy = NoveltyPolicy::default();
    let mut store = NoveltyStore::open(NOW);
    store.take_changes();
    process_match(&mut store, &NameSet::new(), &policy, &first, NOW).unwrap();
    let facts: Vec<RowChange> = store
        .take_changes()
        .into_iter()
        .filter(|c| matches!(c, RowChange::Fact { .. }))
        .collect();
    assert_eq!(facts.len(), 1);

    let mut again = NoveltyStore::restore(facts, NOW);
    again.take_changes();
    let (alerts, stats) =
        process_match(&mut again, &NameSet::new(), &policy, &first, NOW).unwrap();
    assert_eq!(alerts.len(), 1);
    assert_eq!(stats.alerts_a, 1);
    assert_eq!(stats.coalitions_inserted, 1);
    assert_eq!(again.multi_brand_cert_count(), 1);
    assert_eq!(fact_count(&again.take_changes()), 0);
    let (alerts, _) = process_match(&mut again, &NameSet::new(), &policy, &first, NOW).unwrap();
    assert!(alerts.is_empty());
}
