use ct_firehose_filter::novelty::{
    join_csv, join_fields, sorted_csv, Degree, MultiBrandCert, DB_NAME, FIELD_SEP, MAX_COUNT,
};
use ct_firehose_filter::novelty_sink::{check_database, is_memory_path};
use ct_firehose_filter::{MatchEvent, NoveltyStore, RowChange, StoreError};

fn strs(list: &[&str]) -> Vec<String> {
    list.iter().map(|s| s.to_string()).collect()
}

#[test]
fn coalition_insert_is_idempotent() {
    let mut store = NoveltyStore::open(0);
    assert!(store.insert_coalition("a\u{1f}b", 1));
    assert!(!store.insert_coalition("a\u{1f}b", 2));
    assert_eq!(store.counts(), (1, 0));
}

#[test]
fn host_insert_is_idempotent() {
    let mut store = NoveltyStore::open(0);
    assert!(store.insert_host("acme.com", "sso.acme.com", 1));
    assert!(!store.insert_host("acme.com", "sso.acme.com", 2));
    assert_eq!(store.counts(), (0, 1));
}

#[test]
fn cooccurrence_raises_partner_degree() {
    let mut store = NoveltyStore::open(0);
    store
        .record_cooccurrence(&strs(&["amazonaws.com", "cust0.com"]))
        .unwrap();
    store
        .record_cooccurrence(&strs(&["amazonaws.com", "cust1.com"]))
        .unwrap();
    store
        .record_cooccurrence(&strs(&["amazonaws.com", "cust2.com"]))
        .unwrap();
    assert_eq!(store.partner_degree("amazonaws.com"), 3);
    assert_eq!(store.partner_degree("cust0.com"), 1);
    assert_eq!(store.multi_brand_events(), 3);
}

#[test]
fn seed_floor_outlives_sparse_observations() {
    let mut store = NoveltyStore::open(0);
    store.seed_degree_floor(&strs(&["amazonaws.com"]), 25);
    store
        .record_cooccurrence(&strs(&["amazonaws.com", "acme.com"]))
        .unwrap();
    assert_eq!(store.partner_degree("amazonaws.com"), 25);
    assert!(store.event_count("amazonaws.com") >= 25);
    assert_eq!(store.partner_degree("acme.com"), 1);
}

#[test]
fn solo_appearances_raise_event_df_not_partners() {
    let mut store = NoveltyStore::open(0);
    for _ in 0..25 {
        store.record_appearances(&strs(&["amazonaws.com"])).unwrap();
    }
    assert_eq!(store.event_count("amazonaws.com"), 25);
    assert_eq!(store.partner_degree("amazonaws.com"), 0);
}

#[test]
fn calibrate_secs_then_unmutes() {
    let store = NoveltyStore::open(1_700_000_000);
    let started = store.calibrate_started_at();
    assert_eq!(started, 1_700_000_000);
    assert!(store.is_calibrating(started, 10, 0));
    assert!(!store.is_calibrating(started + 10, 10, 0));
    assert!(!store.is_calibrating(started, 0, 0));
}

#[test]
fn calibrate_events_then_unmutes() {
    let mut store = NoveltyStore::open(0);
    assert!(store.is_calibrating(0, 0, 2));
    store.record_cooccurrence(&strs(&["a.com", "b.com"])).unwrap();
    assert!(store.is_calibrating(0, 0, 2));
    store.record_cooccurrence(&strs(&["a.com", "c.com"])).unwrap();
    assert!(!store.is_calibrating(0, 0, 2));
}

#[test]
fn both_burn_in_gates_have_to_be_met() {
    let mut store = NoveltyStore::open(100);
    assert!(store.is_calibrating(200, 50, 1));
    store.record_cooccurrence(&strs(&["a.com", "b.com"])).unwrap();
    assert!(!store.is_calibrating(200, 50, 1));
    assert!(store.is_calibrating(149, 50, 1));
    assert!(store.is_calibrating(i64::MAX - 1, u64::MAX, 0));
    assert!(store.is_calibrating(i64::MIN, 1, 0));
}

fn pair_event() -> MatchEvent {
    MatchEvent::new(
        strs(&["sso.a.com", "vpn.b.com"]),
        strs(&["a.com", "b.com"]),
        Some(1.0f64.to_bits()),
        None,
        Some("fp".into()),
    )
}

#[test]
fn multi_brand_insert_rolls_back_mute_when_fact_fails() {
    let row = RowChange::Fact {
        fact: MultiBrandCert {
            brands: "a.com,b.com".into(),
            watchlist_hits: "".into(),
            hosts: "".into(),
            fingerprint: Some("x".into()),
            seen_at: "2026-01-01T00:00:00Z".into(),
            san_count: 0,
            ct_log: None,
            ingested_at: "2026-01-01T00:00:00Z".into(),
        },
    };
    let mut store = NoveltyStore::restore(vec![row], 0);
    let brands = strs(&["a.com", "b.com"]);
    let err = store
        .insert_multi_brand_cert(&brands, &pair_event(), 1, 1)
        .unwrap_err();
    assert_eq!(err, StoreError::DuplicateFact);
    assert!(err.message().contains("UNIQUE") || err.message().contains("unique"));
    let mute_key = join_fields(&brands);
    assert!(
        store.insert_coalition(&mute_key, 1),
        "mute insert must roll back with the fact"
    );
}

#[test]
fn multi_brand_cert_writes_key_and_fact_together_and_once() {
    let mut store = NoveltyStore::open(0);
    store.take_changes();
    let ev = MatchEvent::new(
        strs(&["VPN.b.com ", "sso.a.com", "sso.a.com", "  "]),
        strs(&["B.com", "a.com"]),
        Some(1_787_570_994.0f64.to_bits()),
        Some("test".into()),
        Some("fp".into()),
    )
    .with_san_count(4);
    let brands = strs(&["a.com", "b.com"]);
    assert_eq!(
        store.insert_multi_brand_cert(&brands, &ev, 1_787_570_994, 0),
        Ok(true)
    );
    assert_eq!(store.multi_brand_cert_count(), 1);
    assert_eq!(
        store.take_changes(),
        vec![
            RowChange::Coalition {
                key: "a.com\u{1f}b.com".into(),
                first_seen: 1_787_570_994
            },
            RowChange::Fact {
                fact: MultiBrandCert {
                    brands: "a.com,b.com".into(),
                    watchlist_hits: "a.com,b.com".into(),
                    hosts: "sso.a.com,vpn.b.com".into(),
                    fingerprint: Some("fp".into()),
                    seen_at: "2026-08-24T11:29:54Z".into(),
                    san_count: 4,
                    ct_log: Some("test".into()),
                    ingested_at: "1970-01-01T00:00:00Z".into(),
                }
            }
        ]
    );
    assert_eq!(
        store.insert_multi_brand_cert(&brands, &ev, 1_787_570_994, 0),
        Ok(false),
        "renewal must not write another fact"
    );
    assert!(store.take_changes().is_empty());
}

#[test]
fn mute_and_degree_writes_capture_no_fact() {
    let mut store = NoveltyStore::open(0);
    store.record_appearances(&strs(&["a.com", "b.com"])).unwrap();
    store.record_cooccurrence(&strs(&["a.com", "b.com"])).unwrap();
    assert!(store.insert_coalition("x.com\u{1f}y.com", 1));
    assert!(store.insert_host("a.com", "www.a.com", 1));
    assert_eq!(store.multi_brand_cert_count(), 0);
    assert!(store
        .take_changes()
        .iter()
        .all(|c| !matches!(c, RowChange::Fact { .. })));
}

#[test]
fn a_restored_store_goes_on_where_the_first_one_was() {
    let mut store = NoveltyStore::open(5);
    let mut rows = store.take_changes();
    store.record_cooccurrence(&strs(&["a.com", "b.com"])).unwrap();
    rows.extend(store.take_changes());
    store.insert_host("a.com", "x.a.com", 2);
    store.insert_coalition("a.com\u{1f}b.com", 3);
    store.seed_degree_floor(&strs(&[" Hub.COM ", ""]), 9);
    rows.extend(store.take_changes());
    assert!(store.take_changes().is_empty());

    let mut again = NoveltyStore::restore(rows, 77);
    assert_eq!(again.calibrate_started_at(), 5);
    assert_eq!(again.counts(), (1, 1));
    assert_eq!(again.multi_brand_events(), 1);
    assert_eq!(again.partner_degree("a.com"), 1);
    assert_eq!(again.event_count("b.com"), 1);
    assert_eq!(again.partner_degree("hub.com"), 9);
    assert_eq!(again.event_count("hub.com"), 9);
    assert!(!again.insert_coalition("a.com\u{1f}b.com", 9));
    assert!(!again.insert_host("a.com", "x.a.com", 9));
    assert!(again.take_changes().is_empty(), "nothing new to store");
}

#[test]
fn repeated_brands_count_each_time_and_partner_once() {
    let mut store = NoveltyStore::open(0);
    store
        .record_cooccurrence(&strs(&["a.com", "b.com", "a.com"]))
        .unwrap();
    assert_eq!(store.event_count("a.com"), 2);
    assert_eq!(store.partner_degree("a.com"), 1);
    store.record_cooccurrence(&strs(&["a.com"])).unwrap();
    assert_eq!(store.event_count("a.com"), 2, "one brand is no pair");
    assert_eq!(store.multi_brand_events(), 1);
}

#[test]
fn a_full_counter_refuses_and_changes_nothing() {
    let rows = vec![RowChange::BrandDegree {
        brand: "a.com".into(),
        degree: Degree {
            events: MAX_COUNT,
            partners: 4,
        },
    }];
    let mut store = NoveltyStore::restore(rows, 0);
    assert_eq!(
        store.record_cooccurrence(&strs(&["b.com", "a.com"])),
        Err(StoreError::CounterOverflow)
    );
    assert_eq!(store.event_count("b.com"), 0);
    assert_eq!(store.partner_degree("b.com"), 0);
    assert_eq!(store.multi_brand_events(), 0);
    assert_eq!(store.event_count("a.com"), u32::MAX);
    assert_eq!(
        store.record_appearances(&strs(&["b.com", "a.com", "c.com"])),
        Err(StoreError::CounterOverflow)
    );
    assert_eq!(store.event_count("b.com"), 1, "names before the full one count");
    assert_eq!(store.event_count("c.com"), 0);
    assert_eq!(
        StoreError::CounterOverflow.message(),
        "counter exceeds the INTEGER range"
    );
}

#[test]
fn a_floor_of_zero_does_nothing() {
    let mut store = NoveltyStore::open(0);
    store.take_changes();
    store.seed_degree_floor(&strs(&["a.com"]), 0);
    assert!(store.take_changes().is_empty());
}

#[test]
fn lists_are_joined_for_keys_and_columns() {
    assert_eq!(join_fields(&strs(&["a", "b", "c"])), "a\u{1f}b\u{1f}c");
    assert_eq!(join_csv(&strs(&["a", "b"])), "a,b");
    assert_eq!(join_csv(&[]), "");
    assert_eq!(sorted_csv(&strs(&[" B ", "a", "", "b", "C\t"])), "a,b,c");
    assert_eq!(sorted_csv(&strs(&["é", "z", "Z"])), "z,é");
    assert_eq!(FIELD_SEP, "\u{1f}");
    assert_eq!(DB_NAME, "ct-firehose-filter");
}

#[test]
fn a_required_database_has_to_be_there() {
    assert!(check_database("/x/novelty.db", true, true).is_ok());
    assert!(check_database("/x/novelty.db", false, false).is_ok());
    assert_eq!(
        check_database("/x/novelty.db", false, true)
            .unwrap_err()
            .message(),
        "egress sink rejected batch: NOVELTY_REQUIRE_DB=1 but novelty DB missing: /x/novelty.db"
    );
    assert!(is_memory_path(":memory:"));
    assert!(!is_memory_path("memory.db"));
}
