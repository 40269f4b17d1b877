use ct_firehose_filter::chunks::{
    is_rotated_sibling, list_rotated, rotated_name, rotated_sort_key, rotation_target, total_size,
};
use ct_firehose_filter::{
    AlertsFileConfig, AlertsFileVars, DEFAULT_ALERTS_MAX_BYTES, DEFAULT_ALERTS_MAX_TOTAL_BYTES,
};

fn strs(list: &[&str]) -> Vec<String> {
    list.iter().map(|s| s.to_string()).collect()
}

#[test]
fn alerts_settings_are_read() {
    let cfg = AlertsFileConfig::from_env("a.jsonl".into(), &AlertsFileVars::default());
    assert_eq!(
        cfg,
        AlertsFileConfig {
            path: "a.jsonl".into(),
            max_bytes: DEFAULT_ALERTS_MAX_BYTES,
            max_total_bytes: DEFAULT_ALERTS_MAX_TOTAL_BYTES,
            gzip_rotated: true,
        }
    );
    assert_eq!(DEFAULT_ALERTS_MAX_BYTES, 256 * 1024 * 1024);
    assert_eq!(DEFAULT_ALERTS_MAX_TOTAL_BYTES, 20 * 1024 * 1024 * 1024);
    let vars = AlertsFileVars {
        max_bytes: Some("7".into()),
        max_total_bytes: Some("9000".into()),
        gzip: Some(" NO ".into()),
    };
    let cfg = AlertsFileConfig::from_env("a.jsonl".into(), &vars);
    assert_eq!(cfg.max_bytes, 1024);
    assert_eq!(cfg.max_total_bytes, 9000);
    assert!(!cfg.gzip_rotated);
    let empty = AlertsFileVars {
        gzip: Some("".into()),
        ..AlertsFileVars::default()
    };
    assert!(AlertsFileConfig::from_env("a".into(), &empty).gzip_rotated);
}

#[test]
fn the_live_file_is_sealed_at_its_limit() {
    let mut cfg = AlertsFileConfig {
        path: "alerts.jsonl".into(),
        max_bytes: 50,
        max_total_bytes: 120,
        gzip_rotated: true,
    };
    assert!(cfg.rotation_due(Some(50)));
    assert!(!cfg.rotation_due(Some(49)));
    assert!(!cfg.rotation_due(None));
    cfg.max_bytes = 0;
    assert!(!cfg.rotation_due(Some(1000)));
}

#[test]
fn rotated_names_are_recognised_and_ordered_by_time() {
    assert_eq!(rotated_name("alerts.jsonl", 17), "alerts.jsonl.17");
    assert_eq!(rotated_name("alerts.jsonl", 0), "alerts.jsonl.0");
    assert_eq!(rotation_target("a", 9, false), "a.9");
    assert_eq!(rotation_target("a", 9, true), "a.10");
    assert!(is_rotated_sibling("alerts.jsonl", "alerts.jsonl.17"));
    assert!(is_rotated_sibling("alerts.jsonl", "alerts.jsonl.17.gz"));
    assert!(!is_rotated_sibling("alerts.jsonl", "alerts.jsonl"));
    assert!(!is_rotated_sibling("alerts.jsonl", "alerts.jsonl~"));
    assert!(!is_rotated_sibling("alerts.jsonl", "alerts.jsonl.tmp"));
    assert!(!is_rotated_sibling("alerts.jsonl", "alert"));
    assert_eq!(rotated_sort_key("alerts.jsonl.17.gz"), 17);
    let names = strs(&[
        "alerts.jsonl.100",
        "alerts.jsonl",
        "alerts.jsonl.9.gz",
        "alerts.jsonl.020",
        "alerts.jsonl.20",
        "novelty.db",
        "alerts.jsonl.20.gz",
    ]);
    assert_eq!(
        list_rotated("alerts.jsonl", &names),
        strs(&[
            "alerts.jsonl.9.gz",
            "alerts.jsonl.020",
            "alerts.jsonl.20",
            "alerts.jsonl.20.gz",
            "alerts.jsonl.100",
        ])
    );
}

#[test]
fn rotates_gzips_and_prunes_by_budget() {
    let cfg = AlertsFileConfig {
        path: "alerts.jsonl".into(),
        max_bytes: 50,
        max_total_bytes: 120,
        gzip_rotated: true,
    };
    let mut files: Vec<(String, u64)> = vec![("alerts.jsonl".into(), 20)];
    for ts in 0..6u128 {
        let name = format!("{}.gz", rotated_name("alerts.jsonl", 95 + ts));
        files.insert(0, (name, 40));
        let names: Vec<String> = files.iter().map(|f| f.0.clone()).collect();
        let mut pruner = cfg.pruner("alerts.jsonl", &names);
        loop {
            let sizes: Vec<u64> = files.iter().map(|f| f.1).collect();
            match pruner.next(total_size(&sizes)) {
                Some(gone) => files.retain(|f| f.0 != gone),
                None => break,
            }
        }
        let total: u64 = files.iter().map(|f| f.1).sum();
        assert!(
            total <= cfg.max_total_bytes,
            "total {total} exceeds budget {}",
            cfg.max_total_bytes
        );
    }
    let left: Vec<&str> = files.iter().map(|f| f.0.as_str()).collect();
    assert_eq!(
        left,
        vec!["alerts.jsonl.100.gz", "alerts.jsonl.99.gz", "alerts.jsonl"]
    );
}

#[test]
fn totals_stop_at_the_largest_number() {
    assert_eq!(total_size(&[]), 0);
    assert_eq!(total_size(&[1, 2, 3]), 6);
    assert_eq!(total_size(&[u64::MAX, 1]), u64::MAX);
}
