use ct_firehose_filter::{FrameMeta, HotAutomaton, KeywordAutomaton};

fn strs(list: &[&str]) -> Vec<String> {
    list.iter().map(|s| s.to_string()).collect()
}

fn automaton(keywords: &[&str]) -> KeywordAutomaton {
    KeywordAutomaton::new(&strs(keywords)).expect("keywords within the searcher's limits")
}

#[test]
fn label_boundary_table() {
    let cases: &[(&[&str], &str, bool)] = &[
        (&["apple"], "shop.apple.com", true),
        (&["apple"], "pineapple.com", false),
        (&["apple"], "apple-inc.com", false),
        (&["amazon"], "s3.amazonaws.com", false),
        (&["amazonaws"], "s3.amazonaws.com", true),
        (&["acquirer.target"], "api.acquirer.target.com", true),
        (&["google"], "*.google.com", true),
    ];

    for (keywords, domain, expect_match) in cases {
        let ac = automaton(keywords);
        let got = ac.inspect(&strs(&[*domain]));
        assert_eq!(
            got.is_some(),
            *expect_match,
            "keywords={keywords:?} domain={domain} expected_match={expect_match} got={got:?}"
        );
        if *expect_match {
            let ev = got.unwrap();
            assert_eq!(ev.matched_domains, vec![*domain]);
            assert_eq!(ev.matched_keywords, strs(keywords));
        }
    }
}

#[test]
fn overlapping_keywords_amazon_vs_amazonaws() {
    let ac = automaton(&["amazon", "amazonaws"]);
    let ev = ac
        .inspect(&strs(&["s3.amazonaws.com"]))
        .expect("amazonaws is a full label");
    assert_eq!(ev.matched_domains, vec!["s3.amazonaws.com"]);
    assert_eq!(ev.matched_keywords, vec!["amazonaws"]);
    assert!(
        !ev.matched_keywords.iter().any(|k| k == "amazon"),
        "amazon is only a prefix of the amazonaws label: {:?}",
        ev.matched_keywords
    );
}

#[test]
fn any_one_san_is_enough_but_only_hitting_sans_are_emitted() {
    let ac = automaton(&["acquirer", "target"]);
    let ev = ac
        .inspect(&strs(&[
            "cdn.unrelated.net",
            "api-integration.acquirer.target.com",
            " innocuous.org",
        ]))
        .expect("second SAN hits");
    assert_eq!(
        ev.matched_domains,
        vec!["api-integration.acquirer.target.com"]
    );
    assert!(ev.matched_keywords.contains(&"acquirer".to_string()));
    assert!(ev.matched_keywords.contains(&"target".to_string()));
    assert_eq!(ev.matched_keywords.len(), 2);
}

#[test]
fn regex_metacharacters_in_keywords_are_literals() {
    let ac = automaton(&["a.com", "foo+", "star*"]);
    assert!(
        ac.inspect(&strs(&["abcom"])).is_none(),
        ". must not act as regex any-char"
    );
    assert!(ac.inspect(&strs(&["aXcom"])).is_none());
    assert!(
        ac.inspect(&strs(&["mail.a.com"])).is_some(),
        "literal a.com label sequence should match"
    );
    assert!(ac.inspect(&strs(&["fooplus.example"])).is_none());
    assert!(ac.inspect(&strs(&["foo+.internal.net"])).is_some());
    assert!(ac.inspect(&strs(&["starX.example"])).is_none());
    assert!(ac.inspect(&strs(&["star*.cdn.net"])).is_some());
}

#[test]
fn empty_keyword_set_never_matches() {
    let ac = automaton(&[]);
    assert!(ac
        .inspect(&strs(&["apple.com", "shop.apple.com", "everything.example"]))
        .is_none());
}

#[test]
fn mixed_case_domains_and_keywords_match() {
    let ac = automaton(&["ApPlE"]);
    let ev = ac
        .inspect(&strs(&["Shop.APPLE.com"]))
        .expect("DNS is case-insensitive");
    assert_eq!(ev.matched_domains, vec!["Shop.APPLE.com"]);
    assert_eq!(
        ev.matched_keywords,
        vec!["ApPlE"],
        "emit the original keyword spelling, not a lowercased copy"
    );
}

#[test]
fn empty_domain_strings_are_ignored() {
    let ac = automaton(&["apple"]);
    assert!(ac.inspect(&strs(&["", "   "])).is_none());
    let ev = ac
        .inspect(&strs(&["", "apple.com"]))
        .expect("empty SAN must not hide a real hit");
    assert_eq!(ev.matched_domains, vec!["apple.com"]);
}

#[test]
fn unicode_keyword_does_not_silently_match_punycode_san() {
    let ac = automaton(&["münich"]);
    assert!(
        ac.inspect(&strs(&["xn--mnich-kva.example.com"])).is_none(),
        "IDNA folding is out of scope; literal mismatch must not match"
    );
    assert!(ac.inspect(&strs(&["münich.example.com"])).is_some());
}

#[test]
fn thousands_of_irrelevant_keywords_do_not_change_which_domains_match() {
    let mut keywords: Vec<String> = (0..5_000).map(|i| format!("corp{i:04}")).collect();
    keywords.push("needle".into());
    let ac = KeywordAutomaton::new(&keywords).expect("builds");
    assert!(ac.inspect(&strs(&["totally-unrelated.example.net"])).is_none());
    let ev = ac
        .inspect(&strs(&["api.needle.internal.net"]))
        .expect("needle still matches among 5001 patterns");
    assert_eq!(ev.matched_domains, vec!["api.needle.internal.net"]);
    assert_eq!(ev.matched_keywords, vec!["needle"]);
}

#[test]
fn inspect_copies_frame_metadata_onto_the_event() {
    let ac = automaton(&["acme"]);
    let meta = FrameMeta {
        seen: Some(42.5f64.to_bits()),
        source: Some("Argon"),
        fingerprint: Some("fp-1"),
    };
    let ev = ac.inspect_with_meta(&strs(&["acme.com"]), meta).expect("match");
    assert_eq!(ev.seen, Some(42.5f64.to_bits()));
    assert_eq!(ev.source.as_deref(), Some("Argon"));
    assert_eq!(ev.fingerprint.as_deref(), Some("fp-1"));
}

#[test]
fn no_match_does_not_emit_metadata_only_events() {
    let ac = automaton(&["acme"]);
    let meta = FrameMeta {
        seen: Some(1.0f64.to_bits()),
        source: Some("x"),
        fingerprint: Some("y"),
    };
    assert!(ac.inspect_with_meta(&strs(&["other.com"]), meta).is_none());
}

#[test]
fn swapped_automaton_uses_the_new_keywords() {
    let mut hot = HotAutomaton::new(automaton(&["old"]));
    assert!(hot.inspect(&strs(&["www.old.com"])).is_some());
    hot.swap(automaton(&["new"]));
    assert!(hot.inspect(&strs(&["www.old.com"])).is_none());
    let ev = hot.inspect(&strs(&["www.new.com", "x.org"])).unwrap();
    assert_eq!(ev.matched_domains, vec!["www.new.com"]);
    assert_eq!(ev.matched_keywords, vec!["new"]);
    assert_eq!(hot.load().keywords(), strs(&["new"]).as_slice());
}

#[test]
fn every_keyword_is_named_once_in_order_of_report() {
    let ac = automaton(&["b", "a.b", "a"]);
    let ev = ac.inspect(&strs(&["a.b", "x.a.b.com", "b"])).unwrap();
    assert_eq!(ev.matched_domains, vec!["a.b", "x.a.b.com", "b"]);
    let mut sorted = ev.matched_keywords.clone();
    sorted.sort();
    assert_eq!(sorted, vec!["a", "a.b", "b"]);
    assert_eq!(ev.matched_keywords[0], "a");
    assert!(!ac.is_empty());
    assert!(automaton(&[]).is_empty());
}
