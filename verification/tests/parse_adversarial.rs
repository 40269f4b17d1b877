use ct_firehose_filter::{parse_certstream_frame, LeafDomains, ParseError};

const FULL: &str = r#"{
  "message_type": "certificate_update",
  "data": {
    "update_type": "X509LogEntry",
    "all_domains": ["decoy-data.example.com"],
    "leaf_cert": {
      "all_domains": ["acme-staging.example.com", "www.acme-staging.example.com"],
      "as_der": "-----BEGIN CERTIFICATE-----MIIBdecoy-----END CERTIFICATE-----",
      "fingerprint": "https://crt.sh/?q=DEADBEEFCAFEBABE0123456789ABCDEFDEADBEEF",
      "subject": {"CN": "acme-staging.example.com"}
    },
    "chain": [
      {
        "all_domains": ["decoy-chain.example.com"],
        "fingerprint": "CHAINFINGERPRINTSHOULDNOTLEAK"
      }
    ],
    "seen": 1712345678.125,
    "source": {"name": "Google 'Argon2024' log", "url": "ct.googleapis.com/logs/argon2024"}
  }
}"#;

const HEARTBEAT: &str = r#"{
  "message_type": "heartbeat",
  "timestamp": 1712345678.0,
  "data": {"leaf_cert": {"all_domains": ["heartbeat-decoy.example.com"]}}
}"#;

fn parse_text(text: &str) -> Result<Option<LeafDomains>, ParseError> {
    parse_certstream_frame(text.as_bytes())
}

/// A certificate update with the given text in place of the name list.
fn with_domains(list: &str) -> String {
    format!(
        r#"{{"message_type":"certificate_update","data":{{"leaf_cert":{{"all_domains":{list}}}}}}}"#
    )
}

#[test]
fn extracts_only_leaf_cert_all_domains_from_realistic_payload() {
    let parsed = parse_text(FULL)
        .expect("valid JSON")
        .expect("certificate_update should yield domains");

    assert_eq!(
        parsed.domains,
        vec!["acme-staging.example.com", "www.acme-staging.example.com"]
    );
    assert_eq!(parsed.seen, Some(1_712_345_678.125f64.to_bits()));
    assert_eq!(parsed.source.as_deref(), Some("Google 'Argon2024' log"));
    assert_eq!(
        parsed.fingerprint.as_deref(),
        Some("https://crt.sh/?q=DEADBEEFCAFEBABE0123456789ABCDEFDEADBEEF")
    );
}

#[test]
fn ignores_decoy_all_domains_outside_leaf_cert() {
    let parsed = parse_text(FULL).unwrap().unwrap();
    let joined = parsed.domains.join(" ");

    assert!(
        !joined.contains("decoy"),
        "parser must not read data.all_domains or chain[].all_domains: {joined}"
    );
}

#[test]
fn parsed_type_cannot_surface_pem_or_chain_fingerprint() {
    let parsed = parse_text(FULL).unwrap().unwrap();
    let dump = format!("{parsed:?}");
    assert!(
        !dump.contains("BEGIN CERTIFICATE"),
        "LeafDomains must not retain PEM: {dump}"
    );
    assert!(
        !dump.contains("CHAINFINGERPRINTSHOULDNOTLEAK"),
        "LeafDomains must not retain chain fingerprints: {dump}"
    );

    // Only these fields exist. Adding pem or chain would fail to compile here.
    let LeafDomains {
        domains: _,
        seen: _,
        source: _,
        fingerprint: _,
    } = parsed;
}

#[test]
fn heartbeat_is_ignored_even_if_it_contains_leaf_cert_shaped_data() {
    let parsed = parse_text(HEARTBEAT).expect("heartbeat is valid JSON");
    assert_eq!(
        parsed, None,
        "heartbeats must not be treated as certificate updates"
    );
}

#[test]
fn unknown_message_type_is_ignored() {
    let text = FULL.replace("certificate_update", "dns_update");
    assert_eq!(parse_text(&text).unwrap(), None);
    assert_eq!(parse_text(r#"{"message_type": 7}"#).unwrap(), None);
    assert_eq!(parse_text("{}").unwrap(), None);
}

#[test]
fn missing_leaf_cert_is_ignored_not_an_error() {
    let update = r#"{"message_type":"certificate_update","data":{"seen":1.0}}"#;
    assert_eq!(parse_text(update).unwrap(), None);
    let null_leaf = r#"{"message_type":"certificate_update","data":{"leaf_cert":null}}"#;
    assert_eq!(parse_text(null_leaf).unwrap(), None);
    let null_data = r#"{"message_type":"certificate_update","data":null}"#;
    assert_eq!(parse_text(null_data).unwrap(), None);
    let no_data = r#"{"message_type":"certificate_update"}"#;
    assert_eq!(parse_text(no_data).unwrap(), None);
}

#[test]
fn missing_all_domains_is_ignored_not_an_error() {
    let update =
        r#"{"message_type":"certificate_update","data":{"leaf_cert":{"fingerprint":"AA"}}}"#;
    assert_eq!(parse_text(update).unwrap(), None);
}

#[test]
fn empty_all_domains_array_yields_nothing_to_inspect() {
    assert_eq!(parse_text(&with_domains("[]")).unwrap(), None);
}

#[test]
fn all_domains_null_is_an_error_not_silent_none() {
    let err = parse_text(&with_domains("null")).expect_err("null all_domains must error");
    assert!(
        matches!(err, ParseError::Malformed(_) | ParseError::Json(_)),
        "unexpected error: {err:?}"
    );
    assert_eq!(
        err.message(),
        "malformed certstream JSON: all_domains is null"
    );
}

#[test]
fn all_domains_string_is_an_error() {
    let err = parse_text(&with_domains("\"a.com\"")).expect_err("string all_domains must error");
    assert_eq!(err, ParseError::Malformed("all_domains has the wrong type"));
}

#[test]
fn all_domains_object_is_an_error() {
    parse_text(&with_domains("{\"0\":\"a.com\"}")).expect_err("object all_domains must error");
}

#[test]
fn all_domains_with_a_number_is_an_error() {
    let err = parse_text(&with_domains("[\"a.com\", 7]")).expect_err("number in the list");
    assert_eq!(
        err,
        ParseError::Malformed("all_domains entry is not a string")
    );
}

#[test]
fn values_of_the_wrong_type_are_errors() {
    assert_eq!(
        parse_text("[1]").unwrap_err(),
        ParseError::Malformed("root is not a JSON object")
    );
    assert_eq!(
        parse_text(r#"{"message_type":"certificate_update","data":[]}"#).unwrap_err(),
        ParseError::Malformed("data is not an object")
    );
    assert_eq!(
        parse_text(r#"{"message_type":"certificate_update","data":{"leaf_cert":1}}"#).unwrap_err(),
        ParseError::Malformed("leaf_cert is not an object")
    );
}

#[test]
fn light_metadata_of_the_wrong_type_is_left_out() {
    let text = r#"{"message_type":"certificate_update","data":{
        "leaf_cert":{"all_domains":["a.com"],"fingerprint":5},
        "seen":"yesterday","source":"log"}}"#;
    let parsed = parse_text(text).unwrap().unwrap();
    assert_eq!(parsed.seen, None);
    assert_eq!(parsed.source, None);
    assert_eq!(parsed.fingerprint, None);
    let meta = parsed.meta();
    assert_eq!(meta.seen, None);
    assert_eq!(meta.source, None);
    assert_eq!(meta.fingerprint, None);
}

#[test]
fn the_first_of_two_equal_keys_counts() {
    let text = r#"{"message_type":"certificate_update","data":{"leaf_cert":
        {"all_domains":["first.com"],"all_domains":["second.com"]},"seen":-3,"seen":9}}"#;
    let parsed = parse_text(text).unwrap().unwrap();
    assert_eq!(parsed.domains, vec!["first.com"]);
    assert_eq!(parsed.seen, Some((-3.0f64).to_bits()));
}

#[test]
fn truncated_json_is_an_error_not_a_panic() {
    let full = FULL.as_bytes();
    let cut = &full[..full.len() / 3];
    let err = parse_certstream_frame(cut).expect_err("truncated JSON must error");
    assert!(matches!(err, ParseError::Json(_)));
    assert!(err.message().starts_with("JSON parse error: EOF while parsing"));
}

#[test]
fn invalid_utf8_is_an_error_not_a_panic() {
    let bytes = [0xff, 0xfe, b'{', b'}'];
    let err = parse_certstream_frame(&bytes).expect_err("invalid UTF-8 must error");
    assert_eq!(err, ParseError::InvalidUtf8);
    assert_eq!(err.message(), "frame is not valid UTF-8");
}

#[test]
fn huge_san_list_is_fully_extracted() {
    let domains: Vec<String> = (0..200).map(|i| format!("san-{i}.bulk.example")).collect();
    let mut v: serde_json::Value = serde_json::from_str(FULL).unwrap();
    v["data"]["leaf_cert"]["all_domains"] = serde_json::Value::from(domains);
    let bytes = serde_json::to_vec(&v).unwrap();
    let parsed = parse_certstream_frame(&bytes)
        .unwrap()
        .expect("200 SANs should parse");
    assert_eq!(parsed.domains.len(), 200);
    assert_eq!(parsed.domains[0], "san-0.bulk.example");
    assert_eq!(parsed.domains[199], "san-199.bulk.example");
}

#[test]
fn wildcard_sans_are_returned_literally() {
    let parsed = parse_text(&with_domains("[\"*.google.com\", \"google.com\"]"))
        .unwrap()
        .unwrap();
    assert_eq!(parsed.domains, vec!["*.google.com", "google.com"]);
}

#[test]
fn escapes_in_names_are_resolved() {
    let parsed = parse_text(&with_domains(r#"["m\u00fcnich.example.com"]"#))
        .unwrap()
        .unwrap();
    assert_eq!(parsed.domains, vec!["münich.example.com"]);
}

#[test]
fn process_continues_after_a_bad_frame() {
    assert!(parse_text(&with_domains("\"a.com\"")).is_err());
    let ok = parse_text(FULL).expect("subsequent frame must still parse");
    assert!(ok.is_some());
}
