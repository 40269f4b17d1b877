use ct_firehose_filter::config::{status_bind, switch_setting};
use ct_firehose_filter::consumer::consumer_flag;
use ct_firehose_filter::{
    default_novelty_alerts, default_novelty_db, BatchError, Config, ConfigError, ConfigVars,
    EgressBackend, EgressError, IngressError, KeywordSourceError, PipelineConfig, PipelineError,
    Span, StartupError,
};

fn base() -> Config {
    Config {
        certstream_url: "wss://certstream.calidog.io/".into(),
        watchlist_file: "keywords.txt".into(),
        suppress_file: "suppress.txt".into(),
        glue_file: "glue.txt".into(),
        egress: EgressBackend::Stdout,
        novelty_db: default_novelty_db(),
        novelty_alerts: default_novelty_alerts(),
        novelty_require_db: false,
        pipeline: PipelineConfig::default(),
        watchlist_reload: None,
        progress_interval: Span::from_secs(30),
        watchlist_min_len: 0,
    }
}

#[test]
fn rejects_zero_channel_capacity() {
    let mut cfg = base();
    cfg.pipeline.channel_capacity = 0;
    assert!(cfg.validate().is_err());
}

#[test]
fn rejects_batch_over_limit() {
    let mut cfg = base();
    cfg.pipeline.batch_max_messages = 11;
    assert!(cfg.validate().is_err());
    assert_eq!(
        cfg.validate().unwrap_err().message(),
        "invalid config BATCH_MAX_MESSAGES: must be 1..=10"
    );
}

#[test]
fn rejects_reconnect_max_below_initial() {
    let mut cfg = base();
    cfg.pipeline.reconnect_delay = Span::from_secs(10);
    cfg.pipeline.reconnect_max_delay = Span::from_secs(1);
    assert!(cfg.validate().is_err());
}

#[test]
fn accepts_stdout() {
    assert!(base().validate().is_ok());
}

#[test]
fn accepts_novelty() {
    let mut cfg = base();
    cfg.egress = EgressBackend::Novelty;
    assert!(cfg.validate().is_ok());
}

#[test]
fn parses_egress_aliases() {
    assert_eq!(
        "stdout".parse::<EgressBackend>().unwrap(),
        EgressBackend::Stdout
    );
    assert_eq!(
        "log".parse::<EgressBackend>().unwrap(),
        EgressBackend::Stdout
    );
    assert_eq!(
        "novelty".parse::<EgressBackend>().unwrap(),
        EgressBackend::Novelty
    );
    assert_eq!(
        "local".parse::<EgressBackend>().unwrap(),
        EgressBackend::Novelty
    );
    assert!("sqs".parse::<EgressBackend>().is_err());
    assert!("kafka".parse::<EgressBackend>().is_err());
}

#[test]
fn accepts_defaults() {
    assert!(base().validate().is_ok());
}

#[test]
fn unknown_backend_is_named_in_quotes() {
    let err = EgressBackend::named(" Ka\"fka ").unwrap_err();
    assert_eq!(
        err.message(),
        "invalid config EGRESS: unknown backend \"ka\\\"fka\"; expected stdout or novelty"
    );
    assert_eq!(EgressBackend::named("  LOG\n").unwrap(), EgressBackend::Stdout);
    assert!(EgressBackend::Novelty.is_prod());
    assert!(!EgressBackend::Stdout.is_prod());
}

fn fault(change: fn(&mut Config)) -> String {
    let mut cfg = base();
    change(&mut cfg);
    cfg.validate().unwrap_err().message()
}

#[test]
fn every_bound_has_its_message() {
    assert_eq!(
        fault(|c| c.certstream_url = " \t".into()),
        "invalid config CERTSTREAM_URL: must not be empty"
    );
    assert_eq!(
        fault(|c| {
            c.egress = EgressBackend::Novelty;
            c.novelty_db = String::new();
        }),
        "invalid config NOVELTY_DB: must not be empty when EGRESS=novelty"
    );
    assert_eq!(
        fault(|c| {
            c.egress = EgressBackend::Novelty;
            c.novelty_alerts = String::new();
        }),
        "invalid config NOVELTY_ALERTS: must not be empty when EGRESS=novelty"
    );
    assert_eq!(
        fault(|c| c.pipeline.channel_capacity = 0),
        "invalid config CHANNEL_CAPACITY: must be >= 1"
    );
    assert_eq!(
        fault(|c| c.pipeline.batch_max_messages = 0),
        "invalid config BATCH_MAX_MESSAGES: must be 1..=10"
    );
    assert_eq!(
        fault(|c| c.pipeline.flush_interval = Span::zero()),
        "invalid config FLUSH_INTERVAL_SECS: must be > 0"
    );
    assert_eq!(
        fault(|c| c.pipeline.reconnect_delay = Span::zero()),
        "invalid config RECONNECT_DELAY_MS: must be > 0"
    );
    assert_eq!(
        fault(|c| c.pipeline.reconnect_max_delay = Span::from_millis(1)),
        "invalid config RECONNECT_MAX_DELAY_MS: must be >= RECONNECT_DELAY_MS"
    );
    assert_eq!(
        fault(|c| c.progress_interval = Span::zero()),
        "invalid config PROGRESS_INTERVAL_SECS: must be > 0"
    );
}

#[test]
fn no_settings_give_the_defaults() {
    let cfg = Config::from_env(&ConfigVars::default()).unwrap();
    assert_eq!(cfg, base());
}

#[test]
fn settings_are_read() {
    let vars = ConfigVars {
        certstream_url: Some("ws://127.0.0.1:1/".into()),
        keywords_file: Some("old-name.txt".into()),
        egress: Some("Novelty".into()),
        novelty_require_db: Some(" Yes ".into()),
        channel_capacity: Some("7".into()),
        batch_max_messages: Some("+3".into()),
        flush_interval_secs: Some("9".into()),
        reconnect_delay_ms: Some("15".into()),
        reconnect_max_delay_ms: Some("0015".into()),
        progress_interval_secs: Some("1".into()),
        keyword_reload_secs: Some("60".into()),
        ..ConfigVars::default()
    };
    let cfg = Config::from_env(&vars).unwrap();
    assert_eq!(cfg.certstream_url, "ws://127.0.0.1:1/");
    assert_eq!(cfg.watchlist_file, "old-name.txt");
    assert_eq!(cfg.egress, EgressBackend::Novelty);
    assert!(cfg.novelty_require_db);
    assert_eq!(cfg.pipeline.channel_capacity, 7);
    assert_eq!(cfg.pipeline.batch_max_messages, 3);
    assert_eq!(cfg.pipeline.flush_interval, Span::from_secs(9));
    assert_eq!(cfg.pipeline.reconnect_delay, Span::from_millis(15));
    assert_eq!(cfg.pipeline.reconnect_max_delay, Span::from_millis(15));
    assert_eq!(cfg.progress_interval, Span::from_secs(1));
    assert_eq!(cfg.watchlist_reload, Some(Span::from_secs(60)));
    assert_eq!(cfg.watchlist_min_len, 100_000);

    let both = ConfigVars {
        watchlist_file: Some("new-name.txt".into()),
        watchlist_reload_secs: Some("0".into()),
        watchlist_min_len: Some("5".into()),
        novelty_require_db: Some("off".into()),
        ..vars
    };
    let cfg = Config::from_env(&both).unwrap();
    assert_eq!(cfg.watchlist_file, "new-name.txt");
    assert_eq!(cfg.watchlist_reload, None);
    assert_eq!(cfg.watchlist_min_len, 5);
    assert!(!cfg.novelty_require_db);
}

#[test]
fn the_first_bad_setting_is_the_error() {
    let vars = ConfigVars {
        channel_capacity: Some("many".into()),
        flush_interval_secs: Some("".into()),
        ..ConfigVars::default()
    };
    let err = Config::from_env(&vars).unwrap_err();
    assert_eq!(
        err.message(),
        "invalid config CHANNEL_CAPACITY: invalid digit found in string"
    );
    let vars = ConfigVars {
        flush_interval_secs: Some("".into()),
        ..ConfigVars::default()
    };
    assert_eq!(
        Config::from_env(&vars).unwrap_err().message(),
        "invalid config FLUSH_INTERVAL_SECS: cannot parse integer from empty string"
    );
    let vars = ConfigVars {
        watchlist_reload_secs: Some("18446744073709551616".into()),
        ..ConfigVars::default()
    };
    assert_eq!(
        Config::from_env(&vars).unwrap_err().message(),
        "invalid config WATCHLIST_RELOAD_SECS: number too large to fit in target type"
    );
    let vars = ConfigVars {
        egress: Some("sqs".into()),
        channel_capacity: Some("many".into()),
        ..ConfigVars::default()
    };
    assert!(matches!(
        Config::from_env(&vars).unwrap_err(),
        StartupError::Config(ConfigError::InvalidValue { key: "EGRESS", .. })
    ));
    let vars = ConfigVars {
        channel_capacity: Some("0".into()),
        ..ConfigVars::default()
    };
    assert_eq!(
        Config::from_env(&vars).unwrap_err().message(),
        "invalid config CHANNEL_CAPACITY: must be >= 1"
    );
}

#[test]
fn errors_have_their_texts() {
    assert_eq!(
        ConfigError::MissingRequired("X").message(),
        "missing required config: X"
    );
    assert_eq!(
        StartupError::Watchlist("gone".into()).message(),
        "failed to load watchlist: gone"
    );
    assert_eq!(
        StartupError::Aws("no region".into()).message(),
        "AWS client init failed: no region"
    );
    assert_eq!(
        PipelineError::Ingress(IngressError::Connect("refused".into())).message(),
        "websocket connect failed: refused"
    );
    assert_eq!(
        PipelineError::Ingress(IngressError::Io("reset".into())).message(),
        "websocket I/O error: reset"
    );
    assert_eq!(
        PipelineError::Batch(BatchError::ChannelClosed).message(),
        "match event channel closed"
    );
    assert_eq!(
        PipelineError::Batch(BatchError::Egress(EgressError::EventTooLarge)).message(),
        "serialized match event exceeds the 256 KiB SQS batch limit"
    );
    assert_eq!(
        PipelineError::Keywords(KeywordSourceError::Load("k.txt: gone".into())).message(),
        "failed to load keywords: k.txt: gone"
    );
}

#[test]
fn a_short_watchlist_is_refused_in_production() {
    let mut cfg = base();
    cfg.watchlist_min_len = 100_000;
    assert!(cfg.check_watchlist(0).is_ok());
    cfg.egress = EgressBackend::Novelty;
    assert!(cfg.check_watchlist(100_000).is_ok());
    assert_eq!(
        cfg.check_watchlist(7).unwrap_err().message(),
        "failed to load watchlist: EGRESS=Novelty requires watchlist len >= 100000 (got 7); \
         mount full domains.txt via WATCHLIST_FILE / WATCHLIST_HOST_PATH — demo keywords.txt \
         is not production. Set WATCHLIST_MIN_LEN=0 only for deliberate tiny-list smoke tests."
    );
}

#[test]
fn switches_and_the_status_address_are_read() {
    let some = |s: &str| Some(s.to_string());
    assert!(switch_setting(&None, true));
    assert!(!switch_setting(&None, false));
    assert!(!switch_setting(&some("  "), true));
    assert!(!switch_setting(&some("OFF"), true));
    assert!(switch_setting(&some("1"), false));
    assert!(consumer_flag(&None, true));
    assert!(consumer_flag(&some(""), false));
    assert!(!consumer_flag(&some(" No "), true));
    assert!(consumer_flag(&some("off"), true));
    assert_eq!(status_bind(&None), None);
    assert_eq!(status_bind(&some(" Off ")), None);
    assert_eq!(status_bind(&some("")), None);
    assert_eq!(status_bind(&some(" 0.0.0.0:9100 ")), some("0.0.0.0:9100"));
}
