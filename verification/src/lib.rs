//! Edge filter for a stream of certificate transparency entries.
//!
//! Frames are read, their names held against a watchlist of registrable domains, matches
//! archived and batched, and first-seen coalitions of brands turned into alerts. The crate
//! holds the decisions; reading sockets and files, and writing them, is up to its user.

pub mod alert_laws;
pub mod alerts_file;
pub mod archive;
pub mod batch;
pub mod batch_laws;
pub mod chunks;
pub mod config;
pub mod consumer;
pub mod dates;
pub mod egress;
pub mod error;
pub mod event;
pub mod filter;
pub mod ingress;
pub mod json;
pub mod keywords;
pub mod metrics;
pub mod names;
pub mod novelty;
pub mod novelty_alert;
pub mod novelty_laws;
pub mod novelty_sink;
pub mod numbers;
pub mod parse;
pub mod pipeline;
pub mod span;
pub mod status;
pub mod text;
pub mod text_laws;
pub mod watchlist;
pub mod watchlist_laws;

pub use alerts_file::{
    AlertsFileConfig, AlertsFileVars, DEFAULT_ALERTS_MAX_BYTES, DEFAULT_ALERTS_MAX_TOTAL_BYTES,
};
pub use archive::{
    archive_disk_warn, compact_all_domains, default_archive_dir, sha256_hex,
    write_config_snapshot, ArchiveConfig, ArchiveVars, ConfigProvenance, MatchArchive,
    MatchArchiveEvent, SnapshotVars, DEFAULT_ARCHIVE_DISK_WARN_BYTES, DEFAULT_ARCHIVE_LIVE_NAME,
    DEFAULT_ARCHIVE_MAX_ALL_DOMAINS, DEFAULT_ARCHIVE_MAX_BYTES, DEFAULT_ARCHIVE_MAX_TOTAL_BYTES,
};
pub use batch::{
    BatchAction, BatchConfig, BatchInput, Batcher, BATCH_MAX_BYTES, BATCH_MAX_MESSAGES,
};
pub use config::{Config, ConfigVars, EgressBackend};
pub use dates::{unix_to_instant, utc_now_instant};
pub use egress::{RecordingSink, StdoutSink};
pub use error::{
    BatchError, ConfigError, EgressError, IngressError, KeywordSourceError, ParseError,
    PipelineError, StartupError,
};
pub use event::{event_ts, FrameMeta, MatchEvent};
pub use filter::{HotAutomaton, KeywordAutomaton};
pub use ingress::{next_backoff, with_jitter, ReconnectPolicy, CLIENT_PING_SECS};
pub use keywords::{FileKeywordSource, KeywordSource, MemoryKeywordSource};
pub use metrics::{MetricsSnapshot, PipelineMetrics};
pub use names::NameSet;
pub use novelty::{NoveltyStore, RowChange, StoreError};
pub use novelty_alert::{
    dedupe_key, effective_san_count, filter_brands, process_match, NoveltyAlert,
    NoveltyCandidate, NoveltyKind, NoveltyPolicy, PolicyVars, ProcessStats, EMPTY_SHA1_FP,
    MATCH_ARCHIVE_SCHEMA_VERSION,
};
pub use novelty_sink::{default_novelty_alerts, default_novelty_db, NoveltySink};
pub use parse::{parse_certstream_frame, LeafDomains};
pub use pipeline::{MatchEnqueue, PipelineConfig, TryProcessResult, DEFAULT_CHANNEL_CAPACITY};
pub use span::Span;
pub use status::{KeepUpHint, ProductHint, StatusResponse};
pub use watchlist::{
    build_watchlist, load_domain_file, load_suppress_and_glue, load_suppress_file,
    parse_domain_lines, DomainWatchlist, HotWatchlist, InspectOutcome,
};
