//! Process configuration, read from settings by name.
use vstd::prelude::*;

use crate::batch::BATCH_MAX_MESSAGES;
use crate::error::{ConfigError, ConfigErrorView, StartupError};
use crate::numbers::{decimal, decimal_text, number_in, parse_up_to};
use crate::pipeline::{PipelineConfig, DEFAULT_CHANNEL_CAPACITY};
use crate::span::{millis, seconds, Span};
use crate::text::{lowered, opt_text, same_text, trimmed};

verus! {

pub const DEFAULT_CERTSTREAM_URL: &'static str = "wss://certstream.calidog.io/";

pub const DEFAULT_WATCHLIST_FILE: &'static str = "keywords.txt";

pub const DEFAULT_SUPPRESS_FILE: &'static str = "suppress.txt";

pub const DEFAULT_GLUE_FILE: &'static str = "glue.txt";

pub const DEFAULT_NOVELTY_DB: &'static str = "/var/lib/ct-firehose-filter/novelty.db";

pub const DEFAULT_NOVELTY_ALERTS: &'static str = "/var/lib/ct-firehose-filter/alerts.jsonl";

pub const DEFAULT_FLUSH_SECS: u64 = 5;

pub const DEFAULT_RECONNECT_MS: u64 = 2_000;

pub const DEFAULT_RECONNECT_MAX_MS: u64 = 60_000;

pub const DEFAULT_PROGRESS_SECS: u64 = 30;

/// Smallest watchlist in production, so that a demo list does not get there by accident.
pub const DEFAULT_PROD_WATCHLIST_MIN_LEN: usize = 100_000;

/// Bytes of a batch.
pub const PIPELINE_BATCH_BYTES: usize = 262_144;

/// Where batches go.
#[derive(Clone, Copy, Debug, PartialEq, Eq, Structural)]
pub enum EgressBackend {
    /// JSON lines on standard output, for local use.
    Stdout,
    /// Novelty alerts with durable memory, for production.
    Novelty,
}

/// What std's `Debug` prints for a string: the string in quotes, with escapes.
pub uninterp spec fn quoted(s: Seq<char>) -> Seq<char>;

/// `format!` with the `Debug` of `str`, which depends on the string alone.
#[verifier::external_body]
fn quote(s: &str) -> (r: String)
    ensures
        r@ == quoted(s@),
{
    format!("{s:?}")
}

/// The error for an unknown backend, given the name in quotes.
pub open spec fn unknown_backend(name_in_quotes: Seq<char>) -> ConfigErrorView {
    ConfigErrorView::InvalidValue {
        key: "EGRESS"@,
        message: "unknown backend "@ + name_in_quotes + "; expected stdout or novelty"@,
    }
}

/// The backend of the given name, in either case and with whitespace around it.
pub open spec fn backend_named(s: Seq<char>) -> Result<EgressBackend, ConfigErrorView> {
    let name = lowered(trimmed(s));
    if name == "stdout"@ || name == "log"@ {
        Ok(EgressBackend::Stdout)
    } else if name == "novelty"@ || name == "local"@ {
        Ok(EgressBackend::Novelty)
    } else {
        Err(unknown_backend(quoted(name)))
    }
}

/// What a result whose error is a [`ConfigError`] says.
pub open spec fn config_result<T>(r: Result<T, ConfigError>) -> Result<T, ConfigErrorView> {
    match r {
        Ok(v) => Ok(v),
        Err(e) => Err(e@),
    }
}

/// The error for an unknown backend, given the name in quotes.
pub fn unknown_backend_error(name_in_quotes: &str) -> (r: ConfigError)
    ensures
        r@ == unknown_backend(name_in_quotes@),
{
    let mut message = "unknown backend ".to_owned();
    message.append(name_in_quotes);
    message.append("; expected stdout or novelty");
    ConfigError::InvalidValue { key: "EGRESS", message }
}

impl EgressBackend {
    /// Whether this is the production backend.
    pub fn is_prod(&self) -> (r: bool)
        ensures
            r == (*self == EgressBackend::Novelty),
    {
        match self {
            EgressBackend::Novelty => true,
            EgressBackend::Stdout => false,
        }
    }

    /// The backend of the given name.
    pub fn named(s: &str) -> (r: Result<Self, ConfigError>)
        ensures
            config_result(r) == backend_named(s@),
    {
        let name = s.trim().to_ascii_lowercase();
        let n = name.as_str();
        if same_text(n, "stdout") || same_text(n, "log") {
            Ok(EgressBackend::Stdout)
        } else if same_text(n, "novelty") || same_text(n, "local") {
            Ok(EgressBackend::Novelty)
        } else {
            Err(unknown_backend_error(quote(n).as_str()))
        }
    }
}

impl std::str::FromStr for EgressBackend {
    type Err = ConfigError;

    fn from_str(s: &str) -> (r: Result<Self, ConfigError>)
        ensures
            config_result(r) == backend_named(s@),
    {
        EgressBackend::named(s)
    }
}

/// The settings as given. Each field is the variable of the same name in capitals.
#[derive(Clone, Debug, Default)]
pub struct ConfigVars {
    pub certstream_url: Option<String>,
    pub watchlist_file: Option<String>,
    pub keywords_file: Option<String>,
    pub suppress_file: Option<String>,
    pub glue_file: Option<String>,
    pub egress: Option<String>,
    pub novelty_db: Option<String>,
    pub novelty_alerts: Option<String>,
    pub novelty_require_db: Option<String>,
    pub channel_capacity: Option<String>,
    pub batch_max_messages: Option<String>,
    pub flush_interval_secs: Option<String>,
    pub reconnect_delay_ms: Option<String>,
    pub reconnect_max_delay_ms: Option<String>,
    pub progress_interval_secs: Option<String>,
    pub watchlist_min_len: Option<String>,
    pub watchlist_reload_secs: Option<String>,
    pub keyword_reload_secs: Option<String>,
}

/// Process configuration.
#[derive(Clone, Debug, PartialEq, Eq)]
pub struct Config {
    pub certstream_url: String,
    pub watchlist_file: String,
    pub suppress_file: String,
    pub glue_file: String,
    pub egress: EgressBackend,
    pub novelty_db: String,
    pub novelty_alerts: String,
    pub novelty_require_db: bool,
    pub pipeline: PipelineConfig,
    pub watchlist_reload: Option<Span>,
    pub progress_interval: Span,
    /// In production, the smallest watchlist that is accepted.
    pub watchlist_min_len: usize,
}

/// What a [`Config`] says.
#[verifier::ext_equal]
pub struct ConfigView {
    pub certstream_url: Seq<char>,
    pub watchlist_file: Seq<char>,
    pub suppress_file: Seq<char>,
    pub glue_file: Seq<char>,
    pub egress: EgressBackend,
    pub novelty_db: Seq<char>,
    pub novelty_alerts: Seq<char>,
    pub novelty_require_db: bool,
    pub channel_capacity: usize,
    pub batch_max_messages: usize,
    pub batch_max_bytes: usize,
    pub flush_interval: nat,
    pub reconnect_delay: nat,
    pub reconnect_max_delay: nat,
    pub watchlist_reload: Option<nat>,
    pub progress_interval: nat,
    pub watchlist_min_len: usize,
}

impl View for Config {
    type V = ConfigView;

    open spec fn view(&self) -> ConfigView {
        ConfigView {
            certstream_url: self.certstream_url@,
            watchlist_file: self.watchlist_file@,
            suppress_file: self.suppress_file@,
            glue_file: self.glue_file@,
            egress: self.egress,
            novelty_db: self.novelty_db@,
            novelty_alerts: self.novelty_alerts@,
            novelty_require_db: self.novelty_require_db,
            channel_capacity: self.pipeline.channel_capacity,
            batch_max_messages: self.pipeline.batch_max_messages,
            batch_max_bytes: self.pipeline.batch_max_bytes,
            flush_interval: self.pipeline.flush_interval@,
            reconnect_delay: self.pipeline.reconnect_delay@,
            reconnect_max_delay: self.pipeline.reconnect_max_delay@,
            watchlist_reload: match self.watchlist_reload {
                Some(d) => Some(d@),
                None => None,
            },
            progress_interval: self.progress_interval@,
            watchlist_min_len: self.watchlist_min_len,
        }
    }
}

/// The error for a value that is out of bounds.
pub open spec fn invalid(key: Seq<char>, message: Seq<char>) -> ConfigErrorView {
    ConfigErrorView::InvalidValue { key, message }
}

/// What is wrong with a configuration: the first of the bounds that it breaks.
pub open spec fn config_fault(c: ConfigView) -> Option<ConfigErrorView> {
    if trimmed(c.certstream_url).len() == 0 {
        Some(invalid("CERTSTREAM_URL"@, "must not be empty"@))
    } else if c.egress == EgressBackend::Novelty && c.novelty_db.len() == 0 {
        Some(invalid("NOVELTY_DB"@, "must not be empty when EGRESS=novelty"@))
    } else if c.egress == EgressBackend::Novelty && c.novelty_alerts.len() == 0 {
        Some(invalid("NOVELTY_ALERTS"@, "must not be empty when EGRESS=novelty"@))
    } else if c.channel_capacity == 0 {
        Some(invalid("CHANNEL_CAPACITY"@, "must be >= 1"@))
    } else if c.batch_max_messages == 0 || c.batch_max_messages > BATCH_MAX_MESSAGES {
        Some(invalid("BATCH_MAX_MESSAGES"@, "must be 1..=10"@))
    } else if c.flush_interval == 0 {
        Some(invalid("FLUSH_INTERVAL_SECS"@, "must be > 0"@))
    } else if c.reconnect_delay == 0 {
        Some(invalid("RECONNECT_DELAY_MS"@, "must be > 0"@))
    } else if c.reconnect_max_delay < c.reconnect_delay {
        Some(invalid("RECONNECT_MAX_DELAY_MS"@, "must be >= RECONNECT_DELAY_MS"@))
    } else if c.progress_interval == 0 {
        Some(invalid("PROGRESS_INTERVAL_SECS"@, "must be > 0"@))
    } else {
        None
    }
}

/// A setting, or the default where it is not given.
pub open spec fn text_or(raw: Option<String>, default: Seq<char>) -> Seq<char> {
    match raw {
        Some(s) => s@,
        None => default,
    }
}

/// A setting that is a number, or the default where it is not given.
pub open spec fn number_or(
    raw: Option<String>,
    key: Seq<char>,
    max: nat,
    default: nat,
) -> Result<nat, ConfigErrorView> {
    match raw {
        None => Ok(default),
        Some(s) => match number_in(s@, max) {
            Ok(n) => Ok(n),
            Err(e) => Err(invalid(key, e.spec_message())),
        },
    }
}

/// Whether a switch is on: as by default where it is not given, and off where it is empty or
/// says no.
pub open spec fn switch_on(raw: Option<String>, default: bool) -> bool {
    match raw {
        None => default,
        Some(s) => {
            let t = lowered(trimmed(s@));
            !(t.len() == 0 || t == "0"@ || t == "false"@ || t == "no"@ || t == "off"@)
        },
    }
}

/// Of two settings the first that is given.
pub open spec fn first_given(a: Option<String>, b: Option<String>) -> Option<String> {
    match a {
        Some(s) => Some(s),
        None => b,
    }
}

/// The first error of a list of results, in the order in which settings are read.
pub open spec fn first_error(list: Seq<Result<nat, ConfigErrorView>>) -> Option<ConfigErrorView>
    decreases list.len(),
{
    if list.len() == 0 {
        None
    } else {
        match list[0] {
            Err(e) => Some(e),
            Ok(_) => first_error(list.drop_first()),
        }
    }
}

/// The numbers among the settings as they are read, in order.
pub open spec fn numbers_read(vars: ConfigVars, egress: EgressBackend) -> Seq<
    Result<nat, ConfigErrorView>,
> {
    seq![
        number_or(
            vars.channel_capacity,
            "CHANNEL_CAPACITY"@,
            usize::MAX as nat,
            DEFAULT_CHANNEL_CAPACITY as nat,
        ),
        number_or(
            vars.batch_max_messages,
            "BATCH_MAX_MESSAGES"@,
            usize::MAX as nat,
            BATCH_MAX_MESSAGES as nat,
        ),
        number_or(
            vars.flush_interval_secs,
            "FLUSH_INTERVAL_SECS"@,
            u64::MAX as nat,
            DEFAULT_FLUSH_SECS as nat,
        ),
        number_or(
            vars.reconnect_delay_ms,
            "RECONNECT_DELAY_MS"@,
            u64::MAX as nat,
            DEFAULT_RECONNECT_MS as nat,
        ),
        number_or(
            vars.reconnect_max_delay_ms,
            "RECONNECT_MAX_DELAY_MS"@,
            u64::MAX as nat,
            DEFAULT_RECONNECT_MAX_MS as nat,
        ),
        number_or(
            vars.progress_interval_secs,
            "PROGRESS_INTERVAL_SECS"@,
            u64::MAX as nat,
            DEFAULT_PROGRESS_SECS as nat,
        ),
        number_or(
            vars.watchlist_min_len,
            "WATCHLIST_MIN_LEN"@,
            usize::MAX as nat,
            if egress == EgressBackend::Novelty {
                DEFAULT_PROD_WATCHLIST_MIN_LEN as nat
            } else {
                0
            },
        ),
        number_or(
            first_given(vars.watchlist_reload_secs, vars.keyword_reload_secs),
            "WATCHLIST_RELOAD_SECS"@,
            u64::MAX as nat,
            0,
        ),
    ]
}

/// The configuration that the settings say, once they are all read.
pub open spec fn assembled(
    vars: ConfigVars,
    egress: EgressBackend,
    n: Seq<Result<nat, ConfigErrorView>>,
) -> ConfigView {
    ConfigView {
        certstream_url: text_or(vars.certstream_url, DEFAULT_CERTSTREAM_URL@),
        watchlist_file: text_or(
            first_given(vars.watchlist_file, vars.keywords_file),
            DEFAULT_WATCHLIST_FILE@,
        ),
        suppress_file: text_or(vars.suppress_file, DEFAULT_SUPPRESS_FILE@),
        glue_file: text_or(vars.glue_file, DEFAULT_GLUE_FILE@),
        egress,
        novelty_db: text_or(vars.novelty_db, DEFAULT_NOVELTY_DB@),
        novelty_alerts: text_or(vars.novelty_alerts, DEFAULT_NOVELTY_ALERTS@),
        novelty_require_db: switch_on(vars.novelty_require_db, false),
        channel_capacity: n[0]->Ok_0 as usize,
        batch_max_messages: n[1]->Ok_0 as usize,
        batch_max_bytes: PIPELINE_BATCH_BYTES,
        flush_interval: seconds(n[2]->Ok_0),
        reconnect_delay: millis(n[3]->Ok_0),
        reconnect_max_delay: millis(n[4]->Ok_0),
        watchlist_reload: if n[7]->Ok_0 > 0 {
            Some(seconds(n[7]->Ok_0))
        } else {
            None
        },
        progress_interval: seconds(n[5]->Ok_0),
        watchlist_min_len: n[6]->Ok_0 as usize,
    }
}

/// The configuration that the settings say: the backend is read first, then the numbers in
/// order, and last the bounds are held to.
pub open spec fn configured(vars: ConfigVars) -> Result<ConfigView, ConfigErrorView> {
    let egress = match vars.egress {
        Some(s) => backend_named(s@),
        None => Ok(EgressBackend::Stdout),
    };
    match egress {
        Err(e) => Err(e),
        Ok(backend) => {
            let n = numbers_read(vars, backend);
            match first_error(n) {
                Some(e) => Err(e),
                None => {
                    let c = assembled(vars, backend, n);
                    match config_fault(c) {
                        Some(e) => Err(e),
                        None => Ok(c),
                    }
                },
            }
        },
    }
}

fn invalid_value(key: &'static str, message: &str) -> (r: ConfigError)
    ensures
        r@ == invalid(key@, message@),
{
    ConfigError::InvalidValue { key, message: message.to_owned() }
}

fn text_setting(raw: &Option<String>, default: &str) -> (r: String)
    ensures
        r@ == text_or(*raw, default@),
{
    match raw {
        Some(s) => s.clone(),
        None => default.to_owned(),
    }
}

fn number_setting(raw: &Option<String>, key: &'static str, max: u64, default: u64) -> (r: Result<
    u64,
    ConfigError,
>)
    requires
        default <= max,
    ensures
        match r {
            Ok(n) => n <= max && number_or(*raw, key@, max as nat, default as nat) == Ok::<
                nat,
                ConfigErrorView,
            >(n as nat),
            Err(e) => number_or(*raw, key@, max as nat, default as nat) == Err::<
                nat,
                ConfigErrorView,
            >(e@),
        },
{
    match raw {
        None => Ok(default),
        Some(s) => match parse_up_to(s.as_str(), max) {
            Ok(n) => Ok(n),
            Err(e) => Err(invalid_value(key, e.message())),
        },
    }
}

/// Whether a switch is on.
pub fn switch_setting(raw: &Option<String>, default: bool) -> (r: bool)
    ensures
        r == switch_on(*raw, default),
{
    match raw {
        None => default,
        Some(s) => {
            let t = s.as_str().trim().to_ascii_lowercase();
            let t = t.as_str();
            !(t.is_empty() || same_text(t, "0") || same_text(t, "false") || same_text(t, "no")
                || same_text(t, "off"))
        },
    }
}

impl Config {
    /// Reads the settings. Fails on the first one that is not what it should be, and then on
    /// the first bound that is broken.
    pub fn from_env(vars: &ConfigVars) -> (r: Result<Self, StartupError>)
        ensures
            match r {
                Ok(c) => configured(*vars) == Ok::<ConfigView, ConfigErrorView>(c@),
                Err(e) => e is Config && configured(*vars) == Err::<ConfigView, ConfigErrorView>(
                    e->Config_0@,
                ),
            },
    {
        match Config::read(vars) {
            Ok(c) => Ok(c),
            Err(e) => Err(StartupError::Config(e)),
        }
    }

    fn read(vars: &ConfigVars) -> (r: Result<Self, ConfigError>)
        ensures
            match r {
                Ok(c) => configured(*vars) == Ok::<ConfigView, ConfigErrorView>(c@),
                Err(e) => configured(*vars) == Err::<ConfigView, ConfigErrorView>(e@),
            },
    {
        let egress = match &vars.egress {
            Some(s) => match EgressBackend::named(s.as_str()) {
                Ok(b) => b,
                Err(e) => {
                    return Err(e);
                },
            },
            None => EgressBackend::Stdout,
        };
        let ghost n = numbers_read(*vars, egress);
        proof {
            lemma_first_error(n);
        }
        let channel_capacity: u64 = match number_setting(
            &vars.channel_capacity,
            "CHANNEL_CAPACITY",
            usize::MAX as u64,
            DEFAULT_CHANNEL_CAPACITY as u64,
        ) {
            Ok(v) => v,
            Err(e) => {
                return Err(e);
            },
        };
        let batch_max_messages: u64 = match number_setting(
            &vars.batch_max_messages,
            "BATCH_MAX_MESSAGES",
            usize::MAX as u64,
            BATCH_MAX_MESSAGES as u64,
        ) {
            Ok(v) => v,
            Err(e) => {
                return Err(e);
            },
        };
        let flush_secs: u64 = match number_setting(
            &vars.flush_interval_secs,
            "FLUSH_INTERVAL_SECS",
            u64::MAX,
            DEFAULT_FLUSH_SECS,
        ) {
            Ok(v) => v,
            Err(e) => {
                return Err(e);
            },
        };
        let reconnect_ms: u64 = match number_setting(
            &vars.reconnect_delay_ms,
            "RECONNECT_DELAY_MS",
            u64::MAX,
            DEFAULT_RECONNECT_MS,
        ) {
            Ok(v) => v,
            Err(e) => {
                return Err(e);
            },
        };
        let reconnect_max_ms: u64 = match number_setting(
            &vars.reconnect_max_delay_ms,
            "RECONNECT_MAX_DELAY_MS",
            u64::MAX,
            DEFAULT_RECONNECT_MAX_MS,
        ) {
            Ok(v) => v,
            Err(e) => {
                return Err(e);
            },
        };
        let progress_secs: u64 = match number_setting(
            &vars.progress_interval_secs,
            "PROGRESS_INTERVAL_SECS",
            u64::MAX,
            DEFAULT_PROGRESS_SECS,
        ) {
            Ok(v) => v,
            Err(e) => {
                return Err(e);
            },
        };
        let least: usize = if egress.is_prod() {
            DEFAULT_PROD_WATCHLIST_MIN_LEN
        } else {
            0
        };
        let watchlist_min_len: u64 = match number_setting(
            &vars.watchlist_min_len,
            "WATCHLIST_MIN_LEN",
            usize::MAX as u64,
            least as u64,
        ) {
            Ok(v) => v,
            Err(e) => {
                return Err(e);
            },
        };
        let reload = match &vars.watchlist_reload_secs {
            Some(_) => &vars.watchlist_reload_secs,
            None => &vars.keyword_reload_secs,
        };
        let reload_secs: u64 = match number_setting(reload, "WATCHLIST_RELOAD_SECS", u64::MAX, 0) {
            Ok(v) => v,
            Err(e) => {
                return Err(e);
            },
        };
        let watchlist_file = match &vars.watchlist_file {
            Some(_) => &vars.watchlist_file,
            None => &vars.keywords_file,
        };
        let c = Config {
            certstream_url: text_setting(&vars.certstream_url, DEFAULT_CERTSTREAM_URL),
            watchlist_file: text_setting(watchlist_file, DEFAULT_WATCHLIST_FILE),
            suppress_file: text_setting(&vars.suppress_file, DEFAULT_SUPPRESS_FILE),
            glue_file: text_setting(&vars.glue_file, DEFAULT_GLUE_FILE),
            egress,
            novelty_db: text_setting(&vars.novelty_db, DEFAULT_NOVELTY_DB),
            novelty_alerts: text_setting(&vars.novelty_alerts, DEFAULT_NOVELTY_ALERTS),
            novelty_require_db: switch_setting(&vars.novelty_require_db, false),
            pipeline: PipelineConfig {
                channel_capacity: channel_capacity as usize,
                batch_max_messages: batch_max_messages as usize,
                batch_max_bytes: PIPELINE_BATCH_BYTES,
                flush_interval: Span::from_secs(flush_secs),
                reconnect_delay: Span::from_millis(reconnect_ms),
                reconnect_max_delay: Span::from_millis(reconnect_max_ms),
            },
            watchlist_reload: if reload_secs > 0 {
                Some(Span::from_secs(reload_secs))
            } else {
                None
            },
            progress_interval: Span::from_secs(progress_secs),
            watchlist_min_len: watchlist_min_len as usize,
        };
        assert(first_error(n) is None);
        assert(c@ == assembled(*vars, egress, n));
        match c.validate() {
            Ok(()) => Ok(c),
            Err(e) => Err(e),
        }
    }

    /// Holds the configuration to its bounds.
    pub fn validate(&self) -> (r: Result<(), ConfigError>)
        ensures
            match r {
                Ok(_) => config_fault(self@) is None,
                Err(e) => config_fault(self@) == Some(e@),
            },
    {
        if self.certstream_url.as_str().trim().is_empty() {
            return Err(invalid_value("CERTSTREAM_URL", "must not be empty"));
        }
        if self.egress.is_prod() {
            if self.novelty_db.as_str().is_empty() {
                return Err(invalid_value("NOVELTY_DB", "must not be empty when EGRESS=novelty"));
            }
            if self.novelty_alerts.as_str().is_empty() {
                return Err(
                    invalid_value("NOVELTY_ALERTS", "must not be empty when EGRESS=novelty"),
                );
            }
        }
        if self.pipeline.channel_capacity == 0 {
            return Err(invalid_value("CHANNEL_CAPACITY", "must be >= 1"));
        }
        if self.pipeline.batch_max_messages == 0 || self.pipeline.batch_max_messages
            > BATCH_MAX_MESSAGES {
            return Err(invalid_value("BATCH_MAX_MESSAGES", "must be 1..=10"));
        }
        if self.pipeline.flush_interval.is_zero() {
            return Err(invalid_value("FLUSH_INTERVAL_SECS", "must be > 0"));
        }
        if self.pipeline.reconnect_delay.is_zero() {
            return Err(invalid_value("RECONNECT_DELAY_MS", "must be > 0"));
        }
        if self.pipeline.reconnect_max_delay.shorter_than(self.pipeline.reconnect_delay) {
            return Err(invalid_value("RECONNECT_MAX_DELAY_MS", "must be >= RECONNECT_DELAY_MS"));
        }
        if self.progress_interval.is_zero() {
            return Err(invalid_value("PROGRESS_INTERVAL_SECS", "must be > 0"));
        }
        Ok(())
    }
}

/// What is wrong with a watchlist of the given length: in production it has to have enough
/// names.
pub open spec fn watchlist_fault(c: ConfigView, len: usize) -> Option<Seq<char>> {
    if c.egress == EgressBackend::Novelty && len < c.watchlist_min_len {
        Some(
            "EGRESS=Novelty requires watchlist len >= "@ + decimal(c.watchlist_min_len as nat)
                + " (got "@ + decimal(len as nat) + "); mount full domains.txt via "@
                + "WATCHLIST_FILE / WATCHLIST_HOST_PATH — demo keywords.txt is not production. "@
                + "Set WATCHLIST_MIN_LEN=0 only for deliberate tiny-list smoke tests."@,
        )
    } else {
        None
    }
}

impl Config {
    /// Refuses a watchlist that is too short for production.
    pub fn check_watchlist(&self, len: usize) -> (r: Result<(), StartupError>)
        ensures
            match r {
                Ok(_) => watchlist_fault(self@, len) is None,
                Err(e) => e is Watchlist && watchlist_fault(self@, len) == Some(
                    e->Watchlist_0@,
                ),
            },
    {
        if self.egress.is_prod() && len < self.watchlist_min_len {
            let mut m = "EGRESS=Novelty requires watchlist len >= ".to_owned();
            m.append(decimal_text(self.watchlist_min_len as u128).as_str());
            m.append(" (got ");
            m.append(decimal_text(len as u128).as_str());
            m.append("); mount full domains.txt via ");
            m.append(
                "WATCHLIST_FILE / WATCHLIST_HOST_PATH — demo keywords.txt is not production. ",
            );
            m.append("Set WATCHLIST_MIN_LEN=0 only for deliberate tiny-list smoke tests.");
            return Err(StartupError::Watchlist(m));
        }
        Ok(())
    }
}

/// The address of the status page: none where it is not given, empty, or `off`.
pub open spec fn status_address(raw: Option<Seq<char>>) -> Option<Seq<char>> {
    match raw {
        None => None,
        Some(s) => {
            let t = trimmed(s);
            if t.len() == 0 || lowered(t) == "off"@ {
                None
            } else {
                Some(t)
            }
        },
    }
}

/// The address of the status page, as `STATUS_BIND` gives it.
pub fn status_bind(raw: &Option<String>) -> (r: Option<String>)
    ensures
        opt_text(r) == status_address(opt_text(*raw)),
{
    match raw {
        None => None,
        Some(s) => {
            let t = s.as_str().trim();
            if t.is_empty() || same_text(t.to_ascii_lowercase().as_str(), "off") {
                None
            } else {
                Some(t.to_owned())
            }
        },
    }
}

/// A configuration is accepted exactly when it is within all of its bounds.
pub proof fn law_config_bounds(c: ConfigView)
    ensures
        config_fault(c) is None <==> {
            &&& trimmed(c.certstream_url).len() > 0
            &&& c.egress == EgressBackend::Novelty ==> c.novelty_db.len() > 0
                && c.novelty_alerts.len() > 0
            &&& c.channel_capacity >= 1
            &&& 1 <= c.batch_max_messages <= BATCH_MAX_MESSAGES
            &&& c.flush_interval > 0
            &&& 0 < c.reconnect_delay <= c.reconnect_max_delay
            &&& c.progress_interval > 0
        },
{
}

/// Settings that are accepted give a configuration within its bounds.
pub proof fn law_accepted_is_valid(vars: ConfigVars)
    requires
        configured(vars) is Ok,
    ensures
        config_fault(configured(vars)->Ok_0) is None,
{
}

/// The first error of eight results, spelled out.
proof fn lemma_first_error(n: Seq<Result<nat, ConfigErrorView>>)
    requires
        n.len() == 8,
    ensures
        forall|k: int|
            0 <= k < 8 && n[k] is Err && (forall|j: int| 0 <= j < k ==> n[j] is Ok)
                ==> first_error(n) == Some(#[trigger] n[k]->Err_0),
        (forall|j: int| 0 <= j < 8 ==> n[j] is Ok) ==> first_error(n) is None,
{
    lemma_first_error_from(n, 0);
    assert(n.skip(0) =~= n);
}

proof fn lemma_first_error_from(n: Seq<Result<nat, ConfigErrorView>>, i: int)
    requires
        0 <= i <= n.len(),
    ensures
        forall|k: int|
            i <= k < n.len() && n[k] is Err && (forall|j: int| i <= j < k ==> n[j] is Ok)
                ==> first_error(n.skip(i)) == Some(#[trigger] n[k]->Err_0),
        (forall|j: int| i <= j < n.len() ==> n[j] is Ok) ==> first_error(n.skip(i)) is None,
    decreases n.len() - i,
{
    if i < n.len() {
        lemma_first_error_from(n, i + 1);
        assert(n.skip(i).drop_first() =~= n.skip(i + 1));
        assert(n.skip(i)[0] == n[i]);
    }
}

/// A backend is named by one of its two names, in either case and with whitespace around it;
/// every other name is an error.
pub proof fn law_backends(s: Seq<char>)
    ensures
        ({
            let name = lowered(trimmed(s));
            &&& backend_named(s) == Ok::<EgressBackend, ConfigErrorView>(EgressBackend::Stdout)
                <==> name == "stdout"@ || name == "log"@
            &&& backend_named(s) == Ok::<EgressBackend, ConfigErrorView>(EgressBackend::Novelty)
                <==> name == "novelty"@ || name == "local"@
        }),
{
    reveal_strlit("stdout");
    reveal_strlit("log");
    reveal_strlit("novelty");
    reveal_strlit("local");
    assert("stdout"@.len() == 6 && "log"@.len() == 3 && "novelty"@.len() == 7 && "local"@.len()
        == 5);
}

/// What a number setting reads as: the given number, and its default where none is given.
pub open spec fn reads_as(raw: Option<String>, max: nat, default: nat, n: int) -> bool {
    match raw {
        None => n == default,
        Some(s) => number_in(s@, max) is Ok && n == number_in(s@, max)->Ok_0,
    }
}

/// An accepted configuration is what the settings say: each as it is given, or its default.
/// The two older names of a setting count where the newer is not given.
pub proof fn law_accepted_is_what_is_given(vars: ConfigVars)
    requires
        configured(vars) is Ok,
    ensures
        ({
            let c = configured(vars)->Ok_0;
            &&& c.certstream_url == given(vars.certstream_url, "wss://certstream.calidog.io/"@)
            &&& vars.watchlist_file is Some ==> c.watchlist_file == vars.watchlist_file->0@
            &&& vars.watchlist_file is None ==> c.watchlist_file == given(
                vars.keywords_file,
                "keywords.txt"@,
            )
            &&& c.suppress_file == given(vars.suppress_file, "suppress.txt"@)
            &&& c.glue_file == given(vars.glue_file, "glue.txt"@)
            &&& c.novelty_db == given(
                vars.novelty_db,
                "/var/lib/ct-firehose-filter/novelty.db"@,
            )
            &&& c.novelty_alerts == given(
                vars.novelty_alerts,
                "/var/lib/ct-firehose-filter/alerts.jsonl"@,
            )
            &&& vars.egress is None ==> c.egress == EgressBackend::Stdout
            &&& vars.egress is Some ==> backend_named(vars.egress->0@) == Ok::<
                EgressBackend,
                ConfigErrorView,
            >(c.egress)
            &&& vars.novelty_require_db is None ==> !c.novelty_require_db
            &&& vars.novelty_require_db is Some ==> (c.novelty_require_db <==> ({
                let t = lowered(trimmed(vars.novelty_require_db->0@));
                t.len() > 0 && t != "0"@ && t != "false"@ && t != "no"@ && t != "off"@
            }))
            &&& c.batch_max_bytes == 262_144
        }),
{
}

/// A text setting, or its default.
pub open spec fn given(raw: Option<String>, default: Seq<char>) -> Seq<char> {
    match raw {
        Some(s) => s@,
        None => default,
    }
}

proof fn lemma_no_error(list: Seq<Result<nat, ConfigErrorView>>)
    requires
        first_error(list) is None,
    ensures
        forall|i: int| 0 <= i < list.len() ==> (#[trigger] list[i]) is Ok,
    decreases list.len(),
{
    if list.len() > 0 {
        lemma_no_error(list.drop_first());
        assert forall|i: int| 0 <= i < list.len() implies (#[trigger] list[i]) is Ok by {
            if i > 0 {
                assert(list.drop_first()[i - 1] == list[i]);
            }
        }
    }
}

proof fn lemma_some_error(list: Seq<Result<nat, ConfigErrorView>>)
    requires
        forall|i: int| 0 <= i < list.len() ==> (#[trigger] list[i]) is Ok,
    ensures
        first_error(list) is None,
    decreases list.len(),
{
    if list.len() > 0 {
        assert(list[0] is Ok);
        assert forall|i: int| 0 <= i < list.drop_first().len() implies (
        #[trigger] list.drop_first()[i]) is Ok by {
            assert(list.drop_first()[i] == list[i + 1]);
        }
        lemma_some_error(list.drop_first());
    }
}

proof fn lemma_number_fits(raw: Option<String>, max: nat)
    ensures
        raw is Some && number_in(raw->0@, max) is Ok ==> number_in(raw->0@, max)->Ok_0 <= max,
{
    if raw is Some && number_in(raw->0@, max) is Ok {
        let s = raw->0@;
        crate::numbers::law_only_digits_are_a_number(s, max, 0);
    }
}

/// The numbers that the settings say.
pub struct NumbersGiven {
    pub channel_capacity: int,
    pub batch_max_messages: int,
    pub flush_secs: int,
    pub reconnect_ms: int,
    pub reconnect_max_ms: int,
    pub progress_secs: int,
    pub reload_secs: int,
    pub min_len: int,
}

/// Whether the settings say these numbers, each as it is given or its default. The older name
/// of the reload interval counts where the newer is not given, and the least length of the
/// watchlist has a default in production alone.
pub open spec fn numbers_are(vars: ConfigVars, prod: bool, g: NumbersGiven) -> bool {
    let m = u64::MAX as nat;
    let w = usize::MAX as nat;
    let least: nat = if prod {
        100_000
    } else {
        0
    };
    &&& reads_as(vars.channel_capacity, w, 1024, g.channel_capacity)
    &&& reads_as(vars.batch_max_messages, w, 10, g.batch_max_messages)
    &&& reads_as(vars.flush_interval_secs, m, 5, g.flush_secs)
    &&& reads_as(vars.reconnect_delay_ms, m, 2_000, g.reconnect_ms)
    &&& reads_as(vars.reconnect_max_delay_ms, m, 60_000, g.reconnect_max_ms)
    &&& reads_as(vars.progress_interval_secs, m, 30, g.progress_secs)
    &&& reads_as(vars.watchlist_min_len, w, least, g.min_len)
    &&& vars.watchlist_reload_secs is Some ==> reads_as(
        vars.watchlist_reload_secs,
        m,
        0,
        g.reload_secs,
    )
    &&& vars.watchlist_reload_secs is None ==> reads_as(
        vars.keyword_reload_secs,
        m,
        0,
        g.reload_secs,
    )
}

/// Whether what the settings say is within its bounds.
pub open spec fn within_bounds(vars: ConfigVars, prod: bool, g: NumbersGiven) -> bool {
    &&& trimmed(given(vars.certstream_url, DEFAULT_CERTSTREAM_URL@)).len() > 0
    &&& prod ==> given(vars.novelty_db, DEFAULT_NOVELTY_DB@).len() > 0
    &&& prod ==> given(vars.novelty_alerts, DEFAULT_NOVELTY_ALERTS@).len() > 0
    &&& g.channel_capacity >= 1
    &&& 1 <= g.batch_max_messages <= 10
    &&& g.flush_secs >= 1
    &&& g.reconnect_ms >= 1
    &&& g.reconnect_max_ms >= g.reconnect_ms
    &&& g.progress_secs >= 1
}

/// Where the backend is known and every number can be read, the settings are accepted exactly
/// where they are within bounds, and the configuration has the numbers they say: intervals in
/// seconds, delays in milliseconds, and a reload interval of 0 is none.
pub proof fn law_settings_within_bounds_are_accepted(
    vars: ConfigVars,
    egress: EgressBackend,
    g: NumbersGiven,
)
    requires
        match vars.egress {
            None => egress == EgressBackend::Stdout,
            Some(s) => backend_named(s@) == Ok::<EgressBackend, ConfigErrorView>(egress),
        },
        numbers_are(vars, egress == EgressBackend::Novelty, g),
    ensures
        configured(vars) is Ok <==> within_bounds(vars, egress == EgressBackend::Novelty, g),
        configured(vars) is Ok ==> ({
            let c = configured(vars)->Ok_0;
            &&& c.channel_capacity == g.channel_capacity
            &&& c.batch_max_messages == g.batch_max_messages
            &&& c.flush_interval == 1_000_000_000 * g.flush_secs
            &&& c.reconnect_delay == 1_000_000 * g.reconnect_ms
            &&& c.reconnect_max_delay == 1_000_000 * g.reconnect_max_ms
            &&& c.progress_interval == 1_000_000_000 * g.progress_secs
            &&& c.watchlist_min_len == g.min_len
            &&& c.watchlist_reload is Some <==> g.reload_secs > 0
            &&& c.watchlist_reload is Some ==> c.watchlist_reload->0 == 1_000_000_000
                * g.reload_secs
        }),
{
    let n = numbers_read(vars, egress);
    assert(n.len() == 8);
    assert(n[0] == Ok::<nat, ConfigErrorView>(g.channel_capacity as nat));
    assert(n[1] == Ok::<nat, ConfigErrorView>(g.batch_max_messages as nat));
    assert(n[2] == Ok::<nat, ConfigErrorView>(g.flush_secs as nat));
    assert(n[3] == Ok::<nat, ConfigErrorView>(g.reconnect_ms as nat));
    assert(n[4] == Ok::<nat, ConfigErrorView>(g.reconnect_max_ms as nat));
    assert(n[5] == Ok::<nat, ConfigErrorView>(g.progress_secs as nat));
    assert(n[6] == Ok::<nat, ConfigErrorView>(g.min_len as nat));
    assert(n[7] == Ok::<nat, ConfigErrorView>(g.reload_secs as nat));
    lemma_number_fits(vars.channel_capacity, usize::MAX as nat);
    lemma_number_fits(vars.batch_max_messages, usize::MAX as nat);
    lemma_number_fits(vars.watchlist_min_len, usize::MAX as nat);
    lemma_some_error(n);
}

/// Whether a number setting can be read.
pub open spec fn readable(raw: Option<String>, max: nat) -> bool {
    raw is Some ==> number_in(raw->0@, max) is Ok
}

/// A setting that cannot be read refuses them all.
pub proof fn law_unreadable_settings_are_refused(vars: ConfigVars)
    requires
        configured(vars) is Ok,
    ensures
        vars.egress is Some ==> backend_named(vars.egress->0@) is Ok,
        readable(vars.channel_capacity, usize::MAX as nat),
        readable(vars.batch_max_messages, usize::MAX as nat),
        readable(vars.flush_interval_secs, u64::MAX as nat),
        readable(vars.reconnect_delay_ms, u64::MAX as nat),
        readable(vars.reconnect_max_delay_ms, u64::MAX as nat),
        readable(vars.progress_interval_secs, u64::MAX as nat),
        readable(vars.watchlist_min_len, usize::MAX as nat),
        vars.watchlist_reload_secs is Some ==> readable(
            vars.watchlist_reload_secs,
            u64::MAX as nat,
        ),
        vars.watchlist_reload_secs is None ==> readable(vars.keyword_reload_secs, u64::MAX as nat),
{
    let n = numbers_read(vars, configured(vars)->Ok_0.egress);
    lemma_no_error(n);
    assert(n[0] is Ok && n[1] is Ok && n[2] is Ok && n[3] is Ok);
    assert(n[4] is Ok && n[5] is Ok && n[6] is Ok && n[7] is Ok);
}

/// A configuration is refused under the key of a bound that it breaks, and accepted where it
/// breaks none.
pub proof fn law_fault_names_a_broken_bound(c: ConfigView)
    ensures
        config_fault(c) is None <==> {
            &&& trimmed(c.certstream_url).len() > 0
            &&& c.egress == EgressBackend::Novelty ==> c.novelty_db.len() > 0
                && c.novelty_alerts.len() > 0
            &&& c.channel_capacity > 0
            &&& 1 <= c.batch_max_messages <= 10
            &&& c.flush_interval > 0
            &&& 0 < c.reconnect_delay <= c.reconnect_max_delay
            &&& c.progress_interval > 0
        },
        config_fault(c) is Some ==> ({
            let key = config_fault(c)->0->InvalidValue_key;
            ||| key == "CERTSTREAM_URL"@ && trimmed(c.certstream_url).len() == 0
            ||| key == "NOVELTY_DB"@ && c.egress == EgressBackend::Novelty && c.novelty_db.len()
                == 0
            ||| key == "NOVELTY_ALERTS"@ && c.egress == EgressBackend::Novelty
                && c.novelty_alerts.len() == 0
            ||| key == "CHANNEL_CAPACITY"@ && c.channel_capacity == 0
            ||| key == "BATCH_MAX_MESSAGES"@ && !(1 <= c.batch_max_messages <= 10)
            ||| key == "FLUSH_INTERVAL_SECS"@ && c.flush_interval == 0
            ||| key == "RECONNECT_DELAY_MS"@ && c.reconnect_delay == 0
            ||| key == "RECONNECT_MAX_DELAY_MS"@ && c.reconnect_max_delay < c.reconnect_delay
            ||| key == "PROGRESS_INTERVAL_SECS"@ && c.progress_interval == 0
        }),
{
}

/// In production a watchlist shorter than the least length is refused, and no other.
pub proof fn law_watchlist_length(c: ConfigView, len: usize)
    ensures
        watchlist_fault(c, len) is Some <==> c.egress == EgressBackend::Novelty && len
            < c.watchlist_min_len,
{
}

/// The status page is served at the given address without the whitespace around it, unless
/// that is empty or says off.
pub proof fn law_status_address(s: Seq<char>)
    ensures
        status_address(None) is None,
        status_address(Some(s)) is None <==> trimmed(s).len() == 0 || lowered(trimmed(s))
            == "off"@,
        status_address(Some(s)) is Some ==> status_address(Some(s))->0 == trimmed(s),
{
}

/// Whether settings are refused under the given key.
pub open spec fn refused_under(vars: ConfigVars, key: Seq<char>) -> bool {
    configured(vars) is Err && configured(vars)->Err_0 is InvalidValue
        && configured(vars)->Err_0->InvalidValue_key == key
}

/// Settings are refused under the key of the first that cannot be read: the backend before
/// all, then the numbers in order.
pub proof fn law_refused_under_its_key(vars: ConfigVars)
    ensures
        ({
            let m = u64::MAX as nat;
            let w = usize::MAX as nat;
            let backend = vars.egress is Some ==> backend_named(vars.egress->0@) is Ok;
            let a = backend && readable(vars.channel_capacity, w);
            let b = a && readable(vars.batch_max_messages, w);
            let c = b && readable(vars.flush_interval_secs, m);
            let d = c && readable(vars.reconnect_delay_ms, m);
            let e = d && readable(vars.reconnect_max_delay_ms, m);
            let f = e && readable(vars.progress_interval_secs, m);
            &&& !backend ==> refused_under(vars, "EGRESS"@)
            &&& backend && !a ==> refused_under(vars, "CHANNEL_CAPACITY"@)
            &&& a && !b ==> refused_under(vars, "BATCH_MAX_MESSAGES"@)
            &&& b && !c ==> refused_under(vars, "FLUSH_INTERVAL_SECS"@)
            &&& c && !d ==> refused_under(vars, "RECONNECT_DELAY_MS"@)
            &&& d && !e ==> refused_under(vars, "RECONNECT_MAX_DELAY_MS"@)
            &&& e && !f ==> refused_under(vars, "PROGRESS_INTERVAL_SECS"@)
            &&& f && !readable(vars.watchlist_min_len, w) ==> refused_under(
                vars,
                "WATCHLIST_MIN_LEN"@,
            )
        }),
{
    let egress = match vars.egress {
        Some(s) => backend_named(s@),
        None => Ok(EgressBackend::Stdout),
    };
    if egress is Ok {
        let n = numbers_read(vars, egress->Ok_0);
        assert(n.len() == 8);
        assert(n[0] is Ok <==> readable(vars.channel_capacity, usize::MAX as nat));
        assert(n[1] is Ok <==> readable(vars.batch_max_messages, usize::MAX as nat));
        assert(n[2] is Ok <==> readable(vars.flush_interval_secs, u64::MAX as nat));
        assert(n[3] is Ok <==> readable(vars.reconnect_delay_ms, u64::MAX as nat));
        assert(n[4] is Ok <==> readable(vars.reconnect_max_delay_ms, u64::MAX as nat));
        assert(n[5] is Ok <==> readable(vars.progress_interval_secs, u64::MAX as nat));
        assert(n[6] is Ok <==> readable(vars.watchlist_min_len, usize::MAX as nat));
        if !(n[0] is Ok) {
            lemma_first_error_at(n, 0);
        } else if !(n[1] is Ok) {
            lemma_first_error_at(n, 1);
        } else if !(n[2] is Ok) {
            lemma_first_error_at(n, 2);
        } else if !(n[3] is Ok) {
            lemma_first_error_at(n, 3);
        } else if !(n[4] is Ok) {
            lemma_first_error_at(n, 4);
        } else if !(n[5] is Ok) {
            lemma_first_error_at(n, 5);
        } else if !(n[6] is Ok) {
            lemma_first_error_at(n, 6);
        }
    }
}

proof fn lemma_first_error_at(list: Seq<Result<nat, ConfigErrorView>>, k: int)
    requires
        0 <= k < list.len(),
        forall|i: int| 0 <= i < k ==> (#[trigger] list[i]) is Ok,
        list[k] is Err,
    ensures
        first_error(list) == Some(list[k]->Err_0),
    decreases k,
{
    if k > 0 {
        let rest = list.drop_first();
        assert(list[0] is Ok);
        assert forall|i: int| 0 <= i < k - 1 implies (#[trigger] rest[i]) is Ok by {
            assert(rest[i] == list[i + 1]);
        }
        assert(rest[k - 1] == list[k]);
        lemma_first_error_at(rest, k - 1);
    }
}

} // verus!
