//! Errors of the filter, each with its text.
use vstd::prelude::*;

verus! {

/// Why a frame cannot be read.
#[derive(Clone, Debug, PartialEq, Eq)]
pub enum ParseError {
    InvalidUtf8,
    Malformed(&'static str),
    Json(String),
}

/// What a [`ParseError`] says.
pub enum ParseErrorView {
    InvalidUtf8,
    Malformed(Seq<char>),
    Json(Seq<char>),
}

impl View for ParseError {
    type V = ParseErrorView;

    open spec fn view(&self) -> ParseErrorView {
        match *self {
            ParseError::InvalidUtf8 => ParseErrorView::InvalidUtf8,
            ParseError::Malformed(m) => ParseErrorView::Malformed(m@),
            ParseError::Json(m) => ParseErrorView::Json(m@),
        }
    }
}

impl ParseError {
    /// The error in words.
    pub fn message(&self) -> (r: String)
        ensures
            r@ == (match *self {
                ParseError::InvalidUtf8 => "frame is not valid UTF-8"@,
                ParseError::Malformed(m) => "malformed certstream JSON: "@ + m@,
                ParseError::Json(m) => "JSON parse error: "@ + m@,
            }),
    {
        match self {
            ParseError::InvalidUtf8 => "frame is not valid UTF-8".to_owned(),
            ParseError::Malformed(m) => prefixed("malformed certstream JSON: ", m),
            ParseError::Json(m) => prefixed("JSON parse error: ", m.as_str()),
        }
    }
}

/// Why a batch did not leave the process.
#[derive(Clone, Debug, PartialEq, Eq)]
pub enum EgressError {
    Sink(String),
    EventTooLarge,
    Sqs(String),
}

/// What an [`EgressError`] says.
pub enum EgressErrorView {
    Sink(Seq<char>),
    EventTooLarge,
    Sqs(Seq<char>),
}

impl View for EgressError {
    type V = EgressErrorView;

    open spec fn view(&self) -> EgressErrorView {
        match *self {
            EgressError::Sink(m) => EgressErrorView::Sink(m@),
            EgressError::EventTooLarge => EgressErrorView::EventTooLarge,
            EgressError::Sqs(m) => EgressErrorView::Sqs(m@),
        }
    }
}

impl EgressErrorView {
    /// The error in words.
    pub open spec fn message(self) -> Seq<char> {
        match self {
            EgressErrorView::Sink(m) => "egress sink rejected batch: "@ + m,
            EgressErrorView::EventTooLarge =>
                "serialized match event exceeds the 256 KiB SQS batch limit"@,
            EgressErrorView::Sqs(m) => "SQS error: "@ + m,
        }
    }
}

impl EgressError {
    /// The error in words.
    pub fn message(&self) -> (r: String)
        ensures
            r@ == self@.message(),
    {
        match self {
            EgressError::Sink(m) => prefixed("egress sink rejected batch: ", m.as_str()),
            EgressError::EventTooLarge =>
                "serialized match event exceeds the 256 KiB SQS batch limit".to_owned(),
            EgressError::Sqs(m) => prefixed("SQS error: ", m.as_str()),
        }
    }
}

/// Why batching ended.
#[derive(Clone, Debug, PartialEq, Eq)]
pub enum BatchError {
    Egress(EgressError),
    ChannelClosed,
}

impl BatchError {
    /// The error in words.
    pub open spec fn spec_message(self) -> Seq<char> {
        match self {
            BatchError::Egress(e) => e@.message(),
            BatchError::ChannelClosed => "match event channel closed"@,
        }
    }

    /// The error in words.
    pub fn message(&self) -> (r: String)
        ensures
            r@ == self.spec_message(),
    {
        match self {
            BatchError::Egress(e) => e.message(),
            BatchError::ChannelClosed => "match event channel closed".to_owned(),
        }
    }
}

/// Why the stream of frames broke.
#[derive(Clone, Debug, PartialEq, Eq)]
pub enum IngressError {
    Connect(String),
    Io(String),
}

impl IngressError {
    /// The error in words.
    pub open spec fn spec_message(self) -> Seq<char> {
        match self {
            IngressError::Connect(m) => "websocket connect failed: "@ + m@,
            IngressError::Io(m) => "websocket I/O error: "@ + m@,
        }
    }

    /// The error in words.
    pub fn message(&self) -> (r: String)
        ensures
            r@ == self.spec_message(),
    {
        match self {
            IngressError::Connect(m) => prefixed("websocket connect failed: ", m.as_str()),
            IngressError::Io(m) => prefixed("websocket I/O error: ", m.as_str()),
        }
    }
}

/// Why keywords could not be loaded.
#[derive(Clone, Debug, PartialEq, Eq)]
pub enum KeywordSourceError {
    Load(String),
}

impl KeywordSourceError {
    /// The error in words.
    pub open spec fn spec_message(self) -> Seq<char> {
        match self {
            KeywordSourceError::Load(m) => "failed to load keywords: "@ + m@,
        }
    }

    /// The error in words.
    pub fn message(&self) -> (r: String)
        ensures
            r@ == self.spec_message(),
    {
        match self {
            KeywordSourceError::Load(m) => prefixed("failed to load keywords: ", m.as_str()),
        }
    }
}

/// Why a configuration is refused.
#[derive(Clone, Debug, PartialEq, Eq)]
pub enum ConfigError {
    MissingRequired(&'static str),
    InvalidValue { key: &'static str, message: String },
}

/// What a [`ConfigError`] says.
pub enum ConfigErrorView {
    MissingRequired(Seq<char>),
    InvalidValue { key: Seq<char>, message: Seq<char> },
}

impl View for ConfigError {
    type V = ConfigErrorView;

    open spec fn view(&self) -> ConfigErrorView {
        match *self {
            ConfigError::MissingRequired(k) => ConfigErrorView::MissingRequired(k@),
            ConfigError::InvalidValue { key, message } => ConfigErrorView::InvalidValue {
                key: key@,
                message: message@,
            },
        }
    }
}

impl ConfigErrorView {
    /// The error in words.
    pub open spec fn message(self) -> Seq<char> {
        match self {
            ConfigErrorView::MissingRequired(k) => "missing required config: "@ + k,
            ConfigErrorView::InvalidValue { key, message } => "invalid config "@ + key + ": "@
                + message,
        }
    }
}

impl ConfigError {
    /// The error in words.
    pub fn message(&self) -> (r: String)
        ensures
            r@ == self@.message(),
    {
        match self {
            ConfigError::MissingRequired(k) => prefixed("missing required config: ", k),
            ConfigError::InvalidValue { key, message } => {
                let mut r = prefixed("invalid config ", key);
                r.append(": ");
                r.append(message.as_str());
                r
            },
        }
    }
}

/// Why the process does not start.
#[derive(Clone, Debug, PartialEq, Eq)]
pub enum StartupError {
    Config(ConfigError),
    Watchlist(String),
    Aws(String),
}

impl StartupError {
    /// The error in words.
    pub open spec fn spec_message(self) -> Seq<char> {
        match self {
            StartupError::Config(e) => e@.message(),
            StartupError::Watchlist(m) => "failed to load watchlist: "@ + m@,
            StartupError::Aws(m) => "AWS client init failed: "@ + m@,
        }
    }

    /// The error in words.
    pub fn message(&self) -> (r: String)
        ensures
            r@ == self.spec_message(),
    {
        match self {
            StartupError::Config(e) => e.message(),
            StartupError::Watchlist(m) => prefixed("failed to load watchlist: ", m.as_str()),
            StartupError::Aws(m) => prefixed("AWS client init failed: ", m.as_str()),
        }
    }
}

/// Why the pipeline ended.
#[derive(Clone, Debug, PartialEq, Eq)]
pub enum PipelineError {
    Ingress(IngressError),
    Batch(BatchError),
    Keywords(KeywordSourceError),
}

impl PipelineError {
    /// The error in words.
    pub fn message(&self) -> (r: String)
        ensures
            r@ == (match *self {
                PipelineError::Ingress(e) => e.spec_message(),
                PipelineError::Batch(e) => e.spec_message(),
                PipelineError::Keywords(e) => e.spec_message(),
            }),
    {
        match self {
            PipelineError::Ingress(e) => e.message(),
            PipelineError::Batch(e) => e.message(),
            PipelineError::Keywords(e) => e.message(),
        }
    }
}

/// One text after the other.
pub fn prefixed(prefix: &str, rest: &str) -> (r: String)
    ensures
        r@ == prefix@ + rest@,
{
    let mut r = prefix.to_owned();
    r.append(rest);
    r
}

/// Whether a text ends with another.
pub open spec fn closes_with(s: Seq<char>, tail: Seq<char>) -> bool {
    s.len() >= tail.len() && s.skip(s.len() - tail.len()) == tail
}

/// An error in words ends with what caused it, word for word, and one about a setting names
/// its key before that.
pub proof fn law_messages_end_with_their_cause(
    m: Seq<char>,
    key: Seq<char>,
    i: IngressError,
    k: KeywordSourceError,
    s: StartupError,
    b: BatchError,
)
    ensures
        closes_with(EgressErrorView::Sink(m).message(), m),
        closes_with(EgressErrorView::Sqs(m).message(), m),
        closes_with(ConfigErrorView::MissingRequired(key).message(), key),
        closes_with(
            (ConfigErrorView::InvalidValue { key, message: m }).message(),
            key + seq![':', ' '] + m,
        ),
        i is Connect ==> closes_with(i.spec_message(), i->Connect_0@),
        i is Io ==> closes_with(i.spec_message(), i->Io_0@),
        closes_with(k.spec_message(), k->Load_0@),
        s is Watchlist ==> closes_with(s.spec_message(), s->Watchlist_0@),
        s is Aws ==> closes_with(s.spec_message(), s->Aws_0@),
        s is Config ==> s.spec_message() == s->Config_0@.message(),
        b is Egress ==> b.spec_message() == b->Egress_0@.message(),
{
    reveal_strlit(": ");
    assert(": "@ =~= seq![':', ' ']);
    lemma_closes("egress sink rejected batch: "@, m);
    lemma_closes("SQS error: "@, m);
    lemma_closes("missing required config: "@, key);
    lemma_closes("invalid config "@, key + seq![':', ' '] + m);
    assert("invalid config "@ + key + ": "@ + m =~= "invalid config "@ + (key + seq![':', ' ']
        + m));
    if i is Connect {
        lemma_closes("websocket connect failed: "@, i->Connect_0@);
    } else {
        lemma_closes("websocket I/O error: "@, i->Io_0@);
    }
    lemma_closes("failed to load keywords: "@, k->Load_0@);
    if s is Watchlist {
        lemma_closes("failed to load watchlist: "@, s->Watchlist_0@);
    }
    if s is Aws {
        lemma_closes("AWS client init failed: "@, s->Aws_0@);
    }
}

proof fn lemma_closes(a: Seq<char>, b: Seq<char>)
    ensures
        closes_with(a + b, b),
{
    assert((a + b).skip((a + b).len() - b.len()) =~= b);
}

} // verus!
