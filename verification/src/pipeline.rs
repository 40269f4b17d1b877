//! From frames to match events: what becomes of each frame, and of each match.
use vstd::prelude::*;

use crate::error::{ParseError, ParseErrorView};
use crate::event::{EventView, FrameMeta, MatchEvent};
use crate::metrics::PipelineMetrics;
use crate::parse::{
    frame_of_bytes, parse_certstream_frame, FrameView, LeafDomains, LeafView,
};
use crate::span::{seconds, Span};
use crate::text::texts;
use crate::watchlist::{
    hot_names, hot_suppressed, inspected, law_outcomes_are_exclusive, opt_event, DomainWatchlist,
    HotWatchlist,
};

verus! {

/// Slots of the channel between stages.
pub const DEFAULT_CHANNEL_CAPACITY: usize = 1024;

/// Settings of the pipeline.
#[derive(Clone, Copy, Debug, PartialEq, Eq, Structural)]
pub struct PipelineConfig {
    pub channel_capacity: usize,
    pub batch_max_messages: usize,
    pub batch_max_bytes: usize,
    pub flush_interval: Span,
    pub reconnect_delay: Span,
    pub reconnect_max_delay: Span,
}

impl Default for PipelineConfig {
    fn default() -> (r: Self)
        ensures
            r.channel_capacity == DEFAULT_CHANNEL_CAPACITY,
            r.batch_max_messages == 10,
            r.batch_max_bytes == 256 * 1024,
            r.flush_interval@ == seconds(5),
            r.reconnect_delay@ == seconds(2),
            r.reconnect_max_delay@ == seconds(60),
    {
        PipelineConfig {
            channel_capacity: DEFAULT_CHANNEL_CAPACITY,
            batch_max_messages: 10,
            batch_max_bytes: 256 * 1024,
            flush_interval: Span::from_secs(5),
            reconnect_delay: Span::from_secs(2),
            reconnect_max_delay: Span::from_secs(60),
        }
    }
}

/// What became of one match offered to the channel.
#[derive(Clone, Copy, Debug, PartialEq, Eq, Structural)]
pub enum TryProcessResult {
    Enqueued,
    NoMatch,
    ChannelFull,
    ChannelClosed,
}

/// The channel's answer to an event that was offered without waiting. An event that the
/// channel did not take is handed back.
#[derive(Clone, Debug, PartialEq, Eq)]
pub enum SendOutcome {
    Sent,
    Full(MatchEvent),
    Closed(MatchEvent),
}

/// The channel's answer, as the caller of the filter sees it.
pub open spec fn offered(outcome: SendOutcome) -> TryProcessResult {
    match outcome {
        SendOutcome::Sent => TryProcessResult::Enqueued,
        SendOutcome::Full(_) => TryProcessResult::ChannelFull,
        SendOutcome::Closed(_) => TryProcessResult::ChannelClosed,
    }
}

/// The channel's answer, as the caller of the filter sees it.
pub fn offer_result(outcome: SendOutcome) -> (r: TryProcessResult)
    ensures
        r == offered(outcome),
{
    match outcome {
        SendOutcome::Sent => TryProcessResult::Enqueued,
        SendOutcome::Full(_) => TryProcessResult::ChannelFull,
        SendOutcome::Closed(_) => TryProcessResult::ChannelClosed,
    }
}

/// Whether an outcome answers the event that was offered: the channel took it, or hands it
/// back. `taken` are the events that the channel takes.
pub open spec fn answers_offer(
    outcome: SendOutcome,
    event: EventView,
    taken: Set<EventView>,
) -> bool {
    match outcome {
        SendOutcome::Sent => taken.contains(event),
        SendOutcome::Full(e) => e@ == event,
        SendOutcome::Closed(e) => e@ == event,
    }
}

/// The sending side of a bounded channel of the crate `tokio`.
#[verifier::external_type_specification]
#[verifier::external_body]
#[verifier::reject_recursive_types(T)]
pub struct ExSender<T>(tokio::sync::mpsc::Sender<T>);

/// The events that the channel takes through a sender, over the whole life of the sender.
/// The set belongs to the sender and not to a moment: sending does not change it.
pub uninterp spec fn taken_through(tx: tokio::sync::mpsc::Sender<MatchEvent>) -> Set<EventView>;

/// `Sender::try_send` puts the event into the channel if it has room, and otherwise hands it
/// back and says whether the channel is full or closed. Which it is depends on the receiving
/// side, so nothing is said of that, and neither of the order in which events are taken.
#[verifier::external_body]
fn try_send(tx: &tokio::sync::mpsc::Sender<MatchEvent>, event: MatchEvent) -> (r: SendOutcome)
    ensures
        answers_offer(r, event@, taken_through(*tx)),
{
    match tx.try_send(event) {
        Ok(()) => SendOutcome::Sent,
        Err(tokio::sync::mpsc::error::TrySendError::Full(e)) => SendOutcome::Full(e),
        Err(tokio::sync::mpsc::error::TrySendError::Closed(e)) => SendOutcome::Closed(e),
    }
}

/// The event of a frame under a watchlist: none where the frame has no leaf or no match.
pub open spec fn frame_event(
    names: Set<Seq<char>>,
    suppress: Set<Seq<char>>,
    frame: FrameView,
) -> Option<EventView> {
    match frame {
        Ok(Some(leaf)) => inspected(names, suppress, leaf.domains, leaf.meta).event,
        _ => None,
    }
}

/// Whether a result is the answer to an event: that there is none, that the channel is full
/// or closed, or that it took the event. `taken` are the events that the channel takes.
pub open spec fn answers(
    event: Option<EventView>,
    taken: Set<EventView>,
    r: TryProcessResult,
) -> bool {
    match event {
        None => r == TryProcessResult::NoMatch,
        Some(ev) => {
            ||| r == TryProcessResult::Enqueued && taken.contains(ev)
            ||| r == TryProcessResult::ChannelFull
            ||| r == TryProcessResult::ChannelClosed
        },
    }
}

/// Filter with a bounded channel behind it. Frames without a match never take a slot.
pub struct MatchEnqueue {
    watchlist: std::sync::Arc<HotWatchlist>,
    tx: tokio::sync::mpsc::Sender<MatchEvent>,
}

impl MatchEnqueue {
    /// The listed names.
    pub closed spec fn names(&self) -> Set<Seq<char>> {
        hot_names(*self.watchlist)
    }

    /// The suppressed names.
    pub closed spec fn suppressed(&self) -> Set<Seq<char>> {
        hot_suppressed(*self.watchlist)
    }

    /// The events that the channel takes.
    pub closed spec fn taken(&self) -> Set<EventView> {
        taken_through(self.tx)
    }

    /// A filter on the given list, before the given channel.
    pub fn new(
        watchlist: std::sync::Arc<HotWatchlist>,
        tx: tokio::sync::mpsc::Sender<MatchEvent>,
    ) -> (r: Self)
        ensures
            r.names() == hot_names(*watchlist),
            r.suppressed() == hot_suppressed(*watchlist),
            r.taken() == taken_through(tx),
    {
        MatchEnqueue { watchlist, tx }
    }

    /// Puts another list in place of the one in use, before the same channel.
    pub fn swap(&mut self, watchlist: DomainWatchlist)
        ensures
            final(self).names() == watchlist.names(),
            final(self).suppressed() == watchlist.suppressed(),
            final(self).taken() == old(self).taken(),
    {
        self.watchlist = std::sync::Arc::new(HotWatchlist::new(watchlist));
    }

    /// Inspects names and offers the event to the channel. Without an event the channel is
    /// not touched; with one, its answer to that event is the result, and what it took is that
    /// event. Whether the channel has room, is full or is closed depends on its receiving
    /// side, so it is not said which answer comes.
    pub fn try_process_domains(&self, domains: &[String], meta: FrameMeta<'_>) -> (r:
        TryProcessResult)
        ensures
            answers(
                inspected(self.names(), self.suppressed(), texts(domains@), meta@).event,
                self.taken(),
                r,
            ),
    {
        match self.watchlist.inspect_outcome(domains, meta).event {
            None => TryProcessResult::NoMatch,
            Some(event) => offer_result(try_send(&self.tx, event)),
        }
    }

    /// Reads a frame, inspects its names and offers the event to the channel.
    pub fn try_process_frame(&self, bytes: &[u8]) -> (r: Result<TryProcessResult, ParseError>)
        ensures
            match r {
                Err(e) => frame_of_bytes(bytes@) == Err::<Option<LeafView>, ParseErrorView>(e@),
                Ok(p) => frame_of_bytes(bytes@) is Ok && answers(
                    frame_event(self.names(), self.suppressed(), frame_of_bytes(bytes@)),
                    self.taken(),
                    p,
                ),
            },
    {
        match parse_certstream_frame(bytes) {
            Err(e) => Err(e),
            Ok(None) => Ok(TryProcessResult::NoMatch),
            Ok(Some(leaf)) => Ok(
                self.try_process_domains(leaf.domains.as_slice(), leaf.meta()),
            ),
        }
    }
}

/// What to do with a frame.
#[derive(Clone, Debug, PartialEq, Eq)]
pub enum FrameAction {
    /// Nothing.
    Drop,
    /// Nothing: the frame could not be read.
    Malformed(ParseError),
    /// Archive the event with all names of the leaf, and offer it to the channel.
    Deliver { event: MatchEvent, domains: Vec<String> },
}

/// What a [`FrameAction`] says.
pub enum FrameActionView {
    Drop,
    Malformed(ParseErrorView),
    Deliver { event: EventView, domains: Seq<Seq<char>> },
}

impl View for FrameAction {
    type V = FrameActionView;

    open spec fn view(&self) -> FrameActionView {
        match *self {
            FrameAction::Drop => FrameActionView::Drop,
            FrameAction::Malformed(e) => FrameActionView::Malformed(e@),
            FrameAction::Deliver { event, domains } => FrameActionView::Deliver {
                event: event@,
                domains: texts(domains@),
            },
        }
    }
}

/// What to do with a frame, given what it says.
pub open spec fn frame_action(
    names: Set<Seq<char>>,
    suppress: Set<Seq<char>>,
    frame: FrameView,
) -> FrameActionView {
    match frame {
        Err(e) => FrameActionView::Malformed(e),
        Ok(None) => FrameActionView::Drop,
        Ok(Some(leaf)) => match inspected(names, suppress, leaf.domains, leaf.meta).event {
            Some(event) => FrameActionView::Deliver { event, domains: leaf.domains },
            None => FrameActionView::Drop,
        },
    }
}

/// The counters after a frame: every frame is seen, and is malformed, suppressed, ignored, or
/// goes on to the channel.
pub open spec fn frame_counted(
    m: PipelineMetrics,
    names: Set<Seq<char>>,
    suppress: Set<Seq<char>>,
    frame: FrameView,
) -> PipelineMetrics {
    let seen = PipelineMetrics { frames_seen: m.frames_seen.wrapping_add(1), ..m };
    let ignored = PipelineMetrics { frames_ignored: m.frames_ignored.wrapping_add(1), ..seen };
    match frame {
        Err(_) => PipelineMetrics {
            frames_malformed: m.frames_malformed.wrapping_add(1),
            ..seen
        },
        Ok(None) => ignored,
        Ok(Some(leaf)) => {
            let outcome = inspected(names, suppress, leaf.domains, leaf.meta);
            if outcome.fully_suppressed {
                PipelineMetrics {
                    matches_suppressed: m.matches_suppressed.wrapping_add(1),
                    ..seen
                }
            } else if outcome.event is None {
                ignored
            } else {
                seen
            }
        },
    }
}

/// Decides what to do with a frame, given what reading it gave, and counts it.
pub fn handle_parsed(
    watchlist: &HotWatchlist,
    parsed: Result<Option<LeafDomains>, ParseError>,
    metrics: &mut PipelineMetrics,
) -> (r: FrameAction)
    ensures
        r@ == frame_action(
            hot_names(*watchlist),
            hot_suppressed(*watchlist),
            frame_view(parsed),
        ),
        *final(metrics) == frame_counted(
            *old(metrics),
            hot_names(*watchlist),
            hot_suppressed(*watchlist),
            frame_view(parsed),
        ),
{
    metrics.frames_seen = metrics.frames_seen.wrapping_add(1);
    match parsed {
        Ok(None) => {
            metrics.frames_ignored = metrics.frames_ignored.wrapping_add(1);
            FrameAction::Drop
        },
        Ok(Some(leaf)) => {
            let outcome = watchlist.inspect_outcome(leaf.domains.as_slice(), leaf.meta());
            assert(outcome@ == inspected(
                hot_names(*watchlist),
                hot_suppressed(*watchlist),
                leaf@.domains,
                leaf@.meta,
            ));
            if outcome.fully_suppressed {
                metrics.matches_suppressed = metrics.matches_suppressed.wrapping_add(1);
            }
            match outcome.event {
                Some(event) => FrameAction::Deliver { event, domains: leaf.domains },
                None => {
                    if !outcome.fully_suppressed {
                        metrics.frames_ignored = metrics.frames_ignored.wrapping_add(1);
                    }
                    FrameAction::Drop
                },
            }
        },
        Err(e) => {
            metrics.frames_malformed = metrics.frames_malformed.wrapping_add(1);
            FrameAction::Malformed(e)
        },
    }
}

/// What reading a frame gave, as it is said.
pub open spec fn frame_view(parsed: Result<Option<LeafDomains>, ParseError>) -> FrameView {
    match parsed {
        Ok(Some(leaf)) => Ok(Some(leaf@)),
        Ok(None) => Ok(None),
        Err(e) => Err(e@),
    }
}

/// Reads a frame, decides what to do with it, and counts it.
pub fn handle_frame(
    watchlist: &HotWatchlist,
    bytes: &[u8],
    metrics: &mut PipelineMetrics,
) -> (r: FrameAction)
    ensures
        r@ == frame_action(
            hot_names(*watchlist),
            hot_suppressed(*watchlist),
            frame_of_bytes(bytes@),
        ),
        *final(metrics) == frame_counted(
            *old(metrics),
            hot_names(*watchlist),
            hot_suppressed(*watchlist),
            frame_of_bytes(bytes@),
        ),
{
    handle_parsed(watchlist, parse_certstream_frame(bytes), metrics)
}

/// Offers an event to the channel without waiting. The channel takes that event, or it is
/// handed back; which of them depends on the receiving side.
pub fn try_offer(tx: &tokio::sync::mpsc::Sender<MatchEvent>, event: MatchEvent) -> (r: SendOutcome)
    ensures
        answers_offer(r, event@, taken_through(*tx)),
{
    try_send(tx, event)
}

/// What came of waiting for room in the channel.
#[derive(Clone, Copy, Debug, PartialEq, Eq, Structural)]
pub enum WaitOutcome {
    /// The event was sent.
    Sent,
    /// Nobody takes events any more.
    Closed,
    /// The process is to stop.
    Cancelled,
}

/// What the loop over frames is waiting for.
#[derive(Clone, Copy, Debug, PartialEq, Eq, Structural)]
pub enum LoopPhase {
    /// A frame.
    Receiving,
    /// That the match it holds is archived.
    Archiving,
    /// The channel's answer to a match.
    Offering,
    /// Room in the channel.
    Waiting,
    /// Nothing more.
    Stopped,
}

/// What happened in the loop over frames.
#[derive(Clone, Debug, PartialEq, Eq)]
pub enum LoopInput {
    /// A frame came.
    Frame(Vec<u8>),
    /// No further frame will come.
    Ended,
    /// The process is to stop.
    Cancelled,
    /// The match is archived, or could not be.
    Archived,
    /// The channel answered.
    Offered(SendOutcome),
    /// Waiting for room is over.
    Waited(WaitOutcome),
}

/// What the loop over frames does next.
#[derive(Clone, Debug, PartialEq, Eq)]
pub enum LoopAction {
    /// Take the next frame.
    Receive,
    /// Note that a frame could not be read, and take the next one.
    Report(ParseError),
    /// Archive the match that the loop holds, with all names of its leaf.
    Archive { domains: Vec<String> },
    /// Offer the match to the channel.
    Offer(MatchEvent),
    /// Wait until the channel has room for the match. No frame is taken meanwhile.
    Wait(MatchEvent),
    /// End.
    Stop,
}

/// What a [`LoopInput`] says.
pub enum LoopInputView {
    Frame(FrameView),
    Ended,
    Cancelled,
    Archived,
    Offered(OfferView),
    Waited(WaitOutcome),
}

/// What a [`SendOutcome`] says.
pub enum OfferView {
    Sent,
    Full(EventView),
    Closed(EventView),
}

/// What a [`LoopAction`] says.
pub enum LoopActionView {
    Receive,
    Report(ParseErrorView),
    Archive { domains: Seq<Seq<char>> },
    Offer(EventView),
    Wait(EventView),
    Stop,
}

impl View for SendOutcome {
    type V = OfferView;

    open spec fn view(&self) -> OfferView {
        match *self {
            SendOutcome::Sent => OfferView::Sent,
            SendOutcome::Full(e) => OfferView::Full(e@),
            SendOutcome::Closed(e) => OfferView::Closed(e@),
        }
    }
}

impl View for LoopInput {
    type V = LoopInputView;

    open spec fn view(&self) -> LoopInputView {
        match *self {
            LoopInput::Frame(bytes) => LoopInputView::Frame(frame_of_bytes(bytes@)),
            LoopInput::Ended => LoopInputView::Ended,
            LoopInput::Cancelled => LoopInputView::Cancelled,
            LoopInput::Archived => LoopInputView::Archived,
            LoopInput::Offered(o) => LoopInputView::Offered(o@),
            LoopInput::Waited(w) => LoopInputView::Waited(w),
        }
    }
}

impl View for LoopAction {
    type V = LoopActionView;

    open spec fn view(&self) -> LoopActionView {
        match *self {
            LoopAction::Receive => LoopActionView::Receive,
            LoopAction::Report(e) => LoopActionView::Report(e@),
            LoopAction::Archive { domains } => LoopActionView::Archive {
                domains: texts(domains@),
            },
            LoopAction::Offer(e) => LoopActionView::Offer(e@),
            LoopAction::Wait(e) => LoopActionView::Wait(e@),
            LoopAction::Stop => LoopActionView::Stop,
        }
    }
}

/// What the loop over frames has in hand.
#[verifier::ext_equal]
pub struct LoopState {
    pub phase: LoopPhase,
    /// The match between its frame and the channel.
    pub in_flight: Option<EventView>,
}

/// A list of listed and a list of suppressed names.
pub struct Lists {
    pub names: Set<Seq<char>>,
    pub suppress: Set<Seq<char>>,
}

impl LoopState {
    /// A match is in flight in every phase but the first and the last.
    pub open spec fn valid(self) -> bool {
        match self.phase {
            LoopPhase::Receiving => self.in_flight is None,
            LoopPhase::Stopped => true,
            _ => self.in_flight is Some,
        }
    }

    /// Whether an input can come in this state. An event that the channel hands back is the
    /// one that it was offered.
    pub open spec fn expects(self, input: LoopInputView) -> bool {
        match input {
            LoopInputView::Frame(_) => self.phase == LoopPhase::Receiving,
            LoopInputView::Ended => self.phase == LoopPhase::Receiving,
            LoopInputView::Cancelled => self.phase == LoopPhase::Receiving,
            LoopInputView::Archived => self.phase == LoopPhase::Archiving,
            LoopInputView::Offered(o) => self.phase == LoopPhase::Offering && match o {
                OfferView::Sent => true,
                OfferView::Full(e) => self.in_flight == Some(e),
                OfferView::Closed(e) => self.in_flight == Some(e),
            },
            LoopInputView::Waited(_) => self.phase == LoopPhase::Waiting,
        }
    }

    /// The state, and the action, after an input.
    pub open spec fn next(self, input: LoopInputView, lists: Lists) -> (
        LoopState,
        LoopActionView,
    ) {
        let idle = LoopState { phase: LoopPhase::Receiving, in_flight: None };
        let stopped = LoopState { phase: LoopPhase::Stopped, ..self };
        match input {
            LoopInputView::Frame(frame) => match frame_action(
                lists.names,
                lists.suppress,
                frame,
            ) {
                FrameActionView::Drop => (idle, LoopActionView::Receive),
                FrameActionView::Malformed(e) => (idle, LoopActionView::Report(e)),
                FrameActionView::Deliver { event, domains } => (
                    LoopState { phase: LoopPhase::Archiving, in_flight: Some(event) },
                    LoopActionView::Archive { domains },
                ),
            },
            LoopInputView::Ended => (stopped, LoopActionView::Stop),
            LoopInputView::Cancelled => (stopped, LoopActionView::Stop),
            LoopInputView::Archived => (
                LoopState { phase: LoopPhase::Offering, ..self },
                LoopActionView::Offer(self.in_flight->0),
            ),
            LoopInputView::Offered(OfferView::Sent) => (idle, LoopActionView::Receive),
            LoopInputView::Offered(OfferView::Full(e)) => (
                LoopState { phase: LoopPhase::Waiting, ..self },
                LoopActionView::Wait(e),
            ),
            LoopInputView::Offered(OfferView::Closed(_)) => (stopped, LoopActionView::Stop),
            LoopInputView::Waited(WaitOutcome::Sent) => (idle, LoopActionView::Receive),
            LoopInputView::Waited(_) => (stopped, LoopActionView::Stop),
        }
    }
}

/// The counters after an input of the loop.
pub open spec fn loop_counted(
    m: PipelineMetrics,
    input: LoopInputView,
    lists: Lists,
) -> PipelineMetrics {
    match input {
        LoopInputView::Frame(frame) => frame_counted(m, lists.names, lists.suppress, frame),
        LoopInputView::Offered(OfferView::Sent) => PipelineMetrics {
            matches_enqueued: m.matches_enqueued.wrapping_add(1),
            ..m
        },
        LoopInputView::Offered(OfferView::Full(_)) => PipelineMetrics {
            channel_full: m.channel_full.wrapping_add(1),
            ..m
        },
        LoopInputView::Waited(WaitOutcome::Sent) => PipelineMetrics {
            matches_enqueued: m.matches_enqueued.wrapping_add(1),
            ..m
        },
        _ => m,
    }
}

/// The loop over frames: each is read and inspected, a match is archived and then offered to
/// the channel, and while the channel has no room no frame is taken. It ends when frames end,
/// the process is to stop, or nobody takes matches any more.
pub struct FrameLoop {
    phase: LoopPhase,
    held: Option<MatchEvent>,
    in_flight: Ghost<Option<EventView>>,
}

impl View for FrameLoop {
    type V = LoopState;

    closed spec fn view(&self) -> LoopState {
        LoopState { phase: self.phase, in_flight: self.in_flight@ }
    }
}

impl FrameLoop {
    /// The phase has its match, and the loop holds it until it is archived.
    pub closed spec fn wf(&self) -> bool {
        &&& self@.valid()
        &&& opt_event(self.held) == if self.phase == LoopPhase::Archiving {
            self.in_flight@
        } else {
            None
        }
    }

    /// A loop that waits for its first frame.
    pub fn new() -> (r: Self)
        ensures
            r.wf(),
            r@ == (LoopState { phase: LoopPhase::Receiving, in_flight: None }),
    {
        FrameLoop { phase: LoopPhase::Receiving, held: None, in_flight: Ghost(None) }
    }

    /// The match that is to be archived; none in every other phase.
    pub fn held(&self) -> (r: Option<&MatchEvent>)
        requires
            self.wf(),
        ensures
            r is Some <==> self@.phase == LoopPhase::Archiving,
            r is Some ==> self@.in_flight == Some(r->0@),
    {
        match &self.held {
            Some(event) => Some(event),
            None => None,
        }
    }

    /// Takes what happened and says what to do next.
    pub fn step(
        &mut self,
        watchlist: &HotWatchlist,
        input: LoopInput,
        metrics: &mut PipelineMetrics,
    ) -> (r: LoopAction)
        requires
            old(self).wf(),
            old(self)@.expects(input@),
        ensures
            final(self).wf(),
            ({
                let lists = Lists {
                    names: hot_names(*watchlist),
                    suppress: hot_suppressed(*watchlist),
                };
                &&& (final(self)@, r@) == old(self)@.next(input@, lists)
                &&& *final(metrics) == loop_counted(*old(metrics), input@, lists)
            }),
    {
        match input {
            LoopInput::Frame(bytes) => match handle_frame(watchlist, bytes.as_slice(), metrics) {
                FrameAction::Drop => LoopAction::Receive,
                FrameAction::Malformed(e) => LoopAction::Report(e),
                FrameAction::Deliver { event, domains } => {
                    proof {
                        self.in_flight@ = Some(event@);
                    }
                    self.phase = LoopPhase::Archiving;
                    self.held = Some(event);
                    LoopAction::Archive { domains }
                },
            },
            LoopInput::Ended => {
                self.phase = LoopPhase::Stopped;
                LoopAction::Stop
            },
            LoopInput::Cancelled => {
                self.phase = LoopPhase::Stopped;
                LoopAction::Stop
            },
            LoopInput::Archived => {
                self.phase = LoopPhase::Offering;
                match self.held.take() {
                    Some(event) => LoopAction::Offer(event),
                    None => LoopAction::Stop,
                }
            },
            LoopInput::Offered(SendOutcome::Sent) => {
                metrics.matches_enqueued = metrics.matches_enqueued.wrapping_add(1);
                self.phase = LoopPhase::Receiving;
                proof {
                    self.in_flight@ = None;
                }
                LoopAction::Receive
            },
            LoopInput::Offered(SendOutcome::Full(event)) => {
                metrics.channel_full = metrics.channel_full.wrapping_add(1);
                self.phase = LoopPhase::Waiting;
                LoopAction::Wait(event)
            },
            LoopInput::Offered(SendOutcome::Closed(_)) => {
                self.phase = LoopPhase::Stopped;
                LoopAction::Stop
            },
            LoopInput::Waited(WaitOutcome::Sent) => {
                metrics.matches_enqueued = metrics.matches_enqueued.wrapping_add(1);
                self.phase = LoopPhase::Receiving;
                proof {
                    self.in_flight@ = None;
                }
                LoopAction::Receive
            },
            LoopInput::Waited(_) => {
                self.phase = LoopPhase::Stopped;
                LoopAction::Stop
            },
        }
    }
}

/// A match is offered to the channel only right after it was archived, and it is the match
/// that was.
pub proof fn law_archived_before_offered(s: LoopState, input: LoopInputView, lists: Lists)
    requires
        s.valid(),
        s.expects(input),
        s.next(input, lists).1 is Offer,
    ensures
        s.phase == LoopPhase::Archiving,
        s.in_flight == Some(s.next(input, lists).1->Offer_0),
{
}

/// While a match is on its way no frame is taken: every frame is taken with nothing in hand.
pub proof fn law_backpressure(s: LoopState, frame: FrameView)
    requires
        s.valid(),
        s.expects(LoopInputView::Frame(frame)),
    ensures
        s.in_flight is None,
{
}

/// One step of the loop.
pub struct LoopStep {
    pub before: LoopState,
    pub input: LoopInputView,
    pub lists: Lists,
    pub after: LoopState,
}

impl LoopStep {
    /// Whether the step is one that the loop takes, and does not end it.
    #[verifier::opaque]
    pub open spec fn goes_on(self) -> bool {
        &&& self.before.valid()
        &&& self.before.expects(self.input)
        &&& self.before.next(self.input, self.lists).0 == self.after
        &&& !(self.before.next(self.input, self.lists).1 is Stop)
    }

    /// The matches that the step finds.
    pub open spec fn found(self) -> Seq<EventView> {
        match self.input {
            LoopInputView::Frame(frame) => match frame_event(
                self.lists.names,
                self.lists.suppress,
                frame,
            ) {
                Some(event) => seq![event],
                None => Seq::empty(),
            },
            _ => Seq::empty(),
        }
    }

    /// The matches that have entered the channel with the step.
    pub open spec fn entered(self) -> Seq<EventView> {
        match self.input {
            LoopInputView::Offered(OfferView::Sent) => seq![self.before.in_flight->0],
            LoopInputView::Waited(WaitOutcome::Sent) => seq![self.before.in_flight->0],
            _ => Seq::empty(),
        }
    }
}

/// What a state has in hand, as a sequence.
pub open spec fn in_hand(s: LoopState) -> Seq<EventView> {
    match s.in_flight {
        Some(event) => seq![event],
        None => Seq::empty(),
    }
}

/// Whether the steps follow one another, from the first state on, and none ends the loop.
pub open spec fn is_loop_run(first: LoopState, run: Seq<LoopStep>) -> bool {
    &&& forall|i: int| 0 <= i < run.len() ==> (#[trigger] run[i]).goes_on()
    &&& run.len() > 0 ==> run[0].before == first
    &&& forall|i: int, j: int|
        0 <= i < run.len() && j == i + 1 && j < run.len() ==> (#[trigger] run[i]).after == (
        #[trigger] run[j]).before
}

/// The matches that a run has found, in order.
pub open spec fn all_found(run: Seq<LoopStep>) -> Seq<EventView>
    decreases run.len(),
{
    if run.len() == 0 {
        Seq::empty()
    } else {
        all_found(run.drop_last()) + run.last().found()
    }
}

/// The matches that have entered the channel during a run, in order.
pub open spec fn all_entered(run: Seq<LoopStep>) -> Seq<EventView>
    decreases run.len(),
{
    if run.len() == 0 {
        Seq::empty()
    } else {
        all_entered(run.drop_last()) + run.last().entered()
    }
}

/// A step keeps the match that it finds or has in hand, until it enters the channel.
pub proof fn law_step_keeps_matches(step: LoopStep)
    requires
        step.goes_on(),
    ensures
        in_hand(step.before) + step.found() == step.entered() + in_hand(step.after),
        step.after.valid(),
{
    reveal(LoopStep::goes_on);
    let none = Seq::<EventView>::empty();
    match step.input {
        LoopInputView::Frame(frame) => {
            assert(in_hand(step.before) =~= none);
            assert(none + step.found() =~= step.found());
            assert(none + in_hand(step.after) =~= in_hand(step.after));
        },
        _ => {
            let one = seq![step.before.in_flight->0];
            assert(one + none =~= one);
            assert(none + one =~= one);
        },
    }
}

/// As long as the loop runs, every match that is found enters the channel once, in order, or
/// is still in hand.
pub proof fn law_every_match_enters_the_channel(first: LoopState, run: Seq<LoopStep>)
    requires
        is_loop_run(first, run),
        run.len() > 0,
    ensures
        in_hand(first) + all_found(run) == all_entered(run) + in_hand(run.last().after),
    decreases run.len(),
{
    let step = run.last();
    let before = run.drop_last();
    assert(step.goes_on());
    law_step_keeps_matches(step);
    if before.len() == 0 {
        assert(all_found(before) =~= Seq::<EventView>::empty());
        assert(all_entered(before) =~= Seq::<EventView>::empty());
        assert(all_found(run) =~= step.found());
        assert(all_entered(run) =~= step.entered());
    } else {
        assert forall|i: int| 0 <= i < before.len() implies (#[trigger] before[i]).goes_on() by {
            assert(run[i].goes_on());
        }
        assert forall|i: int, j: int|
            0 <= i < before.len() && j == i + 1 && j < before.len() implies (
        #[trigger] before[i]).after == (#[trigger] before[j]).before by {
            assert(run[i].after == run[j].before);
        }
        law_every_match_enters_the_channel(first, before);
        assert(run[run.len() - 2].after == run[run.len() - 1].before);
        lemma_regroup(
            in_hand(first),
            all_found(before),
            all_entered(before),
            in_hand(step.before),
            step.found(),
            step.entered(),
            in_hand(step.after),
        );
    }
}

/// Two balances in a row are one.
proof fn lemma_regroup(
    h: Seq<EventView>,
    f: Seq<EventView>,
    e: Seq<EventView>,
    b: Seq<EventView>,
    x: Seq<EventView>,
    y: Seq<EventView>,
    a: Seq<EventView>,
)
    requires
        h + f == e + b,
        b + x == y + a,
    ensures
        h + (f + x) == (e + y) + a,
{
    assert(h + (f + x) =~= (h + f) + x);
    assert((e + b) + x =~= e + (b + x));
    assert(e + (y + a) =~= (e + y) + a);
}

/// A frame goes on to the channel exactly when its names give an event, and then with all
/// names of the leaf.
pub proof fn law_only_matches_are_delivered(
    names: Set<Seq<char>>,
    suppress: Set<Seq<char>>,
    frame: FrameView,
)
    ensures
        ({
            let a = frame_action(names, suppress, frame);
            &&& a is Deliver <==> frame_event(names, suppress, frame) is Some
            &&& a is Deliver ==> a->event == frame_event(names, suppress, frame)->0
                && a->domains == frame->Ok_0->0.domains
            &&& a is Malformed <==> frame is Err
        }),
{
}

/// Every frame is counted as seen, and as exactly one of malformed, suppressed, ignored and
/// delivered.
pub proof fn law_every_frame_is_accounted_for(
    m: PipelineMetrics,
    names: Set<Seq<char>>,
    suppress: Set<Seq<char>>,
    frame: FrameView,
)
    requires
        m.frames_seen < u64::MAX,
        m.frames_malformed < u64::MAX,
        m.frames_ignored < u64::MAX,
        m.matches_suppressed < u64::MAX,
    ensures
        ({
            let n = frame_counted(m, names, suppress, frame);
            let delivered: int = if frame_action(names, suppress, frame) is Deliver {
                1
            } else {
                0
            };
            &&& n.frames_seen == m.frames_seen + 1
            &&& (n.frames_malformed - m.frames_malformed) + (n.frames_ignored - m.frames_ignored)
                + (n.matches_suppressed - m.matches_suppressed) + delivered == 1
            &&& n.frames_malformed >= m.frames_malformed
            &&& n.frames_ignored >= m.frames_ignored
            &&& n.matches_suppressed >= m.matches_suppressed
        }),
{
    if let Ok(Some(leaf)) = frame {
        law_outcomes_are_exclusive(names, suppress, leaf.domains, leaf.meta);
    }
}

/// The counters do not depend on the order of two frames.
pub proof fn law_counters_ignore_order(
    m: PipelineMetrics,
    names: Set<Seq<char>>,
    suppress: Set<Seq<char>>,
    a: FrameView,
    b: FrameView,
)
    ensures
        frame_counted(frame_counted(m, names, suppress, a), names, suppress, b)
            == frame_counted(frame_counted(m, names, suppress, b), names, suppress, a),
{
}

/// What is done with a frame: one that cannot be read is reported, one without a leaf is
/// dropped, and a leaf is delivered with all its names exactly where inspecting them gives an
/// event, and with that event.
pub proof fn law_what_is_done_with_a_frame(
    names: Set<Seq<char>>,
    suppress: Set<Seq<char>>,
    frame: FrameView,
)
    ensures
        match frame {
            Err(e) => frame_action(names, suppress, frame) == FrameActionView::Malformed(e),
            Ok(None) => frame_action(names, suppress, frame) == FrameActionView::Drop,
            Ok(Some(leaf)) => match inspected(names, suppress, leaf.domains, leaf.meta).event {
                Some(event) => frame_action(names, suppress, frame) == (FrameActionView::Deliver {
                    event,
                    domains: leaf.domains,
                }),
                None => frame_action(names, suppress, frame) == FrameActionView::Drop,
            },
        },
        frame_event(names, suppress, frame) == match frame {
            Ok(Some(leaf)) => inspected(names, suppress, leaf.domains, leaf.meta).event,
            _ => None,
        },
{
}

/// What a frame is counted as: malformed where it cannot be read, suppressed where every hit
/// was, ignored where there is no leaf or no hit, and nothing more where it is delivered.
pub proof fn law_what_a_frame_counts_as(
    m: PipelineMetrics,
    names: Set<Seq<char>>,
    suppress: Set<Seq<char>>,
    frame: FrameView,
)
    requires
        m.frames_seen < u64::MAX,
        m.frames_malformed < u64::MAX,
        m.frames_ignored < u64::MAX,
        m.matches_suppressed < u64::MAX,
    ensures
        ({
            let bad = frame is Err;
            let leaf = frame is Ok && frame->Ok_0 is Some;
            let o = inspected(
                names,
                suppress,
                frame->Ok_0->0.domains,
                frame->Ok_0->0.meta,
            );
            let muted = leaf && o.fully_suppressed;
            let ignored = !bad && !muted && (!leaf || o.event is None);
            frame_counted(m, names, suppress, frame) == (PipelineMetrics {
                frames_seen: (m.frames_seen + 1) as u64,
                frames_malformed: (m.frames_malformed + if bad {
                    1int
                } else {
                    0
                }) as u64,
                matches_suppressed: (m.matches_suppressed + if muted {
                    1int
                } else {
                    0
                }) as u64,
                frames_ignored: (m.frames_ignored + if ignored {
                    1int
                } else {
                    0
                }) as u64,
                ..m
            })
        }),
{
    if let Ok(Some(leaf)) = frame {
        law_outcomes_are_exclusive(names, suppress, leaf.domains, leaf.meta);
    }
}

/// The course of the loop: a delivered match is archived, then offered; taken, the loop goes
/// on to the next frame; refused for want of room, it waits with that match; and it ends at
/// the end of frames, when told to, and when nobody takes matches.
pub proof fn law_course_of_the_loop(s: LoopState, input: LoopInputView, lists: Lists)
    requires
        s.valid(),
        s.expects(input),
    ensures
        ({
            let (after, action) = s.next(input, lists);
            let found = match input {
                LoopInputView::Frame(Ok(Some(leaf))) => inspected(
                    lists.names,
                    lists.suppress,
                    leaf.domains,
                    leaf.meta,
                ).event,
                _ => None,
            };
            &&& input is Frame && found is Some ==> after.phase == LoopPhase::Archiving
                && after.in_flight == found && action is Archive
                && action->Archive_domains == input->Frame_0->Ok_0->0.domains
            &&& input is Frame && found is None ==> after.phase == LoopPhase::Receiving
                && after.in_flight is None && (action is Receive || action is Report)
            &&& input is Frame ==> (action is Report <==> input->Frame_0 is Err)
            &&& input is Ended || input is Cancelled ==> action is Stop && after.phase
                == LoopPhase::Stopped
            &&& input is Archived ==> action == LoopActionView::Offer(s.in_flight->0)
                && after.phase == LoopPhase::Offering && after.in_flight == s.in_flight
            &&& input is Offered && input->Offered_0 is Sent ==> action is Receive && after.phase
                == LoopPhase::Receiving && after.in_flight is None
            &&& input is Offered && input->Offered_0 is Full ==> action == LoopActionView::Wait(
                s.in_flight->0,
            ) && after.phase == LoopPhase::Waiting && after.in_flight == s.in_flight
            &&& input is Offered && input->Offered_0 is Closed ==> action is Stop && after.phase
                == LoopPhase::Stopped
            &&& input is Waited && input->Waited_0 == WaitOutcome::Sent ==> action is Receive
                && after.phase == LoopPhase::Receiving && after.in_flight is None
            &&& input is Waited && input->Waited_0 != WaitOutcome::Sent ==> action is Stop
                && after.phase == LoopPhase::Stopped
        }),
{
}

/// Every match that enters the channel is counted once, and every time the channel was full.
pub proof fn law_loop_counts(m: PipelineMetrics, input: LoopInputView, lists: Lists)
    requires
        m.matches_enqueued < u64::MAX,
        m.channel_full < u64::MAX,
        !(input is Frame),
    ensures
        ({
            let entered = (input is Offered && input->Offered_0 is Sent) || (input is Waited
                && input->Waited_0 == WaitOutcome::Sent);
            let full = input is Offered && input->Offered_0 is Full;
            loop_counted(m, input, lists) == (PipelineMetrics {
                matches_enqueued: (m.matches_enqueued + if entered {
                    1int
                } else {
                    0
                }) as u64,
                channel_full: (m.channel_full + if full {
                    1int
                } else {
                    0
                }) as u64,
                ..m
            })
        }),
{
}

/// The channel's answer is told as it is.
pub proof fn law_offers_are_told(outcome: SendOutcome)
    ensures
        offered(outcome) == TryProcessResult::Enqueued <==> outcome is Sent,
        offered(outcome) == TryProcessResult::ChannelFull <==> outcome is Full,
        offered(outcome) == TryProcessResult::ChannelClosed <==> outcome is Closed,
{
}

} // verus!
