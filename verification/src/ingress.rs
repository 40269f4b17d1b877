//! The stream of frames: what to do with each message, and when to connect again.
use vstd::arithmetic::power2::{lemma2_to64, lemma_pow2_unfold, pow2};
use vstd::prelude::*;

use crate::error::IngressError;
use crate::metrics::PipelineMetrics;
use crate::span::{millis, seconds, smaller, Span, MAX_NANOS};

verus! {

/// Seconds between outbound pings. The server drops clients that do not ping within about
/// sixty seconds.
pub const CLIENT_PING_SECS: u64 = 30;

/// When to connect again.
#[derive(Clone, Copy, Debug, PartialEq, Eq, Structural)]
pub struct ReconnectPolicy {
    pub initial: Span,
    pub max: Span,
    /// Time between outbound pings; none are sent where it is zero.
    pub ping_interval: Span,
}

impl Default for ReconnectPolicy {
    fn default() -> (r: Self)
        ensures
            r.initial@ == seconds(2),
            r.max@ == seconds(60),
            r.ping_interval@ == seconds(CLIENT_PING_SECS as nat),
    {
        ReconnectPolicy {
            initial: Span::from_secs(2),
            max: Span::from_secs(60),
            ping_interval: Span::from_secs(CLIENT_PING_SECS),
        }
    }
}

/// Twice the delay, at most `max`, and at least a millisecond.
pub open spec fn backoff(current: nat, max: nat) -> nat {
    let d = smaller(smaller(2 * current, MAX_NANOS as nat), max);
    if d < millis(1) {
        millis(1)
    } else {
        d
    }
}

/// Twice the delay, at most `max`, and at least a millisecond.
pub fn next_backoff(current: Span, max: Span) -> (r: Span)
    ensures
        r@ == backoff(current@, max@),
{
    current.doubled().at_most(max).at_least(Span::from_millis(1))
}

/// A delay drawn by `seed`: a whole number of milliseconds from half of the delay to all of
/// it. A delay of at most a millisecond, or beyond the range of milliseconds, stays as it is.
pub open spec fn jittered(current: nat, seed: u64) -> nat {
    let ms = current / 1_000_000;
    if ms <= 1 || ms > u64::MAX {
        current
    } else {
        let half = ms / 2;
        let span = (ms - half) as nat;
        millis((seed as nat % (span + 1)) + half)
    }
}

/// A delay drawn by `seed` from half of the delay to all of it.
pub fn with_jitter(current: Span, seed: u64) -> (r: Span)
    ensures
        r@ == jittered(current@, seed),
        millis(current@ / 1_000_000 / 2) <= r@ <= current@,
{
    let ms: u128 = current.as_millis();
    if ms <= 1 || ms > u64::MAX as u128 {
        return current;
    }
    let ms: u64 = ms as u64;
    let half: u64 = ms / 2;
    let span: u64 = ms - half;
    let pick: u64 = seed % (span + 1) + half;
    Span::from_millis(pick)
}

/// The delay before the connection attempt with the given number, the first being 0.
pub open spec fn nth_delay(initial: nat, max: nat, n: nat) -> nat
    decreases n,
{
    if n == 0 {
        initial
    } else {
        backoff(nth_delay(initial, max, (n - 1) as nat), max)
    }
}

/// Delays double from attempt to attempt until they reach the cap, and then stay there.
pub proof fn law_delays_double_to_cap(initial: nat, max: nat, n: nat)
    requires
        millis(1) <= initial <= max,
        max <= MAX_NANOS,
    ensures
        nth_delay(initial, max, n) == smaller(initial * pow2(n), max),
    decreases n,
{
    lemma2_to64();
    if n == 0 {
        assert(initial * pow2(0) == initial) by (nonlinear_arith)
            requires
                pow2(0) == 1,
        ;
    } else {
        let m = (n - 1) as nat;
        law_delays_double_to_cap(initial, max, m);
        lemma_pow2_unfold(n);
        assert(initial * pow2(n) == 2 * (initial * pow2(m))) by (nonlinear_arith)
            requires
                pow2(n) == 2 * pow2(m),
        ;
        vstd::arithmetic::power2::lemma_pow2_pos(m);
        assert(initial * pow2(m) >= initial) by (nonlinear_arith)
            requires
                pow2(m) >= 1,
        ;
    }
}

/// A delay never exceeds the cap and never falls below a millisecond.
pub proof fn law_backoff_is_bounded(current: nat, max: nat)
    requires
        millis(1) <= max,
    ensures
        millis(1) <= backoff(current, max) <= max,
{
}

/// A message of the stream.
#[derive(Clone, Debug, PartialEq, Eq)]
pub enum WsMessage {
    Text(Vec<u8>),
    Binary(Vec<u8>),
    Ping(Vec<u8>),
    Pong,
    Frame,
    Close,
    /// The stream has ended.
    End,
    /// The stream has broken, for the given reason.
    Broken(String),
}

/// What happens while a connection lasts.
#[derive(Clone, Debug, PartialEq, Eq)]
pub enum DrainInput {
    /// The process is to stop.
    Cancelled,
    /// A ping is due.
    PingDue,
    /// A message has come.
    Message(WsMessage),
    /// A message was written, or could not be.
    Wrote(bool),
    /// A frame was handed on, or nobody takes frames any more.
    Forwarded(bool),
}

/// What to do while a connection lasts.
#[derive(Clone, Debug, PartialEq, Eq)]
pub enum DrainAction {
    /// Wait for what happens next.
    Await,
    /// Write a ping without payload.
    WritePing,
    /// Write a pong with the given payload.
    WritePong(Vec<u8>),
    /// Hand a frame on.
    Forward(Vec<u8>),
    /// Leave the connection.
    Leave,
    /// Leave the connection, with an error.
    Fail(IngressError),
}

/// What a [`DrainAction`] says.
pub enum DrainView {
    Await,
    WritePing,
    WritePong(Seq<u8>),
    Forward(Seq<u8>),
    Leave,
    Fail(Seq<char>),
}

impl View for DrainAction {
    type V = DrainView;

    open spec fn view(&self) -> DrainView {
        match *self {
            DrainAction::Await => DrainView::Await,
            DrainAction::WritePing => DrainView::WritePing,
            DrainAction::WritePong(p) => DrainView::WritePong(p@),
            DrainAction::Forward(p) => DrainView::Forward(p@),
            DrainAction::Leave => DrainView::Leave,
            DrainAction::Fail(e) => DrainView::Fail(e.spec_message()),
        }
    }
}

/// What to do about what happens while a connection lasts: frames are handed on as they are,
/// pings answered with their payload, and everything else that does not end the connection
/// passed over.
pub open spec fn drained(input: DrainInput) -> DrainView {
    match input {
        DrainInput::Cancelled => DrainView::Leave,
        DrainInput::PingDue => DrainView::WritePing,
        DrainInput::Message(WsMessage::Text(b)) => DrainView::Forward(b@),
        DrainInput::Message(WsMessage::Binary(b)) => DrainView::Forward(b@),
        DrainInput::Message(WsMessage::Ping(b)) => DrainView::WritePong(b@),
        DrainInput::Message(WsMessage::Pong) => DrainView::Await,
        DrainInput::Message(WsMessage::Frame) => DrainView::Await,
        DrainInput::Message(WsMessage::Close) => DrainView::Leave,
        DrainInput::Message(WsMessage::End) => DrainView::Leave,
        DrainInput::Message(WsMessage::Broken(why)) => DrainView::Fail(
            "websocket I/O error: "@ + why@,
        ),
        DrainInput::Wrote(ok) => if ok {
            DrainView::Await
        } else {
            DrainView::Leave
        },
        DrainInput::Forwarded(ok) => if ok {
            DrainView::Await
        } else {
            DrainView::Leave
        },
    }
}

/// Decides what to do about what happens while a connection lasts.
pub fn drain_step(input: DrainInput) -> (r: DrainAction)
    ensures
        r@ == drained(input),
{
    match input {
        DrainInput::Cancelled => DrainAction::Leave,
        DrainInput::PingDue => DrainAction::WritePing,
        DrainInput::Message(m) => match m {
            WsMessage::Text(b) => DrainAction::Forward(b),
            WsMessage::Binary(b) => DrainAction::Forward(b),
            WsMessage::Ping(b) => DrainAction::WritePong(b),
            WsMessage::Pong => DrainAction::Await,
            WsMessage::Frame => DrainAction::Await,
            WsMessage::Close => DrainAction::Leave,
            WsMessage::End => DrainAction::Leave,
            WsMessage::Broken(why) => DrainAction::Fail(IngressError::Io(why)),
        },
        DrainInput::Wrote(ok) => if ok {
            DrainAction::Await
        } else {
            DrainAction::Leave
        },
        DrainInput::Forwarded(ok) => if ok {
            DrainAction::Await
        } else {
            DrainAction::Leave
        },
    }
}

/// What happens to the client.
#[derive(Clone, Copy, Debug, PartialEq, Eq, Structural)]
pub enum IngressInput {
    /// The client is about to connect.
    Begin,
    /// A connection has ended, cleanly or not. `seed` draws the pause.
    Ended { seed: u64 },
    /// The pause is over.
    Slept,
}

/// What the client does next.
#[derive(Clone, Copy, Debug, PartialEq, Eq, Structural)]
pub enum IngressAction {
    /// Connect, and drain the connection.
    Connect,
    /// Pause for so long.
    Sleep { pause: Span },
    /// Stop.
    Stop,
}

/// The client of the stream.
#[derive(Clone, Copy, Debug, PartialEq, Eq, Structural)]
pub struct Ingress {
    pub policy: ReconnectPolicy,
    /// The delay before the next attempt, without jitter.
    pub delay: Span,
    /// Whether a connection has ended before.
    pub connected_once: bool,
}

impl Ingress {
    /// A client that has not connected yet.
    pub fn new(policy: ReconnectPolicy) -> (r: Self)
        ensures
            r == (Ingress { policy, delay: policy.initial, connected_once: false }),
    {
        Ingress { policy, delay: policy.initial, connected_once: false }
    }

    /// Decides what the client does next. It stops when the process is to stop or nobody
    /// takes frames any more; otherwise it connects, and after every connection pauses for
    /// the jittered delay, which then grows. `stop` is whether it is to stop.
    pub fn step(&mut self, input: IngressInput, stop: bool, metrics: &mut PipelineMetrics) -> (r:
        IngressAction)
        ensures
            stop ==> r == IngressAction::Stop && *final(self) == *old(self) && *final(metrics)
                == *old(metrics),
            !stop && input is Begin ==> r == IngressAction::Connect && *final(self) == *old(self)
                && *final(metrics) == *old(metrics),
            !stop && input is Ended ==> r is Sleep && r->pause@ == jittered(
                old(self).delay@,
                input->seed,
            ) && *final(self) == (Ingress { connected_once: true, ..*old(self) }) && *final(
                metrics) == (PipelineMetrics {
                reconnects: old(metrics).reconnects.wrapping_add(1),
                ..*old(metrics)
            }),
            !stop && input is Slept ==> r == IngressAction::Connect && final(self).delay@
                == backoff(old(self).delay@, old(self).policy.max@) && *final(self) == (Ingress {
                delay: final(self).delay,
                ..*old(self)
            }) && *final(metrics) == *old(metrics),
    {
        if stop {
            return IngressAction::Stop;
        }
        match input {
            IngressInput::Begin => IngressAction::Connect,
            IngressInput::Ended { seed } => {
                metrics.reconnects = metrics.reconnects.wrapping_add(1);
                self.connected_once = true;
                IngressAction::Sleep { pause: with_jitter(self.delay, seed) }
            },
            IngressInput::Slept => {
                self.delay = next_backoff(self.delay, self.policy.max);
                IngressAction::Connect
            },
        }
    }
}

/// The next delay is twice the last one, at most the cap and at least a millisecond.
pub proof fn law_next_delay(current: nat, max: nat)
    requires
        max <= MAX_NANOS,
    ensures
        max < millis(1) || 2 * current < millis(1) ==> backoff(current, max) == millis(1),
        millis(1) <= 2 * current <= max ==> backoff(current, max) == 2 * current,
        millis(1) <= max <= 2 * current ==> backoff(current, max) == max,
{
}

/// A jittered delay is a whole number of milliseconds between half of the delay and all of
/// it, and the seed reaches each of them; delays of at most a millisecond stay as they are.
pub proof fn law_jitter(current: nat, seed: u64, k: nat)
    requires
        current / 1_000_000 <= u64::MAX,
    ensures
        current < 2_000_000 ==> jittered(current, seed) == current,
        current >= 2_000_000 ==> ({
            let ms = current / 1_000_000;
            &&& millis(ms / 2) <= jittered(current, seed) <= millis(ms)
            &&& ms / 2 <= k <= ms ==> jittered(current, (k - ms / 2) as u64) == millis(k)
        }),
{
    if current >= 2_000_000 {
        let ms = current / 1_000_000;
        let half = ms / 2;
        let span = (ms - half) as nat;
        assert(seed as nat % (span + 1) <= span) by {
            vstd::arithmetic::div_mod::lemma_mod_bound(seed as int, (span + 1) as int);
        }
        if ms / 2 <= k <= ms {
            let s = (k - half) as u64;
            vstd::arithmetic::div_mod::lemma_small_mod(s as nat, (span + 1) as nat);
        }
    }
}

/// While a connection lasts: frames of text and of bytes are handed on as they are, a ping is
/// answered with its payload, the own ping is written when it is due, a close, the end, a
/// failed write and the order to stop leave the connection, and a broken stream is an error.
pub proof fn law_connection(input: DrainInput)
    ensures
        match input {
            DrainInput::Message(WsMessage::Text(b)) => drained(input) == DrainView::Forward(b@),
            DrainInput::Message(WsMessage::Binary(b)) => drained(input) == DrainView::Forward(b@),
            DrainInput::Message(WsMessage::Ping(b)) => drained(input) == DrainView::WritePong(b@),
            DrainInput::Message(WsMessage::Broken(_)) => drained(input) is Fail,
            DrainInput::Message(WsMessage::Close) => drained(input) is Leave,
            DrainInput::Message(WsMessage::End) => drained(input) is Leave,
            DrainInput::Message(_) => drained(input) is Await,
            DrainInput::PingDue => drained(input) is WritePing,
            DrainInput::Cancelled => drained(input) is Leave,
            DrainInput::Wrote(ok) => drained(input) == if ok {
                DrainView::Await
            } else {
                DrainView::Leave
            },
            DrainInput::Forwarded(ok) => drained(input) == if ok {
                DrainView::Await
            } else {
                DrainView::Leave
            },
        },
{
}

} // verus!
