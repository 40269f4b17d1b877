//! Batching of match events.
//!
//! Events wait in a buffer until there are enough of them, their bytes pass the budget, or
//! the oldest has waited long enough. A batch is a prefix of the buffer; it leaves the buffer
//! when the sink has taken it, and is offered again, after a growing pause, when it has not.
//!
//! The batcher decides and the caller acts: it waits for events, hands batches to the sink
//! and sleeps, and says what came of it.
use vstd::prelude::*;

use crate::error::{EgressError, EgressErrorView};
use crate::event::{EventView, MatchEvent};
use crate::metrics::PipelineMetrics;
use crate::span::{millis, minus, seconds, smaller, Span, MAX_NANOS};

verus! {

/// Soft cap on the bytes of a batch.
pub const BATCH_MAX_BYTES: usize = 262_144;

/// Most events in a batch.
pub const BATCH_MAX_MESSAGES: usize = 10;

/// When a batch is due.
#[derive(Clone, Copy, Debug, PartialEq, Eq, Structural)]
pub struct BatchConfig {
    pub max_messages: usize,
    pub max_bytes: usize,
    pub flush_interval: Span,
}

impl Default for BatchConfig {
    fn default() -> (r: Self)
        ensures
            r.max_messages == BATCH_MAX_MESSAGES,
            r.max_bytes == BATCH_MAX_BYTES,
            r.flush_interval@ == seconds(5),
    {
        BatchConfig {
            max_messages: BATCH_MAX_MESSAGES,
            max_bytes: BATCH_MAX_BYTES,
            flush_interval: Span::from_secs(5),
        }
    }
}

/// An event that waits, with the length of its JSON form in bytes.
#[derive(Clone, Debug, PartialEq, Eq)]
pub struct Queued {
    pub event: MatchEvent,
    pub size: usize,
}

/// What a [`Queued`] says.
pub struct QueuedView {
    pub event: EventView,
    pub size: usize,
}

impl View for Queued {
    type V = QueuedView;

    open spec fn view(&self) -> QueuedView {
        QueuedView { event: self.event@, size: self.size }
    }
}

/// The events of a list as they are said.
pub open spec fn queued(v: Seq<Queued>) -> Seq<QueuedView> {
    Seq::new(v.len(), |i: int| v[i]@)
}

/// The bytes of a list of events.
pub open spec fn total_bytes(q: Seq<QueuedView>) -> nat
    decreases q.len(),
{
    if q.len() == 0 {
        0
    } else {
        total_bytes(q.drop_last()) + q.last().size as nat
    }
}

/// Whether the first `n` events can leave as one batch.
pub open spec fn batch_fits(q: Seq<QueuedView>, config: BatchConfig, n: int) -> bool {
    &&& 0 <= n <= q.len()
    &&& n <= config.max_messages
    &&& total_bytes(q.take(n)) <= config.max_bytes
}

/// The length of the longest prefix that can leave as one batch.
pub open spec fn longest_batch(q: Seq<QueuedView>, config: BatchConfig) -> nat
    decreases q.len(),
{
    if batch_fits(q, config, q.len() as int) {
        q.len()
    } else if q.len() == 0 {
        0
    } else {
        longest_batch(q.drop_last(), config)
    }
}

/// Whether a batch is due now, without waiting longer.
pub open spec fn flush_due(q: Seq<QueuedView>, config: BatchConfig) -> bool {
    q.len() > 0 && (q.len() >= config.max_messages || (total_bytes(q) > config.max_bytes
        && longest_batch(q, config) >= 1))
}

/// How far a flush goes.
#[derive(Clone, Copy, Debug, PartialEq, Eq, Structural)]
pub enum Goal {
    /// As long as a batch is due.
    Ready,
    /// Until nothing waits.
    All,
    /// Until nothing waits, and then the end.
    Last,
}

/// What the batcher is waiting for.
#[derive(Clone, Copy, Debug, PartialEq, Eq, Structural)]
pub enum Phase {
    /// An event, the deadline, or the end of events.
    Waiting,
    /// The sink's answer to the first `n` events. `delay` is the pause after a refusal.
    Sending { n: usize, delay: Span, goal: Goal },
    /// Nothing more.
    Done,
}

/// What came of the last action.
#[derive(Clone, Debug, PartialEq, Eq)]
pub enum BatchInput {
    /// An event came, with the length of its JSON form in bytes.
    Event { event: MatchEvent, size: usize },
    /// The deadline passed.
    Deadline,
    /// No further event will come.
    Closed,
    /// The sink took the batch.
    Sent,
    /// The sink refused the batch.
    Failed,
}

/// What a [`BatchInput`] says.
pub enum BatchInputView {
    Event { event: EventView, size: usize },
    Deadline,
    Closed,
    Sent,
    Failed,
}

impl View for BatchInput {
    type V = BatchInputView;

    open spec fn view(&self) -> BatchInputView {
        match *self {
            BatchInput::Event { event, size } => BatchInputView::Event { event: event@, size },
            BatchInput::Deadline => BatchInputView::Deadline,
            BatchInput::Closed => BatchInputView::Closed,
            BatchInput::Sent => BatchInputView::Sent,
            BatchInput::Failed => BatchInputView::Failed,
        }
    }
}

/// What is to be done next.
#[derive(Clone, Copy, Debug, PartialEq, Eq, Structural)]
pub enum BatchAction {
    /// Wait for an event, however long it takes.
    Receive,
    /// Wait for an event, at most so long.
    ReceiveFor { wait: Span },
    /// Hand the first `n` events to the sink.
    Send { n: usize },
    /// Sleep, and then hand the first `n` events to the sink again.
    SleepAndSend { pause: Span, n: usize },
    /// End.
    Finish,
    /// End with the error that an event is too large to leave.
    TooLarge,
}

/// What a batcher holds.
#[verifier::ext_equal]
pub struct BatchState {
    pub config: BatchConfig,
    pub buffer: Seq<QueuedView>,
    /// When the oldest buffered event came, in nanoseconds on the caller's clock.
    pub started: Option<nat>,
    pub phase: Phase,
}

/// A batcher.
pub struct Batcher {
    config: BatchConfig,
    buffer: Vec<Queued>,
    started: Option<Span>,
    phase: Phase,
}

impl View for Batcher {
    type V = BatchState;

    closed spec fn view(&self) -> BatchState {
        BatchState {
            config: self.config,
            buffer: queued(self.buffer@),
            started: match self.started {
                Some(s) => Some(s@),
                None => None,
            },
            phase: self.phase,
        }
    }
}

/// The pause before a refused batch is offered for the second time.
pub open spec fn first_pause(delay: Span) -> bool {
    delay@ == millis(10)
}

/// The pause after the given one: twice as long, and at most five seconds.
pub open spec fn next_pause(delay: nat) -> nat {
    smaller(smaller(2 * delay, MAX_NANOS as nat), seconds(5))
}

impl BatchState {
    /// Every buffered event fits into a batch of its own, and what is on its way to the
    /// sink is a batch.
    pub open spec fn valid(self) -> bool {
        &&& forall|i: int|
            0 <= i < self.buffer.len() ==> (#[trigger] self.buffer[i]).size
                <= self.config.max_bytes
        &&& self.phase is Sending ==> self.phase->n >= 1 && batch_fits(
            self.buffer,
            self.config,
            self.phase->n as int,
        )
    }

    /// Whether a flush with the given goal goes on.
    pub open spec fn wants_more(self, goal: Goal) -> bool {
        match goal {
            Goal::Ready => flush_due(self.buffer, self.config),
            Goal::All => self.buffer.len() > 0,
            Goal::Last => self.buffer.len() > 0,
        }
    }

    /// Whether `after` and `action` are how a flush with the given goal goes on.
    pub open spec fn goes_on(
        self,
        goal: Goal,
        now: nat,
        after: BatchState,
        action: BatchAction,
    ) -> bool {
        if self.wants_more(goal) {
            let n = longest_batch(self.buffer, self.config);
            if n == 0 {
                after == (BatchState { phase: Phase::Done, ..self }) && action
                    == BatchAction::TooLarge
            } else {
                &&& after == (BatchState { phase: after.phase, ..self })
                &&& after.phase is Sending && after.phase->n == n && after.phase->goal == goal
                    && first_pause(after.phase->delay)
                &&& action == (BatchAction::Send { n: after.phase->n })
            }
        } else if goal == Goal::Last {
            after == (BatchState { phase: Phase::Done, ..self }) && action == BatchAction::Finish
        } else if self.buffer.len() == 0 {
            after == (BatchState { phase: Phase::Waiting, started: None, ..self }) && action
                == BatchAction::Receive
        } else {
            let started = match self.started {
                Some(t) => t,
                None => now,
            };
            &&& after == (BatchState { phase: Phase::Waiting, started: Some(started), ..self })
            &&& action is ReceiveFor && action->wait@ == minus(
                self.config.flush_interval@,
                minus(now, started),
            )
        }
    }

    /// The state once an event is in the buffer.
    pub open spec fn with_event(self, event: EventView, size: usize, now: nat) -> BatchState {
        BatchState {
            buffer: self.buffer.push(QueuedView { event, size }),
            started: if self.buffer.len() == 0 {
                Some(now)
            } else {
                self.started
            },
            ..self
        }
    }

    /// Whether `after` and `action` are what follows an input.
    pub open spec fn follows(
        self,
        input: BatchInputView,
        now: nat,
        after: BatchState,
        action: BatchAction,
    ) -> bool {
        match (self.phase, input) {
            (Phase::Waiting, BatchInputView::Event { event, size }) => if size
                > self.config.max_bytes {
                after == (BatchState { phase: Phase::Done, ..self }) && action
                    == BatchAction::TooLarge
            } else {
                self.with_event(event, size, now).goes_on(Goal::Ready, now, after, action)
            },
            (Phase::Waiting, BatchInputView::Deadline) => self.goes_on(
                Goal::All,
                now,
                after,
                action,
            ),
            (Phase::Waiting, BatchInputView::Closed) => self.goes_on(
                Goal::Last,
                now,
                after,
                action,
            ),
            (Phase::Sending { n, delay, goal }, BatchInputView::Sent) => (BatchState {
                buffer: self.buffer.skip(n as int),
                ..self
            }).goes_on(goal, now, after, action),
            (Phase::Sending { n, delay, goal }, BatchInputView::Failed) => {
                &&& after == (BatchState { phase: after.phase, ..self })
                &&& after.phase is Sending && after.phase->n == n && after.phase->goal == goal
                    && after.phase->delay@ == next_pause(delay@)
                &&& action == (BatchAction::SleepAndSend { pause: delay, n })
            },
            _ => false,
        }
    }

    /// Whether an input can come in this state.
    pub open spec fn expects(self, input: BatchInputView) -> bool {
        match input {
            BatchInputView::Event { .. } => self.phase is Waiting,
            BatchInputView::Deadline => self.phase is Waiting,
            BatchInputView::Closed => self.phase is Waiting,
            BatchInputView::Sent => self.phase is Sending,
            BatchInputView::Failed => self.phase is Sending,
        }
    }
}

/// The counters after an input: a batch that was taken and one that was refused count.
pub open spec fn counted(m: PipelineMetrics, input: BatchInputView) -> PipelineMetrics {
    match input {
        BatchInputView::Sent => PipelineMetrics {
            batches_sent: m.batches_sent.wrapping_add(1),
            ..m
        },
        BatchInputView::Failed => PipelineMetrics {
            egress_retries: m.egress_retries.wrapping_add(1),
            ..m
        },
        _ => m,
    }
}

/// The first `n` events fit where `n` is at most the length of the longest batch.
pub proof fn lemma_longest_batch(q: Seq<QueuedView>, config: BatchConfig)
    ensures
        batch_fits(q, config, longest_batch(q, config) as int),
        forall|n: int| batch_fits(q, config, n) ==> n <= longest_batch(q, config),
    decreases q.len(),
{
    if batch_fits(q, config, q.len() as int) {
    } else if q.len() == 0 {
        assert(q.take(0) =~= Seq::<QueuedView>::empty());
        assert(batch_fits(q, config, 0));
    } else {
        let rest = q.drop_last();
        lemma_longest_batch(rest, config);
        let k = longest_batch(rest, config) as int;
        assert(rest.take(k) =~= q.take(k));
        assert forall|n: int| batch_fits(q, config, n) implies n <= k by {
            if n < q.len() {
                assert(rest.take(n) =~= q.take(n));
                assert(batch_fits(rest, config, n));
            }
        }
    }
}

/// A longer prefix has no fewer bytes.
pub proof fn lemma_total_bytes_grows(q: Seq<QueuedView>, m: int, n: int)
    requires
        0 <= m <= n <= q.len(),
    ensures
        total_bytes(q.take(m)) <= total_bytes(q.take(n)),
    decreases n - m,
{
    if m < n {
        lemma_total_bytes_grows(q, m, n - 1);
        assert(q.take(n).drop_last() =~= q.take(n - 1));
    }
}

/// The longest batch ends where the next event does not fit.
proof fn lemma_longest_batch_is(q: Seq<QueuedView>, config: BatchConfig, n: int)
    requires
        batch_fits(q, config, n),
        n < q.len() ==> !batch_fits(q, config, n + 1),
    ensures
        longest_batch(q, config) == n,
{
    lemma_longest_batch(q, config);
    let k = longest_batch(q, config) as int;
    if k > n {
        lemma_total_bytes_grows(q, n + 1, k);
    }
}

impl Batcher {
    /// A batcher in which nothing waits.
    pub fn new(config: BatchConfig) -> (r: Self)
        ensures
            r@ == (BatchState {
                config,
                buffer: Seq::empty(),
                started: None,
                phase: Phase::Waiting,
            }),
            r@.valid(),
    {
        let r = Batcher { config, buffer: Vec::new(), started: None, phase: Phase::Waiting };
        assert(r@.buffer =~= Seq::<QueuedView>::empty());
        r
    }

    /// The buffered events, oldest first.
    pub fn buffered(&self) -> (r: &[Queued])
        ensures
            queued(r@) == self@.buffer,
    {
        self.buffer.as_slice()
    }

    /// The bytes of the buffered events.
    pub fn buffered_bytes(&self) -> (r: u128)
        ensures
            r == total_bytes(self@.buffer),
    {
        let ghost q = self@.buffer;
        let mut total: u128 = 0;
        for i in 0..self.buffer.len()
            invariant
                q == queued(self.buffer@),
                total == total_bytes(q.take(i as int)),
                total <= i * (usize::MAX as u128),
        {
            assert(q.take(i + 1).drop_last() =~= q.take(i as int));
            assert(i * (usize::MAX as u128) + usize::MAX == (i + 1) * (usize::MAX as u128))
                by (nonlinear_arith);
            assert((i + 1) * (usize::MAX as u128) <= u64::MAX * u64::MAX) by (nonlinear_arith)
                requires
                    i + 1 <= u64::MAX,
                    usize::MAX <= u64::MAX,
            ;
            total = total + self.buffer[i].size as u128;
        }
        assert(q.take(q.len() as int) =~= q);
        total
    }

    /// The length of the longest prefix of the buffer that can leave as one batch.
    pub fn prefix_len(&self) -> (r: usize)
        ensures
            r == longest_batch(self@.buffer, self@.config),
    {
        let ghost q = self@.buffer;
        let mut bytes: usize = 0;
        let mut n: usize = 0;
        assert(q.take(0) =~= Seq::<QueuedView>::empty());
        while n < self.buffer.len()
            invariant
                q == queued(self.buffer@),
                n <= self.buffer@.len(),
                bytes == total_bytes(q.take(n as int)),
                batch_fits(q, self.config, n as int),
            decreases self.buffer@.len() - n,
        {
            let size: usize = self.buffer[n].size;
            proof {
                assert(q.take(n + 1).drop_last() =~= q.take(n as int));
                assert(total_bytes(q.take(n + 1)) == bytes + size);
            }
            if n >= self.config.max_messages || size > self.config.max_bytes || bytes
                > self.config.max_bytes - size {
                proof {
                    lemma_longest_batch_is(q, self.config, n as int);
                }
                return n;
            }
            bytes = bytes + size;
            n = n + 1;
        }
        proof {
            lemma_longest_batch_is(q, self.config, n as int);
        }
        n
    }

    /// Whether a batch is due now: enough events, or too many bytes to wait for more.
    pub fn should_flush_now(&self) -> (r: bool)
        ensures
            r == flush_due(self@.buffer, self@.config),
    {
        if self.buffer.len() == 0 {
            return false;
        }
        if self.buffer.len() >= self.config.max_messages {
            return true;
        }
        self.buffered_bytes() > self.config.max_bytes as u128 && self.prefix_len() >= 1
    }

    /// Puts an event into the buffer, unless it is too large for a batch of its own. The
    /// first one starts the clock.
    pub fn enqueue(&mut self, event: MatchEvent, size: usize, now: Span) -> (r: Result<
        (),
        EgressError,
    >)
        ensures
            size <= old(self)@.config.max_bytes ==> r is Ok && final(self)@ == old(
                self)@.with_event(event@, size, now@),
            size > old(self)@.config.max_bytes ==> r is Err && r->Err_0@
                == EgressErrorView::EventTooLarge && final(self)@ == old(self)@,
    {
        if size > self.config.max_bytes {
            return Err(EgressError::EventTooLarge);
        }
        if self.buffer.len() == 0 {
            self.started = Some(now);
        }
        let ghost before = queued(self.buffer@);
        let item = Queued { event, size };
        self.buffer.push(item);
        assert(queued(self.buffer@) =~= before.push(item@));
        Ok(())
    }

    /// Goes on with a flush.
    fn go_on(&mut self, goal: Goal, now: Span) -> (r: BatchAction)
        requires
            old(self)@.buffer.len() > 0 ==> forall|i: int|
                0 <= i < old(self)@.buffer.len() ==> (#[trigger] old(self)@.buffer[i]).size
                    <= old(self)@.config.max_bytes,
        ensures
            old(self)@.goes_on(goal, now@, final(self)@, r),
            final(self)@.valid(),
    {
        let more = match goal {
            Goal::Ready => self.should_flush_now(),
            Goal::All => self.buffer.len() > 0,
            Goal::Last => self.buffer.len() > 0,
        };
        assert(more == self@.wants_more(goal));
        if more {
            let n: usize = self.prefix_len();
            proof {
                lemma_longest_batch(self@.buffer, self@.config);
            }
            if n == 0 {
                self.phase = Phase::Done;
                return BatchAction::TooLarge;
            }
            self.phase = Phase::Sending { n, delay: Span::from_millis(10), goal };
            return BatchAction::Send { n };
        }
        if goal == Goal::Last {
            self.phase = Phase::Done;
            return BatchAction::Finish;
        }
        self.phase = Phase::Waiting;
        if self.buffer.len() == 0 {
            self.started = None;
            return BatchAction::Receive;
        }
        let started = match self.started {
            Some(t) => t,
            None => now,
        };
        self.started = Some(started);
        BatchAction::ReceiveFor { wait: self.config.flush_interval.less(now.less(started)) }
    }

    /// Takes what came of the last action and says what is to be done next. `now` is the
    /// reading of a clock that does not go back.
    pub fn step(&mut self, input: BatchInput, now: Span, metrics: &mut PipelineMetrics) -> (r:
        BatchAction)
        requires
            old(self)@.valid(),
            old(self)@.expects(input@),
        ensures
            old(self)@.follows(input@, now@, final(self)@, r),
            *final(metrics) == counted(*old(metrics), input@),
            final(self)@.valid(),
    {
        match input {
            BatchInput::Event { event, size } => match self.enqueue(event, size, now) {
                Ok(()) => self.go_on(Goal::Ready, now),
                Err(_) => {
                    self.phase = Phase::Done;
                    BatchAction::TooLarge
                },
            },
            BatchInput::Deadline => self.go_on(Goal::All, now),
            BatchInput::Closed => self.go_on(Goal::Last, now),
            BatchInput::Sent => {
                metrics.batches_sent = metrics.batches_sent.wrapping_add(1);
                match self.phase {
                    Phase::Sending { n, delay: _, goal } => {
                        let ghost q = queued(self.buffer@);
                        let rest = self.buffer.split_off(n);
                        assert(queued(rest@) =~= q.skip(n as int));
                        self.buffer = rest;
                        self.go_on(goal, now)
                    },
                    _ => BatchAction::Finish,
                }
            },
            BatchInput::Failed => {
                metrics.egress_retries = metrics.egress_retries.wrapping_add(1);
                match self.phase {
                    Phase::Sending { n, delay, goal } => {
                        let next = delay.doubled().at_most(Span::from_secs(5));
                        self.phase = Phase::Sending { n, delay: next, goal };
                        BatchAction::SleepAndSend { pause: delay, n }
                    },
                    _ => BatchAction::Finish,
                }
            },
        }
    }
}

/// One step of a batcher.
pub struct BatchStep {
    pub before: BatchState,
    pub input: BatchInputView,
    pub now: nat,
    pub after: BatchState,
    pub action: BatchAction,
}

impl BatchStep {
    /// Whether the step is one that a batcher takes.
    pub open spec fn possible(self) -> bool {
        &&& self.before.valid()
        &&& self.before.expects(self.input)
        &&& self.before.follows(self.input, self.now, self.after, self.action)
    }

    /// The events that the step takes in.
    pub open spec fn taken_in(self) -> Seq<QueuedView> {
        match self.input {
            BatchInputView::Event { event, size } => if size <= self.before.config.max_bytes {
                seq![QueuedView { event, size }]
            } else {
                Seq::empty()
            },
            _ => Seq::empty(),
        }
    }

    /// The events that have left with the step: the batch that the sink took.
    pub open spec fn delivered(self) -> Seq<QueuedView> {
        match (self.before.phase, self.input) {
            (Phase::Sending { n, .. }, BatchInputView::Sent) => self.before.buffer.take(n as int),
            _ => Seq::empty(),
        }
    }
}

/// Whether the steps follow one another, from the first state on.
pub open spec fn is_run(first: BatchState, run: Seq<BatchStep>) -> bool {
    &&& forall|i: int| 0 <= i < run.len() ==> (#[trigger] run[i]).possible()
    &&& run.len() > 0 ==> run[0].before == first
    &&& forall|i: int, j: int|
        0 <= i < run.len() && j == i + 1 && j < run.len() ==> (#[trigger] run[i]).after == (
        #[trigger] run[j]).before
}

/// The events that a run has taken in, in order.
pub open spec fn all_taken_in(run: Seq<BatchStep>) -> Seq<QueuedView>
    decreases run.len(),
{
    if run.len() == 0 {
        Seq::empty()
    } else {
        all_taken_in(run.drop_last()) + run.last().taken_in()
    }
}

/// The events that have left during a run, in order.
pub open spec fn all_delivered(run: Seq<BatchStep>) -> Seq<QueuedView>
    decreases run.len(),
{
    if run.len() == 0 {
        Seq::empty()
    } else {
        all_delivered(run.drop_last()) + run.last().delivered()
    }
}

/// A step takes events in at the end and delivers them from the front.
pub proof fn law_step_keeps_order(step: BatchStep)
    requires
        step.possible(),
    ensures
        step.before.buffer + step.taken_in() == step.delivered() + step.after.buffer,
        step.after.config == step.before.config,
{
    let q = step.before.buffer;
    match (step.before.phase, step.input) {
        (Phase::Waiting, BatchInputView::Event { event, size }) => {
            assert(q + step.taken_in() =~= step.delivered() + step.after.buffer);
        },
        (Phase::Sending { n, .. }, BatchInputView::Sent) => {
            assert(q.take(n as int) + q.skip(n as int) =~= q);
            assert(q + step.taken_in() =~= q);
        },
        _ => {
            assert(q + step.taken_in() =~= step.delivered() + step.after.buffer);
        },
    }
}

/// Nothing is lost, doubled or reordered: what has left, followed by what still waits, is
/// what waited at first, followed by what came in.
pub proof fn law_nothing_is_lost(first: BatchState, run: Seq<BatchStep>)
    requires
        is_run(first, run),
        run.len() > 0,
    ensures
        first.buffer + all_taken_in(run) == all_delivered(run) + run.last().after.buffer,
    decreases run.len(),
{
    let step = run.last();
    let before = run.drop_last();
    law_step_keeps_order(step);
    if before.len() == 0 {
        assert(all_taken_in(before) =~= Seq::<QueuedView>::empty());
        assert(all_delivered(before) =~= Seq::<QueuedView>::empty());
        assert(all_taken_in(run) =~= step.taken_in());
        assert(all_delivered(run) =~= step.delivered());
    } else {
        assert forall|i: int| 0 <= i < before.len() implies (#[trigger] before[i]).possible() by {
            assert(run[i].possible());
        }
        assert forall|i: int, j: int|
            0 <= i < before.len() && j == i + 1 && j < before.len() implies (
        #[trigger] before[i]).after == (#[trigger] before[j]).before by {
            assert(run[i].after == run[j].before);
        }
        law_nothing_is_lost(first, before);
        assert(run[run.len() - 2].after == run[run.len() - 1].before);
        let f = first.buffer;
        let t = all_taken_in(before);
        let d = all_delivered(before);
        assert(f + (t + step.taken_in()) =~= (f + t) + step.taken_in());
        assert((d + step.before.buffer) + step.taken_in() =~= d + (step.before.buffer
            + step.taken_in()));
        assert(d + (step.delivered() + step.after.buffer) =~= (d + step.delivered())
            + step.after.buffer);
    }
}

/// Every batch that is handed to the sink has at least one event, and no more events and
/// bytes than a batch may have.
pub proof fn law_batches_are_small(step: BatchStep)
    requires
        step.possible(),
        step.action is Send || step.action is SleepAndSend,
    ensures
        ({
            let n = if step.action is Send {
                step.action->Send_n
            } else {
                step.action->SleepAndSend_n
            };
            &&& 1 <= n <= step.after.config.max_messages
            &&& n <= step.after.buffer.len()
            &&& total_bytes(step.after.buffer.take(n as int)) <= step.after.config.max_bytes
        }),
{
    lemma_longest_batch(step.after.buffer, step.after.config);
}

/// A first offer takes as many events as a batch may have.
pub proof fn law_batches_are_longest(step: BatchStep, m: int)
    requires
        step.possible(),
        step.action is Send,
        batch_fits(step.after.buffer, step.after.config, m),
    ensures
        m <= step.action->Send_n,
{
    lemma_longest_batch(step.after.buffer, step.after.config);
}

/// Where batches may have an event at all, a buffer of events that each fit has a batch.
pub proof fn lemma_some_batch(q: Seq<QueuedView>, config: BatchConfig)
    requires
        config.max_messages >= 1,
        q.len() > 0,
        q[0].size <= config.max_bytes,
    ensures
        longest_batch(q, config) >= 1,
{
    assert(q.take(1).drop_last() =~= Seq::<QueuedView>::empty());
    assert(total_bytes(q.take(1).drop_last()) == 0);
    assert(total_bytes(q.take(1)) == q[0].size);
    assert(batch_fits(q, config, 1));
    lemma_longest_batch(q, config);
}

/// The batcher never gives up on an event that fits: it ends with the error only when an
/// event is larger than a batch may be.
pub proof fn law_only_oversized_events_fail(step: BatchStep)
    requires
        step.possible(),
        step.before.config.max_messages >= 1,
        step.action is TooLarge,
    ensures
        step.input is Event,
        step.input->size > step.before.config.max_bytes,
{
    let q = step.before.buffer;
    let config = step.before.config;
    match (step.before.phase, step.input) {
        (Phase::Waiting, BatchInputView::Event { event, size }) => {
            if size <= config.max_bytes {
                let q1 = q.push(QueuedView { event, size });
                assert(q1[0].size <= config.max_bytes);
                lemma_some_batch(q1, config);
            }
        },
        (Phase::Sending { n, delay, goal }, BatchInputView::Sent) => {
            let q1 = q.skip(n as int);
            if q1.len() > 0 {
                assert(q1[0] == q[n as int]);
                lemma_some_batch(q1, config);
            }
        },
        (Phase::Waiting, _) => {
            if q.len() > 0 {
                lemma_some_batch(q, config);
            }
        },
        _ => {},
    }
}

/// The batcher does not wait for events while a batch is due.
pub proof fn law_waits_only_for_more(step: BatchStep)
    requires
        step.possible(),
        step.action is Receive || step.action is ReceiveFor,
        step.before.phase is Sending ==> step.before.phase->goal == Goal::Ready,
    ensures
        step.action is Receive <==> step.after.buffer.len() == 0,
        !flush_due(step.after.buffer, step.after.config),
{
}

/// Waiting for more events never takes longer than the flush interval.
pub proof fn law_wait_is_bounded(step: BatchStep)
    requires
        step.possible(),
        step.action is ReceiveFor,
    ensures
        step.action->wait@ <= step.after.config.flush_interval@,
{
}

/// A refused batch is offered again unchanged, and the buffer keeps its events.
pub proof fn law_refusal_keeps_events(step: BatchStep)
    requires
        step.possible(),
        step.input is Failed,
    ensures
        step.after.buffer == step.before.buffer,
        step.action is SleepAndSend,
        step.action->SleepAndSend_n == step.before.phase->n,
        step.after.phase->n == step.before.phase->n,
{
}

/// The pauses begin at ten milliseconds, do not get shorter, and stay within five seconds.
pub proof fn law_pauses_are_bounded(step: BatchStep)
    requires
        step.possible(),
        step.before.phase is Sending ==> millis(10) <= step.before.phase->delay@ <= seconds(5),
    ensures
        step.after.phase is Sending ==> millis(10) <= step.after.phase->delay@ <= seconds(5),
        step.action is SleepAndSend ==> millis(10) <= step.action->pause@ <= seconds(5)
            && step.action->pause@ <= step.after.phase->delay@,
{
}

/// A batcher that has ended has delivered all, or met an event that was too large.
pub proof fn law_finish_means_empty(step: BatchStep)
    requires
        step.possible(),
        step.action is Finish,
    ensures
        step.after.buffer.len() == 0,
{
}

} // verus!
