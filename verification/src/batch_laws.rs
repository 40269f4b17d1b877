//! What the batcher does with events, said through its buffer and its clock.
use vstd::prelude::*;

use crate::batch::{
    batch_fits, counted, flush_due, lemma_longest_batch, lemma_some_batch, total_bytes,
    BatchConfig, BatchInputView, BatchStep, Goal, Phase, QueuedView,
};
use crate::metrics::PipelineMetrics;
use crate::span::{millis, seconds};

verus! {

/// The bytes of a buffer are the sum of the sizes of its events.
pub proof fn law_total_bytes(q: Seq<QueuedView>, x: QueuedView)
    ensures
        total_bytes(Seq::empty()) == 0,
        total_bytes(q.push(x)) == total_bytes(q) + x.size,
{
    assert(q.push(x).drop_last() =~= q);
}

/// While the batcher waits it has room: fewer events than a batch may have, and no more
/// bytes. It waits without a limit exactly where nothing is buffered.
pub proof fn law_waits_with_room(step: BatchStep)
    requires
        step.possible(),
        step.before.config.max_messages >= 1,
        step.action is Receive || step.action is ReceiveFor,
    ensures
        step.after.buffer.len() < step.after.config.max_messages,
        total_bytes(step.after.buffer) <= step.after.config.max_bytes,
        step.action is Receive <==> step.after.buffer.len() == 0,
        step.after.phase is Waiting,
{
    lemma_sizes_stay(step);
    if step.after.buffer.len() > 0 {
        lemma_some_batch(step.after.buffer, step.after.config);
    }
}

proof fn lemma_sizes_stay(step: BatchStep)
    requires
        step.possible(),
    ensures
        step.after.config == step.before.config,
        forall|i: int|
            0 <= i < step.after.buffer.len() ==> (#[trigger] step.after.buffer[i]).size
                <= step.after.config.max_bytes,
{
    let q = step.before.buffer;
    match (step.before.phase, step.input) {
        (Phase::Sending { n, .. }, BatchInputView::Sent) => {
            assert forall|i: int| 0 <= i < step.after.buffer.len() implies (
            #[trigger] step.after.buffer[i]).size <= step.after.config.max_bytes by {
                assert(step.after.buffer[i] == q[n + i]);
            }
        },
        (Phase::Waiting, BatchInputView::Event { event, size }) => {
            assert forall|i: int| 0 <= i < step.after.buffer.len() implies (
            #[trigger] step.after.buffer[i]).size <= step.after.config.max_bytes by {
                if i < q.len() {
                    assert(step.after.buffer[i] == q[i]);
                }
            }
        },
        _ => {},
    }
}

/// A batch is due exactly where something waits and there are as many events as a batch may
/// have, or more bytes.
pub proof fn law_when_a_batch_is_due(q: Seq<QueuedView>, config: BatchConfig)
    requires
        config.max_messages >= 1,
        forall|i: int| 0 <= i < q.len() ==> (#[trigger] q[i]).size <= config.max_bytes,
    ensures
        flush_due(q, config) <==> q.len() > 0 && (q.len() >= config.max_messages || total_bytes(q)
            > config.max_bytes),
{
    if q.len() > 0 {
        lemma_some_batch(q, config);
    }
}

/// What the buffer holds: an event that fits goes to its end, a batch that the sink took
/// leaves from its front, and nothing else changes it.
pub proof fn law_buffer_moves(step: BatchStep)
    requires
        step.possible(),
    ensures
        step.after.config == step.before.config,
        match step.input {
            BatchInputView::Event { event, size } => if size <= step.before.config.max_bytes {
                step.after.buffer == step.before.buffer.push(QueuedView { event, size })
            } else {
                step.after.buffer == step.before.buffer
            },
            BatchInputView::Sent => step.after.buffer == step.before.buffer.skip(
                step.before.phase->n as int,
            ),
            _ => step.after.buffer == step.before.buffer,
        },
{
}

/// What an event leads to: one larger than a batch may be ends the batcher; otherwise a batch
/// leaves exactly where there are enough events or too many bytes now.
pub proof fn law_event_leads_to(step: BatchStep)
    requires
        step.possible(),
        step.before.config.max_messages >= 1,
        step.input is Event,
    ensures
        ({
            let q = step.after.buffer;
            let config = step.before.config;
            let full = q.len() >= config.max_messages || total_bytes(q) > config.max_bytes;
            &&& step.input->size > config.max_bytes ==> step.action is TooLarge
            &&& step.input->size <= config.max_bytes && full ==> step.action is Send
            &&& step.input->size <= config.max_bytes && !full ==> step.action is ReceiveFor
        }),
{
    lemma_sizes_stay(step);
    if step.after.buffer.len() > 0 {
        lemma_some_batch(step.after.buffer, step.after.config);
    }
}

/// At the deadline and at the end everything that waits leaves, batch by batch; with nothing
/// left the batcher waits on, or ends.
pub proof fn law_flush_empties_the_buffer(step: BatchStep)
    requires
        step.possible(),
        step.before.config.max_messages >= 1,
        step.input is Deadline || step.input is Closed || (step.input is Sent
            && step.before.phase->goal != Goal::Ready),
    ensures
        ({
            let last = step.input is Closed || (step.input is Sent && step.before.phase->goal
                == Goal::Last);
            &&& step.after.buffer.len() > 0 ==> step.action is Send && step.after.phase->goal == (
            if last {
                Goal::Last
            } else {
                Goal::All
            })
            &&& step.after.buffer.len() == 0 && last ==> step.action is Finish
            &&& step.after.buffer.len() == 0 && !last ==> step.action is Receive
        }),
{
    lemma_sizes_stay(step);
    if step.after.buffer.len() > 0 {
        lemma_some_batch(step.after.buffer, step.after.config);
    }
}

/// After a batch that was due, the next leaves as long as one is due.
pub proof fn law_due_batches_follow(step: BatchStep)
    requires
        step.possible(),
        step.before.config.max_messages >= 1,
        step.input is Sent,
        step.before.phase->goal == Goal::Ready,
    ensures
        ({
            let q = step.after.buffer;
            let config = step.before.config;
            let full = q.len() >= config.max_messages || total_bytes(q) > config.max_bytes;
            &&& full ==> step.action is Send && step.after.phase->goal == Goal::Ready
            &&& !full && q.len() > 0 ==> step.action is ReceiveFor
            &&& q.len() == 0 ==> step.action is Receive
        }),
{
    lemma_sizes_stay(step);
    if step.after.buffer.len() > 0 {
        lemma_some_batch(step.after.buffer, step.after.config);
    }
}

/// A first offer is the longest beginning of the buffer that a batch may be.
pub proof fn law_offer_is_the_longest(step: BatchStep, m: int)
    requires
        step.possible(),
        step.action is Send,
        0 <= m <= step.after.buffer.len(),
    ensures
        ({
            let n = step.action->Send_n as int;
            let q = step.after.buffer;
            let config = step.after.config;
            &&& 1 <= n <= q.len() && n <= config.max_messages
            &&& total_bytes(q.take(n)) <= config.max_bytes
            &&& m <= config.max_messages && total_bytes(q.take(m)) <= config.max_bytes ==> m <= n
            &&& step.after.phase is Sending && step.after.phase->n == n
        }),
{
    let q = step.after.buffer;
    let config = step.after.config;
    lemma_longest_batch(q, config);
    if m <= config.max_messages && total_bytes(q.take(m)) <= config.max_bytes {
        assert(batch_fits(q, config, m));
    }
}

/// The clock starts with the first event of an empty buffer and runs until the buffer is
/// empty again; the batcher waits for what is left of the interval.
pub proof fn law_clock_runs_from_the_first_event(step: BatchStep)
    requires
        step.possible(),
        step.action is ReceiveFor,
    ensures
        step.after.started is Some,
        step.input is Event && step.before.buffer.len() == 0 ==> step.after.started == Some(
            step.now,
        ) && step.action->wait@ == step.after.config.flush_interval@,
        step.before.buffer.len() > 0 && step.before.started is Some ==> step.after.started
            == step.before.started,
        ({
            let passed = if step.now < step.after.started->0 {
                0
            } else {
                step.now - step.after.started->0
            };
            let interval = step.after.config.flush_interval@;
            step.action->wait@ == if passed > interval {
                0
            } else {
                interval - passed
            }
        }),
{
}

/// A refused batch is offered again after a pause: ten milliseconds the first time, then
/// twice as long each time, and never more than five seconds.
pub proof fn law_pauses_double(step: BatchStep)
    requires
        step.possible(),
    ensures
        step.action is Send ==> step.after.phase->delay@ == millis(10),
        step.input is Failed ==> ({
            let delay = step.before.phase->delay@;
            &&& step.action is SleepAndSend
            &&& step.action->pause@ == delay
            &&& step.action->SleepAndSend_n == step.before.phase->n
            &&& step.after.phase is Sending
            &&& step.after.phase->n == step.before.phase->n
            &&& step.after.phase->goal == step.before.phase->goal
            &&& 2 * delay <= seconds(5) ==> step.after.phase->delay@ == 2 * delay
            &&& 2 * delay > seconds(5) ==> step.after.phase->delay@ == seconds(5)
        }),
{
}

/// Every batch that the sink took is counted once, and every refusal.
pub proof fn law_deliveries_are_counted(m: PipelineMetrics, input: BatchInputView)
    requires
        m.batches_sent < u64::MAX,
        m.egress_retries < u64::MAX,
    ensures
        counted(m, input) == (PipelineMetrics {
            batches_sent: (m.batches_sent + if input is Sent {
                1int
            } else {
                0
            }) as u64,
            egress_retries: (m.egress_retries + if input is Failed {
                1int
            } else {
                0
            }) as u64,
            ..m
        }),
{
}

} // verus!
