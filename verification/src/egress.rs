//! Sinks for batches of match events.
use vstd::prelude::*;

use crate::error::{EgressError, EgressErrorView};
use crate::event::{EventView, MatchEvent};
use crate::numbers::{decimal, decimal_text};

verus! {

/// The events of a list as they are said.
pub open spec fn events_of(v: Seq<MatchEvent>) -> Seq<EventView> {
    Seq::new(v.len(), |i: int| v[i]@)
}

/// What the result of a delivery says.
pub open spec fn delivery(r: Result<(), EgressError>) -> Option<EgressErrorView> {
    match r {
        Ok(_) => None,
        Err(e) => Some(e@),
    }
}

/// The error that every sink gives for an empty batch.
pub open spec fn empty_batch() -> EgressErrorView {
    EgressErrorView::Sink("empty batch must never be sent"@)
}

/// Every sink refuses an empty batch.
pub fn check_batch(items: &[MatchEvent]) -> (r: Result<(), EgressError>)
    ensures
        delivery(r) == (if items@.len() == 0 {
            Some(empty_batch())
        } else {
            None
        }),
{
    if items.len() == 0 {
        Err(EgressError::Sink("empty batch must never be sent".to_owned()))
    } else {
        Ok(())
    }
}

/// What a queue's answer to a batch means: a batch of which entries failed is refused.
pub fn check_queue_answer(failed: usize, total: usize) -> (r: Result<(), EgressError>)
    ensures
        delivery(r) == (if failed == 0 {
            None
        } else {
            Some(
                EgressErrorView::Sqs(
                    decimal(failed as nat) + " of "@ + decimal(total as nat)
                        + " SQS batch entries failed"@,
                ),
            )
        }),
{
    if failed == 0 {
        return Ok(());
    }
    let mut m = decimal_text(failed as u128);
    m.append(" of ");
    m.append(decimal_text(total as u128).as_str());
    m.append(" SQS batch entries failed");
    Err(EgressError::Sqs(m))
}

/// Local sink: one JSON object per match event on standard output.
#[derive(Clone, Copy, Debug, PartialEq, Eq, Structural)]
pub struct StdoutSink;

impl Default for StdoutSink {
    fn default() -> (r: Self)
        ensures
            r == StdoutSink,
    {
        StdoutSink
    }
}

impl StdoutSink {
    /// The sink.
    pub fn new() -> (r: Self)
        ensures
            r == StdoutSink,
    {
        StdoutSink
    }
}

/// In-memory sink. Records every batch; can fail some times before it succeeds.
#[derive(Clone, Debug)]
pub struct RecordingSink {
    batches: Vec<Vec<MatchEvent>>,
    fail_remaining: usize,
}

/// What a [`RecordingSink`] holds.
#[verifier::ext_equal]
pub struct RecordingView {
    pub batches: Seq<Seq<EventView>>,
    pub fail_remaining: usize,
}

/// The batches of a list as they are said.
pub open spec fn batches_of(v: Seq<Vec<MatchEvent>>) -> Seq<Seq<EventView>> {
    Seq::new(v.len(), |i: int| events_of(v[i]@))
}

impl View for RecordingSink {
    type V = RecordingView;

    closed spec fn view(&self) -> RecordingView {
        RecordingView {
            batches: batches_of(self.batches@),
            fail_remaining: self.fail_remaining,
        }
    }
}

/// The number of events in a list of batches.
pub open spec fn event_total(batches: Seq<Seq<EventView>>) -> nat
    decreases batches.len(),
{
    if batches.len() == 0 {
        0
    } else {
        event_total(batches.drop_last()) + batches.last().len()
    }
}

impl Default for RecordingSink {
    fn default() -> (r: Self)
        ensures
            r@ == (RecordingView { batches: Seq::empty(), fail_remaining: 0 }),
    {
        RecordingSink::new()
    }
}

impl RecordingSink {
    /// A sink that has recorded nothing and never fails.
    pub fn new() -> (r: Self)
        ensures
            r@ == (RecordingView { batches: Seq::empty(), fail_remaining: 0 }),
    {
        let r = RecordingSink { batches: Vec::new(), fail_remaining: 0 };
        assert(r@.batches =~= Seq::<Seq<EventView>>::empty());
        r
    }

    /// The sink that fails for the next `n` batches.
    pub fn fail_times(self, n: usize) -> (r: Self)
        ensures
            r@ == (RecordingView { fail_remaining: n, ..self@ }),
    {
        RecordingSink { batches: self.batches, fail_remaining: n }
    }

    /// The recorded batches.
    pub fn batches(&self) -> (r: &[Vec<MatchEvent>])
        ensures
            batches_of(r@) == self@.batches,
    {
        self.batches.as_slice()
    }

    /// The number of recorded batches.
    pub fn batch_count(&self) -> (r: usize)
        ensures
            r == self@.batches.len(),
    {
        self.batches.len()
    }

    /// The number of recorded events.
    pub fn total_events(&self) -> (r: u128)
        ensures
            r == event_total(self@.batches),
    {
        let ghost all = self@.batches;
        let mut n: u128 = 0;
        for i in 0..self.batches.len()
            invariant
                all == batches_of(self.batches@),
                n == event_total(all.take(i as int)),
                n <= i * (usize::MAX as u128),
        {
            assert(all.take(i + 1).drop_last() =~= all.take(i as int));
            assert(i * (usize::MAX as u128) + usize::MAX == (i + 1) * (usize::MAX as u128))
                by (nonlinear_arith);
            assert((i + 1) * (usize::MAX as u128) <= u64::MAX * u64::MAX) by (nonlinear_arith)
                requires
                    i + 1 <= u64::MAX,
                    usize::MAX <= u64::MAX,
            ;
            n = n + self.batches[i].len() as u128;
        }
        assert(all.take(all.len() as int) =~= all);
        n
    }

    /// Records a batch. An empty one is refused, and so are as many as the sink is to fail
    /// for.
    pub fn send_batch(&mut self, items: &[MatchEvent]) -> (r: Result<(), EgressError>)
        ensures
            items@.len() == 0 ==> delivery(r) == Some(empty_batch()) && final(self)@ == old(
                self)@,
            items@.len() > 0 && old(self)@.fail_remaining > 0 ==> delivery(r) == Some(
                EgressErrorView::Sink("injected failure"@),
            ) && final(self)@ == (RecordingView {
                fail_remaining: (old(self)@.fail_remaining - 1) as usize,
                ..old(self)@
            }),
            items@.len() > 0 && old(self)@.fail_remaining == 0 ==> delivery(r) is None
                && final(self)@ == (RecordingView {
                batches: old(self)@.batches.push(events_of(items@)),
                ..old(self)@
            }),
    {
        match check_batch(items) {
            Ok(()) => {},
            Err(e) => {
                return Err(e);
            },
        }
        if self.fail_remaining > 0 {
            self.fail_remaining = self.fail_remaining - 1;
            return Err(EgressError::Sink("injected failure".to_owned()));
        }
        let ghost before = batches_of(self.batches@);
        let batch = copy_events(items);
        self.batches.push(batch);
        assert(batches_of(self.batches@) =~= before.push(events_of(batch@)));
        Ok(())
    }
}

/// A copy of a list of events.
pub fn copy_events(items: &[MatchEvent]) -> (r: Vec<MatchEvent>)
    ensures
        events_of(r@) == events_of(items@),
{
    let mut r: Vec<MatchEvent> = Vec::new();
    let ghost all = events_of(items@);
    for i in 0..items.len()
        invariant
            all == events_of(items@),
            events_of(r@) == all.take(i as int),
    {
        let ghost before = events_of(r@);
        r.push(items[i].duplicate());
        assert(events_of(r@) =~= before.push(all[i as int]));
        assert(events_of(r@) =~= all.take(i + 1));
    }
    assert(all.take(all.len() as int) =~= all);
    r
}

/// Every event of every batch counts once.
pub proof fn law_event_total(batches: Seq<Seq<EventView>>, batch: Seq<EventView>)
    ensures
        event_total(Seq::empty()) == 0,
        event_total(batches.push(batch)) == event_total(batches) + batch.len(),
{
    assert(batches.push(batch).drop_last() =~= batches);
}

/// A list says its events one for one, and a list of batches its batches; a delivery fails
/// exactly where there is an error.
pub proof fn law_said_one_for_one(
    events: Seq<MatchEvent>,
    batches: Seq<Vec<MatchEvent>>,
    r: Result<(), EgressError>,
    i: int,
)
    ensures
        events_of(events).len() == events.len(),
        0 <= i < events.len() ==> events_of(events)[i] == events[i]@,
        batches_of(batches).len() == batches.len(),
        0 <= i < batches.len() ==> batches_of(batches)[i] == events_of(batches[i]@),
        delivery(r) is None <==> r is Ok,
        r is Err ==> delivery(r) == Some(r->Err_0@),
{
}

} // verus!
