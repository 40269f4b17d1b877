//! Consuming match events from a queue that may deliver one more than once.
use vstd::prelude::*;

use crate::event::{EventView, MatchEvent};
use crate::names::NameSet;
use crate::novelty_alert::{dedupe_key, dedupe_text};
use crate::text::{lowered, opt_text, same_text, trimmed};

verus! {

/// Most delivery keys that are remembered.
pub const DEDUPE_CAP: usize = 50_000;

/// Events between two checkpoints of the database.
pub const CHECKPOINT_EVERY: u64 = 500;

/// Seconds to pause after the queue could not be read.
pub const RECEIVE_PAUSE_SECS: u64 = 2;

/// Remembers which events were delivered. When it holds more than [`DEDUPE_CAP`] keys it
/// forgets them all.
pub struct DeliveryWindow {
    seen: NameSet,
    since_checkpoint: u64,
}

/// What a [`DeliveryWindow`] holds.
#[verifier::ext_equal]
pub struct WindowView {
    pub seen: Set<Seq<char>>,
    pub since_checkpoint: u64,
}

impl View for DeliveryWindow {
    type V = WindowView;

    closed spec fn view(&self) -> WindowView {
        WindowView { seen: self.seen@, since_checkpoint: self.since_checkpoint }
    }
}

impl WindowView {
    /// The window after an event was offered: its key is remembered, unless there are then
    /// too many.
    pub open spec fn offered(self, ev: EventView) -> WindowView {
        let seen = self.seen.insert(dedupe_text(ev));
        if self.seen.contains(dedupe_text(ev)) {
            self
        } else if seen.len() > DEDUPE_CAP {
            WindowView { seen: Set::empty(), ..self }
        } else {
            WindowView { seen, ..self }
        }
    }
}

impl DeliveryWindow {
    /// A window that remembers nothing.
    pub fn new() -> (r: Self)
        ensures
            r@ == (WindowView { seen: Set::empty(), since_checkpoint: 0 }),
    {
        DeliveryWindow { seen: NameSet::new(), since_checkpoint: 0 }
    }

    /// Whether an event is to be processed: one with a remembered key is not.
    pub fn accept(&mut self, ev: &MatchEvent) -> (r: bool)
        ensures
            r == !old(self)@.seen.contains(dedupe_text(ev@)),
            final(self)@ == old(self)@.offered(ev@),
    {
        let key = dedupe_key(ev);
        let ghost k = dedupe_text(ev@);
        if !self.seen.insert(key) {
            assert(self.seen@ =~= old(self)@.seen);
            return false;
        }
        if self.seen.len() > DEDUPE_CAP {
            self.seen.clear();
        }
        true
    }

    /// Notes that an event was processed; whether the database is to be checkpointed now.
    pub fn processed(&mut self) -> (r: bool)
        ensures
            r == (old(self)@.since_checkpoint + 1 >= CHECKPOINT_EVERY),
            final(self)@.since_checkpoint == (if r {
                0
            } else {
                (old(self)@.since_checkpoint + 1) as u64
            }),
            final(self)@.seen == old(self)@.seen,
    {
        if self.since_checkpoint >= CHECKPOINT_EVERY - 1 {
            self.since_checkpoint = 0;
            true
        } else {
            self.since_checkpoint = self.since_checkpoint + 1;
            false
        }
    }
}

/// Whether a switch of the consumer is on: as by default where it is not given, and off where
/// it says no.
pub open spec fn consumer_switch(raw: Option<Seq<char>>, default: bool) -> bool {
    match raw {
        None => default,
        Some(s) => {
            let t = trimmed(s);
            !(t == "0"@ || lowered(t) == "false"@ || lowered(t) == "no"@)
        },
    }
}

/// Whether a switch of the consumer is on.
pub fn consumer_flag(raw: &Option<String>, default: bool) -> (r: bool)
    ensures
        r == consumer_switch(opt_text(*raw), default),
{
    match raw {
        None => default,
        Some(s) => {
            let t = s.as_str().trim();
            let low = t.to_ascii_lowercase();
            !(same_text(t, "0") || same_text(low.as_str(), "false") || same_text(
                low.as_str(),
                "no",
            ))
        },
    }
}

/// An event that was just accepted is not accepted again, as long as the window has room.
pub proof fn law_redelivery_is_dropped(w: WindowView, a: EventView, b: EventView)
    requires
        dedupe_text(a) == dedupe_text(b),
        w.seen.insert(dedupe_text(a)).len() <= 50_000,
    ensures
        w.offered(a).seen.contains(dedupe_text(b)),
{
}

/// A delivery is new exactly where its key was not seen; its key is seen from then on, unless
/// the window overflows, which then begins anew, and no other key is forgotten.
pub proof fn law_window(w: WindowView, ev: EventView, key: Seq<char>)
    ensures
        ({
            let mine = dedupe_text(ev);
            let full = !w.seen.contains(mine) && w.seen.insert(mine).len() > 50_000;
            &&& full ==> w.offered(ev).seen == Set::<Seq<char>>::empty()
            &&& !full ==> (w.offered(ev).seen.contains(key) <==> w.seen.contains(key) || key
                == mine)
            &&& w.offered(ev).since_checkpoint == w.since_checkpoint
        }),
{
}

/// A switch is on unless it says `0`, `false` or `no`, in either case and with whitespace
/// around it; where it is not given, it has its default.
pub proof fn law_consumer_switch(s: Seq<char>, default: bool)
    ensures
        consumer_switch(None, default) == default,
        consumer_switch(Some(s), default) <==> !(lowered(trimmed(s)) == "0"@ || lowered(trimmed(s))
            == "false"@ || lowered(trimmed(s)) == "no"@),
{
    reveal_strlit("0");
    let t = trimmed(s);
    if lowered(t) == "0"@ {
        assert(lowered(t)[0] == '0');
        assert(t =~= "0"@);
    }
    if t == "0"@ {
        assert(lowered(t) =~= "0"@);
    }
}

} // verus!
