//! Spans of time.
use vstd::prelude::*;

verus! {

/// The longest span: all the nanoseconds of `u64::MAX` seconds and a fraction.
pub const MAX_NANOS: u128 = 18_446_744_073_709_551_615_999_999_999;

/// A span of time, in whole nanoseconds up to [`MAX_NANOS`].
#[derive(Clone, Copy, Debug, PartialEq, Eq, PartialOrd, Ord, Structural)]
pub struct Span {
    nanos: u128,
}

impl View for Span {
    type V = nat;

    /// The nanoseconds.
    closed spec fn view(&self) -> nat {
        self.nanos as nat
    }
}

/// The smaller of two numbers.
pub open spec fn smaller(a: nat, b: nat) -> nat {
    if a < b {
        a
    } else {
        b
    }
}

/// One millisecond in nanoseconds.
pub open spec fn millis(n: nat) -> nat {
    n * 1_000_000
}

/// One second in nanoseconds.
pub open spec fn seconds(n: nat) -> nat {
    n * 1_000_000_000
}

/// `a` less `b`, and 0 where `b` is larger.
pub open spec fn minus(a: nat, b: nat) -> nat {
    if a < b {
        0
    } else {
        (a - b) as nat
    }
}

impl Span {
    #[verifier::type_invariant]
    spec fn in_range(self) -> bool {
        self.nanos <= MAX_NANOS
    }

    /// No time at all.
    pub fn zero() -> (r: Span)
        ensures
            r@ == 0,
    {
        Span { nanos: 0 }
    }

    /// So many seconds.
    pub fn from_secs(secs: u64) -> (r: Span)
        ensures
            r@ == seconds(secs as nat),
    {
        Span { nanos: secs as u128 * 1_000_000_000 }
    }

    /// So many milliseconds.
    pub fn from_millis(ms: u64) -> (r: Span)
        ensures
            r@ == millis(ms as nat),
    {
        Span { nanos: ms as u128 * 1_000_000 }
    }

    /// So many nanoseconds, or the longest span where they are more.
    pub fn from_nanos(nanos: u128) -> (r: Span)
        ensures
            r@ == smaller(nanos as nat, MAX_NANOS as nat),
    {
        if nanos > MAX_NANOS {
            Span { nanos: MAX_NANOS }
        } else {
            Span { nanos }
        }
    }

    /// The nanoseconds.
    pub fn as_nanos(self) -> (r: u128)
        ensures
            r == self@,
            r <= MAX_NANOS,
    {
        proof {
            use_type_invariant(self);
        }
        self.nanos
    }

    /// The whole milliseconds.
    pub fn as_millis(self) -> (r: u128)
        ensures
            r == self@ / 1_000_000,
    {
        self.nanos / 1_000_000
    }

    /// Whether there is no time at all.
    pub fn is_zero(self) -> (r: bool)
        ensures
            r == (self@ == 0),
    {
        self.nanos == 0
    }

    /// Twice the span, or the longest one where that is more.
    pub fn doubled(self) -> (r: Span)
        ensures
            r@ == smaller(2 * self@, MAX_NANOS as nat),
    {
        proof {
            use_type_invariant(self);
        }
        Span::from_nanos(self.nanos * 2)
    }

    /// The shorter of two spans.
    pub fn at_most(self, other: Span) -> (r: Span)
        ensures
            r@ == smaller(self@, other@),
    {
        if self.nanos < other.nanos {
            self
        } else {
            other
        }
    }

    /// The longer of two spans.
    pub fn at_least(self, other: Span) -> (r: Span)
        ensures
            r@ == (if self@ < other@ {
                other@
            } else {
                self@
            }),
    {
        if self.nanos < other.nanos {
            other
        } else {
            self
        }
    }

    /// The span less another one, and no time where that is longer.
    pub fn less(self, other: Span) -> (r: Span)
        ensures
            r@ == minus(self@, other@),
    {
        proof {
            use_type_invariant(self);
        }
        if self.nanos < other.nanos {
            Span { nanos: 0 }
        } else {
            Span { nanos: self.nanos - other.nanos }
        }
    }

    /// Whether the span is shorter than another one.
    pub fn shorter_than(self, other: Span) -> (r: bool)
        ensures
            r == (self@ < other@),
    {
        self.nanos < other.nanos
    }
}

/// The smaller of two numbers is one of them and no more than either; a difference, added
/// again, gives back the larger of the two; a second has a thousand milliseconds.
pub proof fn law_spans(a: nat, b: nat)
    ensures
        smaller(a, b) <= a && smaller(a, b) <= b,
        smaller(a, b) == a || smaller(a, b) == b,
        b <= a ==> minus(a, b) + b == a,
        a <= b ==> minus(a, b) == 0,
        seconds(a) == millis(1_000 * a),
        millis(a + b) == millis(a) + millis(b),
        millis(1) == 1_000_000,
{
}

} // verus!
