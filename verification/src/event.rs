//! Match events: what may leave the process about a certificate that hit the list.
use vstd::arithmetic::power2::{lemma2_to64, lemma2_to64_rest, lemma_pow2_pos, pow2};
use vstd::bits::{lemma_u64_shl_is_mul, lemma_u64_shr_is_div};
use vstd::prelude::*;

use crate::text::{copy_opt, copy_texts, opt_str, opt_text, texts};

verus! {

/// Minimal owned payload that may cross the bounded match channel.
///
/// Never holds raw frame JSON, PEM, or the certificate chain. `seen` is the log's
/// timestamp in seconds, carried as the bit pattern of its IEEE 754 double.
/// `san_count` is the number of names on the leaf; 0 means that it is not known.
#[derive(Clone, Debug, PartialEq, Eq)]
pub struct MatchEvent {
    pub matched_domains: Vec<String>,
    pub matched_keywords: Vec<String>,
    pub seen: Option<u64>,
    pub source: Option<String>,
    pub fingerprint: Option<String>,
    pub san_count: u32,
}

/// What a [`MatchEvent`] says.
#[verifier::ext_equal]
pub struct EventView {
    pub matched_domains: Seq<Seq<char>>,
    pub matched_keywords: Seq<Seq<char>>,
    pub seen: Option<u64>,
    pub source: Option<Seq<char>>,
    pub fingerprint: Option<Seq<char>>,
    pub san_count: u32,
}

impl View for MatchEvent {
    type V = EventView;

    open spec fn view(&self) -> EventView {
        EventView {
            matched_domains: texts(self.matched_domains@),
            matched_keywords: texts(self.matched_keywords@),
            seen: self.seen,
            source: opt_text(self.source),
            fingerprint: opt_text(self.fingerprint),
            san_count: self.san_count,
        }
    }
}

impl MatchEvent {
    /// An event whose number of leaf names is not known.
    pub fn new(
        matched_domains: Vec<String>,
        matched_keywords: Vec<String>,
        seen: Option<u64>,
        source: Option<String>,
        fingerprint: Option<String>,
    ) -> (r: Self)
        ensures
            r@ == (EventView {
                matched_domains: texts(matched_domains@),
                matched_keywords: texts(matched_keywords@),
                seen,
                source: opt_text(source),
                fingerprint: opt_text(fingerprint),
                san_count: 0,
            }),
    {
        MatchEvent {
            matched_domains,
            matched_keywords,
            seen,
            source,
            fingerprint,
            san_count: 0,
        }
    }

    /// The same event with the given number of leaf names.
    pub fn with_san_count(self, n: u32) -> (r: Self)
        ensures
            r@ == (EventView { san_count: n, ..self@ }),
    {
        MatchEvent {
            matched_domains: self.matched_domains,
            matched_keywords: self.matched_keywords,
            seen: self.seen,
            source: self.source,
            fingerprint: self.fingerprint,
            san_count: n,
        }
    }

    /// An event that says the same.
    pub fn duplicate(&self) -> (r: Self)
        ensures
            r@ == self@,
    {
        MatchEvent {
            matched_domains: copy_texts(self.matched_domains.as_slice()),
            matched_keywords: copy_texts(self.matched_keywords.as_slice()),
            seen: self.seen,
            source: copy_opt(&self.source),
            fingerprint: copy_opt(&self.fingerprint),
            san_count: self.san_count,
        }
    }
}

/// Optional metadata copied from a frame onto a match.
#[derive(Clone, Copy, Debug)]
pub struct FrameMeta<'a> {
    pub seen: Option<u64>,
    pub source: Option<&'a str>,
    pub fingerprint: Option<&'a str>,
}

/// What a [`FrameMeta`] says.
#[verifier::ext_equal]
pub struct MetaView {
    pub seen: Option<u64>,
    pub source: Option<Seq<char>>,
    pub fingerprint: Option<Seq<char>>,
}

/// The metadata of a frame that carries none.
pub open spec fn no_meta() -> MetaView {
    MetaView { seen: None, source: None, fingerprint: None }
}

impl<'a> View for FrameMeta<'a> {
    type V = MetaView;

    open spec fn view(&self) -> MetaView {
        MetaView {
            seen: self.seen,
            source: opt_str(self.source),
            fingerprint: opt_str(self.fingerprint),
        }
    }
}

impl<'a> Default for FrameMeta<'a> {
    fn default() -> (r: Self)
        ensures
            r@ == no_meta(),
    {
        FrameMeta { seen: None, source: None, fingerprint: None }
    }
}

/// An owned copy of an optional borrowed string.
pub fn own_opt(s: Option<&str>) -> (r: Option<String>)
    ensures
        opt_text(r) == opt_str(s),
{
    match s {
        Some(t) => Some(t.to_owned()),
        None => None,
    }
}

/// The biased exponent of a double's bit pattern.
pub open spec fn double_exponent(bits: u64) -> int {
    (bits as int / pow2(52) as int) % 2048
}

/// The fraction field of a double's bit pattern.
pub open spec fn double_fraction(bits: u64) -> int {
    bits as int % pow2(52) as int
}

/// Whether the sign bit of a double's bit pattern is set.
pub open spec fn double_negative(bits: u64) -> bool {
    bits >= pow2(63)
}

/// Whether the double is neither infinite nor a NaN.
pub open spec fn double_finite(bits: u64) -> bool {
    double_exponent(bits) != 2047
}

/// The magnitude of a finite double without its fractional part.
pub open spec fn double_magnitude(bits: u64) -> int {
    let e = double_exponent(bits);
    if e == 0 {
        0
    } else if e >= 1075 {
        (pow2(52) + double_fraction(bits)) * pow2((e - 1075) as nat)
    } else {
        (pow2(52) + double_fraction(bits)) / (pow2((1075 - e) as nat) as int)
    }
}

/// The whole seconds of a double: truncated toward zero and clamped to `i64`, and 0 where
/// the double is not finite.
pub open spec fn double_seconds(bits: u64) -> i64 {
    if !double_finite(bits) {
        0
    } else if double_negative(bits) {
        if double_magnitude(bits) > i64::MAX {
            i64::MIN
        } else {
            (-double_magnitude(bits)) as i64
        }
    } else {
        if double_magnitude(bits) > i64::MAX {
            i64::MAX
        } else {
            double_magnitude(bits) as i64
        }
    }
}

/// The exec form of [`double_seconds`].
pub fn whole_seconds(bits: u64) -> (r: i64)
    ensures
        r == double_seconds(bits),
{
    proof {
        lemma2_to64();
        lemma2_to64_rest();
    }
    let e: u64 = (bits / 0x10_0000_0000_0000) % 2048;
    let negative: bool = bits >= 0x8000_0000_0000_0000;
    let m: u64 = 0x10_0000_0000_0000 + bits % 0x10_0000_0000_0000;
    if e == 2047 {
        return 0;
    }
    if e == 0 {
        return 0;
    }
    if e >= 1086 {
        proof {
            let k = (e - 1075) as nat;
            vstd::arithmetic::power2::lemma_pow2_adds(11, (k - 11) as nat);
            lemma_pow2_pos((k - 11) as nat);
            assert(pow2(k) >= pow2(11)) by (nonlinear_arith)
                requires
                    pow2(k) == pow2(11) * pow2((k - 11) as nat),
                    pow2((k - 11) as nat) >= 1,
            ;
            assert(m * pow2(k) >= 0x10_0000_0000_0000 * 2048) by (nonlinear_arith)
                requires
                    m >= 0x10_0000_0000_0000,
                    pow2(k) >= 2048,
            ;
        }
        return if negative {
            i64::MIN
        } else {
            i64::MAX
        };
    }
    let magnitude: u64 = if e >= 1075 {
        let k: u64 = e - 1075;
        proof {
            let n = k as nat;
            vstd::arithmetic::power2::lemma_pow2_adds(n, (10 - n) as nat);
            lemma_pow2_pos(n);
            lemma_pow2_pos((10 - n) as nat);
            assert(pow2(n) <= 1024) by (nonlinear_arith)
                requires
                    1024 == pow2(n) * pow2((10 - n) as nat),
                    pow2((10 - n) as nat) >= 1,
                    pow2(n) >= 1,
            ;
            assert(m * pow2(n) <= 0x1f_ffff_ffff_ffff * 1024) by (nonlinear_arith)
                requires
                    m <= 0x1f_ffff_ffff_ffff,
                    pow2(n) <= 1024,
            ;
            lemma_u64_shl_is_mul(m, k);
        }
        m << k
    } else if e >= 1023 {
        let k: u64 = 1075 - e;
        proof {
            lemma_u64_shr_is_div(m, k);
            let n = k as nat;
            lemma_pow2_pos(n);
            assert(m as int / (pow2(n) as int) <= m) by (nonlinear_arith)
                requires
                    m >= 0,
                    pow2(n) >= 1,
            ;
        }
        m >> k
    } else {
        proof {
            let n = (1075 - e) as nat;
            vstd::arithmetic::power2::lemma_pow2_adds(53, (n - 53) as nat);
            lemma_pow2_pos((n - 53) as nat);
            assert(pow2(n) >= pow2(53)) by (nonlinear_arith)
                requires
                    pow2(n) == pow2(53) * pow2((n - 53) as nat),
                    pow2((n - 53) as nat) >= 1,
            ;
            vstd::arithmetic::div_mod::lemma_basic_div(m as int, pow2(n) as int);
        }
        0
    };
    assert(magnitude as int == double_magnitude(bits));
    if negative {
        -(magnitude as i64)
    } else {
        magnitude as i64
    }
}

/// The whole seconds of an event's timestamp; where it has none, `now_unix`.
pub open spec fn event_seconds(ev: EventView, now_unix: i64) -> i64 {
    match ev.seen {
        Some(bits) => double_seconds(bits),
        None => now_unix,
    }
}

/// The time of an event in Unix seconds. `now_unix` is the clock's reading.
pub fn event_ts(ev: &MatchEvent, now_unix: i64) -> (r: i64)
    ensures
        r == event_seconds(ev@, now_unix),
{
    match ev.seen {
        Some(bits) => whole_seconds(bits),
        None => now_unix,
    }
}

} // verus!
