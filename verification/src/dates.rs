//! UTC instants for captured alert facts (`YYYY-MM-DDTHH:MM:SSZ`).
//! Mute clocks such as a coalition's first sighting stay integer Unix seconds.
use chrono::TimeZone;
use vstd::prelude::*;

use crate::numbers::is_digit;
use crate::text::opt_text;

verus! {

/// What chrono prints for the given Unix second in UTC under `%Y-%m-%dT%H:%M:%SZ`; `None`
/// for a second outside its calendar.
pub uninterp spec fn utc_instant(secs: i64) -> Option<Seq<char>>;

/// First second of the year 0.
pub const FIRST_SECOND: i64 = -62_167_219_200;

/// Last second of the year 9999.
pub const LAST_SECOND: i64 = 253_402_300_799;

/// Whether a text reads `YYYY-MM-DDTHH:MM:SSZ`, with a digit for each of `YMDHMS`.
pub open spec fn is_instant(s: Seq<char>) -> bool {
    &&& s.len() == 20
    &&& s[4] == '-' && s[7] == '-' && s[10] == 'T' && s[13] == ':' && s[16] == ':' && s[19] == 'Z'
    &&& forall|i: int|
        0 <= i < 19 && i != 4 && i != 7 && i != 10 && i != 13 && i != 16 ==> is_digit(
            #[trigger] s[i],
        )
}

/// chrono's `Utc.timestamp_opt(secs, 0).single()`, printed with `format`.
///
/// `timestamp_opt` gives one instant for a second inside chrono's calendar and none
/// outside it. Both it and `format` depend on the second alone. The years 0 to 9999 are
/// inside; `%Y` prints each of them with four digits, and `%m`, `%d`, `%H`, `%M` and `%S` print
/// two.
#[verifier::external_body]
fn printed_instant(secs: i64) -> (r: Option<String>)
    ensures
        opt_text(r) == utc_instant(secs),
        FIRST_SECOND <= secs <= LAST_SECOND ==> r is Some && is_instant(r->0@),
{
    chrono::Utc.timestamp_opt(secs, 0).single().map(
        |t| t.format("%Y-%m-%dT%H:%M:%SZ").to_string(),
    )
}

/// The captured text of a Unix second: its instant, or the epoch's where it has none.
pub open spec fn instant_text(secs: i64) -> Seq<char> {
    instant_or_epoch(utc_instant(secs), utc_instant(0))
}

/// The instant where there is one, else the epoch.
pub open spec fn instant_or_epoch(
    instant: Option<Seq<char>>,
    epoch: Option<Seq<char>>,
) -> Seq<char> {
    match instant {
        Some(t) => t,
        None => epoch->0,
    }
}

/// Formats Unix seconds as a captured-fact instant. Seconds outside the calendar become
/// the epoch. Of the years 0 to 9999, and of the epoch in place of what has no instant, the
/// text has the fixed form; a year beyond them takes a sign and more digits.
pub fn unix_to_instant(secs: i64) -> (r: String)
    ensures
        r@ == instant_text(secs),
        FIRST_SECOND <= secs <= LAST_SECOND || utc_instant(secs) is None ==> is_instant(r@),
{
    match printed_instant(secs) {
        Some(t) => t,
        None => printed_instant(0).unwrap(),
    }
}

/// The captured-fact instant of the clock's reading.
pub fn utc_now_instant(now_unix: i64) -> (r: String)
    ensures
        r@ == instant_text(now_unix),
        FIRST_SECOND <= now_unix <= LAST_SECOND || utc_instant(now_unix) is None ==> is_instant(
            r@,
        ),
{
    unix_to_instant(now_unix)
}

/// A second inside the calendar has the text of its own instant, and one outside it that of
/// second 0.
pub proof fn law_instant_text(secs: i64)
    ensures
        utc_instant(secs) is Some ==> Some(instant_text(secs)) == utc_instant(secs),
        utc_instant(secs) is None ==> instant_text(secs) == instant_text(0),
{
}

} // verus!
