//! Points in time.

use crate::json;
use crate::json::Json;
use vstd::prelude::*;

verus! {

/// A point in time: `secs` seconds since the beginning of 1970 in UTC and `nanos` nanoseconds.
/// In a leap second `nanos` is a billion or more.
#[derive(Clone, Copy, Debug, PartialEq, Eq, Structural)]
pub struct Timestamp {
    pub secs: i64,
    pub nanos: u32,
}

/// The first second that `chrono` represents: the beginning of the year -262143.
pub const FIRST_SECOND: i64 = -8_334_601_228_800;

/// The last second that `chrono` represents: the end of the year 262142.
pub const LAST_SECOND: i64 = 8_210_266_876_799;

/// Whether `a` is before `b`.
pub open spec fn is_before(a: Timestamp, b: Timestamp) -> bool {
    a.secs < b.secs || (a.secs == b.secs && a.nanos < b.nanos)
}

/// Whether `a` is before `b`, where no time at all is before every time.
pub open spec fn is_before_opt(a: Option<Timestamp>, b: Option<Timestamp>) -> bool {
    match (a, b) {
        (Some(a), Some(b)) => is_before(a, b),
        (None, Some(_)) => true,
        (_, None) => false,
    }
}

/// Whether `a` is before `b`, where no time at all is before every time.
pub fn earlier(a: Option<Timestamp>, b: Option<Timestamp>) -> (r: bool)
    ensures
        r == is_before_opt(a, b),
{
    match (a, b) {
        (Some(a), Some(b)) => a.secs < b.secs || (a.secs == b.secs && a.nanos < b.nanos),
        (None, Some(_)) => true,
        (_, None) => false,
    }
}

/// The point in time that `chrono` reads from an RFC 3339 text.
pub uninterp spec fn rfc3339_instant(text: Seq<char>) -> Option<Timestamp>;

/// `DateTime::parse_from_rfc3339`: whether the text is read, and the point in time then read, is a
/// matter of the text alone.
#[verifier::external_body]
fn parse_from_rfc3339(text: &str) -> (r: Option<Timestamp>)
    ensures
        r == rfc3339_instant(text@),
{
    chrono::DateTime::parse_from_rfc3339(text).ok().map(
        |t| Timestamp { secs: t.timestamp(), nanos: t.timestamp_subsec_nanos() },
    )
}

/// The point in time that lies `millis` milliseconds after the beginning of 1970, if it is in the
/// range of `chrono`.
pub open spec fn instant_of_millis(millis: i64) -> Option<Timestamp> {
    let secs = (millis as int) / 1000;
    if FIRST_SECOND <= secs <= LAST_SECOND {
        Some(Timestamp { secs: secs as i64, nanos: ((millis as int) % 1000 * 1_000_000) as u32 })
    } else {
        None
    }
}

/// `DateTime::from_timestamp_millis`, which gives the point in time so many milliseconds after the
/// beginning of 1970, and nothing outside the range of dates that `chrono` represents.
#[verifier::external_body]
pub(crate) fn from_timestamp_millis(millis: i64) -> (r: Option<Timestamp>)
    ensures
        r == instant_of_millis(millis),
{
    chrono::DateTime::from_timestamp_millis(millis).map(
        |t| Timestamp { secs: t.timestamp(), nanos: t.timestamp_subsec_nanos() },
    )
}

/// `Utc::now`, the time on the machine's clock. Nothing is said of the result, which the clock
/// decides. The call panics on a machine whose clock stands before 1970.
#[verifier::external_body]
fn utc_now() -> (r: Timestamp) {
    let t = chrono::Utc::now();
    Timestamp { secs: t.timestamp(), nanos: t.timestamp_subsec_nanos() }
}

/// `known`, or the current time where nothing is known.
pub fn or_now(known: Option<Timestamp>) -> (r: Timestamp)
    ensures
        known matches Some(t) ==> r == t,
{
    match known {
        Some(t) => t,
        None => utc_now(),
    }
}

/// The point in time that an RFC 3339 text gives, if there is such a text.
pub open spec fn instant_of_text(text: Option<Seq<char>>) -> Option<Timestamp> {
    match text {
        Some(s) => rfc3339_instant(s),
        None => None,
    }
}

/// The point in time that a JSON value gives as an RFC 3339 text.
pub open spec fn instant_of_json(value: Option<json::JsonView>) -> Option<Timestamp> {
    match value {
        Some(v) => instant_of_text(json::text_of(v)),
        None => None,
    }
}

/// The point in time that an RFC 3339 text gives, if there is such a text.
pub fn parse_rfc3339_string(text: &Option<String>) -> (r: Option<Timestamp>)
    ensures
        r == instant_of_text(text.deep_view()),
{
    match text {
        Some(s) => parse_from_rfc3339(s.as_str()),
        None => None,
    }
}

/// The point in time that a JSON value gives as an RFC 3339 text.
pub fn parse_rfc3339_json(value: Option<&Json>) -> (r: Option<Timestamp>)
    ensures
        r == instant_of_json(
            match value {
                Some(v) => Some(v@),
                None => None,
            },
        ),
{
    match value {
        Some(v) => match v.as_str() {
            Some(s) => parse_from_rfc3339(s.as_str()),
            None => None,
        },
        None => None,
    }
}

/// A time is read from a text, or from a JSON value that is a text, and from nothing else.
pub proof fn times_come_from_texts(text: Seq<char>, value: json::JsonView)
    ensures
        instant_of_text(Some(text)) == rfc3339_instant(text),
        instant_of_text(None) is None,
        instant_of_json(Some(json::JsonView::Text(text))) == rfc3339_instant(text),
        value !is Text ==> instant_of_json(Some(value)) is None,
        instant_of_json(None) is None,
{
}

/// Milliseconds are counted from the beginning of 1970: the seconds and nanoseconds of a time make
/// up the milliseconds that it was made from.
pub proof fn millis_are_kept(millis: i64)
    ensures
        instant_of_millis(millis) matches Some(t) ==> t.secs * 1000 + t.nanos / 1_000_000 == millis
            && t.nanos % 1_000_000 == 0 && t.nanos < 1_000_000_000,
        instant_of_millis(millis) is Some <==> -8_334_601_228_800_000 <= millis
            <= 8_210_266_876_799_999,
{
}

} // verus!
