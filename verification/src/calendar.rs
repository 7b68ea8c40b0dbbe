//! The calendar: reading and writing dates is left to `chrono`, and the
//! clock to the system. The library sees both only as plain integers.

use vstd::prelude::*;
use chrono::{DateTime, NaiveDate, NaiveTime, Utc};
use crate::timestamp::representable;

verus! {

/// What `chrono` reads from `text` under the format `format`: the Unix
/// second at which the day begins in UTC, if the text is such a date.
pub uninterp spec fn calendar_date(text: Seq<char>, format: Seq<char>) -> Option<i64>;

/// How `chrono` writes the UTC time `secs`, `nanos` under the format
/// `format`; nothing where its calendar does not reach that time.
pub uninterp spec fn calendar_text(secs: i64, nanos: u32, format: Seq<char>) -> Option<Seq<char>>;

/// The two formats that the library writes times in.
pub open spec fn is_known_format(format: Seq<char>) -> bool {
    format == "%Y-%m-%d"@ || format == "%Y-%m-%d %H:%M:%S"@
}

/// `NaiveDate::parse_from_str`, and the start of that day in UTC as a Unix
/// second. The contract names the result: it depends on the text and the
/// format alone.
#[verifier::external_body]
pub(crate) fn parse_date_text(text: &str, format: &str) -> (r: Option<i64>)
    ensures
        r == calendar_date(text@, format@),
{
    match NaiveDate::parse_from_str(text, format) {
        Ok(date) => Some(date.and_time(NaiveTime::MIN).and_utc().timestamp()),
        Err(_) => None,
    }
}

/// `DateTime::from_timestamp` followed by `DateTime::format`. The format
/// must be one of the two the library uses: `chrono` fails on a malformed
/// one only when the text is produced. The contract names the result, and
/// says when there is one: `from_timestamp` takes exactly the times that
/// are `representable`.
#[verifier::external_body]
pub(crate) fn format_time(secs: i64, nanos: u32, format: &str) -> (r: Option<String>)
    requires
        is_known_format(format@),
    ensures
        match r {
            Some(text) => calendar_text(secs, nanos, format@) == Some(text@),
            None => calendar_text(secs, nanos, format@) is None,
        },
        r is Some <==> representable(secs as int, nanos as int),
{
    match DateTime::from_timestamp(secs, nanos) {
        Some(time) => Some(time.format(format).to_string()),
        None => None,
    }
}

/// `Utc::now`, as Unix seconds and nanoseconds. Nothing is promised
/// of a clock reading.
#[verifier::external_body]
pub(crate) fn clock_now() -> (r: (i64, u32))
{
    let now = Utc::now();
    (now.timestamp(), now.timestamp_subsec_nanos())
}

} // verus!
