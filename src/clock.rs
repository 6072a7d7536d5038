//! The wall clock.
use vstd::prelude::*;
use chrono::Datelike;
use crate::numbering::DateParts;

verus! {

/// Relies on `SystemTime::now` and `Duration` since `UNIX_EPOCH`, then on
/// `chrono::DateTime::from_timestamp` (with `Datelike::{year, month, day}`
/// and `DateTime::to_rfc3339`): today's UTC date, whose month is in 1..=12
/// and day in 1..=31, and the same instant as RFC 3339 text. `None` where
/// the system clock reads before 1970 or beyond chrono's range.
#[verifier::external_body]
pub(crate) fn clock_now() -> (r: Option<(DateParts, String)>)
    ensures
        r is Some ==> 1 <= r.unwrap().0.month <= 12 && 1 <= r.unwrap().0.day <= 31,
{
    let since = std::time::SystemTime::now().duration_since(std::time::UNIX_EPOCH).ok()?;
    let secs = i64::try_from(since.as_secs()).ok()?;
    let now = chrono::DateTime::from_timestamp(secs, since.subsec_nanos())?;
    Some((DateParts { year: now.year(), month: now.month(), day: now.day() }, now.to_rfc3339()))
}

} // verus!
