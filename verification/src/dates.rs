//! UTC calendar days: the day number of a timestamp, and its rendered
//! `YYYY-MM-DD` label, obtained from the calendar library.

use vstd::prelude::*;
use crate::model::MAX_TIMESTAMP;

verus! {

/// The UTC calendar day number of a timestamp: whole days since the epoch.
/// Two timestamps fall on the same calendar date exactly when their day
/// numbers agree.
pub open spec fn day_of(ts: int) -> int {
    ts / 86400
}

/// The rendered `YYYY-MM-DD` label of a UTC calendar day.
pub uninterp spec fn date_label_of(day: int) -> Seq<char>;

/// Relies on chrono's `DateTime::<Utc>::from_timestamp` and its `%Y-%m-%d`
/// strftime formatting: within the accepted range the conversion returns
/// `Some`, and the rendered calendar date is a function of the timestamp's
/// UTC day number alone.
#[verifier::external_body]
pub(crate) fn format_date(secs: i64) -> (r: String)
    requires
        0 <= secs <= MAX_TIMESTAMP,
    ensures
        r@ == date_label_of(day_of(secs as int)),
{
    match chrono::DateTime::from_timestamp(secs, 0) {
        Some(dt) => dt.format("%Y-%m-%d").to_string(),
        None => String::new(),
    }
}

/// Executable day number; agrees with `day_of` on accepted timestamps.
pub(crate) fn day_of_ts(ts: i64) -> (d: i64)
    requires
        0 <= ts,
    ensures
        d == day_of(ts as int),
        0 <= d <= ts,
{
    let du: u64 = (ts as u64) / 86400;
    proof {
        assert((ts as u64) as int == ts as int);
    }
    du as i64
}

/// A later instant never falls on an earlier calendar day.
pub proof fn lemma_day_monotonic(a: int, b: int)
    requires
        a <= b,
    ensures
        day_of(a) <= day_of(b),
{
    vstd::arithmetic::div_mod::lemma_div_is_ordered(a, b, 86400);
}

} // verus!
