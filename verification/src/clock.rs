//! The clock: the current UTC calendar day as a plain day count, read
//! once at the edge so that all day logic works on a plain value.

use vstd::prelude::*;

verus! {

/// Relies on chrono's `Utc::now`, `DateTime::date_naive` and
/// `Datelike::num_days_from_ce`: the current UTC wall-clock time,
/// truncated to calendar-day granularity and counted in days.  Nothing
/// can be promised of the clock's reading.
#[verifier::external_body]
pub(crate) fn current_day_number() -> i64 {
    let today = chrono::Utc::now().date_naive();
    chrono::Datelike::num_days_from_ce(&today) as i64
}

} // verus!
