//! Calendar labels for segment anchors.

use vstd::prelude::*;
use crate::timeline::ts_in_range;

verus! {

/// The calendar month, 1 through 12, of a UTC instant given in milliseconds
/// since the epoch.
pub uninterp spec fn month_of(ms: i64) -> u32;

/// The calendar year of a UTC instant given in milliseconds since the epoch.
pub uninterp spec fn year_of(ms: i64) -> i32;

/// Relies on chrono: `DateTime::<Utc>::from_timestamp_millis` is defined on
/// every in-range timestamp, and `Datelike::month` and `Datelike::year`
/// depend on the instant alone; the month is documented to lie in 1..=12.
#[verifier::external_body]
pub(crate) fn month_year_of(ms: i64) -> (r: (u32, i32))
    requires
        ts_in_range(ms),
    ensures
        r.0 == month_of(ms),
        r.1 == year_of(ms),
        1 <= r.0 <= 12,
{
    let dt = chrono::DateTime::<chrono::Utc>::from_timestamp_millis(ms).unwrap();
    (chrono::Datelike::month(&dt), chrono::Datelike::year(&dt))
}

} // verus!
