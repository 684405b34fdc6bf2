//! The timestamp column: chrono renders a representable timestamp,
//! anything else degrades to a sentinel instead of failing.

use vstd::prelude::*;
use vstd::string::*;

verus! {

/// What chrono renders for a representable timestamp under the pattern
/// `%b %d %H:%M` (abbreviated month name, two-digit day, 24-hour hour
/// and minute): a function of the timestamp alone.
pub uninterp spec fn month_day_hm_of(t: int) -> Seq<char>;

/// The timestamps (seconds since the epoch) whose calendar date chrono
/// can represent: from the first second of its earliest year to the
/// last second of its latest.
pub open spec fn timestamp_representable(t: int) -> bool {
    -8334601228800 <= t <= 8210266876799
}

/// What the timestamp column shows: chrono's rendering where the
/// timestamp is representable, a fixed sentinel anywhere else.
pub open spec fn time_display(t: int) -> Seq<char> {
    if timestamp_representable(t) {
        month_day_hm_of(t)
    } else {
        "??? ?? ??:??"@
    }
}

/// Relies on chrono's `DateTime::<Utc>::from_timestamp`, which returns
/// `Some` exactly on the seconds whose day falls inside its calendar
/// (its earliest and latest representable days bound the range stated
/// here), and on `NaiveDateTime::format` with `%b %d %H:%M`, whose
/// output is a function of the timestamp alone.
#[verifier::external_body]
fn chrono_month_day_hm(t: i64) -> (r: Option<String>)
    ensures
        r is Some <==> timestamp_representable(t as int),
        r matches Some(s) ==> s@ == month_day_hm_of(t as int),
{
    chrono::DateTime::<chrono::Utc>::from_timestamp(t, 0).map(
        |d| d.naive_utc().format("%b %d %H:%M").to_string(),
    )
}

/// Formats a timestamp for the long format.
pub fn format_time(t: i64) -> (r: String)
    ensures
        r@ == time_display(t as int),
{
    match chrono_month_day_hm(t) {
        Some(s) => s,
        None => String::from_str("??? ?? ??:??"),
    }
}

} // verus!
