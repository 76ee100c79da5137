//! Calendar dates, as the `chrono` crate reads them.

use chrono::Datelike;
use vstd::prelude::*;

verus! {

/// A day of the calendar.
#[derive(Debug, Clone, Copy, PartialEq, Eq, Structural)]
pub struct CalendarDate {
    pub year: i32,
    /// From 1 to 12.
    pub month: u32,
    /// From 1 to 31.
    pub day: u32,
}

/// What `chrono::NaiveDate::parse_from_str(text, format)` gives, as year,
/// month and day; `None` when `text` does not read as a date in `format`.
pub uninterp spec fn parsed_date(text: Seq<char>, format: Seq<char>) -> Option<(i32, u32, u32)>;

/// The date that a `(year, month, day)` triple names.
pub open spec fn date_of_triple(t: Option<(i32, u32, u32)>) -> Option<CalendarDate> {
    match t {
        Some((y, m, d)) => Some(CalendarDate { year: y, month: m, day: d }),
        None => None,
    }
}

/// Calls `chrono::NaiveDate::parse_from_str(text, format)` and hands back
/// the date's `year()`, `month()` and `day()`. The contract claims that the
/// result is `parsed_date` of the two arguments, and what chrono documents
/// of every date: the month is from 1 to 12, the day from 1 to 31.
#[verifier::external_body]
pub(crate) fn parse_date(text: &str, format: &str) -> (r: Option<(i32, u32, u32)>)
    ensures
        r == parsed_date(text@, format@),
        r matches Some((y, m, d)) ==> 1 <= m <= 12 && 1 <= d <= 31,
{
    chrono::NaiveDate::parse_from_str(text, format).ok().map(|d| (d.year(), d.month(), d.day()))
}

/// The date that `text` gives in `format`.
pub fn read_date(text: &str, format: &str) -> (r: Option<CalendarDate>)
    ensures
        r == date_of_triple(parsed_date(text@, format@)),
        r matches Some(d) ==> 1 <= d.month <= 12 && 1 <= d.day <= 31,
{
    match parse_date(text, format) {
        Some((y, m, d)) => Some(CalendarDate { year: y, month: m, day: d }),
        None => None,
    }
}

} // verus!
