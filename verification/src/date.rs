//! Calendar dates, modelled as plain year/month/day values.
//!
//! The interpreter needs exactly one fact about the calendar: whether one
//! date is the immediate successor of another. That computation (month
//! lengths, leap years, year bounds) is chrono's; it is reached through the
//! trusted [`succ_date`] wrapper, and its result is named by the
//! uninterpreted function [`succ_ymd`].

use vstd::prelude::*;

use chrono::Datelike;

verus! {

/// A calendar date as plain values. The library does not validate calendar
/// correctness; a `Date` that chrono rejects simply has no successor.
#[derive(Clone, Copy, Debug, PartialEq, Eq, Hash, Structural)]
pub struct Date {
    pub year: i32,
    pub month: u32,
    pub day: u32,
}

impl Date {
    /// Builds a date from its components.
    pub fn new(year: i32, month: u32, day: u32) -> (d: Date)
        ensures
            d == (Date { year, month, day }),
    {
        Date { year, month, day }
    }
}

/// The successor calendar day of the given year/month/day, or `None` when the
/// components do not form a valid in-range date or the successor is out of
/// range. Computed by chrono; named here so that contracts can speak of it.
pub uninterp spec fn succ_ymd(year: int, month: int, day: int) -> Option<(int, int, int)>;

/// Whether `next` is the immediate successor calendar day of `prev`.
pub open spec fn date_is_succ(prev: Date, next: Date) -> bool {
    succ_ymd(prev.year as int, prev.month as int, prev.day as int) == Some(
        (next.year as int, next.month as int, next.day as int),
    )
}

/// Relies on `chrono::NaiveDate::from_ymd_opt` composed with
/// `chrono::NaiveDate::succ_opt`: together they compute the successor
/// calendar day from the components alone, and both return `None` instead of
/// panicking on invalid or out-of-range input.
#[verifier::external_body]
pub(crate) fn succ_date(d: &Date) -> (r: Option<Date>)
    ensures
        r is Some <==> succ_ymd(d.year as int, d.month as int, d.day as int) is Some,
        (r matches Some(s) ==> succ_ymd(d.year as int, d.month as int, d.day as int) == Some(
            (s.year as int, s.month as int, s.day as int),
        )),
{
    match chrono::NaiveDate::from_ymd_opt(d.year, d.month, d.day) {
        Some(nd) => match nd.succ_opt() {
            Some(s) => Some(Date { year: s.year(), month: s.month(), day: s.day() }),
            None => None,
        },
        None => None,
    }
}

} // verus!
