//! The calendar day on which a request is made.

use vstd::prelude::*;
use chrono::Datelike;

verus! {

/// A calendar day.
#[derive(Debug, PartialEq, Eq)]
pub struct Date {
    pub year: i32,
    pub month: u32,
    pub day: u32,
}

/// A calendar day as plain numbers.
pub ghost struct DateView {
    pub year: int,
    pub month: int,
    pub day: int,
}

impl View for Date {
    type V = DateView;

    open spec fn view(&self) -> DateView {
        DateView { year: self.year as int, month: self.month as int, day: self.day as int }
    }
}

impl DateView {
    /// Whether month and day are in the range of a calendar.
    pub open spec fn in_calendar(self) -> bool {
        1 <= self.month <= 12 && 1 <= self.day <= 31
    }
}

/// Reads the machine's clock with `chrono::Local::now` and takes the year,
/// the month and the day of the answer in the local time zone
/// (`Datelike::year`, `month`, `day`).
///
/// Trusted: the month is from 1 to 12 and the day from 1 to 31, as chrono
/// documents them. Which day comes back is open. chrono stops the program
/// where the clock reads a time before 1970.
#[verifier::external_body]
pub(crate) fn local_date() -> (r: Date)
    ensures
        r@.in_calendar(),
{
    let now = chrono::Local::now();
    Date { year: now.year(), month: now.month(), day: now.day() }
}

} // verus!
