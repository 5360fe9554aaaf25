//! Calendar months: the billing period of invoices and of allocated rows.

use crate::text::{digit_char, padded_text, padded_to_text};
use chrono::Datelike;
use vstd::prelude::*;

verus! {

/// A calendar month of the Gregorian calendar.
#[derive(Clone, Copy, Debug, PartialEq, Eq, Structural)]
pub struct YearMonth {
    pub year: i32,
    pub month: u32,
}

pub open spec fn is_leap_year(year: int) -> bool {
    (year % 4 == 0 && year % 100 != 0) || year % 400 == 0
}

/// The number of days in `month` of `year`.
pub open spec fn days_in_month(year: int, month: int) -> int {
    if month == 2 {
        if is_leap_year(year) {
            29
        } else {
            28
        }
    } else if month == 4 || month == 6 || month == 9 || month == 11 {
        30
    } else {
        31
    }
}

/// The `YYYY-MM` text of a month.
pub open spec fn year_month_text(year: int, month: int) -> Seq<char> {
    padded_text(year as nat, 4) + seq!['-'] + padded_text(month as nat, 2)
}

/// What `NaiveDate::parse_from_str` reads from `<s>-01` with the format
/// `%Y-%m-%d`: the year and month of that date, or nothing.
pub uninterp spec fn parsed_month_start(s: Seq<char>) -> Option<(int, int)>;

/// Relies on chrono's `NaiveDate::parse_from_str` to read `<s>-01` as a date
/// in the format `%Y-%m-%d`, and on `Datelike::month` returning 1 to 12.
#[verifier::external_body]
fn chrono_month_start(s: &str) -> (r: Option<(i32, u32)>)
    ensures
        match r {
            Some((y, m)) => parsed_month_start(s@) == Some((y as int, m as int)) && 1 <= m <= 12,
            None => parsed_month_start(s@) is None,
        },
{
    match chrono::NaiveDate::parse_from_str(&format!("{s}-01"), "%Y-%m-%d") {
        Ok(d) => Some((d.year(), d.month())),
        Err(_) => None,
    }
}

/// The month that `YearMonth::parse` reads from a text.
pub open spec fn month_start_of(s: Seq<char>) -> Option<YearMonth> {
    match parsed_month_start(s) {
        Some((y, m)) => if 0 <= y <= 9999 {
            Some(YearMonth { year: y as i32, month: m as u32 })
        } else {
            None
        },
        None => None,
    }
}

impl YearMonth {
    /// Years are written with four digits.
    pub open spec fn wf(self) -> bool {
        0 <= self.year <= 9999 && 1 <= self.month <= 12
    }

    /// The number of months from January of year 0 to this month.
    pub open spec fn ordinal(self) -> int {
        self.year * 12 + self.month - 1
    }

    pub open spec fn text(self) -> Seq<char> {
        year_month_text(self.year as int, self.month as int)
    }

    /// The month `month` (1 to 12) of `year` (0 to 9999), if both are in range.
    pub fn new(year: i32, month: u32) -> (r: Option<YearMonth>)
        ensures
            r == (if 0 <= year <= 9999 && 1 <= month <= 12 {
                Some(YearMonth { year, month })
            } else {
                None
            }),
    {
        if 0 <= year && year <= 9999 && 1 <= month && month <= 12 {
            Some(YearMonth { year, month })
        } else {
            None
        }
    }

    /// Reads a `YYYY-MM` period as chrono reads the first day of it.
    pub fn parse(s: &str) -> (r: Option<YearMonth>)
        ensures
            r == month_start_of(s@),
            r matches Some(p) ==> p.wf(),
    {
        match chrono_month_start(s) {
            Some((y, m)) => YearMonth::new(y, m),
            None => None,
        }
    }

    /// Whether this month comes strictly after `other`.
    pub fn is_after(&self, other: &YearMonth) -> (r: bool)
        requires
            self.wf(),
            other.wf(),
        ensures
            r == (self.ordinal() > other.ordinal()),
    {
        self.year > other.year || (self.year == other.year && self.month > other.month)
    }

    /// The number of days in this month.
    pub fn num_days(&self) -> (r: u8)
        requires
            self.wf(),
        ensures
            r == days_in_month(self.year as int, self.month as int),
    {
        if self.month == 2 {
            if (self.year % 4 == 0 && self.year % 100 != 0) || self.year % 400 == 0 {
                29
            } else {
                28
            }
        } else if self.month == 4 || self.month == 6 || self.month == 9 || self.month == 11 {
            30
        } else {
            31
        }
    }

    /// The `YYYY-MM` text of this month.
    pub fn to_text(&self) -> (r: String)
        requires
            self.wf(),
        ensures
            r@ == self.text(),
    {
        let mut out = padded_to_text(self.year as u32, 4);
        let dash = "-";
        proof {
            reveal_strlit("-");
        }
        out.append(dash);
        let month = padded_to_text(self.month, 2);
        out.append(month.as_str());
        out
    }
}

} // verus!
