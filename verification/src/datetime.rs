//! Calendar date and time of day, to the second, without a time zone.
//!
//! Reading a date from text and writing it out are `chrono`'s work; the
//! value itself is held here as plain numbers.

use crate::decimal::zero_padded;
use chrono::{Datelike, Timelike};
use vstd::prelude::*;

verus! {

/// The layout of a date text as the parser builds it.
pub const LAYOUT_SECONDS: &'static str = "%Y-%m-%d %H:%M:%S";

/// The layout of the date in a page footer.
pub const LAYOUT_MINUTES: &'static str = "%Y-%m-%d %H:%M";

/// The layout of the date in an edit field.
pub const LAYOUT_DOTTED: &'static str = "%Y.%m.%d %H:%M";

/// The layout of the date in a table row: month and day only.
pub const LAYOUT_SHORT: &'static str = "%m.%d %H:%M";

/// A date and a time of day.
#[derive(Clone, Copy, Debug, PartialEq, Eq, Structural)]
pub struct DateTime {
    pub year: i32,
    pub month: u32,
    pub day: u32,
    pub hour: u32,
    pub minute: u32,
    pub second: u32,
}

pub open spec fn is_leap_year(year: int) -> bool {
    year % 4 == 0 && (year % 100 != 0 || year % 400 == 0)
}

/// The number of days of a month of the proleptic Gregorian calendar.
pub open spec fn days_in_month(year: int, month: int) -> int {
    if month == 2 {
        if is_leap_year(year) {
            29
        } else {
            28
        }
    } else if month == 4 || month == 6 || month == 9 || month == 11 {
        30
    } else {
        31
    }
}

/// The year as `%Y` writes it: four digits from 0 to 9999, else a sign and
/// four digits or more.
pub open spec fn year_text(year: int) -> Seq<char> {
    if 0 <= year <= 9999 {
        zero_padded(year as nat, 4)
    } else if year < 0 {
        seq!['-'] + zero_padded((-year) as nat, 4)
    } else {
        seq!['+'] + zero_padded(year as nat, 4)
    }
}

/// A number below 100 as two digits.
pub open spec fn two_digits(n: int) -> Seq<char> {
    zero_padded(n as nat, 2)
}

impl DateTime {
    /// The value is a day that exists, within the years that `chrono` holds,
    /// and a time of day.
    pub open spec fn wf(&self) -> bool {
        &&& -262143 <= self.year <= 262142
        &&& 1 <= self.month <= 12
        &&& 1 <= self.day <= days_in_month(self.year as int, self.month as int)
        &&& self.hour < 24
        &&& self.minute < 60
        &&& self.second < 60
    }

    /// `self` is earlier than `other`.
    pub open spec fn before(&self, other: DateTime) -> bool {
        if self.year != other.year {
            self.year < other.year
        } else if self.month != other.month {
            self.month < other.month
        } else if self.day != other.day {
            self.day < other.day
        } else if self.hour != other.hour {
            self.hour < other.hour
        } else if self.minute != other.minute {
            self.minute < other.minute
        } else {
            self.second < other.second
        }
    }

    /// `hh:mm` of the value.
    pub open spec fn clock_text(&self) -> Seq<char> {
        two_digits(self.hour as int) + seq![':'] + two_digits(self.minute as int)
    }

    /// The value written in one of the three layouts in which it is shown.
    pub open spec fn text(&self, layout: Seq<char>) -> Seq<char> {
        let month_day = |sep: char|
            two_digits(self.month as int) + seq![sep] + two_digits(self.day as int) + seq![' ']
                + self.clock_text();
        if layout == LAYOUT_MINUTES@ {
            year_text(self.year as int) + seq!['-'] + month_day('-')
        } else if layout == LAYOUT_DOTTED@ {
            year_text(self.year as int) + seq!['.'] + month_day('.')
        } else {
            month_day('.')
        }
    }
}

/// What `chrono` reads from `text` in the layout `layout`; `None` where it
/// reads no date and time from it.
pub uninterp spec fn parsed(text: Seq<char>, layout: Seq<char>) -> Option<DateTime>;

/// `chrono::NaiveDateTime::parse_from_str`: reads a date and time from
/// `text`. The contract names the result, and claims of it that it depends
/// on the two texts alone and that what is read is a day that exists and a
/// time of day, each field as `chrono`'s accessors give it. (A leap second,
/// written as second 60, is given by them as second 59.)
#[verifier::external_body]
pub(crate) fn parse(text: &str, layout: &str) -> (r: Option<DateTime>)
    ensures
        r == parsed(text@, layout@),
        r matches Some(t) ==> t.wf(),
{
    match chrono::NaiveDateTime::parse_from_str(text, layout) {
        Ok(t) => Some(
            DateTime {
                year: t.year(),
                month: t.month(),
                day: t.day(),
                hour: t.hour(),
                minute: t.minute(),
                second: t.second(),
            },
        ),
        Err(_) => None,
    }
}

/// One of the three layouts in which a value is written out.
pub open spec fn is_output_layout(layout: Seq<char>) -> bool {
    layout == LAYOUT_MINUTES@ || layout == LAYOUT_DOTTED@ || layout == LAYOUT_SHORT@
}

/// `chrono::NaiveDate::from_ymd_opt`, `NaiveDate::and_hms_opt` and
/// `NaiveDateTime::format`: writes the value out in `layout`. The contract
/// states the text for the three layouts made of `%Y`, `%m`, `%d`, `%H`, `%M`:
/// each field in decimal with zeros in front, two digits, or four for the
/// year, and the characters between them as the layout has them.
#[verifier::external_body]
pub(crate) fn render(t: &DateTime, layout: &str) -> (r: String)
    requires
        t.wf(),
        is_output_layout(layout@),
    ensures
        r@ == t.text(layout@),
{
    let date = chrono::NaiveDate::from_ymd_opt(t.year, t.month, t.day).unwrap();
    date.and_hms_opt(t.hour, t.minute, t.second).unwrap().format(layout).to_string()
}

/// Whether `year` has a 29th of February.
pub fn leap_year(year: i32) -> (r: bool)
    ensures
        r == is_leap_year(year as int),
{
    year % 4 == 0 && (year % 100 != 0 || year % 400 == 0)
}

impl DateTime {
    /// Whether the value is a day that exists and a time of day.
    pub fn is_valid(&self) -> (r: bool)
        ensures
            r == self.wf(),
    {
        if self.year < -262143 || self.year > 262142 {
            return false;
        }
        if self.month < 1 || self.month > 12 || self.day < 1 {
            return false;
        }
        let days: u32 = if self.month == 2 {
            if leap_year(self.year) {
                29
            } else {
                28
            }
        } else if self.month == 4 || self.month == 6 || self.month == 9 || self.month == 11 {
            30
        } else {
            31
        };
        self.day <= days && self.hour < 24 && self.minute < 60 && self.second < 60
    }

    /// The value of these six numbers, where they are a day that exists and
    /// a time of day.
    pub fn new(year: i32, month: u32, day: u32, hour: u32, minute: u32, second: u32) -> (r:
        Option<DateTime>)
        ensures
            r == (if (DateTime { year, month, day, hour, minute, second }).wf() {
                Some(DateTime { year, month, day, hour, minute, second })
            } else {
                None
            }),
    {
        let t = DateTime { year, month, day, hour, minute, second };
        if t.is_valid() {
            Some(t)
        } else {
            None
        }
    }

    /// Whether `self` is earlier than `other`.
    pub fn is_before(&self, other: &DateTime) -> (r: bool)
        ensures
            r == self.before(*other),
    {
        if self.year != other.year {
            self.year < other.year
        } else if self.month != other.month {
            self.month < other.month
        } else if self.day != other.day {
            self.day < other.day
        } else if self.hour != other.hour {
            self.hour < other.hour
        } else if self.minute != other.minute {
            self.minute < other.minute
        } else {
            self.second < other.second
        }
    }
}

/// "Earlier" is an order: of two values that differ one is earlier, and
/// what is earlier than an earlier value is earlier.
pub proof fn lemma_before_is_an_order(a: DateTime, b: DateTime, c: DateTime)
    ensures
        !a.before(a),
        a.before(b) || b.before(a) || a == b,
        a.before(b) && b.before(c) ==> a.before(c),
{
}

} // verus!
