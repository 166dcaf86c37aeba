//! Calendar dates: read from `DD/MM/YYYY` text, written as `YYYY-MM-DD`.
//! Reading and writing are done by `chrono`; this module states what it relies
//! on.

use crate::decimal::decimal;
use chrono::format::ParseErrorKind;
use chrono::{Datelike, NaiveDate};
use vstd::prelude::*;

verus! {

/// The first year a date can have.
pub const MIN_YEAR: i32 = -262143;

/// The last year a date can have.
pub const MAX_YEAR: i32 = 262142;

/// A day of the proleptic Gregorian calendar, without a time of day.
#[derive(Clone, Copy, Debug, PartialEq, Eq, Structural)]
pub struct Date {
    pub year: i32,
    pub month: u32,
    pub day: u32,
}

/// Why a text could not be read as a date.
#[derive(Clone, Copy, Debug, PartialEq, Eq, Structural)]
pub enum DateErrorKind {
    /// A field is outside its permitted range.
    OutOfRange,
    /// No date has the fields that were read.
    Impossible,
    /// The fields that were read do not determine a date.
    NotEnough,
    /// The text holds characters that the pattern does not allow.
    Invalid,
    /// The text ends too early.
    TooShort,
    /// Text is left over after the pattern is used up.
    TooLong,
    /// The pattern itself is not usable.
    BadFormat,
}

/// Whether `year` has a 29th of February.
pub open spec fn is_leap_year(year: int) -> bool {
    year % 4 == 0 && (year % 100 != 0 || year % 400 == 0)
}

/// The number of days of the given month.
pub open spec fn days_in_month(year: int, month: int) -> int {
    if month == 2 {
        if is_leap_year(year) {
            29
        } else {
            28
        }
    } else if month == 4 || month == 6 || month == 9 || month == 11 {
        30
    } else {
        31
    }
}

/// The pattern of the dates in a statement: day, month and year, separated
/// by slashes.
pub open spec fn day_month_year() -> Seq<char> {
    "%d/%m/%Y"@
}

/// The pattern of the dates in the export: year, month and day, separated by
/// hyphens.
pub open spec fn year_month_day() -> Seq<char> {
    "%Y-%m-%d"@
}

/// What `chrono::NaiveDate::parse_from_str` makes of `text` under `pattern`:
/// the date it reads, or the kind of its error.
pub uninterp spec fn date_from_text(text: Seq<char>, pattern: Seq<char>) -> Result<
    Date,
    DateErrorKind,
>;

/// `value` in base ten, with zeros in front up to `width` digits.
pub open spec fn zero_padded(value: nat, width: nat) -> Seq<char> {
    let digits = decimal(value);
    if digits.len() >= width {
        digits
    } else {
        Seq::new((width - digits.len()) as nat, |i: int| '0') + digits
    }
}

/// A year as the export writes it: four digits for the years 0 to 9999, a
/// sign and at least four digits for all others.
pub open spec fn year_text(year: int) -> Seq<char> {
    if 0 <= year <= 9999 {
        zero_padded(year as nat, 4)
    } else if year < 0 {
        seq!['-'] + zero_padded((-year) as nat, 4)
    } else {
        seq!['+'] + zero_padded(year as nat, 4)
    }
}

/// A date as the export writes it: year, month and day, the last two with
/// two digits each, separated by hyphens.
pub open spec fn iso_date(date: Date) -> Seq<char> {
    year_text(date.year as int) + seq!['-'] + zero_padded(date.month as nat, 2) + seq!['-']
        + zero_padded(date.day as nat, 2)
}

impl Date {
    /// Whether the calendar has this day, and the year is one that dates can
    /// have.
    pub open spec fn is_valid(&self) -> bool {
        &&& MIN_YEAR <= self.year <= MAX_YEAR
        &&& 1 <= self.month <= 12
        &&& 1 <= self.day <= days_in_month(self.year as int, self.month as int)
    }

    /// The date with the given year, month and day, where the calendar has
    /// it and dates can have the year.
    pub fn new(year: i32, month: u32, day: u32) -> (date: Option<Date>)
        ensures
            date == if (Date { year, month, day }).is_valid() {
                Some(Date { year, month, day })
            } else {
                None
            },
    {
        if year < MIN_YEAR || year > MAX_YEAR || month < 1 || month > 12 || day < 1 {
            return None;
        }
        // 262400 is a multiple of 400 that lifts every year above zero.
        let lifted: u32 = (year + 262400) as u32;
        assert(lifted % 4 == 0 <==> year as int % 4 == 0);
        assert(lifted % 100 == 0 <==> year as int % 100 == 0);
        assert(lifted % 400 == 0 <==> year as int % 400 == 0);
        let leap = lifted % 4 == 0 && (lifted % 100 != 0 || lifted % 400 == 0);
        let days: u32 = if month == 2 {
            if leap {
                29
            } else {
                28
            }
        } else if month == 4 || month == 6 || month == 9 || month == 11 {
            30
        } else {
            31
        };
        if day <= days {
            Some(Date { year, month, day })
        } else {
            None
        }
    }

    /// The date as the export writes it, see [`iso_date`].
    pub fn iso_text(&self) -> (text: String)
        requires
            self.is_valid(),
        ensures
            text@ == iso_date(*self),
    {
        format_date(self, "%Y-%m-%d")
    }
}

/// Reads a date written as day, month and year with slashes between them.
/// What counts as such a date is decided by `chrono`, see
/// [`date_from_text`]; a date that comes back is one the calendar has.
pub fn parse_date(text: &str) -> (result: Result<Date, DateErrorKind>)
    ensures
        result == date_from_text(text@, day_month_year()),
        result matches Ok(date) ==> date.is_valid(),
{
    read_date(text, "%d/%m/%Y")
}

/// `chrono::NaiveDate::parse_from_str`, called with the pattern `%d/%m/%Y`.
/// The result is handed on as year, month and day, an error as its kind.
/// Claimed without proof: the result depends on the two arguments alone, and
/// a date that is returned exists in the calendar, with a year from
/// [`MIN_YEAR`] to [`MAX_YEAR`].
#[verifier::external_body]
fn read_date(text: &str, pattern: &str) -> (result: Result<Date, DateErrorKind>)
    requires
        pattern@ == day_month_year(),
    ensures
        result == date_from_text(text@, pattern@),
        result matches Ok(date) ==> date.is_valid(),
{
    match NaiveDate::parse_from_str(text, pattern) {
        Ok(d) => Ok(Date { year: d.year(), month: d.month(), day: d.day() }),
        Err(e) => Err(match e.kind() {
            ParseErrorKind::OutOfRange => DateErrorKind::OutOfRange,
            ParseErrorKind::Impossible => DateErrorKind::Impossible,
            ParseErrorKind::NotEnough => DateErrorKind::NotEnough,
            ParseErrorKind::Invalid => DateErrorKind::Invalid,
            ParseErrorKind::TooShort => DateErrorKind::TooShort,
            ParseErrorKind::TooLong => DateErrorKind::TooLong,
            _ => DateErrorKind::BadFormat,
        }),
    }
}

/// `chrono::NaiveDate::format`, called with the pattern `%Y-%m-%d` on the
/// date that `chrono::NaiveDate::from_ymd_opt` makes of year, month and day.
/// Claimed without proof: for that pattern the text is the year as
/// [`year_text`] gives it, then month and day with two digits each, with
/// hyphens between them.
#[verifier::external_body]
fn format_date(date: &Date, pattern: &str) -> (text: String)
    requires
        date.is_valid(),
        pattern@ == year_month_day(),
    ensures
        text@ == iso_date(*date),
{
    NaiveDate::from_ymd_opt(date.year, date.month, date.day).unwrap().format(pattern).to_string()
}

} // verus!
