use chrono::Datelike;
use vstd::prelude::*;

use crate::error::{Field, ScrapeError};

verus! {

/// A calendar date, compared as (year, month, day).
#[derive(Clone, Copy, Debug, PartialEq, Eq, Structural)]
pub struct Date {
    pub year: i32,
    pub month: u32,
    pub day: u32,
}

/// `a` is on or before `b`.
pub open spec fn date_le(a: Date, b: Date) -> bool {
    a.year < b.year || (a.year == b.year && (a.month < b.month || (a.month == b.month && a.day
        <= b.day)))
}

/// `a` is strictly before `b`.
pub open spec fn date_lt(a: Date, b: Date) -> bool {
    !date_le(b, a)
}

impl Date {
    /// `self` is on or before `other`.
    pub fn is_on_or_before(&self, other: &Date) -> (r: bool)
        ensures
            r == date_le(*self, *other),
    {
        self.year < other.year || (self.year == other.year && (self.month < other.month || (
        self.month == other.month && self.day <= other.day)))
    }
}

/// What chrono's `NaiveDate::parse_from_str` makes of a text under a format, read back
/// as (year, month, day).
pub uninterp spec fn chrono_parsed_date(text: Seq<char>, format: Seq<char>) -> Option<(i32, u32, u32)>;

/// Relies on chrono's `NaiveDate::parse_from_str`, read back through `Datelike::year`,
/// `month` and `day`: the outcome depends on the text and the format alone, and a month
/// lies in 1..=12, a day in 1..=31.
#[verifier::external_body]
pub(crate) fn parse_with_format(text: &str, format: &str) -> (r: Option<Date>)
    ensures
        match chrono_parsed_date(text@, format@) {
            None => r is None,
            Some(t) => r == Some(Date { year: t.0, month: t.1, day: t.2 }),
        },
        r matches Some(d) ==> 1 <= d.month <= 12 && 1 <= d.day <= 31,
{
    match chrono::NaiveDate::parse_from_str(text, format) {
        Ok(d) => Some(Date { year: d.year(), month: d.month(), day: d.day() }),
        Err(_) => None,
    }
}

/// Relies on chrono's `Local::now` and `DateTime::date_naive`: today in the machine's time
/// zone. It depends on the clock, so nothing is promised of the day itself; chrono keeps
/// every date's year within `MIN_YEAR..=MAX_YEAR`, far inside `i32`.
#[verifier::external_body]
pub(crate) fn local_today() -> (r: Date)
    ensures
        1 <= r.month <= 12,
        1 <= r.day <= 31,
        r.year > i32::MIN,
{
    let d = chrono::Local::now().date_naive();
    Date { year: d.year(), month: d.month(), day: d.day() }
}

/// The format of a date written as `2021-08-17`.
pub const ISO_DATE_FORMAT: &'static str = "%Y-%m-%d";

/// The date that `text` writes under a chrono format, if any.
pub open spec fn date_in_format(text: Seq<char>, format: Seq<char>) -> Option<Date> {
    match chrono_parsed_date(text, format) {
        None => None,
        Some(t) => Some(Date { year: t.0, month: t.1, day: t.2 }),
    }
}

/// The date that an ISO text (`2021-08-17`) stands for, if any.
pub open spec fn iso_date(text: Seq<char>) -> Option<Date> {
    date_in_format(text, ISO_DATE_FORMAT@)
}

/// Reads a date written under a chrono format (`%Y-%m-%d`).
pub fn parse_date(text: &str, format: &str) -> (r: Result<Date, ScrapeError>)
    ensures
        match date_in_format(text@, format@) {
            Some(d) => r == Ok::<Date, ScrapeError>(d),
            None => r == Err::<Date, ScrapeError>(ScrapeError::Parse(Field::Date)),
        },
{
    match parse_with_format(text, format) {
        Some(d) => Ok(d),
        None => Err(ScrapeError::Parse(Field::Date)),
    }
}

/// Reads an ISO date (`2021-08-17`).
pub fn parse_iso_date(text: &str) -> (r: Result<Date, ScrapeError>)
    ensures
        match iso_date(text@) {
            Some(d) => r == Ok::<Date, ScrapeError>(d),
            None => r == Err::<Date, ScrapeError>(ScrapeError::Parse(Field::Date)),
        },
{
    parse_date(text, ISO_DATE_FORMAT)
}

/// An inclusive range of dates whose start is on or before its end.
#[derive(Clone, Copy, Debug)]
pub struct DateRange {
    start: Date,
    end: Date,
}

impl DateRange {
    #[verifier::type_invariant]
    spec fn ordered(self) -> bool {
        date_le(self.start, self.end)
    }

    /// The first day of the range.
    pub closed spec fn first(self) -> Date {
        self.start
    }

    /// The last day of the range.
    pub closed spec fn last(self) -> Date {
        self.end
    }

    /// `d` lies in the range, both ends included.
    pub open spec fn contains(self, d: Date) -> bool {
        date_le(self.first(), d) && date_le(d, self.last())
    }

    /// The range from `start` to `end`; an inverted pair is refused.
    pub fn new(start: Date, end: Date) -> (r: Result<DateRange, ScrapeError>)
        ensures
            date_le(start, end) <==> r is Ok,
            r matches Ok(range) ==> range.first() == start && range.last() == end,
            !date_le(start, end) ==> r == Err::<DateRange, ScrapeError>(ScrapeError::Range),
    {
        if start.is_on_or_before(&end) {
            Ok(DateRange { start, end })
        } else {
            Err(ScrapeError::Range)
        }
    }

    /// The range between two ISO dates (`2021-08-17`). A text that is no date gives a
    /// parse error (the start is read first); an inverted pair, a range error.
    pub fn parse(start: &str, end: &str) -> (r: Result<DateRange, ScrapeError>)
        ensures
            match (iso_date(start@), iso_date(end@)) {
                (Some(s), Some(e)) => if date_le(s, e) {
                    r matches Ok(range) && range.first() == s && range.last() == e
                } else {
                    r == Err::<DateRange, ScrapeError>(ScrapeError::Range)
                },
                _ => r == Err::<DateRange, ScrapeError>(ScrapeError::Parse(Field::Date)),
            },
    {
        let s = parse_iso_date(start)?;
        let e = parse_iso_date(end)?;
        DateRange::new(s, e)
    }

    /// The first day of the range.
    pub fn start(&self) -> (r: Date)
        ensures
            r == self.first(),
            date_le(r, self.last()),
    {
        proof {
            use_type_invariant(self);
        }
        self.start
    }

    /// The last day of the range.
    pub fn end(&self) -> (r: Date)
        ensures
            r == self.last(),
            date_le(self.first(), r),
    {
        proof {
            use_type_invariant(self);
        }
        self.end
    }

    /// `d` lies in the range.
    pub fn includes(&self, d: &Date) -> (r: bool)
        ensures
            r == self.contains(*d),
    {
        self.start.is_on_or_before(d) && d.is_on_or_before(&self.end)
    }

    /// The calendar years that the range touches, most recent first: the year of its
    /// end, then each year before it, down to the year of its start.
    pub fn years(&self) -> (r: Vec<i32>)
        ensures
            r@.len() == self.last().year - self.first().year + 1,
            forall|i: int| 0 <= i < r@.len() ==> #[trigger] r@[i] == self.last().year - i,
            r@.len() >= 1,
            r@[0] == self.last().year,
            r@.last() == self.first().year,
            forall|i: int, j: int| 0 <= i < j < r@.len() ==> r@[i] > r@[j],
    {
        proof {
            use_type_invariant(self);
        }
        let lo = self.start.year;
        let hi = self.end.year;
        let mut r: Vec<i32> = Vec::new();
        let mut y: i32 = hi;
        r.push(y);
        while y > lo
            invariant
                lo <= y <= hi,
                r@.len() == hi - y + 1,
                forall|i: int| 0 <= i < r@.len() ==> #[trigger] r@[i] == hi - i,
            decreases y - lo,
        {
            y = y - 1;
            r.push(y);
        }
        r
    }
}

} // verus!
