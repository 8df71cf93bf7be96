//! Days of the proleptic Gregorian calendar.

use crate::text::{decimal, decimal_text, digit_char, repeated};
use chrono::{Datelike, NaiveDate, TimeDelta};
use vstd::prelude::*;

verus! {

/// The first and the last year that a [`Date`] can fall in.
pub const FIRST_YEAR: i32 = -262143;

pub const LAST_YEAR: i32 = 262142;

/// A calendar day.
#[derive(Clone, Copy, Debug, PartialEq, Eq, Structural)]
pub struct Date {
    pub year: i32,
    pub month: u32,
    pub day: u32,
}

pub open spec fn is_leap(year: int) -> bool {
    year % 4 == 0 && (year % 100 != 0 || year % 400 == 0)
}

pub open spec fn days_in_month(year: int, month: int) -> int {
    if month == 2 {
        if is_leap(year) {
            29
        } else {
            28
        }
    } else if month == 4 || month == 6 || month == 9 || month == 11 {
        30
    } else {
        31
    }
}

/// Whether a year, a month and a day name a day of the calendar.
pub open spec fn on_calendar(year: int, month: int, day: int) -> bool {
    &&& FIRST_YEAR <= year <= LAST_YEAR
    &&& 1 <= month <= 12
    &&& 1 <= day <= days_in_month(year, month)
}

/// The days of the years before `year`, counted from the first day of year 1.
pub open spec fn days_before_year(year: int) -> int {
    let past = year - 1;
    365 * past + past / 4 - past / 100 + past / 400
}

/// The days of a year that precede one of its months.
pub open spec fn days_before_month(year: int, month: int) -> int
    decreases month,
{
    if month <= 1 {
        0
    } else {
        days_before_month(year, month - 1) + days_in_month(year, month - 1)
    }
}

/// Whether one day comes before another: by year, then by month, then by day.
pub open spec fn precedes(a: Date, b: Date) -> bool {
    ||| a.year < b.year
    ||| a.year == b.year && a.month < b.month
    ||| a.year == b.year && a.month == b.month && a.day < b.day
}

/// A number from 0 to 99 in two digits.
pub open spec fn two_digits(n: int) -> Seq<char> {
    seq![digit_char((n / 10) as nat), digit_char((n % 10) as nat)]
}

/// A year in four digits, or with its sign and at least four digits where those do not suffice.
pub open spec fn year_text(year: int) -> Seq<char> {
    if 0 <= year <= 9999 {
        two_digits(year / 100) + two_digits(year % 100)
    } else {
        let size = decimal(if year < 0 {
            -year
        } else {
            year
        } as nat);
        seq![
            if year < 0 {
                '-'
            } else {
                '+'
            },
        ] + repeated('0', (if size.len() < 4 {
            4 - size.len()
        } else {
            0
        }) as nat) + size
    }
}

/// A day in the notation of ISO 8601, such as `2026-09-01`.
pub open spec fn iso_text(date: Date) -> Seq<char> {
    year_text(date.year as int) + seq!['-'] + two_digits(date.month as int) + seq!['-']
        + two_digits(date.day as int)
}

/// The English name of a month in three letters.
pub open spec fn month_name(month: int) -> Seq<char> {
    if month == 1 {
        "Jan"@
    } else if month == 2 {
        "Feb"@
    } else if month == 3 {
        "Mar"@
    } else if month == 4 {
        "Apr"@
    } else if month == 5 {
        "May"@
    } else if month == 6 {
        "Jun"@
    } else if month == 7 {
        "Jul"@
    } else if month == 8 {
        "Aug"@
    } else if month == 9 {
        "Sep"@
    } else if month == 10 {
        "Oct"@
    } else if month == 11 {
        "Nov"@
    } else {
        "Dec"@
    }
}

/// A day as `Apr 2`: the name of the month and the day without padding.
pub open spec fn day_label(date: Date) -> Seq<char> {
    month_name(date.month as int) + seq![' '] + decimal(date.day as nat)
}

pub open spec fn is_digit(c: char) -> bool {
    '0' <= c <= '9'
}

pub open spec fn digit_value(c: char) -> int {
    c as int - 48
}

/// The number that two digits of a text give.
pub open spec fn two_digit_value(s: Seq<char>, at: int) -> int {
    10 * digit_value(s[at]) + digit_value(s[at + 1])
}

/// Whether a text has the shape `YYYY-MM-DD`, with every part padded to its full width.
pub open spec fn date_shaped(s: Seq<char>) -> bool {
    &&& s.len() == 10
    &&& s[4] == '-'
    &&& s[7] == '-'
    &&& forall|i: int| 0 <= i < 10 && i != 4 && i != 7 ==> is_digit(#[trigger] s[i])
}

/// The parts that a text of the shape `YYYY-MM-DD` names, on the calendar or not.
pub open spec fn named_date(s: Seq<char>) -> (int, int, int) {
    (100 * two_digit_value(s, 0) + two_digit_value(s, 2), two_digit_value(s, 5), two_digit_value(s, 8))
}

/// The error of chrono's date parser.
#[verifier::external_type_specification]
#[verifier::external_body]
pub struct ExParseError(chrono::ParseError);

/// [`NaiveDate::parse_from_str`] with `%Y-%m-%d`: a text of the shape `YYYY-MM-DD` is accepted
/// if its parts name a day of the calendar, which is the result, and refused otherwise.
#[verifier::external_body]
pub(crate) fn parse_iso(value: &str) -> (date: Result<Date, chrono::ParseError>)
    requires
        date_shaped(value@),
    ensures
        match date {
            Ok(date) => date.valid() && named_date(value@) == (
                date.year as int,
                date.month as int,
                date.day as int,
            ),
            Err(_) => {
                let (year, month, day) = named_date(value@);
                !on_calendar(year, month, day)
            },
        },
{
    let date = NaiveDate::parse_from_str(value, "%Y-%m-%d")?;
    Ok(Date { year: date.year(), month: date.month(), day: date.day() })
}

/// [`NaiveDate::signed_duration_since`]: the days from one day to another, negative where the
/// second comes first.
#[verifier::external_body]
pub(crate) fn days_between(from: Date, to: Date) -> (days: i64)
    requires
        from.valid(),
        to.valid(),
    ensures
        days == to.number() - from.number(),
{
    let from = NaiveDate::from_ymd_opt(from.year, from.month, from.day).unwrap();
    let to = NaiveDate::from_ymd_opt(to.year, to.month, to.day).unwrap();
    to.signed_duration_since(from).num_days()
}

/// The sum of a [`NaiveDate`] and a [`TimeDelta`] of whole days: the day that comes so many days
/// later, or earlier where their number is negative. Only days of the calendar are asked for.
#[verifier::external_body]
pub(crate) fn days_after(date: Date, days: i64) -> (later: Date)
    requires
        date.valid(),
        Date::first().number() <= date.number() + days <= Date::last().number(),
    ensures
        later.valid(),
        later.number() == date.number() + days,
{
    let date = NaiveDate::from_ymd_opt(date.year, date.month, date.day).unwrap();
    let later = date + TimeDelta::days(days);
    Date { year: later.year(), month: later.month(), day: later.day() }
}

/// The `Display` of a [`NaiveDate`]: the day in the notation of ISO 8601.
#[verifier::external_body]
pub(crate) fn date_text(date: Date) -> (s: String)
    requires
        date.valid(),
    ensures
        s@ == iso_text(date),
{
    NaiveDate::from_ymd_opt(date.year, date.month, date.day).unwrap().to_string()
}

/// [`NaiveDate::format`] with `%b`: the name of the month in three letters.
#[verifier::external_body]
pub(crate) fn month_text(date: Date) -> (s: String)
    requires
        date.valid(),
    ensures
        s@ == month_name(date.month as int),
{
    NaiveDate::from_ymd_opt(date.year, date.month, date.day).unwrap().format("%b").to_string()
}

/// Format a date as "Apr 2".
pub fn format_day_label(date: Date) -> (label: String)
    requires
        date.valid(),
    ensures
        label@ == day_label(date),
{
    let mut label = month_text(date);
    label.push(' ');
    label.append(decimal_text(date.day as u64).as_str());
    label
}

impl Date {
    /// Whether this names a day of the calendar.
    pub open spec fn valid(self) -> bool {
        on_calendar(self.year as int, self.month as int, self.day as int)
    }

    /// The number of the day, where 1 is the first day of year 1.
    pub open spec fn number(self) -> int {
        days_before_year(self.year as int) + days_before_month(self.year as int, self.month as int)
            + self.day
    }

    /// The first day of the calendar.
    pub open spec fn first() -> Date {
        Date { year: FIRST_YEAR, month: 1, day: 1 }
    }

    /// The last day of the calendar.
    pub open spec fn last() -> Date {
        Date { year: LAST_YEAR, month: 12, day: 31 }
    }

    /// The day with these parts, if they name one.
    pub fn new(year: i32, month: u32, day: u32) -> (date: Option<Date>)
        ensures
            match date {
                Some(date) => date.valid() && date == (Date { year, month, day }),
                None => !on_calendar(year as int, month as int, day as int),
            },
    {
        if year < FIRST_YEAR || year > LAST_YEAR || month < 1 || month > 12 || day < 1 {
            return None;
        }
        let leap = year % 4 == 0 && (year % 100 != 0 || year % 400 == 0);
        let days: u32 = if month == 2 {
            if leap {
                29
            } else {
                28
            }
        } else if month == 4 || month == 6 || month == 9 || month == 11 {
            30
        } else {
            31
        };
        if day <= days {
            Some(Date { year, month, day })
        } else {
            None
        }
    }

    /// Whether this day comes before another.
    pub fn before(&self, other: &Date) -> (earlier: bool)
        ensures
            earlier == precedes(*self, *other),
    {
        self.year < other.year || (self.year == other.year && (self.month < other.month || (
        self.month == other.month && self.day < other.day)))
    }
}

/// The number of days in a year.
spec fn days_in_year(year: int) -> int {
    if is_leap(year) {
        366
    } else {
        365
    }
}

proof fn lemma_year_length(year: int)
    ensures
        days_before_year(year + 1) == days_before_year(year) + days_in_year(year),
{
    let past = year - 1;
    assert(year / 4 - past / 4 == if year % 4 == 0 {
        1int
    } else {
        0
    });
    assert(year / 100 - past / 100 == if year % 100 == 0 {
        1int
    } else {
        0
    });
    assert(year / 400 - past / 400 == if year % 400 == 0 {
        1int
    } else {
        0
    });
    assert(year % 400 == 0 ==> year % 100 == 0);
    assert(year % 100 == 0 ==> year % 4 == 0);
}

proof fn lemma_months_of_year(year: int)
    ensures
        days_before_month(year, 13) == days_in_year(year),
{
    let february = days_in_month(year, 2);
    assert(days_before_month(year, 1) == 0);
    assert(days_before_month(year, 2) == 31);
    assert(days_before_month(year, 3) == 31 + february);
    assert(days_before_month(year, 4) == 62 + february);
    assert(days_before_month(year, 5) == 92 + february);
    assert(days_before_month(year, 6) == 123 + february);
    assert(days_before_month(year, 7) == 153 + february);
    assert(days_before_month(year, 8) == 184 + february);
    assert(days_before_month(year, 9) == 215 + february);
    assert(days_before_month(year, 10) == 245 + february);
    assert(days_before_month(year, 11) == 276 + february);
    assert(days_before_month(year, 12) == 306 + february);
}

proof fn lemma_years_grow(a: int, b: int)
    requires
        a <= b,
    ensures
        days_before_year(a) <= days_before_year(b),
    decreases b - a,
{
    if a < b {
        lemma_years_grow(a, b - 1);
        lemma_year_length(b - 1);
    }
}

proof fn lemma_months_grow(year: int, a: int, b: int)
    requires
        1 <= a <= b,
    ensures
        days_before_month(year, a) <= days_before_month(year, b),
    decreases b - a,
{
    if a < b {
        lemma_months_grow(year, a, b - 1);
    }
}

/// The number of a day lies between the days before its year and those before the next.
proof fn lemma_number_within_year(a: Date)
    requires
        a.valid(),
    ensures
        days_before_year(a.year as int) < a.number() <= days_before_year(a.year + 1),
{
    lemma_months_grow(a.year as int, 1, a.month as int);
    lemma_months_grow(a.year as int, a.month + 1, 13);
    lemma_months_of_year(a.year as int);
    lemma_year_length(a.year as int);
}

/// Days are numbered in calendar order: an earlier day has the lower number.
pub proof fn lemma_numbers_follow_calendar(a: Date, b: Date)
    requires
        a.valid(),
        b.valid(),
    ensures
        precedes(a, b) <==> a.number() < b.number(),
{
    if precedes(a, b) {
        lemma_earlier_number(a, b);
    } else if precedes(b, a) {
        lemma_earlier_number(b, a);
    } else {
        assert(a == b);
    }
}

proof fn lemma_earlier_number(a: Date, b: Date)
    requires
        a.valid(),
        b.valid(),
        precedes(a, b),
    ensures
        a.number() < b.number(),
{
    if a.year < b.year {
        lemma_number_within_year(a);
        lemma_number_within_year(b);
        lemma_years_grow(a.year + 1, b.year as int);
    } else if a.month < b.month {
        lemma_months_grow(a.year as int, a.month + 1, b.month as int);
    }
}

/// A day is determined by its number.
pub proof fn lemma_number_names_day(a: Date, b: Date)
    requires
        a.valid(),
        b.valid(),
        a.number() == b.number(),
    ensures
        a == b,
{
    lemma_numbers_follow_calendar(a, b);
    lemma_numbers_follow_calendar(b, a);
}

/// No day is more than a hundred million days away from the first day of year 1.
pub proof fn lemma_number_bounds(a: Date)
    requires
        a.valid(),
    ensures
        -100_000_000 <= a.number() <= 100_000_000,
{
    lemma_number_within_year(a);
}

/// No day of the calendar comes before its first day or after its last.
pub proof fn lemma_calendar_ends(a: Date)
    requires
        a.valid(),
    ensures
        Date::first().number() <= a.number() <= Date::last().number(),
{
    lemma_numbers_follow_calendar(a, Date::first());
    lemma_numbers_follow_calendar(Date::last(), a);
}

/// The label of a day takes five or six characters.
pub proof fn lemma_day_label_length(date: Date)
    requires
        date.valid(),
    ensures
        5 <= day_label(date).len() <= 6,
{
    reveal_strlit("Jan");
    reveal_strlit("Feb");
    reveal_strlit("Mar");
    reveal_strlit("Apr");
    reveal_strlit("May");
    reveal_strlit("Jun");
    reveal_strlit("Jul");
    reveal_strlit("Aug");
    reveal_strlit("Sep");
    reveal_strlit("Oct");
    reveal_strlit("Nov");
    reveal_strlit("Dec");
    reveal_with_fuel(decimal, 2);
}

/// The day with a number.
pub open spec fn day_numbered(number: int) -> Date {
    choose|date: Date| date.valid() && #[trigger] date.number() == number
}

/// The day with the number of a day is that day.
pub proof fn lemma_day_numbered(date: Date)
    requires
        date.valid(),
    ensures
        day_numbered(date.number()) == date,
{
    lemma_number_names_day(day_numbered(date.number()), date);
}

/// The calendar repeats itself every 400 years, which have 146,097 days.
pub proof fn lemma_calendar_cycle(a: Date, b: Date)
    requires
        b.year == a.year + 400,
        a.month == b.month,
        a.day == b.day,
        FIRST_YEAR <= a.year,
        b.year <= LAST_YEAR,
    ensures
        a.valid() <==> b.valid(),
        a.valid() ==> b.number() == a.number() + 146_097,
{
    let (past, later) = (a.year - 1, b.year - 1);
    assert(later / 4 == past / 4 + 100 && later / 100 == past / 100 + 4 && later / 400 == past / 400
        + 1);
    lemma_cycle_months(a.year as int, b.year as int, a.month as int);
}

proof fn lemma_cycle_months(a: int, b: int, month: int)
    requires
        b == a + 400,
    ensures
        is_leap(a) == is_leap(b),
        days_before_month(a, month) == days_before_month(b, month),
    decreases month,
{
    if month > 1 {
        lemma_cycle_months(a, b, month - 1);
    }
}

/// The day after a day has the next number, whether it is of the same month, the next month or the
/// next year; the months have their days, and February one more in a year that can be divided by
/// four, but of those that end a century only in every fourth.
pub proof fn lemma_next_day(a: Date, b: Date)
    requires
        a.valid(),
        b.valid(),
        ({
            let length: int = if a.month == 2 {
                if a.year % 400 == 0 || (a.year % 4 == 0 && a.year % 100 != 0) {
                    29
                } else {
                    28
                }
            } else if a.month == 4 || a.month == 6 || a.month == 9 || a.month == 11 {
                30
            } else {
                31
            };
            if a.day < length {
                b.year == a.year && b.month == a.month && b.day == a.day + 1
            } else if a.month < 12 {
                b.year == a.year && b.month == a.month + 1 && b.day == 1
            } else {
                b.year == a.year + 1 && b.month == 1 && b.day == 1
            }
        }),
    ensures
        b.number() == a.number() + 1,
{
    assert(a.year % 400 == 0 ==> a.year % 4 == 0);
    if a.month == 12 && a.day == 31 {
        lemma_months_of_year(a.year as int);
        lemma_year_length(a.year as int);
    }
}

/// A date names a day of the calendar exactly if its month has that day.
pub proof fn lemma_days_of_months(date: Date)
    requires
        FIRST_YEAR <= date.year <= LAST_YEAR,
    ensures
        date.valid() <==> 1 <= date.day && {
            ||| date.day <= 31 && (date.month == 1 || date.month == 3 || date.month == 5 || date.month
                == 7 || date.month == 8 || date.month == 10 || date.month == 12)
            ||| date.day <= 30 && (date.month == 4 || date.month == 6 || date.month == 9 || date.month
                == 11)
            ||| date.day <= 28 && date.month == 2
            ||| date.day == 29 && date.month == 2 && (date.year % 400 == 0 || (date.year % 4 == 0
                && date.year % 100 != 0))
        },
{
    assert(date.year % 400 == 0 ==> date.year % 4 == 0);
}

/// The label of a day gives its month in three letters and, after a space, its day.
pub proof fn lemma_day_label(date: Date)
    requires
        date.valid(),
    ensures
        day_label(date).take(3) == month_name(date.month as int),
        day_label(date)[3] == ' ',
        day_label(date).skip(4) == decimal(date.day as nat),
        month_name(date.month as int).len() == 3,
{
    reveal_strlit("Jan");
    reveal_strlit("Feb");
    reveal_strlit("Mar");
    reveal_strlit("Apr");
    reveal_strlit("May");
    reveal_strlit("Jun");
    reveal_strlit("Jul");
    reveal_strlit("Aug");
    reveal_strlit("Sep");
    reveal_strlit("Oct");
    reveal_strlit("Nov");
    reveal_strlit("Dec");
    let label = day_label(date);
    assert(label.take(3) =~= month_name(date.month as int));
    assert(label.skip(4) =~= decimal(date.day as nat));
}

} // verus!
