//! The `--period` values: what they mean, and the window of time that they select.

use crate::clock::{
    local_instants, on_local_clocks, read_clock, shown_by_clock, unix_epoch, wall_seconds,
    WallTime, SECONDS_PER_DAY,
};
use crate::date::{
    date_shaped, date_text, is_digit, iso_text, lemma_number_bounds,
    lemma_numbers_follow_calendar, named_date, on_calendar, parse_iso, precedes, two_digit_value, Date,
};
use crate::text::{
    chars_of, decimal, digit_char, first_occurs_at, lemma_split_at_first, occurs_at, same_text,
    split_at_first, split_once,
};
use vstd::prelude::*;

verus! {

/// The period of a report for which none was asked.
pub const DEFAULT_PERIOD: &'static str = "30d";

/// What a refused `--period` value is answered with.
pub const PERIOD_ERROR_HINT: &'static str =
    "Expected one of 1d, 3d, 7d, 30d, <YYYY-MM-DD>, or <YYYY-MM-DD>..<YYYY-MM-DD>.";

/// A parsed `--period` value: either a rolling window or explicit local dates.
#[derive(Clone, Copy, Debug, PartialEq, Eq, Structural)]
pub enum PeriodSpec {
    /// `1d`/`3d`/`7d`/`30d`: a rolling window that ends now.
    RelativeDays(u64),
    /// `<YYYY-MM-DD>`: from that day's local midnight to now.
    Since(Date),
    /// `<YYYY-MM-DD>..<YYYY-MM-DD>`: both days included.
    Range(Date, Date),
}

/// How the activity of a window is gathered into buckets.
#[derive(Clone, Copy, Debug, PartialEq, Eq, Structural)]
pub enum BucketGranularity {
    Daily,
    Weekly,
}

/// The day that a text of the shape `YYYY-MM-DD` names.
pub open spec fn date_of(s: Seq<char>) -> Option<Date> {
    let (year, month, day) = named_date(s);
    if date_shaped(s) && on_calendar(year, month, day) {
        Some(Date { year: year as i32, month: month as u32, day: day as u32 })
    } else {
        None
    }
}

/// The answer to a token that is neither a window nor made of days of the calendar.
pub open spec fn invalid_period(token: Seq<char>) -> Seq<char> {
    "Invalid --period value: "@ + token + ". "@ + PERIOD_ERROR_HINT@
}

/// The answer to a range that ends before it starts.
pub open spec fn reversed_period(token: Seq<char>) -> Seq<char> {
    "Invalid --period value: "@ + token + ". The end date must not precede the start date."@
}

/// The period that a token stands for, or the answer to one that stands for none.
pub open spec fn period_of(token: Seq<char>) -> Result<PeriodSpec, Seq<char>> {
    if token == "1d"@ {
        Ok(PeriodSpec::RelativeDays(1))
    } else if token == "3d"@ {
        Ok(PeriodSpec::RelativeDays(3))
    } else if token == "7d"@ {
        Ok(PeriodSpec::RelativeDays(7))
    } else if token == "30d"@ {
        Ok(PeriodSpec::RelativeDays(30))
    } else {
        match split_at_first(token, ".."@) {
            Some((start, end)) => match (date_of(start), date_of(end)) {
                (Some(start), Some(end)) => if precedes(end, start) {
                    Err(reversed_period(token))
                } else {
                    Ok(PeriodSpec::Range(start, end))
                },
                _ => Err(invalid_period(token)),
            },
            None => match date_of(token) {
                Some(date) => Ok(PeriodSpec::Since(date)),
                None => Err(invalid_period(token)),
            },
        }
    }
}

/// The day that a text of the shape `YYYY-MM-DD` names.
pub fn parse_date(value: &str) -> (date: Option<Date>)
    ensures
        date == date_of(value@),
{
    let chars = chars_of(value);
    // chrono's parser is lenient about padding and would accept "2026-9-1".
    if chars.len() != 10 || chars[4] != '-' || chars[7] != '-' {
        return None;
    }
    let mut i: usize = 0;
    while i < 10
        invariant
            i <= 10,
            chars@ == value@,
            chars@.len() == 10,
            chars@[4] == '-',
            chars@[7] == '-',
            forall|j: int|
                0 <= j < i && j != 4 && j != 7 ==> is_digit(#[trigger] chars@[j]),
        decreases 10 - i,
    {
        if i != 4 && i != 7 && !('0' <= chars[i] && chars[i] <= '9') {
            return None;
        }
        i += 1;
    }
    match parse_iso(value) {
        Ok(date) => Some(date),
        Err(_) => None,
    }
}

/// Parse a `--period` token: a relative window or an explicit date or date range.
pub fn resolve_period(token: &str) -> (period: Result<PeriodSpec, String>)
    ensures
        match period {
            Ok(period) => period.valid() && period_of(token@) == Ok::<PeriodSpec, Seq<char>>(
                period,
            ),
            Err(answer) => period_of(token@) == Err::<PeriodSpec, Seq<char>>(answer@),
        },
{
    if same_text(token, "1d") {
        return Ok(PeriodSpec::RelativeDays(1));
    }
    if same_text(token, "3d") {
        return Ok(PeriodSpec::RelativeDays(3));
    }
    if same_text(token, "7d") {
        return Ok(PeriodSpec::RelativeDays(7));
    }
    if same_text(token, "30d") {
        return Ok(PeriodSpec::RelativeDays(30));
    }
    match split_once(token, "..") {
        Some((start, end)) => {
            let start = parse_date(start.as_str());
            let end = parse_date(end.as_str());
            match (start, end) {
                (Some(start), Some(end)) => if end.before(&start) {
                    Err(
                        "Invalid --period value: ".to_owned().concat(token).concat(
                            ". The end date must not precede the start date.",
                        ),
                    )
                } else {
                    Ok(PeriodSpec::Range(start, end))
                },
                _ => Err(invalid(token)),
            }
        },
        None => match parse_date(token) {
            Some(date) => Ok(PeriodSpec::Since(date)),
            None => Err(invalid(token)),
        },
    }
}

fn invalid(token: &str) -> (answer: String)
    ensures
        answer@ == invalid_period(token@),
{
    "Invalid --period value: ".to_owned().concat(token).concat(". ").concat(PERIOD_ERROR_HINT)
}

impl PeriodSpec {
    /// Whether the days are on the calendar, and the seconds of a rolling window can be counted.
    pub open spec fn valid(self) -> bool {
        match self {
            PeriodSpec::RelativeDays(days) => days * SECONDS_PER_DAY <= u64::MAX,
            PeriodSpec::Since(date) => date.valid(),
            PeriodSpec::Range(start, end) => start.valid() && end.valid(),
        }
    }
}

/// The timestamp of an instant: its Unix time, or the nearest that a timestamp can give.
pub open spec fn timestamp_of(instant: int) -> int {
    if instant < 0 {
        0
    } else if instant > u32::MAX {
        u32::MAX as int
    } else {
        instant
    }
}

/// The present by a reading of the clock in seconds. A clock that is set before the start of Unix
/// time has no reading, and counts as set to it.
pub open spec fn present(clock: Option<u64>) -> int {
    match clock {
        Some(seconds) => timestamp_of(seconds as int),
        None => 0,
    }
}

/// The name of a rolling window.
pub open spec fn rolling_label(days: u64) -> Seq<char> {
    if days == 1 {
        "last 24 hours"@
    } else if days == 3 {
        "last 3 days"@
    } else if days == 7 {
        "last 7 days"@
    } else {
        "last 30 days"@
    }
}

/// The first and the last second of a window, its name, and the buckets it is gathered into.
pub type WindowView = (int, int, Seq<char>, BucketGranularity);

/// The window that a period selects, given a reading of the clock and the instants that the start
/// of its first day and the end of its last stand for.
pub open spec fn window_of(
    spec: PeriodSpec,
    clock: Option<u64>,
    start: WallTime,
    end: WallTime,
) -> WindowView {
    match spec {
        PeriodSpec::RelativeDays(days) => {
            let since = present(clock) - days * SECONDS_PER_DAY;
            (
                if since < 0 {
                    0
                } else {
                    since
                },
                present(clock),
                rolling_label(days),
                if days <= 7 {
                    BucketGranularity::Daily
                } else {
                    BucketGranularity::Weekly
                },
            )
        },
        PeriodSpec::Since(date) => (
            timestamp_of(start.earliest_instant() as int),
            present(clock),
            "since "@ + iso_text(date),
            BucketGranularity::Daily,
        ),
        PeriodSpec::Range(first, last) => (
            timestamp_of(start.earliest_instant() as int),
            timestamp_of(end.earliest_instant() as int),
            iso_text(first) + " to "@ + iso_text(last),
            BucketGranularity::Daily,
        ),
    }
}

/// Whether the clocks of some time zone can show the bounds of a period at these instants.
pub open spec fn bounds_plausible(spec: PeriodSpec, start: WallTime, end: WallTime) -> bool {
    match spec {
        PeriodSpec::RelativeDays(_) => true,
        PeriodSpec::Since(date) => start.within_a_day_of(wall_seconds(date, 0, 0, 0)),
        PeriodSpec::Range(first, last) => {
            &&& start.within_a_day_of(wall_seconds(first, 0, 0, 0))
            &&& end.within_a_day_of(wall_seconds(last, 23, 59, 59))
        },
    }
}

/// Whether the bounds of a period stand for these instants in the time zone of this machine.
pub open spec fn bounds_local(spec: PeriodSpec, start: WallTime, end: WallTime) -> bool {
    match spec {
        PeriodSpec::RelativeDays(_) => true,
        PeriodSpec::Since(date) => on_local_clocks(date, 0, 0, 0, start),
        PeriodSpec::Range(first, last) => {
            &&& on_local_clocks(first, 0, 0, 0, start)
            &&& on_local_clocks(last, 23, 59, 59, end)
        },
    }
}

/// A window as plain values, without the storage of its name.
pub open spec fn window_view(window: (u32, u32, String, BucketGranularity)) -> WindowView {
    (window.0 as int, window.1 as int, window.2@, window.3)
}

/// The timestamp of the earliest instant that a time stands for.
pub fn earliest_timestamp(time: WallTime) -> (ts: u32)
    ensures
        ts == timestamp_of(time.earliest_instant() as int),
{
    let instant: i64 = time.earliest();
    if instant < 0 {
        0
    } else if instant > u32::MAX as i64 {
        u32::MAX
    } else {
        instant as u32
    }
}

/// Unix seconds for a local wall-clock time on `date`. Local times can be ambiguous or skipped
/// by DST transitions: the earliest of the instants that the time can stand for counts.
pub fn date_to_ts(date: Date, hour: u32, min: u32, sec: u32) -> (ts: u32)
    requires
        date.valid(),
        hour < 24,
        min < 60,
        sec < 60,
    ensures
        exists|time: WallTime|
            on_local_clocks(date, hour, min, sec, time) && time.within_a_day_of(
                wall_seconds(date, hour as int, min as int, sec as int),
            ) && ts == timestamp_of(#[trigger] time.earliest_instant() as int),
{
    let time = local_instants(date, hour, min, sec);
    earliest_timestamp(time)
}

/// The window that a period selects, given a reading of the clock and the instants that the start
/// of its first day and the end of its last stand for. Date-based periods always bucket by day;
/// relative windows bucket by day up to a week, and by week beyond.
pub fn window_at(spec: PeriodSpec, clock: Option<u64>, start: WallTime, end: WallTime) -> (window: (
    u32,
    u32,
    String,
    BucketGranularity,
))
    requires
        spec.valid(),
    ensures
        window_view(window) == window_of(spec, clock, start, end),
{
    let now: u32 = match clock {
        Some(seconds) => if seconds < u32::MAX as u64 {
            seconds as u32
        } else {
            u32::MAX
        },
        None => 0,
    };
    match spec {
        PeriodSpec::RelativeDays(days) => {
            let label = match days {
                1 => "last 24 hours",
                3 => "last 3 days",
                7 => "last 7 days",
                _ => "last 30 days",
            };
            let granularity = if days <= 7 {
                BucketGranularity::Daily
            } else {
                BucketGranularity::Weekly
            };
            // Both bounds come from the same clock reading, so the window is exactly `days` long.
            let length: u64 = days * SECONDS_PER_DAY as u64;
            let since: u32 = if length < now as u64 {
                now - length as u32
            } else {
                0
            };
            (since, now, label.to_owned(), granularity)
        },
        PeriodSpec::Since(date) => {
            let label = "since ".to_owned().concat(date_text(date).as_str());
            (earliest_timestamp(start), now, label, BucketGranularity::Daily)
        },
        PeriodSpec::Range(first, last) => {
            let label = date_text(first).concat(" to ").concat(date_text(last).as_str());
            (earliest_timestamp(start), earliest_timestamp(end), label, BucketGranularity::Daily)
        },
    }
}

/// The window that a period selects now, by the clock and the time zone of this machine.
pub fn resolve_window(spec: PeriodSpec) -> (window: (u32, u32, String, BucketGranularity))
    requires
        spec.valid(),
    ensures
        exists|clock: Option<u64>, start: WallTime, end: WallTime|
            shown_by_clock(clock) && bounds_local(spec, start, end) && bounds_plausible(
                spec,
                start,
                end,
            ) && window_view(window) == #[trigger] window_of(spec, clock, start, end),
{
    let clock = read_clock();
    let (start, end) = match spec {
        PeriodSpec::RelativeDays(_) => (WallTime::Once(0), WallTime::Once(0)),
        PeriodSpec::Since(date) => (local_instants(date, 0, 0, 0), WallTime::Once(0)),
        PeriodSpec::Range(first, last) => (
            local_instants(first, 0, 0, 0),
            local_instants(last, 23, 59, 59),
        ),
    };
    window_at(spec, clock, start, end)
}

/// A rolling window is exactly as long as its name says, once the clock has run that long.
pub proof fn lemma_rolling_window_length(
    days: u64,
    clock: Option<u64>,
    start: WallTime,
    end: WallTime,
)
    requires
        0 <= days * SECONDS_PER_DAY <= present(clock),
    ensures
        ({
            let window = window_of(PeriodSpec::RelativeDays(days), clock, start, end);
            window.1 - window.0 == days * SECONDS_PER_DAY
        }),
{
}

/// Windows between dates, and rolling ones of up to a week, gather activity by day; longer ones
/// do so by week.
pub proof fn lemma_buckets(spec: PeriodSpec, clock: Option<u64>, start: WallTime, end: WallTime)
    ensures
        window_of(spec, clock, start, end).3 == BucketGranularity::Weekly <==> (
        spec matches PeriodSpec::RelativeDays(days) && days > 7),
{
}

/// A window is not empty if its bounds come in order: a window since a day that has begun by the
/// clock, and a range whose last day ends after its first begins.
pub proof fn lemma_window_not_empty(
    spec: PeriodSpec,
    clock: Option<u64>,
    start: WallTime,
    end: WallTime,
)
    requires
        match spec {
            PeriodSpec::RelativeDays(_) => true,
            PeriodSpec::Since(_) => start.earliest_instant() <= match clock {
                Some(seconds) => seconds as int,
                None => 0,
            },
            PeriodSpec::Range(_, _) => start.earliest_instant() <= end.earliest_instant(),
        },
    ensures
        ({
            let window = window_of(spec, clock, start, end);
            0 <= window.0 <= window.1 <= u32::MAX
        }),
{
}

/// A window since a day starts with the midnight of that day and ends now: where clocks keep one
/// offset from UTC, a timestamp comes after its start exactly if they show that day or a later
/// one. Of days that begin after the last timestamp this holds but for that timestamp.
pub proof fn lemma_since_starts_at_midnight(
    first: Date,
    offset: int,
    clock: Option<u64>,
    end: WallTime,
    date: Date,
    hour: int,
    min: int,
    sec: int,
)
    requires
        first.valid(),
        date.valid(),
        0 <= hour < 24,
        0 <= min < 60,
        0 <= sec < 60,
        -SECONDS_PER_DAY < offset < SECONDS_PER_DAY,
        0 <= wall_seconds(date, hour, min, sec) - offset <= u32::MAX,
        wall_seconds(date, hour, min, sec) - offset == u32::MAX ==> wall_seconds(first, 0, 0, 0)
            - offset <= u32::MAX,
    ensures
        ({
            let start = WallTime::Once((wall_seconds(first, 0, 0, 0) - offset) as i64);
            let window = window_of(PeriodSpec::Since(first), clock, start, end);
            let instant = wall_seconds(date, hour, min, sec) - offset;
            &&& window.0 <= instant <==> !precedes(date, first)
            &&& window.1 == present(clock)
        }),
{
    lemma_numbers_follow_calendar(date, first);
    lemma_number_bounds(first);
    lemma_number_bounds(unix_epoch());
}

/// A range takes in the whole of both its days and nothing else: where clocks keep one offset
/// from UTC, a timestamp lies in the window exactly if they show a day of the range. Of days that
/// begin after the last timestamp this holds but for that timestamp, and of days that end before
/// the first it holds but for that one.
pub proof fn lemma_range_includes_both_days(
    first: Date,
    last: Date,
    offset: int,
    clock: Option<u64>,
    date: Date,
    hour: int,
    min: int,
    sec: int,
)
    requires
        first.valid(),
        last.valid(),
        date.valid(),
        0 <= hour < 24,
        0 <= min < 60,
        0 <= sec < 60,
        -SECONDS_PER_DAY < offset < SECONDS_PER_DAY,
        0 <= wall_seconds(date, hour, min, sec) - offset <= u32::MAX,
        wall_seconds(date, hour, min, sec) - offset == u32::MAX ==> wall_seconds(first, 0, 0, 0)
            - offset <= u32::MAX,
        wall_seconds(date, hour, min, sec) - offset == 0 ==> 0 <= wall_seconds(last, 23, 59, 59)
            - offset,
    ensures
        ({
            let start = WallTime::Once((wall_seconds(first, 0, 0, 0) - offset) as i64);
            let end = WallTime::Once((wall_seconds(last, 23, 59, 59) - offset) as i64);
            let window = window_of(PeriodSpec::Range(first, last), clock, start, end);
            let instant = wall_seconds(date, hour, min, sec) - offset;
            window.0 <= instant <= window.1 <==> !precedes(date, first) && !precedes(last, date)
        }),
{
    lemma_numbers_follow_calendar(date, first);
    lemma_numbers_follow_calendar(last, date);
    lemma_number_bounds(first);
    lemma_number_bounds(last);
    lemma_number_bounds(unix_epoch());
}

/// The text of a day with a year of four digits has the shape of a date and names that day.
proof fn lemma_iso_text_names_day(date: Date)
    requires
        date.valid(),
        0 <= date.year <= 9999,
    ensures
        date_shaped(iso_text(date)),
        date_of(iso_text(date)) == Some(date),
{
    let s = iso_text(date);
    assert(s.len() == 10);
    assert(s[0] == digit_char((date.year / 100 / 10) as nat));
    assert(s[1] == digit_char((date.year / 100 % 10) as nat));
    assert(s[2] == digit_char((date.year % 100 / 10) as nat));
    assert(s[3] == digit_char((date.year % 100 % 10) as nat));
    assert(s[5] == digit_char((date.month / 10) as nat));
    assert(s[6] == digit_char((date.month % 10) as nat));
    assert(s[8] == digit_char((date.day / 10) as nat));
    assert(s[9] == digit_char((date.day % 10) as nat));
}

/// A text that names a day is the text of that day.
proof fn lemma_named_day_text(s: Seq<char>, date: Date)
    requires
        date_of(s) == Some(date),
    ensures
        date.valid(),
        0 <= date.year <= 9999,
        s == iso_text(date),
{
    assert(is_digit(s[0]) && is_digit(s[1]) && is_digit(s[2]) && is_digit(s[3]));
    assert(is_digit(s[5]) && is_digit(s[6]) && is_digit(s[8]) && is_digit(s[9]));
    assert(date.year / 100 == two_digit_value(s, 0) && date.year % 100 == two_digit_value(s, 2));
    assert(s =~= iso_text(date));
}

/// No two dots follow each other in the first ten characters of a text that begins with a date.
proof fn lemma_no_dots_in_date(s: Seq<char>, j: int)
    requires
        s.len() >= 10,
        date_shaped(s.take(10)),
        j < 10,
    ensures
        !occurs_at(s, ".."@, j),
{
    reveal_strlit("..");
    if occurs_at(s, ".."@, j) {
        assert(s.subrange(j, j + 2)[0] == s[j]);
        assert(s.take(10)[j] == s[j]);
        assert(".."@[0] == '.');
    }
}

/// A day written as `YYYY-MM-DD` selects the window that starts with it.
pub proof fn lemma_date_token(date: Date)
    requires
        date.valid(),
        0 <= date.year <= 9999,
    ensures
        period_of(iso_text(date)) == Ok::<PeriodSpec, Seq<char>>(PeriodSpec::Since(date)),
{
    let token = iso_text(date);
    lemma_iso_text_names_day(date);
    reveal_strlit("1d");
    reveal_strlit("3d");
    reveal_strlit("7d");
    reveal_strlit("30d");
    reveal_strlit("..");
    assert(token.take(10) =~= token);
    assert forall|i: int| !first_occurs_at(token, ".."@, i) by {
        if i < 10 {
            lemma_no_dots_in_date(token, i);
        }
    }
}

/// Two days written as `YYYY-MM-DD..YYYY-MM-DD` select the range of these days, unless the second
/// precedes the first: then the token is refused, with an answer that says so.
pub proof fn lemma_range_token(first: Date, last: Date)
    requires
        first.valid(),
        0 <= first.year <= 9999,
        last.valid(),
        0 <= last.year <= 9999,
    ensures
        ({
            let token = iso_text(first) + ".."@ + iso_text(last);
            period_of(token) == if precedes(last, first) {
                Err::<PeriodSpec, Seq<char>>(reversed_period(token))
            } else {
                Ok::<PeriodSpec, Seq<char>>(PeriodSpec::Range(first, last))
            }
        }),
{
    let token = iso_text(first) + ".."@ + iso_text(last);
    lemma_iso_text_names_day(first);
    lemma_iso_text_names_day(last);
    reveal_strlit("1d");
    reveal_strlit("3d");
    reveal_strlit("7d");
    reveal_strlit("30d");
    reveal_strlit("..");
    assert(token.take(10) =~= iso_text(first));
    assert(token.subrange(10, 12) =~= ".."@);
    assert forall|j: int| j < 10 implies !occurs_at(token, ".."@, j) by {
        lemma_no_dots_in_date(token, j);
    }
    lemma_split_at_first(token, ".."@, 10);
    assert(token.skip(12) =~= iso_text(last));
}

/// Every accepted token is the one way to write what it selects: a day and a range are accepted
/// in no other notation, and no range that ends before it starts is accepted.
pub proof fn lemma_accepted_tokens(token: Seq<char>)
    ensures
        match period_of(token) {
            Ok(PeriodSpec::RelativeDays(days)) => {
                &&& days == 1 || days == 3 || days == 7 || days == 30
                &&& token == decimal(days as nat) + "d"@
            },
            Ok(PeriodSpec::Since(date)) => date.valid() && token == iso_text(date),
            Ok(PeriodSpec::Range(first, last)) => {
                &&& first.valid() && last.valid() && !precedes(last, first)
                &&& token == iso_text(first) + ".."@ + iso_text(last)
            },
            Err(answer) => answer == invalid_period(token) || answer == reversed_period(token),
        },
{
    reveal_strlit("1d");
    reveal_strlit("3d");
    reveal_strlit("7d");
    reveal_strlit("30d");
    reveal_strlit("d");
    reveal_with_fuel(decimal, 2);
    match period_of(token) {
        Ok(PeriodSpec::RelativeDays(days)) => {
            assert(token =~= decimal(days as nat) + "d"@);
        },
        Ok(PeriodSpec::Since(date)) => {
            lemma_named_day_text(token, date);
        },
        Ok(PeriodSpec::Range(first, last)) => {
            let i = choose|i: int| first_occurs_at(token, ".."@, i);
            lemma_split_at_first(token, ".."@, i);
            lemma_named_day_text(token.take(i), first);
            lemma_named_day_text(token.skip(i + ".."@.len()), last);
            assert(token =~= token.take(i) + token.subrange(i, i + ".."@.len()) + token.skip(
                i + ".."@.len(),
            ));
        },
        Err(_) => {},
    }
}

/// A window is named by what selects it: one since a day by that day, one of a range by both days,
/// as they are written in the token, and a rolling one by its length.
pub proof fn lemma_window_named(
    token: Seq<char>,
    spec: PeriodSpec,
    clock: Option<u64>,
    start: WallTime,
    end: WallTime,
)
    requires
        period_of(token) == Ok::<PeriodSpec, Seq<char>>(spec),
    ensures
        ({
            let name = window_of(spec, clock, start, end).2;
            match spec {
                PeriodSpec::RelativeDays(days) => if days == 1 {
                    name == "last 24 hours"@
                } else {
                    name == "last "@ + decimal(days as nat) + " days"@
                },
                PeriodSpec::Since(_) => name == "since "@ + token,
                PeriodSpec::Range(_, _) => token.len() == 22 && name == token.take(10) + " to "@
                    + token.skip(12),
            }
        }),
{
    lemma_accepted_tokens(token);
    reveal_strlit("last 3 days");
    reveal_strlit("last 7 days");
    reveal_strlit("last 30 days");
    reveal_strlit("last ");
    reveal_strlit(" days");
    reveal_strlit("..");
    reveal_with_fuel(decimal, 2);
    match spec {
        PeriodSpec::RelativeDays(days) => {
            if days != 1 {
                let name = "last "@ + decimal(days as nat) + " days"@;
                assert(rolling_label(days) =~= name);
            }
        },
        PeriodSpec::Since(_) => {},
        PeriodSpec::Range(first, last) => {
            lemma_range_years(token, first, last);
            lemma_iso_text_names_day(first);
            lemma_iso_text_names_day(last);
            assert(token.take(10) =~= iso_text(first));
            assert(token.skip(12) =~= iso_text(last));
        },
    }
}

proof fn lemma_range_years(token: Seq<char>, first: Date, last: Date)
    requires
        period_of(token) == Ok::<PeriodSpec, Seq<char>>(PeriodSpec::Range(first, last)),
    ensures
        0 <= first.year <= 9999,
        0 <= last.year <= 9999,
{
    let i = choose|i: int| first_occurs_at(token, ".."@, i);
    lemma_split_at_first(token, ".."@, i);
    lemma_named_day_text(token.take(i), first);
    lemma_named_day_text(token.skip(i + ".."@.len()), last);
}

/// The present is what the clock shows, and no timestamp is beyond it in a window that ends now: a
/// rolling window starts so many days before, or with Unix time if that has not run so long.
pub proof fn lemma_window_ends_now(
    spec: PeriodSpec,
    seconds: u64,
    start: WallTime,
    end: WallTime,
)
    requires
        spec !is Range,
    ensures
        seconds <= u32::MAX ==> window_of(spec, Some(seconds), start, end).1 == seconds,
        seconds > u32::MAX ==> window_of(spec, Some(seconds), start, end).1 == u32::MAX,
        window_of(spec, None, start, end).1 == 0,
        spec matches PeriodSpec::RelativeDays(days) ==> ({
            let window = window_of(spec, Some(seconds), start, end);
            &&& window.1 >= days * 86_400 ==> window.1 - window.0 == days * 86_400
            &&& window.1 < days * 86_400 ==> window.0 == 0
        }),
{
}

/// Of the instants that a bound can stand for only the earliest counts.
pub proof fn lemma_earliest_bounds(
    spec: PeriodSpec,
    clock: Option<u64>,
    start: WallTime,
    end: WallTime,
)
    ensures
        window_of(spec, clock, start, end) == window_of(
            spec,
            clock,
            WallTime::Once(start.earliest_instant()),
            WallTime::Once(end.earliest_instant()),
        ),
        spec !is RelativeDays && 0 <= start.earliest_instant() <= u32::MAX ==> window_of(
            spec,
            clock,
            start,
            end,
        ).0 == start.earliest_instant(),
        spec is Range && 0 <= end.earliest_instant() <= u32::MAX ==> window_of(
            spec,
            clock,
            start,
            end,
        ).1 == end.earliest_instant(),
{
}

/// A rolling window depends on nothing but the clock, and one between dates does not depend on it.
pub proof fn lemma_window_depends(
    spec: PeriodSpec,
    clock: Option<u64>,
    other: Option<u64>,
    start: WallTime,
    end: WallTime,
    unused: WallTime,
)
    ensures
        spec is RelativeDays ==> window_of(spec, clock, start, end) == window_of(
            spec,
            clock,
            unused,
            unused,
        ),
        spec is Since ==> window_of(spec, clock, start, end) == window_of(spec, clock, start, unused),
        spec is Range ==> window_of(spec, clock, start, end) == window_of(spec, other, start, end),
{
}

/// What a refused token is answered with names it. That the end precedes the start is only said of
/// two days of which it is true.
pub proof fn lemma_refused_tokens(token: Seq<char>)
    ensures
        period_of(token) matches Err(answer) ==> {
            let hint = "Invalid --period value: "@ + token
                + ". Expected one of 1d, 3d, 7d, 30d, <YYYY-MM-DD>, or <YYYY-MM-DD>..<YYYY-MM-DD>."@;
            let reversed = "Invalid --period value: "@ + token
                + ". The end date must not precede the start date."@;
            answer == hint || (answer == reversed && exists|first: Date, last: Date|
                #[trigger] precedes(last, first) && first.valid() && last.valid() && token
                    == iso_text(first) + ".."@ + iso_text(last))
        },
{
    reveal_strlit(". ");
    reveal_strlit(
        "Expected one of 1d, 3d, 7d, 30d, <YYYY-MM-DD>, or <YYYY-MM-DD>..<YYYY-MM-DD>.",
    );
    reveal_strlit(
        ". Expected one of 1d, 3d, 7d, 30d, <YYYY-MM-DD>, or <YYYY-MM-DD>..<YYYY-MM-DD>.",
    );
    assert(". "@ + PERIOD_ERROR_HINT@
        =~= ". Expected one of 1d, 3d, 7d, 30d, <YYYY-MM-DD>, or <YYYY-MM-DD>..<YYYY-MM-DD>."@);
    assert(invalid_period(token) =~= "Invalid --period value: "@ + token + (". "@
        + PERIOD_ERROR_HINT@));
    if let Some((a, b)) = split_at_first(token, ".."@) {
        if let (Some(first), Some(last)) = (date_of(a), date_of(b)) {
            let i = choose|i: int| first_occurs_at(token, ".."@, i);
            lemma_split_at_first(token, ".."@, i);
            lemma_named_day_text(a, first);
            lemma_named_day_text(b, last);
            assert(token =~= token.take(i) + token.subrange(i, i + ".."@.len()) + token.skip(
                i + ".."@.len(),
            ));
        }
    }
}

/// The rolling windows are those of 1, 3, 7 and 30 days.
pub proof fn lemma_rolling_tokens(days: nat)
    requires
        days == 1 || days == 3 || days == 7 || days == 30,
    ensures
        period_of(decimal(days) + "d"@) == Ok::<PeriodSpec, Seq<char>>(
            PeriodSpec::RelativeDays(days as u64),
        ),
{
    reveal_strlit("1d");
    reveal_strlit("3d");
    reveal_strlit("7d");
    reveal_strlit("30d");
    reveal_strlit("d");
    reveal_with_fuel(decimal, 2);
    let token = decimal(days) + "d"@;
    if days == 1 {
        assert(token =~= "1d"@);
    } else if days == 3 {
        assert(token =~= "3d"@);
    } else if days == 7 {
        assert(token =~= "7d"@);
    } else {
        assert(token =~= "30d"@);
    }
    assert("1d"@[0] == '1' && "3d"@[0] == '3' && "7d"@[0] == '7' && "30d"@[1] == '0');
}

/// A rolling window of any length has a name; beyond the short ones it is that of the longest.
pub proof fn lemma_rolling_named(days: u64, clock: Option<u64>, start: WallTime, end: WallTime)
    ensures
        days != 1 && days != 3 && days != 7 ==> window_of(
            PeriodSpec::RelativeDays(days),
            clock,
            start,
            end,
        ).2 == "last 30 days"@,
{
}

/// The text of a day names that day, and a text that names none is the text of no day.
pub proof fn lemma_date_of(s: Seq<char>, date: Date)
    ensures
        date.valid() && 0 <= date.year <= 9999 ==> (date_of(s) == Some(date) <==> s == iso_text(
            date,
        )),
        date_of(s) matches Some(named) ==> named.valid() && 0 <= named.year <= 9999 && s == iso_text(
            named,
        ),
{
    if date.valid() && 0 <= date.year <= 9999 {
        lemma_iso_text_names_day(date);
    }
    if let Some(named) = date_of(s) {
        lemma_named_day_text(s, named);
    }
}

} // verus!
