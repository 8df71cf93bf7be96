//! The clock of the machine and the time zone that it is set to.

use crate::date::{
    day_numbered, days_after, days_between, lemma_calendar_ends, lemma_day_numbered,
    lemma_number_bounds, Date, FIRST_YEAR, LAST_YEAR,
};
use chrono::{Local, LocalResult, NaiveDate, TimeZone};
use std::time::{Duration, SystemTime, SystemTimeError, UNIX_EPOCH};
use vstd::prelude::*;

verus! {

pub const SECONDS_PER_DAY: i64 = 86400;

/// The day on which Unix time starts.
pub open spec fn unix_epoch() -> Date {
    Date { year: 1970, month: 1, day: 1 }
}

/// What a clock that runs on UTC counts as Unix time when it shows this date and time of day.
pub open spec fn wall_seconds(date: Date, hour: int, min: int, sec: int) -> int {
    (date.number() - unix_epoch().number()) * SECONDS_PER_DAY + hour * 3600 + min * 60 + sec
}

/// The instants, in Unix time, that a date and time of day on the wall stands for.
///
/// When clocks go back, the times that they show again belong to two instants. When they go
/// forward, the times that they skip belong to none; such a time is read by the offset from UTC
/// that clocks keep before the gap, and by the one that they keep after it.
#[derive(Clone, Copy, Debug, PartialEq, Eq, Structural)]
pub enum WallTime {
    Skipped(i64, i64),
    Once(i64),
    Twice(i64, i64),
}

/// Whether two instants are less than a day apart.
pub open spec fn within_a_day(a: int, b: int) -> bool {
    b - SECONDS_PER_DAY < a < b + SECONDS_PER_DAY
}

impl WallTime {
    /// Whether every one of the instants is less than a day away from another.
    pub open spec fn within_a_day_of(self, instant: int) -> bool {
        match self {
            WallTime::Once(a) => within_a_day(a as int, instant),
            WallTime::Skipped(a, b) | WallTime::Twice(a, b) => within_a_day(a as int, instant)
                && within_a_day(b as int, instant),
        }
    }

    /// The earliest of the instants.
    pub open spec fn earliest_instant(self) -> i64 {
        match self {
            WallTime::Once(instant) => instant,
            WallTime::Skipped(a, b) | WallTime::Twice(a, b) => if b < a {
                b
            } else {
                a
            },
        }
    }

    /// The earliest of the instants.
    pub fn earliest(&self) -> (instant: i64)
        ensures
            instant == self.earliest_instant(),
    {
        match *self {
            WallTime::Once(instant) => instant,
            WallTime::Skipped(a, b) | WallTime::Twice(a, b) => if b < a {
                b
            } else {
                a
            },
        }
    }
}

/// [`TimeZone::from_local_datetime`] of [`Local`]: the instants at which the clocks of this
/// machine's time zone show a date and time of day, or nothing if they never do. Which they are
/// depends on the time zone, and so on the machine; an offset from UTC is less than a day, so each
/// of them is less than a day away from the instant at which a clock on UTC shows the same. The
/// order of two is left open.
#[verifier::external_body]
fn shown_at(date: Date, hour: u32, min: u32, sec: u32) -> (shown: Option<WallTime>)
    requires
        date.valid(),
        hour < 24,
        min < 60,
        sec < 60,
    ensures
        shown matches Some(time) ==> time !is Skipped && time.within_a_day_of(
            wall_seconds(date, hour as int, min as int, sec as int),
        ),
{
    let date = NaiveDate::from_ymd_opt(date.year, date.month, date.day).unwrap();
    match Local.from_local_datetime(&date.and_hms_opt(hour, min, sec).unwrap()) {
        LocalResult::None => None,
        LocalResult::Single(time) => Some(WallTime::Once(time.timestamp())),
        LocalResult::Ambiguous(a, b) => Some(WallTime::Twice(a.timestamp(), b.timestamp())),
    }
}

/// Whether this is what the time zone of this machine answers about a time of day on the day with
/// a number. Beyond the calendar there is no answer.
pub closed spec fn shown_on_day(
    number: int,
    hour: u32,
    min: u32,
    sec: u32,
    shown: Option<WallTime>,
) -> bool {
    if Date::first().number() <= number <= Date::last().number() {
        call_ensures(shown_at, (day_numbered(number), hour, min, sec), shown)
    } else {
        shown is None
    }
}

/// The instants that a skipped time stands for, given those at which clocks show the same time of
/// day a day before and a day after. If only one of these is known, its offset serves for both,
/// and if neither is, UTC does.
pub open spec fn read_across(
    wall: i64,
    before: Option<WallTime>,
    after: Option<WallTime>,
) -> WallTime {
    match (before, after) {
        (Some(before), Some(after)) => WallTime::Skipped(
            (before.earliest_instant() + SECONDS_PER_DAY) as i64,
            (after.earliest_instant() - SECONDS_PER_DAY) as i64,
        ),
        (Some(before), None) => {
            let instant = (before.earliest_instant() + SECONDS_PER_DAY) as i64;
            WallTime::Skipped(instant, instant)
        },
        (None, Some(after)) => {
            let instant = (after.earliest_instant() - SECONDS_PER_DAY) as i64;
            WallTime::Skipped(instant, instant)
        },
        (None, None) => WallTime::Skipped(wall, wall),
    }
}

/// Whether these are the instants that a date and time of day stands for in the time zone of this
/// machine: those at which clocks show it, or those that it is read as if they skip it.
pub open spec fn on_local_clocks(
    date: Date,
    hour: u32,
    min: u32,
    sec: u32,
    time: WallTime,
) -> bool {
    ||| shown_on_day(date.number(), hour, min, sec, Some(time))
    ||| {
        &&& shown_on_day(date.number(), hour, min, sec, None)
        &&& exists|before: Option<WallTime>, after: Option<WallTime>|
            #[trigger] shown_on_day(date.number() - 1, hour, min, sec, before)
                && #[trigger] shown_on_day(date.number() + 1, hour, min, sec, after) && time
                == read_across(
                wall_seconds(date, hour as int, min as int, sec as int) as i64,
                before,
                after,
            )
    }
}

/// The instants that a skipped time stands for, given those at which clocks show the same time of
/// day a day before and a day after.
pub fn across_gap(wall: i64, before: Option<WallTime>, after: Option<WallTime>) -> (time: WallTime)
    requires
        before matches Some(before) ==> before.earliest_instant() <= i64::MAX - SECONDS_PER_DAY,
        after matches Some(after) ==> i64::MIN + SECONDS_PER_DAY <= after.earliest_instant(),
    ensures
        time == read_across(wall, before, after),
{
    match (before, after) {
        (Some(before), Some(after)) => WallTime::Skipped(
            before.earliest() + SECONDS_PER_DAY,
            after.earliest() - SECONDS_PER_DAY,
        ),
        (Some(before), None) => {
            let instant: i64 = before.earliest() + SECONDS_PER_DAY;
            WallTime::Skipped(instant, instant)
        },
        (None, Some(after)) => {
            let instant: i64 = after.earliest() - SECONDS_PER_DAY;
            WallTime::Skipped(instant, instant)
        },
        (None, None) => WallTime::Skipped(wall, wall),
    }
}

/// The instants, in Unix time, that a date and time of day stands for in the time zone of this
/// machine.
pub fn local_instants(date: Date, hour: u32, min: u32, sec: u32) -> (time: WallTime)
    requires
        date.valid(),
        hour < 24,
        min < 60,
        sec < 60,
    ensures
        on_local_clocks(date, hour, min, sec, time),
        time.within_a_day_of(wall_seconds(date, hour as int, min as int, sec as int)),
{
    proof {
        lemma_day_numbered(date);
        lemma_calendar_ends(date);
        lemma_number_bounds(date);
    }
    let shown = shown_at(date, hour, min, sec);
    assert(shown_on_day(date.number(), hour, min, sec, shown));
    match shown {
        Some(time) => time,
        None => {
            let epoch = Date { year: 1970, month: 1, day: 1 };
            proof {
                lemma_number_bounds(epoch);
            }
            let wall: i64 = days_between(epoch, date) * SECONDS_PER_DAY + (hour * 3600 + min * 60
                + sec) as i64;
            let before = shown_days_later(date, -1, hour, min, sec);
            let after = shown_days_later(date, 1, hour, min, sec);
            assert(shown_on_day(date.number() - 1, hour, min, sec, before));
            assert(shown_on_day(date.number() + 1, hour, min, sec, after));
            across_gap(wall, before, after)
        },
    }
}

/// What the time zone of this machine answers about a time of day a day before or after another.
fn shown_days_later(date: Date, days: i64, hour: u32, min: u32, sec: u32) -> (shown: Option<
    WallTime,
>)
    requires
        date.valid(),
        days == 1 || days == -1,
        hour < 24,
        min < 60,
        sec < 60,
    ensures
        shown_on_day(date.number() + days, hour, min, sec, shown),
        shown matches Some(time) ==> time.within_a_day_of(
            wall_seconds(date, hour as int, min as int, sec as int) + days * SECONDS_PER_DAY,
        ),
{
    let end = if days < 0 {
        Date { year: FIRST_YEAR, month: 1, day: 1 }
    } else {
        Date { year: LAST_YEAR, month: 12, day: 31 }
    };
    proof {
        lemma_calendar_ends(date);
        lemma_calendar_ends(end);
    }
    if days_between(date, end) == 0 {
        return None;
    }
    let day = days_after(date, days);
    proof {
        lemma_day_numbered(day);
    }
    shown_at(day, hour, min, sec)
}

#[verifier::external_type_specification]
#[verifier::external_body]
pub struct ExSystemTime(SystemTime);

#[verifier::external_type_specification]
#[verifier::external_body]
pub struct ExSystemTimeError(SystemTimeError);

/// [`SystemTime::now`]: a reading of the clock. Nothing is claimed of what it shows.
pub assume_specification[ SystemTime::now ]() -> SystemTime
;

/// [`SystemTime::duration_since`] the start of Unix time: how long ago that was, or an error for
/// a reading that lies before it. Nothing is claimed of either, as the reading is the clock's.
#[verifier::external_body]
fn since_epoch(reading: SystemTime) -> Result<Duration, SystemTimeError> {
    reading.duration_since(UNIX_EPOCH)
}

/// [`Duration::as_secs`]: the whole seconds of a duration. Nothing is claimed of their number,
/// as the durations asked about are readings of the clock.
pub assume_specification[ Duration::as_secs ](duration: &Duration) -> u64
;

/// Whether a reading of the clock gives this: the whole seconds that have passed since the start
/// of Unix time, or nothing if it comes before that.
pub closed spec fn shown_by_clock(clock: Option<u64>) -> bool {
    exists|reading: SystemTime, elapsed: Result<Duration, SystemTimeError>|
        call_ensures(SystemTime::now, (), reading) && #[trigger] call_ensures(
            since_epoch,
            (reading,),
            elapsed,
        ) && match elapsed {
            Ok(elapsed) => clock matches Some(seconds) && call_ensures(
                Duration::as_secs,
                (&elapsed,),
                seconds,
            ),
            Err(_) => clock is None,
        }
}

/// The seconds since the start of Unix time by the clock, or nothing if it is set before that.
pub fn read_clock() -> (clock: Option<u64>)
    ensures
        shown_by_clock(clock),
{
    match since_epoch(SystemTime::now()) {
        Ok(elapsed) => Some(elapsed.as_secs()),
        Err(_) => None,
    }
}

/// Of the instants that a time stands for, none comes before the earliest, which is one of them.
pub proof fn lemma_earliest(time: WallTime)
    ensures
        time matches WallTime::Once(a) ==> time.earliest_instant() == a,
        time matches WallTime::Twice(a, b) ==> ({
            let first = time.earliest_instant();
            first <= a && first <= b && (first == a || first == b)
        }),
        time matches WallTime::Skipped(a, b) ==> ({
            let first = time.earliest_instant();
            first <= a && first <= b && (first == a || first == b)
        }),
{
}

/// A skipped time is read by the offsets from UTC on both sides of the gap: where clocks keep one
/// a day before and the other a day after, its earliest instant is the one by the larger of them.
pub proof fn lemma_skipped_time(wall: i64, before: int, after: int)
    requires
        -SECONDS_PER_DAY < before < SECONDS_PER_DAY,
        -SECONDS_PER_DAY < after < SECONDS_PER_DAY,
        i64::MIN + 2 * SECONDS_PER_DAY <= wall <= i64::MAX - 2 * SECONDS_PER_DAY,
    ensures
        ({
            let time = read_across(
                wall,
                Some(WallTime::Once((wall - SECONDS_PER_DAY - before) as i64)),
                Some(WallTime::Once((wall + SECONDS_PER_DAY - after) as i64)),
            );
            &&& time == WallTime::Skipped((wall - before) as i64, (wall - after) as i64)
            &&& time.earliest_instant() == wall - if before < after {
                after
            } else {
                before
            }
        }),
{
}

/// A clock on UTC counts seconds from the start of 1970, and 86,400 of them from one day to the
/// same time on the next.
pub proof fn lemma_wall_seconds(a: Date, b: Date, hour: int, min: int, sec: int)
    ensures
        wall_seconds(Date { year: 1970, month: 1, day: 1 }, 0, 0, 0) == 0,
        wall_seconds(b, hour, min, sec) - wall_seconds(a, hour, min, sec) == 86_400 * (b.number()
            - a.number()),
        wall_seconds(a, hour + 1, min, sec) == wall_seconds(a, hour, min, sec) + 3600,
        wall_seconds(a, hour, min + 1, sec) == wall_seconds(a, hour, min, sec) + 60,
        wall_seconds(a, hour, min, sec + 1) == wall_seconds(a, hour, min, sec) + 1,
{
}

/// A skipped time is read by the earliest instants of a day before and a day after; by one of them
/// where the other is not known, and as UTC where neither is.
pub proof fn lemma_read_across(wall: i64, before: WallTime, after: WallTime)
    requires
        before.earliest_instant() <= i64::MAX - 86_400,
        i64::MIN + 86_400 <= after.earliest_instant(),
    ensures
        read_across(wall, Some(before), Some(after)) matches WallTime::Skipped(x, y) && x
            == before.earliest_instant() + 86_400 && y == after.earliest_instant() - 86_400,
        read_across(wall, Some(before), None) matches WallTime::Skipped(x, y) && x == y && x
            == before.earliest_instant() + 86_400,
        read_across(wall, None, Some(after)) matches WallTime::Skipped(x, y) && x == y && x
            == after.earliest_instant() - 86_400,
        read_across(wall, None, None) matches WallTime::Skipped(x, y) && x == wall && y == wall,
{
}

/// Of the answers of the time zone about a day and its neighbours, that about the day itself counts
/// if there is one. Otherwise the time is skipped, and read by the answers about the day before and
/// the day after.
pub proof fn lemma_local_instants(date: Date, hour: u32, min: u32, sec: u32, time: WallTime)
    requires
        call_ensures(local_instants, (date, hour, min, sec), time),
        date.valid(),
        hour < 24,
        min < 60,
        sec < 60,
    ensures
        time !is Skipped ==> shown_on_day(date.number(), hour, min, sec, Some(time)),
        time matches WallTime::Skipped(x, y) ==> shown_on_day(date.number(), hour, min, sec, None)
            && exists|before: Option<WallTime>, after: Option<WallTime>|
            #[trigger] shown_on_day(date.number() - 1, hour, min, sec, before)
                && #[trigger] shown_on_day(date.number() + 1, hour, min, sec, after) && match (
                before,
                after,
            ) {
                (Some(before), Some(after)) => x == (before.earliest_instant() + 86_400) as i64 && y
                    == (after.earliest_instant() - 86_400) as i64,
                (Some(before), None) => x == y && x == (before.earliest_instant() + 86_400) as i64,
                (None, Some(after)) => x == y && x == (after.earliest_instant() - 86_400) as i64,
                (None, None) => x == y && x == ((date.number() - Date {
                    year: 1970,
                    month: 1,
                    day: 1,
                }.number()) * 86_400 + hour * 3600 + min * 60 + sec) as i64,
            },
{
    lemma_day_numbered(date);
    lemma_calendar_ends(date);
    if time is Skipped && shown_on_day(date.number(), hour, min, sec, Some(time)) {
        assert(call_ensures(shown_at, (date, hour, min, sec), Some(time)));
    }
}

/// The answer about a day of the calendar is that of the time zone about that day, at that time.
proof fn lemma_shown_on_day(
    date: Date,
    hour: u32,
    min: u32,
    sec: u32,
    shown: Option<WallTime>,
)
    requires
        date.valid(),
    ensures
        shown_on_day(date.number(), hour, min, sec, shown) <==> call_ensures(
            shown_at,
            (date, hour, min, sec),
            shown,
        ),
{
    lemma_day_numbered(date);
    lemma_calendar_ends(date);
}

/// What the clock shows comes from a reading: the whole seconds that have passed since the start of
/// Unix time, or nothing exactly if the reading comes before that.
proof fn lemma_shown_by_clock(clock: Option<u64>) -> (taken: (
    SystemTime,
    Result<Duration, SystemTimeError>,
))
    requires
        shown_by_clock(clock),
    ensures
        call_ensures(SystemTime::now, (), taken.0),
        call_ensures(since_epoch, (taken.0,), taken.1),
        clock is None <==> taken.1 is Err,
        clock matches Some(seconds) ==> taken.1 matches Ok(elapsed) && call_ensures(
            Duration::as_secs,
            (&elapsed,),
            seconds,
        ),
{
    choose|reading: SystemTime, elapsed: Result<Duration, SystemTimeError>|
        call_ensures(SystemTime::now, (), reading) && #[trigger] call_ensures(
            since_epoch,
            (reading,),
            elapsed,
        ) && match elapsed {
            Ok(elapsed) => clock matches Some(seconds) && call_ensures(
                Duration::as_secs,
                (&elapsed,),
                seconds,
            ),
            Err(_) => clock is None,
        }
}

} // verus!
