//! What holds of the results of calls: of one, or of two together.

use crate::args::{
    lemma_json_asked, lemma_json_asked_by_option, lemma_reading_keeps, read_args, ArgStop,
    UsageArgs, UsageArgsView,
};
use crate::clock::{
    across_gap, lemma_read_across, on_local_clocks, shown_by_clock, wall_seconds, WallTime,
};
use crate::command::{
    follows, handle_repo_reply, handle_stats, handle_usage, lemma_asked_is_done,
    lemma_refused_without_activity, PendingRepo, Report, UsageStep,
};
use crate::date::{
    format_day_label, iso_text, lemma_day_label, lemma_days_of_months,
    lemma_numbers_follow_calendar, month_name, Date,
};
use crate::heatmap::{
    has_spend, lemma_lines_in_proportion, lemma_order_of_entries, lemma_silent_entries,
    lemma_strip_shown, one_entry_a_day, render_calendar, same_window, silent,
};
use crate::numbers::{
    digits_value, format_count_short, format_duration, format_num, format_num_u64,
    lemma_decimal_reads_back, lemma_duration_reads_back, lemma_grouped_number,
    lemma_short_count_close, lemma_short_counts_grow, number_of, tenths_meant, unit_for,
};
use crate::period::{
    bounds_local, bounds_plausible, date_to_ts, earliest_timestamp, lemma_accepted_tokens,
    lemma_date_of, lemma_earliest_bounds, lemma_refused_tokens, lemma_window_ends_now,
    lemma_window_named, parse_date, resolve_period, resolve_window, window_at, window_of,
    window_view, BucketGranularity, PeriodSpec, DEFAULT_PERIOD,
};
use crate::repo::{
    lemma_asked_about, lemma_found_is_selected, lemma_protocols_stripped, repo_query,
    resolve_repo_filter, strip_protocol, RepoQuery, RepoReply,
};
use crate::shading::{lemma_cells_by_counting, render_row};
use crate::stats::{CalendarDay, LocalActivityStats, RepoActivitySummary};
use crate::style::{BOLD, GRAY, ORANGE, RESET};
use crate::terminal::{
    capitalize, lemma_capitalized, lemma_report_parts, lemma_split_shown, lemma_summary_shows,
    render_report, shows_cells,
};
use crate::text::{
    begins_with, decimal, is_white_space, joined, lemma_trimmed, padded_left, repeated, texts, trim,
    trimmed,
};
use vstd::prelude::*;

verus! {

/// The text of a duration gives its whole minutes in days, hours and minutes.
pub proof fn duration_reads_back(secs: u32, s: String)
    requires
        call_ensures(format_duration, (secs,), s),
    ensures
        1440 * number_of(s@, 'd') + 60 * number_of(s@, 'h') + number_of(s@, 'm') == secs / 60,
        number_of(s@, 'h') < 24,
        number_of(s@, 'm') < 60,
{
    lemma_duration_reads_back(secs as nat);
}

/// The text of a count stands for it to the nearest tenth of its unit, or little more beyond 2^53,
/// and that of a larger count for no less.
pub proof fn counts_in_order(n: u64, s: String, m: u64, t: String)
    requires
        call_ensures(format_count_short, (n,), s),
        call_ensures(format_count_short, (m,), t),
        n <= m,
    ensures
        tenths_meant(s@) <= tenths_meant(t@),
        n < 0x20_0000_0000_0000 ==> -unit_for(n as nat) <= 2 * (tenths_meant(s@) - 10 * n)
            <= unit_for(n as nat),
        -51 * unit_for(n as nat) <= 100 * (tenths_meant(s@) - 10 * n) <= 51 * unit_for(n as nat),
{
    lemma_short_counts_grow(n as nat, m as nat);
    lemma_short_count_close(n as nat);
}

/// The text of a number gives it back without its commas, which stand before every third digit from
/// the right.
pub proof fn numbers_read_back(n: u64, s: String)
    requires
        call_ensures(format_num_u64, (n,), s),
    ensures
        digits_value(s@.filter(|c: char| c != ',')) == n,
        forall|i: int|
            0 <= i < s@.len() ==> (#[trigger] s@[i] == ',' <==> (s@.len() - i) % 4 == 0),
{
    lemma_grouped_number(n as nat);
    lemma_decimal_reads_back(n as nat);
}

/// Numbers of both sizes are written alike.
pub proof fn numbers_alike(n: u32, s: String, t: String)
    requires
        call_ensures(format_num, (n,), s),
        call_ensures(format_num_u64, (n as u64,), t),
    ensures
        s@ == t@,
{
}

/// A row has a cell for each value: a gray dot for 0, and for others one of four blocks in the color
/// of the row, the darker the more of its values are lower.
pub proof fn row_by_counting(
    values: Vec<u64>,
    color: &str,
    separator: &str,
    row: String,
    i: int,
) -> (shown: Seq<Seq<char>>)
    requires
        call_ensures(render_row, (&values, color, separator), row),
        0 <= i < values@.len(),
    ensures
        row@ == joined(shown, separator@),
        shown.len() == values@.len(),
        ({
            let active = values@.filter(|u: u64| u > 0).len();
            let lower = values@.filter(|u: u64| 0 < u && u < values@[i]).len();
            if values@[i] == 0 {
                shown[i] == GRAY@ + seq!['·'] + RESET@
            } else if 4 * lower <= active + 1 {
                shown[i] == color@ + seq!['░'] + RESET@
            } else if 4 * lower <= 2 * active {
                shown[i] == color@ + seq!['▒'] + RESET@
            } else if 4 * lower <= 3 * active - 1 {
                shown[i] == color@ + seq!['▓'] + RESET@
            } else {
                shown[i] == color@ + seq!['█'] + RESET@
            }
        }),
{
    lemma_cells_by_counting(values@, color@, i);
    crate::shading::cells(values@, color@)
}

/// JSON is asked for exactly if it was before or `--json` is read, the last argument included.
pub proof fn json_asked(
    args: Vec<String>,
    from: usize,
    before: UsageArgs,
    read: (UsageArgs, ArgStop),
)
    requires
        call_ensures(read_args, (&args, from, before), read),
    ensures
        before.json ==> read.0.json,
        from < args@.len() && args@[from as int]@ == "--json"@ ==> read.0.json,
        read.0.json && !before.json ==> exists|j: int|
            from <= j < args@.len() && (#[trigger] args@[j])@ == "--json"@,
        read.0@.repo_filter == before@.repo_filter,
        from >= args@.len() ==> read.1 is End && read.0@ == before@,
{
    let all = texts(args@);
    lemma_reading_keeps(all, from as int, before@);
    if from < args@.len() {
        assert(all[from as int] == args@[from as int]@);
        if args@[from as int]@ == "--json"@ {
            lemma_json_asked(all, from as int, before@);
        }
    }
    if read.0.json && !before.json {
        lemma_json_asked_by_option(all, from as int, before@);
        let j = choose|j: int| from <= j < all.len() && #[trigger] all[j] == "--json"@;
        assert(args@[j]@ == "--json"@);
    }
}

/// After `--json` the arguments are read as they would be if JSON had been asked for before.
pub proof fn json_read_on(
    args: Vec<String>,
    from: usize,
    before: UsageArgs,
    read: (UsageArgs, ArgStop),
    asked: UsageArgs,
    rest: (UsageArgs, ArgStop),
)
    requires
        call_ensures(read_args, (&args, from, before), read),
        from < args@.len(),
        from < usize::MAX,
        args@[from as int]@ == "--json"@,
        call_ensures(read_args, (&args, (from + 1) as usize, asked), rest),
        asked.json,
        asked@.period == before@.period,
        asked@.repo_filter == before@.repo_filter,
    ensures
        read.0@ == rest.0@,
        read.1@ == rest.1@,
{
    let all = texts(args@);
    assert(all[from as int] == args@[from as int]@);
    lemma_json_asked(all, from as int, before@);
}

/// Statistics are refused exactly if every count is 0, in both formats.
pub proof fn refused_without_activity(
    json: bool,
    stats: LocalActivityStats,
    repos: Vec<RepoActivitySummary>,
    report: Report,
)
    requires
        call_ensures(handle_stats, (json, Ok((stats, repos))), report),
    ensures
        report is Fail <==> {
            &&& stats.commits.total == 0
            &&& stats.commits.human_lines == 0
            &&& stats.commits.diff_added_lines == 0
            &&& stats.sessions.total == 0
            &&& stats.checkpoints.ai_lines_added == 0
            &&& stats.checkpoints.human_lines_added == 0
            &&& stats.tokens.input == 0
            &&& stats.tokens.output == 0
            &&& stats.tokens.cache_read == 0
            &&& stats.tokens.cache_creation == 0
        },
        report is Json ==> json,
        report is Text ==> !json,
{
    lemma_refused_without_activity(report, json, stats, repos);
}

/// What is shown as text is what the report of the same statistics shows.
pub proof fn text_is_report(
    stats: LocalActivityStats,
    repos: Vec<RepoActivitySummary>,
    lines: Vec<String>,
    report: Vec<String>,
)
    requires
        call_ensures(handle_stats, (false, Ok((stats, repos))), Report::Text(lines)),
        call_ensures(render_report, (&stats, &repos), report),
    ensures
        texts(lines@) == texts(report@),
{
    lemma_refused_without_activity(Report::Text(lines), false, stats, repos);
}

/// Nothing counts as activity but what is not 0.
pub proof fn empty_without_counts(stats: LocalActivityStats, empty: bool)
    requires
        call_ensures(LocalActivityStats::is_empty, (&stats,), empty),
    ensures
        empty <==> {
            &&& stats.commits.total == 0
            &&& stats.commits.human_lines == 0
            &&& stats.commits.diff_added_lines == 0
            &&& stats.sessions.total == 0
            &&& stats.checkpoints.ai_lines_added == 0
            &&& stats.checkpoints.human_lines_added == 0
            &&& stats.tokens.input == 0
            &&& stats.tokens.output == 0
            &&& stats.tokens.cache_read == 0
            &&& stats.tokens.cache_creation == 0
        },
{
}

/// The statistics of a report give the total of all tokens, the sessions, the longest of them and
/// the streaks, at its end.
pub proof fn report_shows_totals(
    stats: LocalActivityStats,
    repos: Vec<RepoActivitySummary>,
    lines: Vec<String>,
)
    requires
        call_ensures(render_report, (&stats, &repos), lines),
    ensures
        ({
            let n = lines@.len();
            let total = stats.tokens.input + stats.tokens.output + stats.tokens.cache_read
                + stats.tokens.cache_creation;
            let favorite = match stats.summary.favorite_model {
                Some(model) => "Favorite model: "@ + model@,
                None => ""@,
            };
            &&& n >= 10
            &&& shows_cells(
                lines@[n - 6]@,
                favorite,
                "Total tokens: "@ + crate::numbers::short_count(total as nat),
            )
            &&& shows_cells(
                lines@[n - 4]@,
                "Sessions: "@ + crate::numbers::short_count(stats.sessions.total as nat),
                "Longest session: "@ + crate::numbers::duration_text(
                    stats.summary.longest_session_secs as nat,
                ),
            )
            &&& shows_cells(
                lines@[n - 3]@,
                "Token spend: "@ + stats.tokens.cost@,
                "Longest streak: "@ + decimal(stats.summary.longest_streak as nat) + " days"@,
            )
            &&& shows_cells(
                lines@[n - 2]@,
                if stats.commits.ai_lines == 0 {
                    "—"@ + " / committed line"@
                } else {
                    stats.tokens.cost_per_line@ + " / committed line"@
                },
                "Current streak: "@ + decimal(stats.summary.current_streak as nat) + " days"@,
            )
        }),
{
    let report = texts(lines@);
    let n = lines@.len() as int;
    lemma_report_parts(stats, repos@);
    lemma_summary_shows(stats);
    assert(report.len() == n);
    let summary = report.skip(n - 7);
    assert(summary[1] == report[n - 6] && summary[3] == report[n - 4] && summary[4] == report[n - 3]
        && summary[5] == report[n - 2]);
    assert(report[n - 6] == lines@[n - 6]@ && report[n - 4] == lines@[n - 4]@ && report[n - 3]
        == lines@[n - 3]@ && report[n - 2] == lines@[n - 2]@);
}

/// Without arguments the statistics of the last 30 days are computed, of every repository and to be
/// shown as text; in general, in the format that is asked for.
pub proof fn command_follows_arguments(args: Vec<String>, step: UsageStep)
    requires
        call_ensures(handle_usage, (&args,), step),
    ensures
        step matches UsageStep::Compute(query, json) ==> query.repo() is None,
        step matches UsageStep::Compute(query, json) ==> (json ==> exists|j: int|
            0 <= j < args@.len() && (#[trigger] args@[j])@ == "--json"@),
        step matches UsageStep::Compute(query, json) ==> (args@.len() > 0 && args@[0]@ == "--json"@
            ==> json),
        args@.len() == 0 ==> step is Compute,
        step matches UsageStep::Fail(lines) ==> lines@.len() == 2 && lines@[1]@
            == "Run 'git-ai usage --help' for usage."@,
        args@.len() > 0 && (args@[0]@ == "--help"@ || args@[0]@ == "-h"@) ==> step is Help,
{
    let all = texts(args@);
    let before = UsageArgsView {
        json: false,
        period: DEFAULT_PERIOD@,
        repo_filter: None,
    };
    lemma_asked_is_done(step, all, 0, before);
    lemma_reading_keeps(all, 0, before);
    if args@.len() > 0 {
        assert(all[0] == args@[0]@);
        if args@[0]@ == "--json"@ {
            lemma_json_asked(all, 0, before);
        }
        if args@[0]@ == "--help"@ || args@[0]@ == "-h"@ {
            crate::args::lemma_help_asked(all, 0, before);
        }
    } else {
        crate::args::lemma_all_read(all, before);
        crate::period::lemma_rolling_tokens(30);
        reveal_strlit("30d");
        reveal_strlit("d");
        reveal_with_fuel(decimal, 2);
        assert(decimal(30) + "d"@ =~= DEFAULT_PERIOD@);
    }
    if crate::args::reading(all, 0, before).0.json {
        lemma_json_asked_by_option(all, 0, before);
        let j = choose|j: int| 0 <= j < all.len() && #[trigger] all[j] == "--json"@;
        assert(args@[j]@ == "--json"@);
    }
}

/// A repository that was found is the one that statistics are computed for, and what was asked for
/// before it stays asked for.
pub proof fn reply_followed(args: Vec<String>, pending: PendingRepo, url: String, step: UsageStep)
    requires
        call_ensures(handle_repo_reply, (&args, pending, RepoReply::Address(url)), step),
        trimmed(pending.value@).len() > 0,
    ensures
        step matches UsageStep::Compute(query, json) ==> query.repo() == Some(url@),
        step matches UsageStep::Compute(query, json) ==> (pending.asked.json ==> json),
        step matches UsageStep::AskRepo(query, next) ==> next.asked@.repo_filter == Some(url@),
{
    let all = texts(args@);
    let before = UsageArgsView { repo_filter: Some(url@), ..pending.asked@ };
    lemma_found_is_selected(pending.value@, url);
    lemma_asked_is_done(step, all, pending.next as int, before);
    lemma_reading_keeps(all, pending.next as int, before);
}

/// A repository that was not found stops the command, with a reason that names it and a hint at the
/// help.
pub proof fn missing_repo_refused(args: Vec<String>, pending: PendingRepo, step: UsageStep)
    requires
        call_ensures(handle_repo_reply, (&args, pending, RepoReply::NoRepository), step),
        trimmed(pending.value@).len() > 0,
    ensures
        step matches UsageStep::Fail(lines) && texts(lines@) == seq![
            "No git repository found at path '"@ + pending.value@ + "'."@,
            "Run 'git-ai usage --help' for usage."@,
        ],
{
    lemma_found_is_selected(pending.value@, pending.value);
}

/// A `--repo` value selects what was found about it.
pub proof fn found_is_selected(value: &str, found: String, url: Result<String, String>)
    requires
        call_ensures(resolve_repo_filter, (value, RepoReply::Normalized(Ok(found))), url)
            || call_ensures(resolve_repo_filter, (value, RepoReply::Address(found)), url),
        trimmed(value@).len() > 0,
    ensures
        url matches Ok(url) && url@ == found@,
{
    lemma_found_is_selected(value@, found);
}

/// What is asked about a `--repo` value is asked about the value without the white space around it.
/// A value of nothing else is refused.
pub proof fn repo_asked_about(value: &str, query: Result<RepoQuery, String>) -> (from: int)
    requires
        call_ensures(repo_query, (value,), query),
    ensures
        query is Err <==> forall|i: int| 0 <= i < value@.len() ==> is_white_space(#[trigger] value@[i]),
        query matches Ok(query) ==> ({
            let target = match query {
                RepoQuery::NormalizeUrl(url) => url@,
                RepoQuery::LookUpPath(path) => path@,
            };
            &&& target.len() > 0
            &&& 0 <= from && from + target.len() <= value@.len()
            &&& target == value@.subrange(from, from + target.len())
            &&& !is_white_space(target.first()) && !is_white_space(target.last())
            &&& forall|i: int| 0 <= i < from ==> is_white_space(#[trigger] value@[i])
            &&& forall|i: int|
                from + target.len() <= i < value@.len() ==> is_white_space(#[trigger] value@[i])
            &&& begins_with(target, "git@"@) ==> query is NormalizeUrl
        }),
{
    let from = lemma_trimmed(value@);
    if let Ok(query) = query {
        lemma_asked_about(value@, query);
        assert(trimmed(value@)[0] == value@[from]);
    }
    from
}

/// What is shown of an address with one protocol is what follows it.
pub proof fn protocol_stripped(url: &str, shown: &str, rest: Seq<char>)
    requires
        call_ensures(strip_protocol, (url,), shown),
        url@ == "https://"@ + rest || url@ == "http://"@ + rest || url@ == rest,
        !begins_with(rest, "https://"@),
        !begins_with(rest, "http://"@),
    ensures
        shown@ == rest,
{
    lemma_protocols_stripped(rest);
}

/// A period that is accepted is named by its token.
pub proof fn period_named(
    token: &str,
    spec: PeriodSpec,
    clock: Option<u64>,
    start: WallTime,
    end: WallTime,
    window: (u32, u32, String, BucketGranularity),
)
    requires
        call_ensures(resolve_period, (token,), Ok(spec)),
        call_ensures(window_at, (spec, clock, start, end), window),
    ensures
        spec is Since ==> window.2@ == "since "@ + token@,
        spec is Range ==> token@.len() == 22 && window.2@ == token@.take(10) + " to "@
            + token@.skip(12),
        spec matches PeriodSpec::RelativeDays(days) ==> window.2@ == if days == 1 {
            "last 24 hours"@
        } else {
            "last "@ + decimal(days as nat) + " days"@
        },
        spec matches PeriodSpec::RelativeDays(days) ==> token@ == decimal(days as nat) + "d"@,
{
    lemma_window_named(token@, spec, clock, start, end);
    lemma_accepted_tokens(token@);
}

/// A token that is refused is named in the answer.
pub proof fn refusal_named(token: &str, answer: String)
    requires
        call_ensures(resolve_period, (token,), Err::<PeriodSpec, String>(answer)),
    ensures
        answer@ == "Invalid --period value: "@ + token@
            + ". Expected one of 1d, 3d, 7d, 30d, <YYYY-MM-DD>, or <YYYY-MM-DD>..<YYYY-MM-DD>."@
            || answer@ == "Invalid --period value: "@ + token@
            + ". The end date must not precede the start date."@,
{
    lemma_refused_tokens(token@);
}

/// A window between dates runs from the earliest instant of its start to that of its end, a window
/// since a day to the present, and a rolling window from so many days before the present.
pub proof fn window_bounds(
    spec: PeriodSpec,
    seconds: u64,
    start: WallTime,
    end: WallTime,
    window: (u32, u32, String, BucketGranularity),
)
    requires
        call_ensures(window_at, (spec, Some(seconds), start, end), window),
    ensures
        spec !is Range && seconds <= u32::MAX ==> window.1 == seconds,
        spec !is RelativeDays && 0 <= start.earliest_instant() <= u32::MAX ==> window.0
            == start.earliest_instant(),
        spec is Range && 0 <= end.earliest_instant() <= u32::MAX ==> window.1
            == end.earliest_instant(),
        spec matches PeriodSpec::RelativeDays(days) ==> {
            &&& window.1 >= days * 86_400 ==> window.1 - window.0 == days * 86_400
            &&& window.1 < days * 86_400 ==> window.0 == 0
            &&& window.3 == BucketGranularity::Weekly <==> days > 7
        },
        spec !is RelativeDays ==> window.3 == BucketGranularity::Daily,
{
    lemma_earliest_bounds(spec, Some(seconds), start, end);
    if spec !is Range {
        lemma_window_ends_now(spec, seconds, start, end);
    }
    assert(window_view(window) == window_of(spec, Some(seconds), start, end));
}

/// The timestamp of a time is the earliest of its instants, or the nearest that a timestamp can
/// give: an earlier one has no later timestamp.
pub proof fn timestamps_in_order(a: WallTime, s: u32, b: WallTime, t: u32)
    requires
        call_ensures(earliest_timestamp, (a,), s),
        call_ensures(earliest_timestamp, (b,), t),
    ensures
        a.earliest_instant() <= b.earliest_instant() ==> s <= t,
        0 <= a.earliest_instant() <= u32::MAX ==> s == a.earliest_instant(),
        a.earliest_instant() < 0 ==> s == 0,
        a.earliest_instant() > u32::MAX ==> s == u32::MAX,
{
}

/// The earliest of the instants that a time stands for is one of them, and none comes before it.
pub proof fn earliest_of_instants(time: WallTime, instant: i64)
    requires
        call_ensures(WallTime::earliest, (&time,), instant),
    ensures
        match time {
            WallTime::Once(a) => instant == a,
            WallTime::Twice(a, b) => instant <= a && instant <= b && (instant == a || instant == b),
            WallTime::Skipped(a, b) => instant <= a && instant <= b && (instant == a || instant
                == b),
        },
{
}

/// The label of a day is the name of its month, a space, and its number in the month.
pub proof fn label_of_day(date: Date, label: String)
    requires
        call_ensures(format_day_label, (date,), label),
        date.valid(),
    ensures
        label@.len() >= 5,
        label@.take(3) == month_name(date.month as int),
        label@[3] == ' ',
        digits_value(label@.skip(4)) == date.day,
{
    lemma_day_label(date);
    lemma_decimal_reads_back(date.day as nat);
}

/// A day is made of parts that name one, and of no others.
pub proof fn days_made(year: i32, month: u32, day: u32, date: Option<Date>)
    requires
        call_ensures(Date::new, (year, month, day), date),
    ensures
        date matches Some(date) ==> date.year == year && date.month == month && date.day == day,
        -262_143 <= year <= 262_142 ==> (date is Some <==> 1 <= day && {
            ||| day <= 31 && (month == 1 || month == 3 || month == 5 || month == 7 || month == 8
                || month == 10 || month == 12)
            ||| day <= 30 && (month == 4 || month == 6 || month == 9 || month == 11)
            ||| day <= 28 && month == 2
            ||| day == 29 && month == 2 && (year % 400 == 0 || (year % 4 == 0 && year % 100 != 0))
        }),
{
    if -262_143 <= year <= 262_142 {
        lemma_days_of_months(Date { year, month, day });
    }
}

/// A title keeps all but its first character, and that too unless it is a small letter or beyond
/// ASCII.
pub proof fn title_capitalized(s: &str, t: String)
    requires
        call_ensures(capitalize, (s,), t),
        s@.len() > 0,
        (s@[0] as u32) < 128,
    ensures
        t@.len() == s@.len(),
        t@.skip(1) == s@.skip(1),
        'a' <= s@[0] <= 'z' ==> t@[0] as int == s@[0] as int - 32,
        !('a' <= s@[0] <= 'z') ==> t@ == s@,
{
    lemma_capitalized(s@);
}

/// What is cut off both ends of a text is white space, and none is left there.
pub proof fn text_trimmed(s: &str, t: String) -> (from: int)
    requires
        call_ensures(trim, (s,), t),
    ensures
        0 <= from && from + t@.len() <= s@.len(),
        t@ == s@.subrange(from, from + t@.len()),
        forall|i: int| 0 <= i < from ==> is_white_space(#[trigger] s@[i]),
        forall|i: int| from + t@.len() <= i < s@.len() ==> is_white_space(#[trigger] s@[i]),
        t@.len() > 0 ==> !is_white_space(t@.first()) && !is_white_space(t@.last()),
{
    lemma_trimmed(s@)
}

/// The strip is made of a title, dates, a row of cells for lines, another for spend where there is
/// any, and a legend, and of nothing where there are no entries.
pub proof fn strip_lines(stats: LocalActivityStats, lines: Vec<String>)
    requires
        call_ensures(render_calendar, (&stats,), lines),
    ensures
        lines@.len() == if stats.calendar@.len() == 0 {
            0nat
        } else if has_spend(stats) {
            8
        } else {
            7
        },
{
    lemma_strip_shown(stats);
    assert(texts(lines@).len() == lines@.len());
}

/// Two strips of one window are the same if their entries differ only in order.
pub proof fn strip_in_any_order(
    a: LocalActivityStats,
    shown: Vec<String>,
    b: LocalActivityStats,
    others: Vec<String>,
)
    requires
        call_ensures(render_calendar, (&a,), shown),
        call_ensures(render_calendar, (&b,), others),
        a.dated(),
        b.dated(),
        same_window(a, b),
        one_entry_a_day(a.calendar@),
        one_entry_a_day(b.calendar@),
        a.calendar@.to_multiset() == b.calendar@.to_multiset(),
    ensures
        texts(shown@) == texts(others@),
{
    lemma_order_of_entries(a, b);
}

/// Two strips of one window are the same if one has further entries that add nothing.
pub proof fn strip_without_silent_entries(
    a: LocalActivityStats,
    shown: Vec<String>,
    b: LocalActivityStats,
    others: Vec<String>,
    more: Seq<CalendarDay>,
)
    requires
        call_ensures(render_calendar, (&a,), shown),
        call_ensures(render_calendar, (&b,), others),
        a.dated(),
        b.dated(),
        same_window(a, b),
        a.calendar@.len() > 0,
        one_entry_a_day(a.calendar@),
        one_entry_a_day(b.calendar@),
        b.calendar@.to_multiset() == a.calendar@.to_multiset().add(more.to_multiset()),
        forall|i: int| 0 <= i < more.len() ==> silent(#[trigger] more[i], a),
    ensures
        texts(shown@) == texts(others@),
{
    lemma_silent_entries(a, b, more);
}

/// Two strips of one window are the same if the lines of every entry are multiplied alike.
pub proof fn strip_in_proportion(
    a: LocalActivityStats,
    shown: Vec<String>,
    b: LocalActivityStats,
    others: Vec<String>,
    k: nat,
)
    requires
        call_ensures(render_calendar, (&a,), shown),
        call_ensures(render_calendar, (&b,), others),
        same_window(a, b),
        k >= 1,
        a.calendar@.len() == b.calendar@.len(),
        forall|i: int|
            0 <= i < a.calendar@.len() ==> (#[trigger] b.calendar@[i]).date == a.calendar@[i].date
                && b.calendar@[i].spend == a.calendar@[i].spend && b.calendar@[i].ai_lines == k
                * a.calendar@[i].ai_lines,
    ensures
        texts(shown@) == texts(others@),
{
    lemma_lines_in_proportion(a, b, k);
}

/// Under its title a report gives the share of AI in whole percent, and that of humans, which makes
/// it up to a hundred.
pub proof fn report_shows_shares(
    stats: LocalActivityStats,
    repos: Vec<RepoActivitySummary>,
    lines: Vec<String>,
) -> (shares: (nat, nat))
    requires
        call_ensures(render_report, (&stats, &repos), lines),
        stats.commits.ai_lines + stats.commits.human_lines > 0,
    ensures
        ({
            let (percent, filled) = shares;
            let total = stats.commits.ai_lines + stats.commits.human_lines;
            &&& percent * total <= 100 * stats.commits.ai_lines < (percent + 1) * total
            &&& 100 * filled <= 40 * percent < 100 * (filled + 1)
            &&& lines@.len() >= 4
            &&& lines@[3]@ == "  "@ + ORANGE@ + repeated('█', filled) + GRAY@ + repeated(
                '░',
                (40 - filled) as nat,
            ) + RESET@ + "  "@ + BOLD@ + "AI"@ + RESET@ + " "@ + padded_left(decimal(percent), 3)
                + "% · "@ + BOLD@ + "Human"@ + RESET@ + " "@ + padded_left(
                decimal((100 - percent) as nat),
                3,
            ) + "%"@
        }),
{
    let report = texts(lines@);
    let (ai, human) = (stats.commits.ai_lines as int, stats.commits.human_lines as int);
    lemma_report_parts(stats, repos@);
    let shares = lemma_split_shown(ai, human);
    let split = report.subrange(3, 4);
    assert(report.len() == lines@.len());
    assert(split[0] == report[3]);
    assert(report[3] == lines@[3]@);
    shares
}

/// A day is read from its text alone.
pub proof fn dates_read_back(value: &str, date: Option<Date>, day: Date)
    requires
        call_ensures(parse_date, (value,), date),
        day.valid(),
        0 <= day.year <= 9999,
    ensures
        date == Some(day) <==> value@ == iso_text(day),
        date matches Some(named) ==> named.valid() && value@ == iso_text(named),
{
    lemma_date_of(value@, day);
}

/// One day comes before another exactly if its number is lower.
pub proof fn days_in_order(a: Date, b: Date, earlier: bool)
    requires
        call_ensures(Date::before, (&a, &b), earlier),
        a.valid(),
        b.valid(),
    ensures
        earlier <==> a.number() < b.number(),
{
    lemma_numbers_follow_calendar(a, b);
}

/// A skipped time is read by the offsets from UTC a day before and a day after.
pub proof fn gap_read(wall: i64, before: i64, after: i64, time: WallTime)
    requires
        call_ensures(
            across_gap,
            (wall, Some(WallTime::Once(before)), Some(WallTime::Once(after))),
            time,
        ),
        before <= i64::MAX - 86_400,
        i64::MIN + 86_400 <= after,
    ensures
        time matches WallTime::Skipped(x, y) && x == before + 86_400 && y == after - 86_400,
{
    lemma_read_across(wall, WallTime::Once(before), WallTime::Once(after));
}

/// The timestamp of an instant: its Unix time, or the nearest that a timestamp can give.
pub open spec fn is_timestamp(ts: u32, instant: i64) -> bool {
    if instant < 0 {
        ts == 0
    } else if instant <= u32::MAX {
        ts == instant
    } else {
        ts == u32::MAX
    }
}

/// A local time has the timestamp of the earliest instant that it stands for.
pub proof fn local_timestamp(date: Date, hour: u32, min: u32, sec: u32, ts: u32) -> (time: WallTime)
    requires
        call_ensures(date_to_ts, (date, hour, min, sec), ts),
    ensures
        on_local_clocks(date, hour, min, sec, time),
        is_timestamp(ts, time.earliest_instant()),
{
    choose|time: WallTime|
        on_local_clocks(date, hour, min, sec, time) && time.within_a_day_of(
            wall_seconds(date, hour as int, min as int, sec as int),
        ) && ts == crate::period::timestamp_of(#[trigger] time.earliest_instant() as int)
}

/// A window since a day starts with the local midnight of that day; a range does so too, and ends
/// with the last second of its last day.
pub proof fn local_window(spec: PeriodSpec, window: (u32, u32, String, BucketGranularity)) -> (bounds:
    (WallTime, WallTime))
    requires
        call_ensures(resolve_window, (spec,), window),
    ensures
        spec matches PeriodSpec::Since(first) ==> on_local_clocks(first, 0, 0, 0, bounds.0)
            && is_timestamp(window.0, bounds.0.earliest_instant()),
        spec matches PeriodSpec::Range(first, last) ==> {
            &&& on_local_clocks(first, 0, 0, 0, bounds.0)
            &&& is_timestamp(window.0, bounds.0.earliest_instant())
            &&& on_local_clocks(last, 23, 59, 59, bounds.1)
            &&& is_timestamp(window.1, bounds.1.earliest_instant())
        },
        spec !is Range ==> exists|clock: Option<u64>|
            #[trigger] shown_by_clock(clock) && window.1 == match clock {
                Some(seconds) => if seconds <= u32::MAX {
                    seconds as int
                } else {
                    u32::MAX as int
                },
                None => 0,
            },
        spec matches PeriodSpec::RelativeDays(days) ==> if window.1 <= days * 86_400 {
            window.0 == 0
        } else {
            window.1 - window.0 == days * 86_400
        },
        window.3 == BucketGranularity::Weekly <==> (spec matches PeriodSpec::RelativeDays(days)
            && days > 7),
        window.2@ == match spec {
            PeriodSpec::RelativeDays(days) => if days == 1 {
                "last 24 hours"@
            } else if days == 3 {
                "last 3 days"@
            } else if days == 7 {
                "last 7 days"@
            } else {
                "last 30 days"@
            },
            PeriodSpec::Since(first) => "since "@ + iso_text(first),
            PeriodSpec::Range(first, last) => iso_text(first) + " to "@ + iso_text(last),
        },
{
    let (clock, start, end) = choose|clock: Option<u64>, start: WallTime, end: WallTime|
        shown_by_clock(clock) && bounds_local(spec, start, end) && bounds_plausible(
            spec,
            start,
            end,
        ) && window_view(window) == #[trigger] window_of(spec, clock, start, end);
    assert(shown_by_clock(clock));
    (start, end)
}

/// What the command does first is what its arguments ask for, from the first on, if nothing but the
/// last 30 days is asked for before.
pub proof fn command_starts(args: Vec<String>, step: UsageStep)
    requires
        call_ensures(handle_usage, (&args,), step),
    ensures
        follows(
            step,
            texts(args@),
            0,
            UsageArgsView { json: false, period: "30d"@, repo_filter: None },
        ),
{
}

/// What the command does after a repository was found is what the arguments behind it ask for, in
/// addition to the repository and to what was asked for before.
pub proof fn command_goes_on(
    args: Vec<String>,
    pending: PendingRepo,
    reply: RepoReply,
    url: String,
    step: UsageStep,
)
    requires
        call_ensures(handle_repo_reply, (&args, pending, reply), step),
        trimmed(pending.value@).len() > 0,
        reply == RepoReply::Address(url) || reply == RepoReply::Normalized(Ok(url)),
    ensures
        follows(
            step,
            texts(args@),
            pending.next as int,
            UsageArgsView {
                json: pending.asked.json,
                period: pending.asked.period@,
                repo_filter: Some(url@),
            },
        ),
{
    lemma_found_is_selected(pending.value@, url);
}

/// Where no address was found, the command stops with the reason and a hint at the help.
pub proof fn unresolved_repo_refused(
    args: Vec<String>,
    pending: PendingRepo,
    reply: RepoReply,
    reason: String,
    step: UsageStep,
)
    requires
        call_ensures(handle_repo_reply, (&args, pending, reply), step),
        trimmed(pending.value@).len() > 0,
        reply is NoAddress || reply == RepoReply::Normalized(Err(reason)),
    ensures
        step matches UsageStep::Fail(lines) && texts(lines@) == seq![
            if reply is NoAddress {
                "Failed to resolve repository URL from path '"@ + pending.value@ + "'."@
            } else {
                reason@
            },
            "Run 'git-ai usage --help' for usage."@,
        ],
{
    lemma_found_is_selected(pending.value@, reason);
}

} // verus!
