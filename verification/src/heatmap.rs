//! The activity strip: one cell for each day of a window, shaded by how much was done on it.

use crate::date::{
    day_numbered, days_after, days_between, lemma_calendar_ends, lemma_day_numbered,
    lemma_number_bounds, lemma_number_names_day, Date,
};
use crate::shading::{lemma_row_shows_proportions, multiplied, render_row, row_text};
use crate::stats::{CalendarDay, LocalActivityStats};
use crate::style::{BLUE, BOLD, GRAY, ORANGE, RESET};
use crate::text::{repeat_char, repeated, texts, trimmed_end};
use crate::ticks::{render_ticks, tick_row};
use vstd::prelude::*;

verus! {

/// The width of the strip after its indent, on a terminal of 80 columns.
pub const MAX_W: usize = 74;

/// The width of the labels in front of the rows.
pub const LABEL_W: usize = 7;

/// What is measured of a day.
#[derive(Clone, Copy, Debug, PartialEq, Eq, Structural)]
pub enum Measure {
    Lines,
    Spend,
}

/// How a number of days is laid out in cells.
#[derive(Clone, Copy, Debug, PartialEq, Eq, Structural)]
pub struct Layout {
    /// The number of cells.
    pub cols: usize,
    /// Whether a space separates them.
    pub spaced: bool,
}

impl Layout {
    /// The width of a cell with its separator.
    pub open spec fn cell_width(self) -> int {
        if self.spaced {
            2
        } else {
            1
        }
    }

    /// The width of the whole strip.
    pub open spec fn width(self) -> int {
        self.cols * self.cell_width() - (self.cell_width() - 1)
    }
}

pub open spec fn amount(day: CalendarDay, measure: Measure) -> u64 {
    match measure {
        Measure::Lines => day.ai_lines as u64,
        Measure::Spend => day.spend,
    }
}

/// What was done on the day with a number: what its last entry says, and nothing without one.
pub open spec fn done_on(calendar: Seq<CalendarDay>, number: int, measure: Measure) -> u64
    decreases calendar.len(),
{
    if calendar.len() == 0 {
        0
    } else if calendar.last().date.number() == number {
        amount(calendar.last(), measure)
    } else {
        done_on(calendar.drop_last(), number, measure)
    }
}

/// The number of days in a window, both ends included, and at least one.
pub open spec fn span_of(stats: LocalActivityStats) -> int {
    let days = stats.calendar_end.number() - stats.calendar_start.number() + 1;
    if days < 1 {
        1
    } else {
        days
    }
}

/// What was done on each day of the window.
pub open spec fn per_day(stats: LocalActivityStats, measure: Measure) -> Seq<u64> {
    Seq::new(
        span_of(stats) as nat,
        |i: int| done_on(stats.calendar@, stats.calendar_start.number() + i, measure),
    )
}

/// Whether anything was spent in the window.
pub open spec fn has_spend(stats: LocalActivityStats) -> bool {
    exists|i: int|
        0 <= i < span_of(stats) && #[trigger] per_day(stats, Measure::Spend)[i] > 0
}

/// The width that labels take from the strip.
pub open spec fn label_width(labeled: bool) -> int {
    if labeled {
        LABEL_W as int
    } else {
        0
    }
}

/// One cell for each day where they fit, with spaces between them if those fit too; otherwise as
/// many cells as fit.
pub open spec fn layout_of(span: int, labeled: bool) -> Layout {
    let max_w = MAX_W - label_width(labeled);
    if span * 2 <= max_w {
        Layout { cols: span as usize, spaced: true }
    } else if span <= max_w {
        Layout { cols: span as usize, spaced: false }
    } else {
        Layout { cols: max_w as usize, spaced: false }
    }
}

/// The first day of a column, where `span` days share `cols` columns.
pub open spec fn first_day(c: int, span: int, cols: int) -> int {
    c * span / cols
}

/// The highest of some values, or 0 where there are none.
pub open spec fn highest(values: Seq<u64>) -> u64
    decreases values.len(),
{
    if values.len() == 0 {
        0
    } else if values.last() > highest(values.drop_last()) {
        values.last()
    } else {
        highest(values.drop_last())
    }
}

/// The highest value of the days in each column.
pub open spec fn per_column(days: Seq<u64>, cols: int) -> Seq<u64> {
    Seq::new(
        cols as nat,
        |c: int|
            highest(
                days.subrange(
                    first_day(c, days.len() as int, cols),
                    first_day(c + 1, days.len() as int, cols),
                ),
            ),
    )
}

/// Consecutive columns take consecutive days, at least one each, from the first to the last.
pub proof fn lemma_columns_share_days(c: int, span: int, cols: int)
    requires
        0 <= c < cols <= span,
    ensures
        0 <= first_day(c, span, cols) < first_day(c + 1, span, cols) <= span,
        first_day(0, span, cols) == 0,
        first_day(cols, span, cols) == span,
{
    let lo = first_day(c, span, cols);
    let hi = first_day(c + 1, span, cols);
    assert(0 <= lo < hi <= span) by (nonlinear_arith)
        requires
            0 <= c < cols <= span,
            lo == c * span / cols,
            hi == (c + 1) * span / cols,
    ;
    assert(cols * span / cols == span) by (nonlinear_arith)
        requires
            cols > 0,
    ;
    assert(0 * span / cols == 0) by (nonlinear_arith)
        requires
            cols > 0,
    ;
}

fn count_days(stats: &LocalActivityStats) -> (span: usize)
    requires
        stats.dated(),
    ensures
        span == span_of(*stats),
        1 <= span <= 300_000_000,
{
    proof {
        lemma_number_bounds(stats.calendar_start);
        lemma_number_bounds(stats.calendar_end);
    }
    let days: i64 = days_between(stats.calendar_start, stats.calendar_end) + 1;
    if days < 1 {
        1
    } else {
        days as usize
    }
}

fn amount_of(day: &CalendarDay, measure: Measure) -> (value: u64)
    ensures
        value == amount(*day, measure),
{
    match measure {
        Measure::Lines => day.ai_lines as u64,
        Measure::Spend => day.spend,
    }
}

/// What was done on each day of the window.
fn day_values(stats: &LocalActivityStats, measure: Measure) -> (values: Vec<u64>)
    requires
        stats.dated(),
    ensures
        values@ == per_day(*stats, measure),
        1 <= values@.len() <= 300_000_000,
{
    let span: usize = count_days(stats);
    let mut values: Vec<u64> = Vec::new();
    let mut i: usize = 0;
    while i < span
        invariant
            i <= span,
            values@.len() == i,
            forall|j: int| 0 <= j < i ==> values@[j] == 0,
        decreases span - i,
    {
        values.push(0);
        i += 1;
    }
    let ghost calendar = stats.calendar@;
    let ghost first = stats.calendar_start.number();
    let mut k: usize = 0;
    while k < stats.calendar.len()
        invariant
            stats.dated(),
            calendar == stats.calendar@,
            first == stats.calendar_start.number(),
            k <= calendar.len(),
            values@.len() == span <= 300_000_000,
            forall|j: int|
                0 <= j < span ==> #[trigger] values@[j] == done_on(
                    calendar.take(k as int),
                    first + j,
                    measure,
                ),
        decreases calendar.len() - k,
    {
        let day = stats.calendar[k];
        assert(stats.calendar@[k as int].date.valid());
        let offset: i64 = days_between(stats.calendar_start, day.date);
        if 0 <= offset && offset < span as i64 {
            values.set(offset as usize, amount_of(&day, measure));
        }
        assert(calendar.take(k + 1).drop_last() =~= calendar.take(k as int));
        assert(calendar.take(k + 1).last() == day);
        k += 1;
    }
    assert(calendar.take(k as int) =~= calendar);
    values
}

/// Whether any of the values is not 0.
fn any_positive(values: &Vec<u64>) -> (found: bool)
    ensures
        found == exists|i: int| 0 <= i < values@.len() && #[trigger] values@[i] > 0,
{
    let mut i: usize = 0;
    while i < values.len()
        invariant
            i <= values.len(),
            forall|j: int| 0 <= j < i ==> #[trigger] values@[j] == 0,
        decreases values.len() - i,
    {
        if values[i] > 0 {
            return true;
        }
        i += 1;
    }
    false
}

/// How a number of days is laid out in cells.
fn choose_layout(span: usize, labeled: bool) -> (layout: Layout)
    requires
        1 <= span <= 300_000_000,
    ensures
        layout == layout_of(span as int, labeled),
{
    let max_w: usize = if labeled {
        MAX_W - LABEL_W
    } else {
        MAX_W
    };
    if span * 2 <= max_w {
        Layout { cols: span, spaced: true }
    } else if span <= max_w {
        Layout { cols: span, spaced: false }
    } else {
        Layout { cols: max_w, spaced: false }
    }
}

fn first_day_of(c: usize, span: usize, cols: usize) -> (day: usize)
    requires
        c <= cols <= span <= 300_000_000,
        1 <= cols <= 100,
    ensures
        day == first_day(c as int, span as int, cols as int),
        day <= span,
{
    proof {
        if c < cols {
            lemma_columns_share_days(c as int, span as int, cols as int);
        } else {
            lemma_columns_share_days(0, span as int, cols as int);
        }
        assert(0 <= c * span <= 100 * 300_000_000) by (nonlinear_arith)
            requires
                0 <= c <= 100,
                0 <= span <= 300_000_000,
        ;
    }
    (c as u64 * span as u64 / cols as u64) as usize
}

/// The highest of the values from one position up to another.
fn highest_between(values: &Vec<u64>, from: usize, to: usize) -> (top: u64)
    requires
        from <= to <= values.len(),
    ensures
        top == highest(values@.subrange(from as int, to as int)),
{
    let mut top: u64 = 0;
    let mut i: usize = from;
    while i < to
        invariant
            from <= i <= to <= values.len(),
            top == highest(values@.subrange(from as int, i as int)),
        decreases to - i,
    {
        assert(values@.subrange(from as int, i + 1).drop_last() =~= values@.subrange(
            from as int,
            i as int,
        ));
        if values[i] > top {
            top = values[i];
        }
        i += 1;
    }
    top
}

/// The highest value of the days in each column.
fn column_values(days: &Vec<u64>, cols: usize) -> (columns: Vec<u64>)
    requires
        1 <= cols <= 100,
        cols <= days@.len() <= 300_000_000,
    ensures
        columns@ == per_column(days@, cols as int),
{
    let mut columns: Vec<u64> = Vec::new();
    let mut c: usize = 0;
    while c < cols
        invariant
            c <= cols,
            1 <= cols <= 100,
            cols <= days@.len() <= 300_000_000,
            columns@ == per_column(days@, cols as int).take(c as int),
        decreases cols - c,
    {
        proof {
            lemma_columns_share_days(c as int, days@.len() as int, cols as int);
        }
        let from: usize = first_day_of(c, days.len(), cols);
        let to: usize = first_day_of(c + 1, days.len(), cols);
        columns.push(highest_between(days, from, to));
        assert(columns@ =~= per_column(days@, cols as int).take(c + 1));
        c += 1;
    }
    assert(columns@ =~= per_column(days@, cols as int));
    columns
}

/// The strip fits its width beside the labels, and fills it where days have to share a cell.
pub proof fn lemma_strip_fits(span: int, labeled: bool)
    requires
        span >= 1,
    ensures
        1 <= layout_of(span, labeled).cols <= span,
        label_width(labeled) + layout_of(span, labeled).width() <= MAX_W,
        layout_of(span, labeled).cols < span ==> label_width(labeled) + layout_of(
            span,
            labeled,
        ).width() == MAX_W,
{
}

/// The first day of each column.
pub open spec fn column_dates(stats: LocalActivityStats, cols: int) -> Seq<Date> {
    Seq::new(
        cols as nat,
        |c: int|
            day_numbered(stats.calendar_start.number() + first_day(c, span_of(stats), cols)),
    )
}

/// What is between two cells.
pub open spec fn separator(layout: Layout) -> Seq<char> {
    if layout.spaced {
        " "@
    } else {
        ""@
    }
}

/// The cells of what was done in the window.
pub open spec fn strip(stats: LocalActivityStats, measure: Measure, color: Seq<char>) -> Seq<char> {
    let layout = layout_of(span_of(stats), has_spend(stats));
    row_text(per_column(per_day(stats, measure), layout.cols as int), color, separator(layout))
}

/// The dates above the cells.
pub open spec fn tick_text(stats: LocalActivityStats) -> Seq<char> {
    let layout = layout_of(span_of(stats), has_spend(stats));
    trimmed_end(tick_row(column_dates(stats, layout.cols as int), layout.cell_width()))
}

/// The lines of the activity strip: a title, the dates, a row of cells for the lines that AI has
/// generated and, where anything was spent, another for that, and what the shades mean. There are
/// none without activity.
pub open spec fn calendar_lines(stats: LocalActivityStats) -> Seq<Seq<char>> {
    if stats.calendar@.len() == 0 {
        seq![]
    } else if has_spend(stats) {
        seq![
            ""@,
            "  "@ + BOLD@ + "Activity"@ + RESET@ + " "@ + GRAY@ + "— "@ + stats.period_label@
                + RESET@,
            ""@,
            "  "@ + repeated(' ', LABEL_W as nat) + GRAY@ + tick_text(stats) + RESET@,
            "  "@ + GRAY@ + "lines  "@ + RESET@ + strip(stats, Measure::Lines, ORANGE@),
            "  "@ + GRAY@ + "spend  "@ + RESET@ + strip(stats, Measure::Spend, BLUE@),
            ""@,
            "  "@ + GRAY@ + "Less ░ ▒ ▓ █ More"@ + RESET@,
        ]
    } else {
        seq![
            ""@,
            "  "@ + BOLD@ + "Activity"@ + RESET@ + " "@ + GRAY@ + "— generated lines/day · "@
                + stats.period_label@ + RESET@,
            ""@,
            "  "@ + GRAY@ + tick_text(stats) + RESET@,
            "  "@ + strip(stats, Measure::Lines, ORANGE@),
            ""@,
            "  "@ + GRAY@ + "Less"@ + RESET@ + " "@ + ORANGE@ + "░ ▒ ▓ █"@ + RESET@ + " "@ + GRAY@
                + "More"@ + RESET@,
        ]
    }
}

/// The first day of each column.
fn dates_of_columns(stats: &LocalActivityStats, span: usize, cols: usize) -> (dates: Vec<Date>)
    requires
        stats.dated(),
        span == span_of(*stats),
        1 <= cols <= span <= 300_000_000,
        cols <= 100,
    ensures
        dates@ == column_dates(*stats, cols as int),
        forall|c: int| 0 <= c < cols ==> (#[trigger] dates@[c]).valid(),
{
    let mut dates: Vec<Date> = Vec::new();
    let mut c: usize = 0;
    while c < cols
        invariant
            c <= cols,
            stats.dated(),
            span == span_of(*stats),
            1 <= cols <= span <= 300_000_000,
            cols <= 100,
            dates@ == column_dates(*stats, cols as int).take(c as int),
            forall|c: int| 0 <= c < dates@.len() ==> (#[trigger] dates@[c]).valid(),
        decreases cols - c,
    {
        let offset: usize = first_day_of(c, span, cols);
        proof {
            lemma_columns_share_days(c as int, span as int, cols as int);
            lemma_calendar_ends(stats.calendar_start);
            lemma_calendar_ends(stats.calendar_end);
        }
        let date = days_after(stats.calendar_start, offset as i64);
        proof {
            lemma_day_numbered(date);
        }
        dates.push(date);
        assert(dates@ =~= column_dates(*stats, cols as int).take(c + 1));
        c += 1;
    }
    assert(dates@ =~= column_dates(*stats, cols as int));
    dates
}

/// The lines of the activity strip: generated lines per day in orange and token spend per day in
/// blue, under a line of dates, each shaded over its own distribution. The spend row is left out
/// where nothing was spent. In windows wider than the terminal, consecutive days share a column,
/// which shows the highest of them.
pub fn render_calendar(stats: &LocalActivityStats) -> (lines: Vec<String>)
    requires
        stats.dated(),
    ensures
        texts(lines@) == calendar_lines(*stats),
{
    let mut lines: Vec<String> = Vec::new();
    if stats.calendar.len() == 0 {
        assert(texts(lines@) =~= seq![]);
        return lines;
    }
    let generated = day_values(stats, Measure::Lines);
    let spent = day_values(stats, Measure::Spend);
    let spend = any_positive(&spent);
    assert(spend == has_spend(*stats));
    let span: usize = generated.len();
    let layout = choose_layout(span, spend);
    proof {
        lemma_strip_fits(span as int, spend);
    }
    let separator = if layout.spaced {
        " "
    } else {
        ""
    };
    let dates = dates_of_columns(stats, span, layout.cols);
    let ticks = render_ticks(&dates, layout.spaced);
    let label = stats.period_label.as_str();
    let generated = render_row(&column_values(&generated, layout.cols), ORANGE, separator);
    let title = "  ".to_owned().concat(BOLD).concat("Activity").concat(RESET).concat(" ").concat(
        GRAY,
    );
    lines.push("".to_owned());
    if spend {
        let spent = render_row(&column_values(&spent, layout.cols), BLUE, separator);
        let gutter = repeat_char(' ', LABEL_W);
        lines.push(title.concat("— ").concat(label).concat(RESET));
        lines.push("".to_owned());
        lines.push(
            "  ".to_owned().concat(gutter.as_str()).concat(GRAY).concat(ticks.as_str()).concat(
                RESET,
            ),
        );
        lines.push(
            "  ".to_owned().concat(GRAY).concat("lines  ").concat(RESET).concat(generated.as_str()),
        );
        lines.push(
            "  ".to_owned().concat(GRAY).concat("spend  ").concat(RESET).concat(spent.as_str()),
        );
        lines.push("".to_owned());
        // Two colors share one scale, so the legend has none.
        lines.push("  ".to_owned().concat(GRAY).concat("Less ░ ▒ ▓ █ More").concat(RESET));
    } else {
        lines.push(title.concat("— generated lines/day · ").concat(label).concat(RESET));
        lines.push("".to_owned());
        lines.push("  ".to_owned().concat(GRAY).concat(ticks.as_str()).concat(RESET));
        lines.push("  ".to_owned().concat(generated.as_str()));
        lines.push("".to_owned());
        lines.push(
            "  ".to_owned().concat(GRAY).concat("Less").concat(RESET).concat(" ").concat(
                ORANGE,
            ).concat("░ ▒ ▓ █").concat(RESET).concat(" ").concat(GRAY).concat("More").concat(RESET),
        );
    }
    assert(texts(lines@) =~= calendar_lines(*stats));
    lines
}

proof fn lemma_highest(values: Seq<u64>)
    ensures
        forall|i: int| 0 <= i < values.len() ==> #[trigger] values[i] <= highest(values),
        values.len() > 0 ==> exists|i: int|
            0 <= i < values.len() && #[trigger] values[i] == highest(values),
    decreases values.len(),
{
    if values.len() > 0 {
        let rest = values.drop_last();
        lemma_highest(rest);
        assert forall|i: int| 0 <= i < values.len() implies #[trigger] values[i] <= highest(
            values,
        ) by {
            if i < rest.len() {
                assert(values[i] == rest[i]);
            }
        }
        if values.last() > highest(rest) || rest.len() == 0 {
            assert(values[values.len() - 1] == highest(values));
        } else {
            let i = choose|i: int| 0 <= i < rest.len() && #[trigger] rest[i] == highest(rest);
            assert(values[i] == highest(values));
        }
    }
}

/// A column shows the busiest of its days.
pub proof fn lemma_column_shows_busiest_day(days: Seq<u64>, cols: int, c: int)
    requires
        0 <= c < cols <= days.len(),
    ensures
        forall|d: int|
            first_day(c, days.len() as int, cols) <= d < first_day(c + 1, days.len() as int, cols)
                ==> #[trigger] days[d] <= per_column(days, cols)[c],
        exists|d: int|
            first_day(c, days.len() as int, cols) <= d < first_day(c + 1, days.len() as int, cols)
                && #[trigger] days[d] == per_column(days, cols)[c],
{
    let from = first_day(c, days.len() as int, cols);
    let to = first_day(c + 1, days.len() as int, cols);
    lemma_columns_share_days(c, days.len() as int, cols);
    let own = days.subrange(from, to);
    lemma_highest(own);
    assert forall|d: int| from <= d < to implies #[trigger] days[d] <= per_column(days, cols)[c] by {
        assert(own[d - from] == days[d]);
    }
    let i = choose|i: int| 0 <= i < own.len() && #[trigger] own[i] == highest(own);
    assert(days[from + i] == per_column(days, cols)[c]);
}

/// Every day of the window is in a column.
pub proof fn lemma_every_day_in_column(d: int, span: int, cols: int) -> (c: int)
    requires
        0 <= d < span,
        0 < cols <= span,
    ensures
        0 <= c < cols,
        first_day(c, span, cols) <= d < first_day(c + 1, span, cols),
{
    lemma_columns_share_days(0, span, cols);
    lemma_day_in_columns_up_to(d, span, cols, cols)
}

proof fn lemma_day_in_columns_up_to(d: int, span: int, cols: int, bound: int) -> (c: int)
    requires
        0 <= d < first_day(bound, span, cols),
        0 < bound <= cols <= span,
    ensures
        0 <= c < bound,
        first_day(c, span, cols) <= d < first_day(c + 1, span, cols),
    decreases bound,
{
    lemma_columns_share_days(0, span, cols);
    if first_day(bound - 1, span, cols) <= d {
        bound - 1
    } else {
        lemma_day_in_columns_up_to(d, span, cols, bound - 1)
    }
}

/// Whether statistics are of the same window, under the same name.
pub open spec fn same_window(a: LocalActivityStats, b: LocalActivityStats) -> bool {
    &&& a.period_label@ == b.period_label@
    &&& a.calendar_start == b.calendar_start
    &&& a.calendar_end == b.calendar_end
}

/// Whether no two entries are of the same day.
pub open spec fn one_entry_a_day(calendar: Seq<CalendarDay>) -> bool {
    forall|i: int, j: int|
        0 <= i < j < calendar.len() ==> (#[trigger] calendar[i]).date != (
        #[trigger] calendar[j]).date
}

/// Whether an entry adds nothing to the strip: it is not of a day of the window, or nothing was
/// done on its day.
pub open spec fn silent(day: CalendarDay, stats: LocalActivityStats) -> bool {
    ||| day.date.number() < stats.calendar_start.number()
    ||| day.date.number() >= stats.calendar_start.number() + span_of(stats)
    ||| day.ai_lines == 0 && day.spend == 0
}

/// Where each day has one entry, that entry says what was done on it.
proof fn lemma_entry_counts(calendar: Seq<CalendarDay>, i: int, measure: Measure)
    requires
        one_entry_a_day(calendar),
        forall|j: int| 0 <= j < calendar.len() ==> (#[trigger] calendar[j]).date.valid(),
        0 <= i < calendar.len(),
    ensures
        done_on(calendar, calendar[i].date.number(), measure) == amount(calendar[i], measure),
    decreases calendar.len(),
{
    let rest = calendar.drop_last();
    if i < rest.len() {
        assert(calendar[i].date != calendar[calendar.len() - 1].date);
        if calendar.last().date.number() == calendar[i].date.number() {
            lemma_number_names_day(calendar.last().date, calendar[i].date);
        }
        assert forall|j: int| 0 <= j < rest.len() implies (#[trigger] rest[j]).date.valid() by {
            assert(rest[j] == calendar[j]);
        }
        assert(one_entry_a_day(rest)) by {
            assert forall|j: int, k: int| 0 <= j < k < rest.len() implies (#[trigger] rest[j]).date
                != (#[trigger] rest[k]).date by {
                assert(calendar[j].date != calendar[k].date);
            }
        }
        lemma_entry_counts(rest, i, measure);
        assert(rest[i] == calendar[i]);
    }
}

/// Nothing was done on a day without an entry.
proof fn lemma_no_entry(calendar: Seq<CalendarDay>, number: int, measure: Measure)
    requires
        forall|i: int| 0 <= i < calendar.len() ==> (#[trigger] calendar[i]).date.number() != number,
    ensures
        done_on(calendar, number, measure) == 0,
    decreases calendar.len(),
{
    if calendar.len() > 0 {
        let rest = calendar.drop_last();
        assert(calendar[calendar.len() - 1].date.number() != number);
        assert forall|i: int| 0 <= i < rest.len() implies (#[trigger] rest[i]).date.number()
            != number by {
            assert(rest[i] == calendar[i]);
        }
        lemma_no_entry(rest, number, measure);
    }
}

/// The strip shows what was done on each day of the window, and the lines only in proportion.
proof fn lemma_strip_by_day(a: LocalActivityStats, b: LocalActivityStats, k: nat)
    requires
        same_window(a, b),
        a.calendar@.len() > 0,
        b.calendar@.len() > 0,
        multiplied(per_day(a, Measure::Lines), k, per_day(b, Measure::Lines)),
        k >= 1,
        per_day(a, Measure::Spend) == per_day(b, Measure::Spend),
    ensures
        calendar_lines(a) == calendar_lines(b),
{
    let layout = layout_of(span_of(a), has_spend(a));
    let cols = layout.cols as int;
    let (from, to) = (per_day(a, Measure::Lines), per_day(b, Measure::Lines));
    assert(has_spend(a) == has_spend(b)) by {
        if has_spend(a) {
            let i = choose|i: int|
                0 <= i < span_of(a) && #[trigger] per_day(a, Measure::Spend)[i] > 0;
            assert(per_day(b, Measure::Spend)[i] > 0);
        }
        if has_spend(b) {
            let i = choose|i: int|
                0 <= i < span_of(b) && #[trigger] per_day(b, Measure::Spend)[i] > 0;
            assert(per_day(a, Measure::Spend)[i] > 0);
        }
    }
    assert(column_dates(a, cols) =~= column_dates(b, cols));
    lemma_strip_fits(span_of(a), has_spend(a));
    assert(multiplied(per_column(from, cols), k, per_column(to, cols))) by {
        assert forall|c: int| 0 <= c < cols implies #[trigger] per_column(to, cols)[c] == k
            * per_column(from, cols)[c] by {
            let lo = first_day(c, span_of(a), cols);
            let hi = first_day(c + 1, span_of(a), cols);
            lemma_columns_share_days(c, span_of(a), cols);
            let (x, y) = (from.subrange(lo, hi), to.subrange(lo, hi));
            assert forall|i: int| 0 <= i < x.len() implies #[trigger] y[i] == k * x[i] by {
                assert(to[lo + i] == k * from[lo + i]);
            }
            lemma_highest_multiplied(x, k, y);
        }
    }
    lemma_row_shows_proportions(
        per_column(from, cols),
        k,
        per_column(to, cols),
        ORANGE@,
        separator(layout),
    );
}

proof fn lemma_highest_multiplied(values: Seq<u64>, k: nat, products: Seq<u64>)
    requires
        multiplied(values, k, products),
        k >= 1,
    ensures
        highest(products) == k * highest(values),
    decreases values.len(),
{
    if values.len() > 0 {
        lemma_highest_multiplied(values.drop_last(), k, products.drop_last());
        let (v, w) = (values.last(), highest(values.drop_last()));
        let (p, q) = (products.last(), highest(products.drop_last()));
        assert(p == k * v);
        assert(v > w <==> p > q) by (nonlinear_arith)
            requires
                p == k * v,
                q == k * w,
                k >= 1,
        ;
    } else {
        assert(k * 0 == 0) by (nonlinear_arith);
    }
}

/// Entries that add nothing do not change the strip, wherever they stand and in whatever order
/// the entries come: it is the same with some that are of days outside the window, or of days on
/// which nothing was done, as without them.
pub proof fn lemma_silent_entries(
    a: LocalActivityStats,
    b: LocalActivityStats,
    more: Seq<CalendarDay>,
)
    requires
        a.dated(),
        b.dated(),
        same_window(a, b),
        a.calendar@.len() > 0,
        one_entry_a_day(a.calendar@),
        one_entry_a_day(b.calendar@),
        b.calendar@.to_multiset() == a.calendar@.to_multiset().add(more.to_multiset()),
        forall|i: int| 0 <= i < more.len() ==> silent(#[trigger] more[i], a),
    ensures
        calendar_lines(a) == calendar_lines(b),
{
    broadcast use vstd::multiset::group_multiset_axioms;

    let (old, new) = (a.calendar@, b.calendar@);
    old.to_multiset_ensures();
    new.to_multiset_ensures();
    more.to_multiset_ensures();
    assert(new.len() == old.len() + more.len());
    assert forall|i: int, measure: Measure| 0 <= i < span_of(a) implies #[trigger] per_day(
        a,
        measure,
    )[i] == per_day(b, measure)[i] by {
        let number = a.calendar_start.number() + i;
        if exists|j: int| 0 <= j < old.len() && #[trigger] old[j].date.number() == number {
            let j = choose|j: int| 0 <= j < old.len() && #[trigger] old[j].date.number() == number;
            assert(old.contains(old[j]));
            assert(new.to_multiset().count(old[j]) > 0);
            assert(new.contains(old[j]));
            let l = choose|l: int| 0 <= l < new.len() && new[l] == old[j];
            lemma_entry_counts(old, j, measure);
            lemma_entry_counts(new, l, measure);
        } else {
            lemma_no_entry(old, number, measure);
            if exists|l: int| 0 <= l < new.len() && #[trigger] new[l].date.number() == number {
                let l = choose|l: int|
                    0 <= l < new.len() && #[trigger] new[l].date.number() == number;
                assert(new.contains(new[l]));
                if old.contains(new[l]) {
                    let j = choose|j: int| 0 <= j < old.len() && old[j] == new[l];
                    assert(old[j].date.number() == number);
                }
                assert(old.to_multiset().count(new[l]) == 0);
                assert(new.to_multiset().count(new[l]) > 0);
                assert(more.contains(new[l]));
                let m = choose|m: int| 0 <= m < more.len() && more[m] == new[l];
                assert(silent(more[m], a));
                lemma_entry_counts(new, l, measure);
            } else {
                lemma_no_entry(new, number, measure);
            }
        }
    }
    assert(per_day(a, Measure::Lines) =~= per_day(b, Measure::Lines));
    assert(per_day(a, Measure::Spend) =~= per_day(b, Measure::Spend));
    lemma_strip_by_day(a, b, 1);
}

/// The strip does not depend on the order of the entries, where no two are of the same day.
pub proof fn lemma_order_of_entries(a: LocalActivityStats, b: LocalActivityStats)
    requires
        a.dated(),
        b.dated(),
        same_window(a, b),
        one_entry_a_day(a.calendar@),
        one_entry_a_day(b.calendar@),
        b.calendar@.to_multiset() == a.calendar@.to_multiset(),
    ensures
        calendar_lines(a) == calendar_lines(b),
{
    broadcast use vstd::multiset::group_multiset_axioms;

    a.calendar@.to_multiset_ensures();
    b.calendar@.to_multiset_ensures();
    let none = Seq::<CalendarDay>::empty();
    none.to_multiset_ensures();
    if a.calendar@.len() > 0 {
        assert(a.calendar@.to_multiset().add(none.to_multiset()) =~= a.calendar@.to_multiset());
        lemma_silent_entries(a, b, none);
    }
}

proof fn lemma_done_on_multiplied(
    a: Seq<CalendarDay>,
    k: nat,
    b: Seq<CalendarDay>,
    number: int,
)
    requires
        a.len() == b.len(),
        forall|i: int|
            0 <= i < a.len() ==> (#[trigger] b[i]).date == a[i].date && b[i].spend == a[i].spend
                && b[i].ai_lines == k * a[i].ai_lines,
    ensures
        done_on(b, number, Measure::Lines) == k * done_on(a, number, Measure::Lines),
        done_on(b, number, Measure::Spend) == done_on(a, number, Measure::Spend),
    decreases a.len(),
{
    if a.len() > 0 {
        assert(b[b.len() - 1].date == a[a.len() - 1].date);
        lemma_done_on_multiplied(a.drop_last(), k, b.drop_last(), number);
    } else {
        assert(k * 0 == 0) by (nonlinear_arith);
    }
}

/// The strip shows the lines of a day in proportion to those of others: it is the same if they are
/// multiplied alike on every day.
pub proof fn lemma_lines_in_proportion(a: LocalActivityStats, b: LocalActivityStats, k: nat)
    requires
        same_window(a, b),
        k >= 1,
        a.calendar@.len() == b.calendar@.len(),
        forall|i: int|
            0 <= i < a.calendar@.len() ==> (#[trigger] b.calendar@[i]).date == a.calendar@[i].date
                && b.calendar@[i].spend == a.calendar@[i].spend && b.calendar@[i].ai_lines == k
                * a.calendar@[i].ai_lines,
    ensures
        calendar_lines(a) == calendar_lines(b),
{
    if a.calendar@.len() > 0 {
        assert forall|i: int| 0 <= i < span_of(a) implies #[trigger] per_day(b, Measure::Lines)[i]
            == k * per_day(a, Measure::Lines)[i] by {
            lemma_done_on_multiplied(
                a.calendar@,
                k,
                b.calendar@,
                a.calendar_start.number() + i,
            );
        }
        assert forall|i: int| 0 <= i < span_of(a) implies #[trigger] per_day(b, Measure::Spend)[i]
            == per_day(a, Measure::Spend)[i] by {
            lemma_done_on_multiplied(
                a.calendar@,
                k,
                b.calendar@,
                a.calendar_start.number() + i,
            );
        }
        assert(per_day(a, Measure::Spend) =~= per_day(b, Measure::Spend));
        lemma_strip_by_day(a, b, k);
    }
}

proof fn lemma_last_entry(calendar: Seq<CalendarDay>, k: int, measure: Measure)
    requires
        0 <= k < calendar.len(),
        forall|j: int|
            k < j < calendar.len() ==> (#[trigger] calendar[j]).date.number()
                != calendar[k].date.number(),
    ensures
        done_on(calendar, calendar[k].date.number(), measure) == amount(calendar[k], measure),
    decreases calendar.len(),
{
    if k < calendar.len() - 1 {
        let rest = calendar.drop_last();
        assert(calendar[calendar.len() - 1].date.number() != calendar[k].date.number());
        assert forall|j: int| k < j < rest.len() implies (#[trigger] rest[j]).date.number()
            != rest[k].date.number() by {
            assert(rest[j] == calendar[j]);
        }
        lemma_last_entry(rest, k, measure);
    }
}

/// A day of the window counts with the lines and the spend of its entry, the last one if there are
/// several, and with nothing if there is none.
pub proof fn lemma_day_counts(stats: LocalActivityStats, i: int)
    requires
        0 <= i < span_of(stats),
    ensures
        ({
            let number = stats.calendar_start.number() + i;
            let lines = per_day(stats, Measure::Lines);
            let spend = per_day(stats, Measure::Spend);
            &&& lines.len() == span_of(stats) && spend.len() == span_of(stats)
            &&& forall|k: int|
                0 <= k < stats.calendar@.len() && (#[trigger] stats.calendar@[k]).date.number()
                    == number && (forall|j: int|
                    k < j < stats.calendar@.len() ==> (#[trigger] stats.calendar@[j]).date.number()
                        != number) ==> lines[i] == stats.calendar@[k].ai_lines && spend[i]
                    == stats.calendar@[k].spend
            &&& (forall|k: int|
                0 <= k < stats.calendar@.len() ==> (#[trigger] stats.calendar@[k]).date.number()
                    != number) ==> lines[i] == 0 && spend[i] == 0
        }),
{
    let number = stats.calendar_start.number() + i;
    let calendar = stats.calendar@;
    assert forall|k: int|
        0 <= k < calendar.len() && (#[trigger] calendar[k]).date.number() == number && (forall|
            j: int,
        |
            k < j < calendar.len() ==> (#[trigger] calendar[j]).date.number() != number) implies per_day(
        stats,
        Measure::Lines,
    )[i] == calendar[k].ai_lines && per_day(stats, Measure::Spend)[i] == calendar[k].spend by {
        lemma_last_entry(calendar, k, Measure::Lines);
        lemma_last_entry(calendar, k, Measure::Spend);
    }
    if forall|k: int|
        0 <= k < calendar.len() ==> (#[trigger] calendar[k]).date.number() != number {
        lemma_no_entry(calendar, number, Measure::Lines);
        lemma_no_entry(calendar, number, Measure::Spend);
    }
}

/// A window has a day for each from its first to its last, and one at least.
pub proof fn lemma_days_of_window(stats: LocalActivityStats)
    requires
        stats.calendar_start.valid(),
        stats.calendar_end.valid(),
    ensures
        stats.calendar_start.number() <= stats.calendar_end.number() ==> span_of(stats)
            == stats.calendar_end.number() - stats.calendar_start.number() + 1,
        stats.calendar_end.number() < stats.calendar_start.number() ==> span_of(stats) == 1,
{
}

/// Days are shared out evenly: a column begins with the day that lies as far into the window as the
/// column lies into the strip, to the whole day, so no two columns differ by more than one day.
pub proof fn lemma_even_columns(c: int, span: int, cols: int)
    requires
        0 <= c < cols <= span,
    ensures
        first_day(c, span, cols) * cols <= c * span < (first_day(c, span, cols) + 1) * cols,
        span / cols <= first_day(c + 1, span, cols) - first_day(c, span, cols) <= span / cols + 1,
{
    let lo = first_day(c, span, cols);
    let hi = first_day(c + 1, span, cols);
    let share = span / cols;
    assert(lo * cols <= c * span < (lo + 1) * cols) by (nonlinear_arith)
        requires
            lo == c * span / cols,
            0 < cols,
    ;
    assert(hi * cols <= (c + 1) * span < (hi + 1) * cols) by (nonlinear_arith)
        requires
            hi == (c + 1) * span / cols,
            0 < cols,
    ;
    assert(share * cols <= span < (share + 1) * cols) by (nonlinear_arith)
        requires
            share == span / cols,
            0 < cols,
    ;
    assert((c + 1) * span == c * span + span) by (nonlinear_arith);
    assert(share <= hi - lo <= share + 1) by (nonlinear_arith)
        requires
            lo * cols <= c * span < (lo + 1) * cols,
            hi * cols <= c * span + span < (hi + 1) * cols,
            share * cols <= span < (share + 1) * cols,
            0 < cols,
    ;
}

/// Days have a cell each as long as these fit the 74 columns of the strip, or the 67 that labels
/// leave of them, and spaces between the cells as long as those fit too.
pub proof fn lemma_layout(span: int, labeled: bool)
    requires
        1 <= span,
    ensures
        ({
            let layout = layout_of(span, labeled);
            let room: int = if labeled {
                67
            } else {
                74
            };
            &&& layout.spaced <==> 2 * span <= room
            &&& layout.cols == if span <= room {
                span
            } else {
                room
            }
        }),
{
}

/// There is a row for spend exactly if anything was spent on a day of the window.
pub proof fn lemma_spend_row(stats: LocalActivityStats, k: int)
    requires
        stats.dated(),
        one_entry_a_day(stats.calendar@),
        0 <= k < stats.calendar@.len(),
    ensures
        ({
            let day = stats.calendar@[k];
            let offset = day.date.number() - stats.calendar_start.number();
            0 <= offset < span_of(stats) && day.spend > 0
        }) ==> has_spend(stats),
        (forall|j: int| 0 <= j < stats.calendar@.len() ==> (#[trigger] stats.calendar@[j]).spend == 0)
            ==> !has_spend(stats),
        has_spend(stats) ==> exists|j: int|
            0 <= j < stats.calendar@.len() && (#[trigger] stats.calendar@[j]).spend > 0 && 0
                <= stats.calendar@[j].date.number() - stats.calendar_start.number() < span_of(stats),
{
    let calendar = stats.calendar@;
    let offset = calendar[k].date.number() - stats.calendar_start.number();
    if 0 <= offset < span_of(stats) && calendar[k].spend > 0 {
        lemma_entry_counts(calendar, k, Measure::Spend);
        assert(per_day(stats, Measure::Spend)[offset] > 0);
    }
    if has_spend(stats) {
        let i = choose|i: int|
            0 <= i < span_of(stats) && #[trigger] per_day(stats, Measure::Spend)[i] > 0;
        let number = stats.calendar_start.number() + i;
        if forall|j: int| 0 <= j < calendar.len() ==> (#[trigger] calendar[j]).date.number() != number {
            lemma_no_entry(calendar, number, Measure::Spend);
        }
        let j = choose|j: int|
            0 <= j < calendar.len() && (#[trigger] calendar[j]).date.number() == number;
        lemma_entry_counts(calendar, j, Measure::Spend);
        assert(calendar[j].spend > 0);
    }
}

/// What the strip shows: a title with the name of the window, the dates, the lines of each column
/// in orange, under those the spend in blue where there is any, and what the shades mean.
pub proof fn lemma_strip_shown(stats: LocalActivityStats)
    ensures
        stats.calendar@.len() == 0 ==> calendar_lines(stats).len() == 0,
        stats.calendar@.len() > 0 ==> ({
            let lines = calendar_lines(stats);
            let span = span_of(stats);
            let spend = has_spend(stats);
            let room: int = if spend {
                67
            } else {
                74
            };
            let cols = if span <= room {
                span
            } else {
                room
            };
            let (width, between) = if 2 * span <= room {
                (2int, " "@)
            } else {
                (1int, ""@)
            };
            let dates = Seq::new(
                cols as nat,
                |c: int| day_numbered(stats.calendar_start.number() + c * span / cols),
            );
            let row = |measure: Measure, color: Seq<char>|
                row_text(per_column(per_day(stats, measure), cols), color, between);
            let ticks = trimmed_end(tick_row(dates, width));
            &&& lines.len() == if spend {
                8nat
            } else {
                7
            }
            &&& lines[0].len() == 0 && lines[2].len() == 0
            &&& lines[lines.len() - 2].len() == 0
            &&& lines[1] == "  "@ + BOLD@ + "Activity"@ + RESET@ + " "@ + GRAY@ + (if spend {
                "— "@
            } else {
                "— generated lines/day · "@
            }) + stats.period_label@ + RESET@
            &&& lines[3] == "  "@ + repeated(
                ' ',
                if spend {
                    7
                } else {
                    0
                },
            ) + GRAY@ + ticks + RESET@
            &&& spend ==> lines[4] == "  "@ + GRAY@ + "lines  "@ + RESET@ + row(
                Measure::Lines,
                ORANGE@,
            )
            &&& spend ==> lines[5] == "  "@ + GRAY@ + "spend  "@ + RESET@ + row(
                Measure::Spend,
                BLUE@,
            )
            &&& spend ==> lines[7] == "  "@ + GRAY@ + "Less ░ ▒ ▓ █ More"@ + RESET@
            &&& !spend ==> lines[4] == "  "@ + row(Measure::Lines, ORANGE@)
            &&& !spend ==> lines[6] == "  "@ + GRAY@ + "Less"@ + RESET@ + " "@ + ORANGE@ + "░ ▒ ▓ █"@
                + RESET@ + " "@ + GRAY@ + "More"@ + RESET@
        }),
{
    reveal_strlit("");
    if stats.calendar@.len() > 0 {
        let span = span_of(stats);
        let spend = has_spend(stats);
        lemma_layout(span, spend);
        let layout = layout_of(span, spend);
        let cols = layout.cols as int;
        let dates = Seq::new(
            cols as nat,
            |c: int| day_numbered(stats.calendar_start.number() + c * span / cols),
        );
        assert(dates =~= column_dates(stats, cols));
        if !spend {
            assert("  "@ + repeated(' ', 0) + GRAY@ =~= "  "@ + GRAY@);
        }
    }
}

/// There is a row for spend exactly if a day of the window counts with any.
pub proof fn lemma_spend_by_day(stats: LocalActivityStats)
    ensures
        has_spend(stats) <==> exists|i: int|
            0 <= i < per_day(stats, Measure::Spend).len() && #[trigger] per_day(
                stats,
                Measure::Spend,
            )[i] > 0,
{
    if has_spend(stats) {
        let i = choose|i: int|
            0 <= i < span_of(stats) && #[trigger] per_day(stats, Measure::Spend)[i] > 0;
        assert(0 <= i < per_day(stats, Measure::Spend).len());
    }
}

} // verus!
