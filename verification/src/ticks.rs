//! The dates above the activity strip.

use crate::date::{day_label, format_day_label, lemma_day_label_length, Date};
use crate::text::{chars_of, repeated, trim_end, trimmed_end};
use vstd::prelude::*;

verus! {

/// Room for a label at the last column.
pub const LABEL_ROOM: usize = 8;

/// The number of columns from one date to the next: about six dates share the strip.
pub open spec fn tick_step(cols: int) -> int {
    cols / if cols < 6 {
        cols
    } else {
        6
    }
}

/// The columns with a date, every `step` columns from `c` on, without those whose date would
/// start before `free`.
pub open spec fn tick_columns(
    dates: Seq<Date>,
    cell_w: int,
    step: int,
    c: int,
    free: int,
) -> Seq<int>
    decreases
            if c < dates.len() {
                dates.len() - c
            } else {
                0
            },
{
    if c >= dates.len() || step <= 0 {
        seq![]
    } else if c * cell_w >= free {
        let end = c * cell_w + day_label(dates[c]).len();
        seq![c] + tick_columns(dates, cell_w, step, c + step, end + 1)
    } else {
        tick_columns(dates, cell_w, step, c + step, free)
    }
}

/// A line of text with another written over it from a position on.
pub open spec fn written(row: Seq<char>, pos: int, label: Seq<char>) -> Seq<char> {
    Seq::new(
        row.len(),
        |i: int|
            if pos <= i < pos + label.len() {
                label[i - pos]
            } else {
                row[i]
            },
    )
}

/// A line of text with the dates of some columns written over it.
pub open spec fn with_labels(
    row: Seq<char>,
    ticks: Seq<int>,
    dates: Seq<Date>,
    cell_w: int,
) -> Seq<char>
    decreases ticks.len(),
{
    if ticks.len() == 0 {
        row
    } else {
        let c = ticks.first();
        with_labels(
            written(row, c * cell_w, day_label(dates[c])),
            ticks.drop_first(),
            dates,
            cell_w,
        )
    }
}

/// The columns with a date, of those that start with the given days.
pub open spec fn ticks_of(dates: Seq<Date>, cell_w: int) -> Seq<int> {
    tick_columns(dates, cell_w, tick_step(dates.len() as int), 0, 0)
}

/// The line of dates above the columns that start with the given days.
pub open spec fn tick_row(dates: Seq<Date>, cell_w: int) -> Seq<char> {
    let blank = repeated(' ', (dates.len() * cell_w + LABEL_ROOM) as nat);
    with_labels(blank, ticks_of(dates, cell_w), dates, cell_w)
}

/// Writes a label over a line of text.
fn write_label(row: &mut Vec<char>, pos: usize, label: &Vec<char>)
    ensures
        final(row)@ == written(old(row)@, pos as int, label@),
{
    let mut i: usize = 0;
    while i < label.len() && pos < row.len() && i < row.len() - pos
        invariant
            i <= label.len(),
            row@.len() == old(row)@.len(),
            pos + i <= row@.len() || i == 0,
            forall|j: int|
                0 <= j < row@.len() ==> #[trigger] row@[j] == if pos <= j < pos + i {
                    label@[j - pos]
                } else {
                    old(row)@[j]
                },
        decreases label.len() - i,
    {
        row.set(pos + i, label[i]);
        i += 1;
    }
    assert(row@ =~= written(old(row)@, pos as int, label@));
}

/// The line of dates above the columns that start with the given days.
pub fn render_ticks(dates: &Vec<Date>, spaced: bool) -> (line: String)
    requires
        1 <= dates@.len() <= 100,
        forall|i: int| 0 <= i < dates@.len() ==> (#[trigger] dates@[i]).valid(),
    ensures
        line@ == trimmed_end(
            tick_row(
                dates@,
                if spaced {
                    2
                } else {
                    1
                },
            ),
        ),
{
    let cell_w: usize = if spaced {
        2
    } else {
        1
    };
    let cols: usize = dates.len();
    let n_ticks: usize = if cols < 6 {
        cols
    } else {
        6
    };
    let step: usize = cols / n_ticks;
    let mut row: Vec<char> = Vec::new();
    let width: usize = cols * cell_w + LABEL_ROOM;
    let mut i: usize = 0;
    while i < width
        invariant
            i <= width,
            row@ == repeated(' ', i as nat),
        decreases width - i,
    {
        row.push(' ');
        i += 1;
    }
    let mut c: usize = 0;
    let mut free: usize = 0;
    while c < cols
        invariant
            cols == dates@.len() <= 100,
            forall|i: int| 0 <= i < dates@.len() ==> (#[trigger] dates@[i]).valid(),
            1 <= step <= cols,
            1 <= cell_w <= 2,
            c <= 200,
            with_labels(
                row@,
                tick_columns(dates@, cell_w as int, step as int, c as int, free as int),
                dates@,
                cell_w as int,
            ) == tick_row(dates@, cell_w as int),
        decreases 200 - c,
    {
        assert(c * cell_w <= 400) by (nonlinear_arith)
            requires
                0 <= c <= 200,
                1 <= cell_w <= 2,
        ;
        let pos: usize = c * cell_w;
        let ghost ticks = tick_columns(dates@, cell_w as int, step as int, c as int, free as int);
        if pos >= free {
            assert(dates@[c as int].valid());
            proof {
                lemma_day_label_length(dates@[c as int]);
            }
            let label = chars_of(format_day_label(dates[c]).as_str());
            write_label(&mut row, pos, &label);
            free = pos + label.len() + 1;
            assert(ticks.drop_first() =~= tick_columns(
                dates@,
                cell_w as int,
                step as int,
                c + step,
                free as int,
            ));
        }
        c += step;
    }
    trim_end(&row)
}

/// The position after the date of a column.
pub open spec fn label_end(dates: Seq<Date>, cell_w: int, c: int) -> int {
    c * cell_w + day_label(dates[c]).len()
}

/// Whether the dates of some columns stand apart, the first of them not before `free`.
spec fn apart(ticks: Seq<int>, dates: Seq<Date>, cell_w: int, free: int) -> bool {
    &&& forall|i: int|
        0 <= i < ticks.len() ==> 0 <= #[trigger] ticks[i] < dates.len() && ticks[i] * cell_w >= free
    &&& forall|i: int, j: int|
        0 <= i < j < ticks.len() ==> label_end(dates, cell_w, #[trigger] ticks[i]) < (
        #[trigger] ticks[j]) * cell_w
}

proof fn lemma_ticks_apart(dates: Seq<Date>, cell_w: int, step: int, c: int, free: int)
    requires
        0 <= c,
        0 < step,
        0 < cell_w,
    ensures
        apart(tick_columns(dates, cell_w, step, c, free), dates, cell_w, free),
    decreases
            if c < dates.len() {
                dates.len() - c
            } else {
                0
            },
{
    if c < dates.len() {
        if c * cell_w >= free {
            let end = label_end(dates, cell_w, c);
            let rest = tick_columns(dates, cell_w, step, c + step, end + 1);
            lemma_ticks_apart(dates, cell_w, step, c + step, end + 1);
            let ticks = tick_columns(dates, cell_w, step, c, free);
            assert(ticks.drop_first() =~= rest);
            assert forall|i: int| 0 <= i < ticks.len() implies 0 <= #[trigger] ticks[i]
                < dates.len() && ticks[i] * cell_w >= free by {
                if i > 0 {
                    assert(ticks[i] == rest[i - 1]);
                }
            }
            assert forall|i: int, j: int| 0 <= i < j < ticks.len() implies label_end(
                dates,
                cell_w,
                #[trigger] ticks[i],
            ) < (#[trigger] ticks[j]) * cell_w by {
                assert(ticks[j] == rest[j - 1]);
                if i > 0 {
                    assert(ticks[i] == rest[i - 1]);
                }
            }
        } else {
            lemma_ticks_apart(dates, cell_w, step, c + step, free);
        }
    }
}

proof fn lemma_labels_written(
    row: Seq<char>,
    ticks: Seq<int>,
    dates: Seq<Date>,
    cell_w: int,
    free: int,
)
    requires
        apart(ticks, dates, cell_w, free),
        0 <= free,
        forall|i: int|
            0 <= i < ticks.len() ==> label_end(dates, cell_w, #[trigger] ticks[i]) <= row.len(),
    ensures
        with_labels(row, ticks, dates, cell_w).len() == row.len(),
        forall|p: int|
            0 <= p < free && p < row.len() ==> #[trigger] with_labels(row, ticks, dates, cell_w)[p]
                == row[p],
        forall|i: int|
            0 <= i < ticks.len() ==> with_labels(row, ticks, dates, cell_w).subrange(
                ticks[i] * cell_w,
                label_end(dates, cell_w, #[trigger] ticks[i]),
            ) == day_label(dates[ticks[i]]),
    decreases ticks.len(),
{
    if ticks.len() > 0 {
        let c = ticks[0];
        let rest = ticks.drop_first();
        let label = day_label(dates[c]);
        let next = written(row, c * cell_w, label);
        let end = label_end(dates, cell_w, c);
        assert forall|i: int| 0 <= i < rest.len() implies 0 <= #[trigger] rest[i] < dates.len()
            && rest[i] * cell_w >= end && label_end(dates, cell_w, rest[i]) <= next.len() by {
            assert(rest[i] == ticks[i + 1]);
        }
        assert forall|i: int, j: int| 0 <= i < j < rest.len() implies label_end(
            dates,
            cell_w,
            #[trigger] rest[i],
        ) < (#[trigger] rest[j]) * cell_w by {
            assert(rest[i] == ticks[i + 1] && rest[j] == ticks[j + 1]);
        }
        lemma_labels_written(next, rest, dates, cell_w, end);
        let shown = with_labels(row, ticks, dates, cell_w);
        assert(shown == with_labels(next, rest, dates, cell_w));
        assert(shown.subrange(c * cell_w, end) =~= label);
        assert forall|i: int| 0 <= i < ticks.len() implies shown.subrange(
            ticks[i] * cell_w,
            label_end(dates, cell_w, #[trigger] ticks[i]),
        ) == day_label(dates[ticks[i]]) by {
            if i > 0 {
                assert(ticks[i] == rest[i - 1]);
            }
        }
    }
}

/// No date above the strip runs into the next: each stands in full above its column, with a space
/// at least before the one that follows.
pub proof fn lemma_dates_legible(dates: Seq<Date>, cell_w: int)
    requires
        1 <= dates.len(),
        1 <= cell_w,
        forall|i: int| 0 <= i < dates.len() ==> (#[trigger] dates[i]).valid(),
    ensures
        ticks_of(dates, cell_w).len() > 0,
        ticks_of(dates, cell_w)[0] == 0,
        forall|i: int|
            0 <= i < ticks_of(dates, cell_w).len() ==> ({
                let c = #[trigger] ticks_of(dates, cell_w)[i];
                &&& 0 <= c < dates.len()
                &&& tick_row(dates, cell_w).subrange(c * cell_w, label_end(dates, cell_w, c))
                    == day_label(dates[c])
            }),
        forall|i: int, j: int|
            0 <= i < j < ticks_of(dates, cell_w).len() ==> label_end(
                dates,
                cell_w,
                #[trigger] ticks_of(dates, cell_w)[i],
            ) < (#[trigger] ticks_of(dates, cell_w)[j]) * cell_w,
{
    let cols = dates.len() as int;
    let step = tick_step(cols);
    assert(cols / cols == 1) by (nonlinear_arith)
        requires
            cols >= 1,
    ;
    let ticks = ticks_of(dates, cell_w);
    let blank = repeated(' ', (cols * cell_w + LABEL_ROOM) as nat);
    assert(0 < cols * cell_w) by (nonlinear_arith)
        requires
            1 <= cols,
            1 <= cell_w,
    ;
    lemma_ticks_apart(dates, cell_w, step, 0, 0);
    assert forall|i: int| 0 <= i < ticks.len() implies label_end(
        dates,
        cell_w,
        #[trigger] ticks[i],
    ) <= blank.len() by {
        let c = ticks[i];
        assert(dates[c].valid());
        lemma_day_label_length(dates[c]);
        assert(c * cell_w <= cols * cell_w) by (nonlinear_arith)
            requires
                0 <= c <= cols,
                1 <= cell_w,
        ;
    }
    lemma_labels_written(blank, ticks, dates, cell_w, 0);
    assert(0 * cell_w == 0) by (nonlinear_arith);
}

/// About six dates share the strip: they stand as many columns apart as a sixth of them makes, and
/// above every column where there are fewer than six.
pub proof fn lemma_tick_step(cols: int)
    requires
        1 <= cols,
    ensures
        cols < 6 ==> tick_step(cols) == 1,
        cols >= 6 ==> 6 * tick_step(cols) <= cols < 6 * (tick_step(cols) + 1),
{
    assert(cols / cols == 1) by (nonlinear_arith)
        requires
            cols >= 1,
    ;
}

proof fn lemma_ticks_regular_from(
    dates: Seq<Date>,
    cell_w: int,
    step: int,
    c: int,
    free: int,
    k: int,
)
    requires
        0 <= c,
        0 < step,
        0 <= k,
    ensures
        ({
            let ticks = tick_columns(dates, cell_w, step, c, free);
            let m = c + k * step;
            &&& forall|i: int|
                0 <= i < ticks.len() ==> #[trigger] ticks[i] >= c && (ticks[i] - c) % step == 0
            &&& m < dates.len() ==> ticks.contains(m) || m * cell_w < free || exists|t: int|
                #[trigger] ticks.contains(t) && t < m && m * cell_w <= label_end(dates, cell_w, t)
        }),
    decreases
            if c < dates.len() {
                dates.len() - c
            } else {
                0
            },
{
    let ticks = tick_columns(dates, cell_w, step, c, free);
    let m = c + k * step;
    assert(k * step >= 0) by (nonlinear_arith)
        requires
            0 <= k,
            0 < step,
    ;
    if c < dates.len() {
        let taken = c * cell_w >= free;
        let after = if taken {
            label_end(dates, cell_w, c) + 1
        } else {
            free
        };
        let rest = tick_columns(dates, cell_w, step, c + step, after);
        let before = if k > 0 {
            k - 1
        } else {
            0
        };
        lemma_ticks_regular_from(dates, cell_w, step, c + step, after, before);
        if taken {
            assert(ticks =~= seq![c] + rest);
            assert(ticks[0] == c);
            assert(ticks.contains(c));
        } else {
            assert(ticks == rest);
        }
        assert forall|i: int| 0 <= i < ticks.len() implies #[trigger] ticks[i] >= c && (ticks[i] - c)
            % step == 0 by {
            if taken && i == 0 {
                assert(0int % step == 0) by (nonlinear_arith)
                    requires
                        0 < step,
                ;
            } else {
                let t = if taken {
                    rest[i - 1]
                } else {
                    rest[i]
                };
                assert(ticks[i] == t);
                let gap = t - (c + step);
                assert((gap + step) % step == 0) by (nonlinear_arith)
                    requires
                        gap % step == 0,
                        0 < step,
                ;
            }
        }
        if m < dates.len() {
            if k == 0 {
                assert(k * step == 0) by (nonlinear_arith)
                    requires
                        k == 0,
                ;
            } else {
                assert(c + step + (k - 1) * step == m) by (nonlinear_arith)
                    requires
                        m == c + k * step,
                ;
                assert(c < m) by (nonlinear_arith)
                    requires
                        m == c + k * step,
                        0 < k,
                        0 < step,
                ;
                assert forall|t: int| #[trigger] rest.contains(t) implies ticks.contains(t) by {
                    let i = choose|i: int| 0 <= i < rest.len() && rest[i] == t;
                    assert(ticks[if taken {
                        i + 1
                    } else {
                        i
                    }] == t);
                }
                if !rest.contains(m) && !(m * cell_w < after) {
                    let t = choose|t: int| #[trigger]
                        rest.contains(t) && t < m && m * cell_w <= label_end(dates, cell_w, t);
                    assert(ticks.contains(t));
                }
            }
        }
    }
}

/// Dates stand above every so many columns, from the first on. A date is only left out where the
/// one before has not ended by then, and a space has followed it.
pub proof fn lemma_ticks_regular(dates: Seq<Date>, cell_w: int, c: int)
    requires
        1 <= dates.len(),
        0 <= c < dates.len(),
        0 < cell_w,
    ensures
        ticks_of(dates, cell_w).contains(c) ==> c % tick_step(dates.len() as int) == 0,
        c % tick_step(dates.len() as int) == 0 && !ticks_of(dates, cell_w).contains(c) ==> exists|
            t: int,
        |
            #[trigger] ticks_of(dates, cell_w).contains(t) && t < c && c * cell_w <= label_end(
                dates,
                cell_w,
                t,
            ),
{
    let step = tick_step(dates.len() as int);
    let ticks = ticks_of(dates, cell_w);
    lemma_tick_step(dates.len() as int);
    let k = c / step;
    vstd::arithmetic::div_mod::lemma_fundamental_div_mod(c, step);
    assert(0 <= k) by (nonlinear_arith)
        requires
            k == c / step,
            0 <= c,
            0 < step,
    ;
    lemma_ticks_regular_from(dates, cell_w, step, 0, 0, k);
    if ticks.contains(c) {
        let i = choose|i: int| 0 <= i < ticks.len() && ticks[i] == c;
        assert((ticks[i] - 0) % step == 0);
    }
    if c % step == 0 {
        assert(0 + k * step == c) by (nonlinear_arith)
            requires
                c == step * k + c % step,
                c % step == 0,
        ;
        assert(c * cell_w >= 0) by (nonlinear_arith)
            requires
                0 <= c,
                0 < cell_w,
        ;
    }
}

proof fn lemma_untouched(row: Seq<char>, ticks: Seq<int>, dates: Seq<Date>, cell_w: int, p: int)
    requires
        0 <= p < row.len(),
        forall|i: int|
            0 <= i < ticks.len() ==> p < #[trigger] ticks[i] * cell_w || label_end(
                dates,
                cell_w,
                ticks[i],
            ) <= p,
    ensures
        with_labels(row, ticks, dates, cell_w).len() == row.len(),
        with_labels(row, ticks, dates, cell_w)[p] == row[p],
    decreases ticks.len(),
{
    if ticks.len() > 0 {
        let c = ticks.first();
        let next = written(row, c * cell_w, day_label(dates[c]));
        assert(p < ticks[0] * cell_w || label_end(dates, cell_w, ticks[0]) <= p);
        let rest = ticks.drop_first();
        assert forall|i: int| 0 <= i < rest.len() implies p < #[trigger] rest[i] * cell_w
            || label_end(dates, cell_w, rest[i]) <= p by {
            assert(rest[i] == ticks[i + 1]);
        }
        lemma_untouched(next, rest, dates, cell_w, p);
    }
}

/// Between the dates there is nothing but space.
pub proof fn lemma_space_between_dates(dates: Seq<Date>, cell_w: int, p: int)
    requires
        0 < cell_w,
        0 <= p < dates.len() * cell_w + 8,
        forall|i: int|
            0 <= i < ticks_of(dates, cell_w).len() ==> p < #[trigger] ticks_of(dates, cell_w)[i]
                * cell_w || label_end(dates, cell_w, ticks_of(dates, cell_w)[i]) <= p,
    ensures
        tick_row(dates, cell_w).len() == dates.len() * cell_w + 8,
        tick_row(dates, cell_w)[p] == ' ',
{
    let blank = repeated(' ', (dates.len() * cell_w + LABEL_ROOM) as nat);
    lemma_untouched(blank, ticks_of(dates, cell_w), dates, cell_w, p);
}

} // verus!
