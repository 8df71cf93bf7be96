use chrono::{Datelike, Duration, NaiveDate};
use std::collections::HashMap;
use usage_report::date::{format_day_label, Date};
use usage_report::heatmap::render_calendar;
use usage_report::shading::render_row;
use usage_report::stats::{
    CalendarDay, CheckpointStats, CommitStats, LocalActivityStats, SessionStats, SummaryStats,
    TokenStats,
};
use usage_report::ticks::render_ticks;

const GRAY: &str = "\x1b[90m";
const BOLD: &str = "\x1b[1m";
const RESET: &str = "\x1b[0m";
const ORANGE: &str = "\x1b[38;5;208m";
const BLUE: &str = "\x1b[38;5;33m";

fn day(date: NaiveDate) -> Date {
    Date::new(date.year(), date.month(), date.day()).unwrap()
}

fn on(year: i32, month: u32, day: u32) -> NaiveDate {
    NaiveDate::from_ymd_opt(year, month, day).unwrap()
}

/// The rank of a cost: the bits of positive doubles are ordered as they are.
fn rank(cost: f64) -> u64 {
    if cost > 0.0 {
        cost.to_bits()
    } else {
        0
    }
}

fn stats(days: &[(NaiveDate, u32, f64)], start: NaiveDate, end: NaiveDate) -> LocalActivityStats {
    LocalActivityStats {
        period_label: "last 30 days".to_string(),
        commits: CommitStats { total: 0, ai_lines: 0, human_lines: 0, diff_added_lines: 0 },
        sessions: SessionStats { total: 0 },
        checkpoints: CheckpointStats { ai_lines_added: 0, human_lines_added: 0 },
        tokens: TokenStats {
            input: 0,
            output: 0,
            cache_read: 0,
            cache_creation: 0,
            cost: String::new(),
            cost_per_line: String::new(),
        },
        summary: SummaryStats {
            favorite_model: None,
            longest_session_secs: 0,
            longest_streak: 0,
            current_streak: 0,
        },
        calendar: days
            .iter()
            .map(|&(date, ai_lines, cost)| CalendarDay {
                date: day(date),
                ai_lines,
                spend: rank(cost),
            })
            .collect(),
        calendar_start: day(start),
        calendar_end: day(end),
    }
}

/// The cells of a row, by the quartiles of doubles.
fn shaded(col_val: &[f64], color: &str, sep: &str) -> String {
    let mut nz: Vec<f64> = col_val.iter().copied().filter(|&v| v > 0.0).collect();
    nz.sort_by(|a, b| a.partial_cmp(b).unwrap());
    let q = |p: f64| -> f64 {
        if nz.is_empty() {
            0.0
        } else {
            nz[(((nz.len() - 1) as f64) * p).round() as usize]
        }
    };
    let (t1, t2, t3) = (q(0.25), q(0.50), q(0.75));
    col_val
        .iter()
        .map(|&v| {
            if v <= 0.0 {
                format!("{GRAY}·{RESET}")
            } else if v <= t1 {
                format!("{color}░{RESET}")
            } else if v <= t2 {
                format!("{color}▒{RESET}")
            } else if v <= t3 {
                format!("{color}▓{RESET}")
            } else {
                format!("{color}█{RESET}")
            }
        })
        .collect::<Vec<_>>()
        .join(sep)
}

/// The strip, by a map from days to doubles.
fn mapped(days: &[(NaiveDate, u32, f64)], start: NaiveDate, end: NaiveDate) -> Vec<String> {
    if days.is_empty() {
        return Vec::new();
    }
    let lines: HashMap<NaiveDate, u32> = days.iter().map(|d| (d.0, d.1)).collect();
    let spend: HashMap<NaiveDate, f64> = days.iter().map(|d| (d.0, d.2)).collect();
    let span = ((end - start).num_days() + 1).max(1) as usize;
    let date = |i: usize| start + Duration::days(i as i64);
    let per_lines: Vec<f64> =
        (0..span).map(|i| lines.get(&date(i)).copied().unwrap_or(0) as f64).collect();
    let per_spend: Vec<f64> =
        (0..span).map(|i| spend.get(&date(i)).copied().unwrap_or(0.0)).collect();
    let has_spend = per_spend.iter().any(|&v| v > 0.0);
    let label_w = if has_spend { 7 } else { 0 };
    let max_w = 74 - label_w;
    let (cols, spaced) = if span * 2 <= max_w {
        (span, true)
    } else if span <= max_w {
        (span, false)
    } else {
        (max_w, false)
    };
    let bucket = |per_day: &[f64]| -> Vec<f64> {
        (0..cols)
            .map(|c| {
                let lo = c * span / cols;
                let hi = ((c + 1) * span / cols).max(lo + 1).min(span);
                per_day[lo..hi].iter().copied().fold(0.0, f64::max)
            })
            .collect()
    };
    let sep = if spaced { " " } else { "" };
    let cell_w = if spaced { 2 } else { 1 };
    let step = (cols / 6.min(cols).max(1)).max(1);
    let mut row = vec![' '; cols * cell_w + 8];
    let mut last_end = 0;
    for c in (0..cols).step_by(step) {
        let pos = c * cell_w;
        if pos >= last_end {
            let first = date(c * span / cols);
            let label = format!("{} {}", first.format("%b"), first.day());
            for (i, ch) in label.chars().enumerate() {
                row[pos + i] = ch;
            }
            last_end = pos + label.len() + 1;
        }
    }
    let ticks: String = row.iter().collect();
    let mut out = vec![String::new()];
    if has_spend {
        out.push(format!("  {BOLD}Activity{RESET} {GRAY}— last 30 days{RESET}"));
    } else {
        out.push(format!(
            "  {BOLD}Activity{RESET} {GRAY}— generated lines/day · last 30 days{RESET}"
        ));
    }
    out.push(String::new());
    out.push(format!("  {}{GRAY}{}{RESET}", " ".repeat(label_w), ticks.trim_end()));
    let line_row = shaded(&bucket(&per_lines), ORANGE, sep);
    if has_spend {
        out.push(format!("  {GRAY}lines  {RESET}{line_row}"));
        let spend_row = shaded(&bucket(&per_spend), BLUE, sep);
        out.push(format!("  {GRAY}spend  {RESET}{spend_row}"));
        out.push(String::new());
        out.push(format!("  {GRAY}Less ░ ▒ ▓ █ More{RESET}"));
    } else {
        out.push(format!("  {line_row}"));
        out.push(String::new());
        out.push(format!(
            "  {GRAY}Less{RESET} {ORANGE}░ ▒ ▓ █{RESET} {GRAY}More{RESET}"
        ));
    }
    out
}

#[test]
fn without_activity_there_is_no_strip() {
    let start = on(2026, 6, 1);
    assert!(render_calendar(&stats(&[], start, start)).is_empty());
}

#[test]
fn a_short_strip_has_a_cell_for_each_day() {
    let days = [
        (on(2026, 6, 10), 5, 0.0),
        (on(2026, 6, 12), 1, 0.0),
        (on(2026, 6, 12), 9, 0.0),
        (on(2026, 7, 1), 100, 1.0),
    ];
    assert_eq!(
        render_calendar(&stats(&days, on(2026, 6, 10), on(2026, 6, 13))),
        vec![
            String::new(),
            format!("  {BOLD}Activity{RESET} {GRAY}— generated lines/day · last 30 days{RESET}"),
            String::new(),
            format!("  {GRAY}Jun 10{RESET}"),
            format!(
                "  {ORANGE}░{RESET} {GRAY}·{RESET} {ORANGE}▒{RESET} {GRAY}·{RESET}"
            ),
            String::new(),
            format!("  {GRAY}Less{RESET} {ORANGE}░ ▒ ▓ █{RESET} {GRAY}More{RESET}"),
        ]
    );
}

#[test]
fn what_was_spent_has_a_row_of_its_own() {
    let days = [(on(2026, 12, 31), 5, 0.25), (on(2027, 1, 1), 0, 3.5)];
    assert_eq!(
        render_calendar(&stats(&days, on(2026, 12, 31), on(2027, 1, 1))),
        vec![
            String::new(),
            format!("  {BOLD}Activity{RESET} {GRAY}— last 30 days{RESET}"),
            String::new(),
            format!("         {GRAY}Dec 31{RESET}"),
            format!("  {GRAY}lines  {RESET}{ORANGE}░{RESET} {GRAY}·{RESET}"),
            format!("  {GRAY}spend  {RESET}{BLUE}░{RESET} {BLUE}▒{RESET}"),
            String::new(),
            format!("  {GRAY}Less ░ ▒ ▓ █ More{RESET}"),
        ]
    );
}

#[test]
fn strips_of_every_length_agree_with_maps_of_doubles() {
    let mut seed: u64 = 0x2545_f491_4f6c_dd1d;
    let mut next = || {
        seed ^= seed << 13;
        seed ^= seed >> 7;
        seed ^= seed << 17;
        seed
    };
    for span in (-3..140).chain([365, 366, 400, 1000, 7000]) {
        for spending in [false, true] {
            let bases = [on(2023, 11, 2), on(-1, 11, 2), on(0, 1, 20), on(1899, 12, 1), on(2099, 12, 1)];
            let start = bases[(next() % 5) as usize] + Duration::days((next() % 800) as i64);
            let end = start + Duration::days(span - 1);
            let mut days = Vec::new();
            for _ in 0..next() % 60 {
                let offset = next() as i64 % (span.abs() + 9);
                let cost = match (spending, next() % 5) {
                    (false, _) | (_, 0) => 0.0,
                    (_, 1) => -1.0,
                    (_, 2) => f64::NAN,
                    _ => (next() % 10_000) as f64 / 997.0,
                };
                days.push((
                    start + Duration::days(offset),
                    (next() % 300) as u32,
                    cost,
                ));
            }
            assert_eq!(
                render_calendar(&stats(&days, start, end)),
                mapped(&days, start, end),
                "{span}"
            );
        }
    }
}

#[test]
fn a_long_strip_fills_its_width() {
    let start = on(2025, 1, 1);
    let end = on(2025, 12, 31);
    let lines = render_calendar(&stats(&[(start, 1, 0.0)], start, end));
    let cells: String = lines[4]
        .replace(GRAY, "")
        .replace(ORANGE, "")
        .replace(RESET, "");
    assert_eq!(cells.trim_start().chars().count(), 74);
}

#[test]
fn shades_follow_the_quartiles_of_a_row() {
    assert_eq!(render_row(&vec![], ORANGE, " "), "");
    assert_eq!(
        render_row(&vec![0, 40, 10, 20, 30, 0], BLUE, ""),
        shaded(&[0.0, 40.0, 10.0, 20.0, 30.0, 0.0], BLUE, "")
    );
    assert_eq!(
        render_row(&vec![1, 2, 3, 4, 5], "", "")
            .replace(RESET, ""),
        "░░▒▓█"
    );
}

#[test]
fn labels_of_days_are_short() {
    let labels: Vec<String> =
        (1..=12).map(|month| format_day_label(Date::new(2026, month, 2).unwrap())).collect();
    assert_eq!(
        labels,
        vec![
            "Jan 2", "Feb 2", "Mar 2", "Apr 2", "May 2", "Jun 2", "Jul 2", "Aug 2", "Sep 2",
            "Oct 2", "Nov 2", "Dec 2",
        ]
    );
    assert_eq!(format_day_label(Date::new(2026, 6, 11).unwrap()), "Jun 11");
}

#[test]
fn dates_above_the_strip_do_not_overlap() {
    let dates: Vec<Date> =
        (0..30).map(|i| day(on(2026, 6, 11) + Duration::days(i))).collect();
    assert_eq!(
        render_ticks(&dates, true),
        "Jun 11    Jun 16    Jun 21    Jun 26    Jul 1     Jul 6"
    );
    assert_eq!(render_ticks(&dates, false), "Jun 11    Jun 21    Jul 1");
    assert_eq!(render_ticks(&dates[..1].to_vec(), false), "Jun 11");
}

#[test]
fn the_strip_does_not_depend_on_how_entries_are_kept() {
    let (start, end) = (on(2026, 1, 1), on(2026, 4, 30));
    let entries: Vec<(NaiveDate, u32, f64)> = (0..90)
        .map(|i| (start + Duration::days(i * 7 % 113), (i * i % 97) as u32, (i % 5) as f64 * 0.25))
        .collect();
    let shown = render_calendar(&stats(&entries, start, end));

    let mut reordered = entries.clone();
    reordered.reverse();
    reordered.swap(3, 40);
    assert_eq!(render_calendar(&stats(&reordered, start, end)), shown);

    let mut more = entries.clone();
    more.insert(0, (on(2025, 12, 31), 500, 9.0));
    more.insert(20, (on(2026, 5, 1), 1_000, 0.0));
    for i in 0..120 {
        let date = start + Duration::days(i);
        if entries.iter().all(|entry| entry.0 != date) {
            more.insert(5, (date, 0, 0.0));
        }
    }
    assert!(more.len() > entries.len() + 2);
    assert_eq!(render_calendar(&stats(&more, start, end)), shown);

    let tripled: Vec<_> = entries.iter().map(|&(date, n, cost)| (date, 3 * n, cost)).collect();
    assert_eq!(render_calendar(&stats(&tripled, start, end)), shown);
}
