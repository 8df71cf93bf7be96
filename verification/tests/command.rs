use chrono::{Days, Local, TimeZone};
use usage_report::args::{read_args, ArgStop, UsageArgs};
use usage_report::command::{
    handle_repo_reply, handle_stats, handle_usage, help_text, Report, StatsQuery, UsageStep,
};
use usage_report::date::Date;
use usage_report::period::BucketGranularity;
use usage_report::repo::{RepoQuery, RepoReply};
use usage_report::stats::{
    CalendarDay, CheckpointStats, CommitStats, LocalActivityStats, RepoActivitySummary,
    SessionStats, SummaryStats, TokenStats,
};
use usage_report::terminal::{capitalize, render_report};

const HINT: &str = "Run 'git-ai usage --help' for usage.";

fn strings(args: &[&str]) -> Vec<String> {
    args.iter().map(|arg| arg.to_string()).collect()
}

fn query(args: &[&str]) -> StatsQuery {
    match handle_usage(&strings(args)) {
        UsageStep::Compute(query, _) => query,
        step => panic!("unexpected step: {step:?}"),
    }
}

/// What the command complains of.
fn complaint(args: &[&str]) -> String {
    match handle_usage(&strings(args)) {
        UsageStep::Fail(lines) => lines.join("\n"),
        step => panic!("unexpected step: {step:?}"),
    }
}

fn local_date(ts: u32) -> chrono::NaiveDate {
    Local.timestamp_opt(ts as i64, 0).unwrap().date_naive()
}

/// A fixed subtraction of seconds lands on the same wall-clock time some days back, so the span
/// is that many days except within an hour of midnight on a DST-transition day.
fn assert_window(query: &StatsQuery, expected_label: &str, expected_days: i64) {
    assert_eq!(query.period_label, expected_label);
    let span = (local_date(query.end_ts) - local_date(query.since_ts)).num_days();
    assert!(
        (expected_days - 1..=expected_days).contains(&span),
        "expected a {expected_days}-day window (tolerating one DST day), got span {span}"
    );
    assert_eq!((query.end_ts - query.since_ts) as i64, expected_days * 86_400);
}

#[test]
fn usage_period_valid_tokens_report_their_label_and_window() {
    let cases = [
        ("1d", "last 24 hours", 1),
        ("3d", "last 3 days", 3),
        ("7d", "last 7 days", 7),
        ("30d", "last 30 days", 30),
    ];

    for (token, expected_label, expected_days) in cases {
        assert_window(&query(&["--period", token]), expected_label, expected_days);
    }
}

#[test]
fn usage_period_accepts_the_equals_form() {
    assert_window(&query(&["--period=3d"]), "last 3 days", 3);
}

#[test]
fn usage_without_period_defaults_to_thirty_day_window() {
    let query = query(&[]);
    assert_window(&query, "last 30 days", 30);
    assert_eq!(query.granularity, BucketGranularity::Weekly);
    assert_eq!(query.repo_filter, None);
}

#[test]
fn usage_period_invalid_token_exits_nonzero_with_message() {
    let err = complaint(&["--period", "90d"]);
    assert!(
        err.contains(
            "Invalid --period value: 90d. Expected one of 1d, 3d, 7d, 30d, <YYYY-MM-DD>, \
             or <YYYY-MM-DD>..<YYYY-MM-DD>."
        ),
        "unexpected error output: {err}"
    );
}

#[test]
fn usage_period_accepts_a_date_range_inclusive_of_both_days() {
    let today = Local::now().date_naive();
    let yesterday = today - Days::new(1);
    let range = format!("{yesterday}..{today}");
    let query = query(&["--period", &range]);

    assert_eq!(query.period_label, range.replace("..", " to "));
    assert_eq!(local_date(query.since_ts), yesterday);
    assert_eq!(local_date(query.end_ts), today);
    assert_eq!(local_date(query.since_ts - 1), yesterday - Days::new(1));
    assert_eq!(local_date(query.end_ts + 1), today + Days::new(1));
    assert_eq!(query.granularity, BucketGranularity::Daily);
}

#[test]
fn usage_period_single_date_runs_through_today() {
    let today = Local::now().date_naive();
    let since = today - Days::new(2);
    let query = query(&["--period", &since.to_string()]);

    assert_eq!(query.period_label, format!("since {since}"));
    assert_eq!(local_date(query.since_ts), since);
    assert_eq!(local_date(query.end_ts), today);
}

#[test]
fn usage_period_rejects_malformed_dates_and_reversed_ranges() {
    for (token, expected_fragment) in [
        // Unpadded dates are not accepted.
        ("2026-9-1", "Invalid --period value: 2026-9-1."),
        // Garbage in either slot of a range.
        (
            "2026-09-01..garbage",
            "Invalid --period value: 2026-09-01..garbage.",
        ),
        // The end date must not precede the start date.
        (
            "2026-09-11..2026-09-01",
            "Invalid --period value: 2026-09-11..2026-09-01. The end date must not precede the start date.",
        ),
    ] {
        let err = complaint(&["--period", token]);
        assert!(
            err.contains(expected_fragment),
            "expected {expected_fragment:?} for {token:?}, got:\n{err}"
        );
    }
}

#[test]
fn usage_period_excludes_activity_outside_the_range() {
    let today = Local::now().date_naive();
    let start = today - Days::new(3);
    let end = today - Days::new(2);
    let range = format!("{start}..{end}");
    let query = query(&["--period", &range, "--json"]);
    assert!((query.end_ts as i64) < Local::now().timestamp());
    assert_eq!(local_date(query.end_ts), end);

    // Nothing was recorded in it.
    let mut stats = busy_stats();
    stats.commits = CommitStats { total: 0, ai_lines: 0, human_lines: 0, diff_added_lines: 0 };
    stats.sessions.total = 0;
    stats.tokens.input = 0;
    stats.tokens.output = 0;
    stats.tokens.cache_read = 0;
    stats.tokens.cache_creation = 0;
    stats.checkpoints = CheckpointStats { ai_lines_added: 0, human_lines_added: 0 };
    stats.period_label = query.period_label;
    let Report::Fail(err) = handle_stats(true, Ok((stats, Vec::new()))) else {
        panic!("an inactive range should report no data");
    };
    assert!(
        err[0].contains("No activity data found"),
        "unexpected error output: {err:?}"
    );
    assert_eq!(
        err,
        vec![format!("No activity data found for the {start} to {end} window.")]
    );
}

#[test]
fn usage_period_missing_value_exits_nonzero_with_message() {
    let err = complaint(&["--period"]);
    assert!(
        err.contains("Missing value for --period."),
        "unexpected error output: {err}"
    );
}

#[test]
fn complaints_are_followed_by_a_hint() {
    for (args, reason) in [
        (vec!["--period"], "Missing value for --period."),
        (vec!["--json", "--repo"], "Missing value for --repo."),
        (vec!["--verbose"], "Unknown argument: --verbose"),
        (vec!["--jsonx"], "Unknown argument: --jsonx"),
        (vec!["-h "], "Unknown argument: -h "),
        (vec!["--repo="], "Invalid --repo value: empty string."),
        (vec!["--repo", " "], "Invalid --repo value: empty string."),
    ] {
        assert_eq!(complaint(&args), format!("{reason}\n{HINT}"));
    }
}

#[test]
fn help_is_shown_where_it_is_reached() {
    for args in [vec!["--help"], vec!["-h"], vec!["--period", "bad", "-h"], vec!["--json", "--help", "--bad"]] {
        assert_eq!(handle_usage(&strings(&args)), UsageStep::Help(help_text()));
    }
    assert_eq!(complaint(&["--bad", "--help"]), format!("Unknown argument: --bad\n{HINT}"));
    assert_eq!(help_text().len(), 15);
    assert_eq!(help_text()[0], "git-ai usage - Show local activity statistics");
    assert_eq!(
        help_text()[5],
        "  --period <1d|3d|7d|30d|DATE|DATE..DATE>  Time window (default: 30d)"
    );
}

#[test]
fn both_forms_of_an_option_mean_the_same() {
    for (apart, together) in [
        (vec!["--period", "7d", "--json"], vec!["--period=7d", "--json"]),
        (vec!["--period", ""], vec!["--period="]),
    ] {
        assert_eq!(
            read_args(&strings(&apart), 0, UsageArgs::default()),
            read_args(&strings(&together), 0, UsageArgs::default())
        );
    }
    let (asked, stop) =
        read_args(&strings(&["--json", "--period", "1d", "--period=7d"]), 0, UsageArgs::default());
    assert_eq!((asked.json, asked.period.as_str(), stop), (true, "7d", ArgStop::End));
    let (_, stop) = read_args(&strings(&["--repo", "x", "--json"]), 0, UsageArgs::default());
    assert_eq!(stop, ArgStop::Repo("x".to_string(), 2));
    let (_, stop) = read_args(&strings(&["--repo=x", "--json"]), 0, UsageArgs::default());
    assert_eq!(stop, ArgStop::Repo("x".to_string(), 1));
}

#[test]
fn reading_goes_on_after_a_repository() {
    let args = strings(&["--repo", "https://h/a", "--json", "--period=1d", "--repo=.", "--period", "3d"]);
    let UsageStep::AskRepo(query, pending) = handle_usage(&args) else {
        panic!("the first repository has to be looked up");
    };
    assert_eq!(query, RepoQuery::NormalizeUrl("https://h/a".to_string()));
    let reply = RepoReply::Normalized(Ok("https://h/A".to_string()));
    let UsageStep::AskRepo(query, pending) = handle_repo_reply(&args, pending, reply) else {
        panic!("the second repository has to be looked up");
    };
    assert_eq!(query, RepoQuery::LookUpPath(".".to_string()));
    assert_eq!(pending.asked.repo_filter, Some("https://h/A".to_string()));
    let reply = RepoReply::Address("https://h/b".to_string());
    let UsageStep::Compute(query, json) = handle_repo_reply(&args, pending, reply) else {
        panic!("all arguments are read");
    };
    assert!(json);
    assert_eq!(query.repo_filter, Some("https://h/b".to_string()));
    assert_eq!(query.period_label, "last 3 days");
}

#[test]
fn a_repository_that_is_not_found_ends_the_reading() {
    let args = strings(&["--repo=/nowhere", "--help"]);
    let UsageStep::AskRepo(_, pending) = handle_usage(&args) else {
        panic!("the repository has to be looked up");
    };
    assert_eq!(
        handle_repo_reply(&args, pending, RepoReply::NoRepository),
        UsageStep::Fail(vec![
            "No git repository found at path '/nowhere'.".to_string(),
            HINT.to_string(),
        ])
    );
}

fn busy_stats() -> LocalActivityStats {
    LocalActivityStats {
        period_label: "last 7 days".to_string(),
        commits: CommitStats { total: 3, ai_lines: 75, human_lines: 25, diff_added_lines: 100 },
        sessions: SessionStats { total: 1_600 },
        checkpoints: CheckpointStats { ai_lines_added: 80, human_lines_added: 30 },
        tokens: TokenStats {
            input: 45_000_000,
            output: 500_000,
            cache_read: 0,
            cache_creation: 0,
            cost: "~$12".to_string(),
            cost_per_line: "~$0.16".to_string(),
        },
        summary: SummaryStats {
            favorite_model: Some("model-x".to_string()),
            longest_session_secs: 11_100,
            longest_streak: 4,
            current_streak: 2,
        },
        calendar: Vec::new(),
        calendar_start: Date::new(2026, 9, 1).unwrap(),
        calendar_end: Date::new(2026, 9, 7).unwrap(),
    }
}

fn repo(url: &str, ai_lines: u32, sessions: u32, cost: Option<&str>) -> RepoActivitySummary {
    RepoActivitySummary {
        repo_url: url.to_string(),
        ai_lines,
        sessions,
        cost: cost.map(str::to_string),
    }
}

#[test]
fn a_report_has_its_parts_in_order() {
    let (gray, bold, reset) = ("\x1b[90m", "\x1b[1m", "\x1b[0m");
    let orange = "\x1b[38;5;208m";
    let repos = vec![
        repo("https://github.com/org/repo", 1_234_567, 12, Some("~$3.50")),
        repo("", 5, 1, None),
    ];
    assert_eq!(
        render_report(&busy_stats(), &repos),
        vec![
            String::new(),
            format!("  {bold}Last 7 days{reset}"),
            String::new(),
            format!(
                "  {orange}{}{gray}{}{reset}  {bold}AI{reset}  75% · {bold}Human{reset}  25%",
                "█".repeat(30),
                "░".repeat(10)
            ),
            String::new(),
            format!("  {bold}Repositories{reset}"),
            format!(
                "    {gray}github.com/org/repo  +1,234,567 lines  12 sessions  {gray}~$3.50{reset}{reset}"
            ),
            format!(
                "    {gray}unknown                      +5 lines   1 session {reset}"
            ),
            String::new(),
            format!("  {:<34}{}", "Favorite model: model-x", "Total tokens: 45.5m"),
            String::new(),
            format!("  {:<34}{}", "Sessions: 1.6k", "Longest session: 3h 5m"),
            format!("  {:<34}{}", "Token spend: ~$12", "Longest streak: 4 days"),
            format!("  {:<34}{}", "~$0.16 / committed line", "Current streak: 2 days"),
            String::new(),
        ]
    );
}

#[test]
fn a_report_without_lines_has_no_bar_and_no_cost_per_line() {
    let mut stats = busy_stats();
    stats.commits.ai_lines = 0;
    stats.commits.human_lines = 0;
    stats.summary.favorite_model = None;
    stats.calendar.push(CalendarDay { date: Date::new(2026, 9, 1).unwrap(), ai_lines: 1, spend: 0 });
    let repos = vec![repo("https://github.com/org/repo", 1, 1, None)];
    let lines = render_report(&stats, &repos);
    assert_eq!(lines[2], "");
    assert!(lines[4].contains("Activity"));
    assert_eq!(lines.len(), 3 + 7 + 7);
    assert_eq!(lines[11], format!("  {:<34}Total tokens: 45.5m", ""));
    assert_eq!(lines[15], format!("  {:<34}Current streak: 2 days", "— / committed line"));
}

#[test]
fn percentages_are_cut_to_whole_ones() {
    let (gray, bold, reset) = ("\x1b[90m", "\x1b[1m", "\x1b[0m");
    let orange = "\x1b[38;5;208m";
    for (ai, human, percent, filled) in [
        (0, 1, 0, 0),
        (1, 0, 100, 40),
        (1, 2, 33, 13),
        (2, 1, 66, 26),
        (999, 1, 99, 39),
        (u32::MAX - 1, 1, 99, 39),
    ] {
        let mut stats = busy_stats();
        stats.commits.ai_lines = ai;
        stats.commits.human_lines = human;
        assert_eq!(
            render_report(&stats, &Vec::new())[3],
            format!(
                "  {orange}{}{gray}{}{reset}  {bold}AI{reset} {percent:>3}% · {bold}Human{reset} {:>3}%",
                "█".repeat(filled),
                "░".repeat(40 - filled),
                100 - percent
            )
        );
    }
}

#[test]
fn columns_hold_names_by_their_bytes() {
    let repos = vec![repo("http://é/é", 1, 1, None), repo("ab", 1, 2, None)];
    let lines = render_report(&busy_stats(), &repos);
    let gray = "\x1b[90m";
    let reset = "\x1b[0m";
    assert_eq!(lines[6], format!("    {gray}é/é    +1 lines  1 session {reset}"));
    assert_eq!(lines[7], format!("    {gray}ab     +1 lines  2 sessions{reset}"));
}

#[test]
fn titles_are_capitalized() {
    for (s, t) in [
        ("", ""),
        ("last 30 days", "Last 30 days"),
        ("2026-09-01 to 2026-09-11", "2026-09-01 to 2026-09-11"),
        ("since 2026-09-01", "Since 2026-09-01"),
        ("été", "Été"),
        ("ßa", "SSa"),
        ("Ab", "Ab"),
    ] {
        assert_eq!(capitalize(s), t);
    }
    for c in (0..=0x2fff).filter_map(char::from_u32) {
        assert_eq!(capitalize(&c.to_string()), c.to_uppercase().to_string());
    }
}

#[test]
fn any_activity_at_all_is_reported() {
    let change: [fn(&mut LocalActivityStats); 10] = [
        |stats| stats.commits.total = 1,
        |stats| stats.commits.human_lines = 1,
        |stats| stats.commits.diff_added_lines = 1,
        |stats| stats.sessions.total = 1,
        |stats| stats.checkpoints.ai_lines_added = 1,
        |stats| stats.checkpoints.human_lines_added = 1,
        |stats| stats.tokens.input = 1,
        |stats| stats.tokens.output = 1,
        |stats| stats.tokens.cache_read = 1,
        |stats| stats.tokens.cache_creation = 1,
    ];
    for activity in change {
        let mut stats = busy_stats();
        stats.commits = CommitStats { total: 0, ai_lines: 0, human_lines: 0, diff_added_lines: 0 };
        stats.sessions.total = 0;
        stats.checkpoints = CheckpointStats { ai_lines_added: 0, human_lines_added: 0 };
        stats.tokens.input = 0;
        stats.tokens.output = 0;
        assert!(stats.is_empty());
        activity(&mut stats);
        assert!(!stats.is_empty());
        assert_eq!(handle_stats(true, Ok((stats, Vec::new()))), Report::Json);
    }
}

#[test]
fn statistics_are_shown_as_text_unless_json_is_asked_for() {
    assert_eq!(
        handle_stats(false, Ok((busy_stats(), Vec::new()))),
        Report::Text(render_report(&busy_stats(), &Vec::new()))
    );
    assert_eq!(handle_stats(true, Ok((busy_stats(), Vec::new()))), Report::Json);
    assert_eq!(
        handle_stats(true, Err("locked".to_string())),
        Report::Fail(vec!["error: locked".to_string()])
    );
}
