//! The course of the command: what it does next, given its arguments and what was found out.

use crate::args::{
    lemma_json_asked, lemma_period_forms, lemma_reading_keeps, read_args, reading, ArgStop,
    ArgStopView, UsageArgs, UsageArgsView,
};
use crate::clock::{on_local_clocks, shown_by_clock, WallTime};
use crate::date::iso_text;
use crate::period::{
    bounds_local, bounds_plausible, period_of, resolve_period, resolve_window, timestamp_of,
    window_of, BucketGranularity, PeriodSpec, WindowView, DEFAULT_PERIOD,
};
use crate::repo::{
    answers, asked_about, lemma_asked_about, repo_query, resolve_repo_filter, selected_repo, RepoQuery, RepoReply,
};
use crate::stats::{LocalActivityStats, RepoActivitySummary};
use crate::terminal::{render_report, report_lines};
use crate::text::{begins_with, occurs_at, texts, trimmed};
use vstd::prelude::*;

verus! {

/// What follows a complaint about the arguments.
pub const USAGE_HINT: &'static str = "Run 'git-ai usage --help' for usage.";

/// The window and the repository that statistics are computed for.
#[derive(Debug, PartialEq, Eq)]
pub struct StatsQuery {
    pub since_ts: u32,
    pub end_ts: u32,
    pub period_label: String,
    pub granularity: BucketGranularity,
    pub repo_filter: Option<String>,
}

impl StatsQuery {
    pub open spec fn window(self) -> WindowView {
        (self.since_ts as int, self.end_ts as int, self.period_label@, self.granularity)
    }

    pub open spec fn repo(self) -> Option<Seq<char>> {
        match self.repo_filter {
            Some(url) => Some(url@),
            None => None,
        }
    }
}

/// A repository that has to be looked up before the arguments can be read on.
#[derive(Debug, PartialEq, Eq)]
pub struct PendingRepo {
    /// The value that selects it.
    pub value: String,
    /// The position of the next argument.
    pub next: usize,
    /// What the arguments have asked for so far.
    pub asked: UsageArgs,
}

/// What to do about the arguments.
#[derive(Debug, PartialEq, Eq)]
pub enum UsageStep {
    /// Show these lines and leave.
    Help(Vec<String>),
    /// Find this out, and read the arguments on with the reply.
    AskRepo(RepoQuery, PendingRepo),
    /// Compute these statistics, to show them as JSON or as text.
    Compute(StatsQuery, bool),
    /// Complain in these lines and fail.
    Fail(Vec<String>),
}

/// How to show statistics.
#[derive(Debug, PartialEq, Eq)]
pub enum Report {
    /// Show them as JSON.
    Json,
    /// Show these lines.
    Text(Vec<String>),
    /// Complain in these lines and fail.
    Fail(Vec<String>),
}

/// A complaint about the arguments.
pub open spec fn complaint(reason: Seq<char>) -> Seq<Seq<char>> {
    seq![reason, USAGE_HINT@]
}

/// Whether a step is the one to take for a period and a repository.
pub open spec fn queries(step: UsageStep, asked: UsageArgsView, spec: PeriodSpec) -> bool {
    &&& step matches UsageStep::Compute(query, json)
    &&& query.repo() == asked.repo_filter
    &&& json == asked.json
    &&& exists|clock: Option<u64>, start: WallTime, end: WallTime|
        shown_by_clock(clock) && bounds_local(spec, start, end) && bounds_plausible(
            spec,
            start,
            end,
        ) && query.window() == #[trigger] window_of(spec, clock, start, end)
}

/// Whether a step is the one to take about the arguments from a position on.
pub open spec fn follows(
    step: UsageStep,
    args: Seq<Seq<char>>,
    from: int,
    before: UsageArgsView,
) -> bool {
    let (asked, stop) = reading(args, from, before);
    match stop {
        ArgStopView::Help => step matches UsageStep::Help(lines) && texts(lines@) == help_lines(),
        ArgStopView::Refused(reason) => step matches UsageStep::Fail(lines) && texts(lines@)
            == complaint(reason),
        ArgStopView::Repo(value, next) => if trimmed(value).len() == 0 {
            step matches UsageStep::Fail(lines) && texts(lines@) == complaint(
                "Invalid --repo value: empty string."@,
            )
        } else {
            step matches UsageStep::AskRepo(query, pending) && asked_about(value, query)
                && pending.value@ == value && pending.next == next && pending.asked@ == asked
        },
        ArgStopView::End => match period_of(asked.period) {
            Ok(spec) => queries(step, asked, spec),
            Err(answer) => step matches UsageStep::Fail(lines) && texts(lines@) == complaint(
                answer,
            ),
        },
    }
}

fn complain(reason: String) -> (lines: Vec<String>)
    ensures
        texts(lines@) == complaint(reason@),
{
    let mut lines: Vec<String> = Vec::new();
    lines.push(reason);
    lines.push(USAGE_HINT.to_owned());
    assert(texts(lines@) =~= complaint(reason@));
    lines
}

/// What to do about the arguments from a position on.
fn go_on(args: &Vec<String>, from: usize, before: UsageArgs) -> (step: UsageStep)
    ensures
        follows(step, texts(args@), from as int, before@),
{
    let (asked, stop) = read_args(args, from, before);
    match stop {
        ArgStop::Help => UsageStep::Help(help_text()),
        ArgStop::Refused(reason) => UsageStep::Fail(complain(reason)),
        ArgStop::Repo(value, next) => match repo_query(value.as_str()) {
            Ok(query) => UsageStep::AskRepo(query, PendingRepo { value, next, asked }),
            Err(reason) => UsageStep::Fail(complain(reason)),
        },
        ArgStop::End => match resolve_period(asked.period.as_str()) {
            Ok(spec) => {
                let (since_ts, end_ts, period_label, granularity) = resolve_window(spec);
                UsageStep::Compute(
                    StatsQuery {
                        since_ts,
                        end_ts,
                        period_label,
                        granularity,
                        repo_filter: asked.repo_filter,
                    },
                    asked.json,
                )
            },
            Err(reason) => UsageStep::Fail(complain(reason)),
        },
    }
}

/// What the command does first with its arguments.
pub fn handle_usage(args: &Vec<String>) -> (step: UsageStep)
    ensures
        follows(
            step,
            texts(args@),
            0,
            UsageArgsView { json: false, period: DEFAULT_PERIOD@, repo_filter: None },
        ),
{
    go_on(args, 0, UsageArgs::default())
}

/// What the command does once it knows about the repository that it has asked about.
pub fn handle_repo_reply(args: &Vec<String>, pending: PendingRepo, reply: RepoReply) -> (step:
    UsageStep)
    requires
        trimmed(pending.value@).len() > 0 ==> answers(pending.value@, reply),
    ensures
        match selected_repo(pending.value@, reply) {
            Ok(url) => follows(
                step,
                texts(args@),
                pending.next as int,
                UsageArgsView { repo_filter: Some(url), ..pending.asked@ },
            ),
            Err(reason) => step matches UsageStep::Fail(lines) && texts(lines@) == complaint(
                reason,
            ),
        },
{
    let mut asked = pending.asked;
    match resolve_repo_filter(pending.value.as_str(), reply) {
        Ok(url) => {
            asked.repo_filter = Some(url);
            go_on(args, pending.next, asked)
        },
        Err(reason) => UsageStep::Fail(complain(reason)),
    }
}

/// Whether a report is the one to make of statistics, or of the reason why there are none.
pub open spec fn reports(
    report: Report,
    json: bool,
    computed: Result<(LocalActivityStats, Vec<RepoActivitySummary>), String>,
) -> bool {
    match computed {
        Err(reason) => report matches Report::Fail(lines) && texts(lines@) == seq![
            "error: "@ + reason@,
        ],
        Ok((stats, repos)) => if stats.empty() {
            report matches Report::Fail(lines) && texts(lines@) == seq![
                "No activity data found for the "@ + stats.period_label@ + " window."@,
            ]
        } else if json {
            report is Json
        } else {
            report matches Report::Text(lines) && texts(lines@) == report_lines(stats, repos@)
        },
    }
}

/// What the command does with the statistics, or with the reason why there are none.
pub fn handle_stats(
    json: bool,
    computed: Result<(LocalActivityStats, Vec<RepoActivitySummary>), String>,
) -> (report: Report)
    requires
        computed matches Ok((stats, repos)) ==> json || stats.empty() || (stats.dated()
            && stats.countable()),
    ensures
        reports(report, json, computed),
{
    match computed {
        Err(reason) => {
            let mut lines: Vec<String> = Vec::new();
            lines.push("error: ".to_owned().concat(reason.as_str()));
            assert(texts(lines@) =~= seq!["error: "@ + reason@]);
            Report::Fail(lines)
        },
        Ok((stats, repos)) => if stats.is_empty() {
            let mut lines: Vec<String> = Vec::new();
            let line = "No activity data found for the ".to_owned().concat(
                stats.period_label.as_str(),
            ).concat(" window.");
            lines.push(line);
            assert(texts(lines@) =~= seq![line@]);
            Report::Fail(lines)
        } else if json {
            Report::Json
        } else {
            Report::Text(render_report(&stats, &repos))
        },
    }
}

/// What the command says about itself.
pub open spec fn help_lines() -> Seq<Seq<char>> {
    seq![
        "git-ai usage - Show local activity statistics"@,
        ""@,
        "Usage: git-ai usage [options]"@,
        ""@,
        "Options:"@,
        "  --period <1d|3d|7d|30d|DATE|DATE..DATE>  Time window (default: 30d)"@,
        "                                     DATE is <YYYY-MM-DD>: a single date runs"@,
        "                                     from that day to now; a range is inclusive"@,
        "                                     of both days, e.g. 2026-09-01..2026-09-11"@,
        "  --repo <url|path>                 Filter to one repository"@,
        "  --json                            Output as JSON"@,
        "  --help                            Show this help"@,
        ""@,
        "Shows activity over the selected window from locally recorded metric events."@,
        "Metric rows older than approximately 365 days are pruned locally."@,
    ]
}

/// What the command says about itself.
pub fn help_text() -> (lines: Vec<String>)
    ensures
        texts(lines@) == help_lines(),
{
    let mut lines: Vec<String> = Vec::new();
    lines.push("git-ai usage - Show local activity statistics".to_owned());
    lines.push("".to_owned());
    lines.push("Usage: git-ai usage [options]".to_owned());
    lines.push("".to_owned());
    lines.push("Options:".to_owned());
    lines.push(
        "  --period <1d|3d|7d|30d|DATE|DATE..DATE>  Time window (default: 30d)".to_owned(),
    );
    lines.push(
        "                                     DATE is <YYYY-MM-DD>: a single date runs".to_owned(),
    );
    lines.push(
        "                                     from that day to now; a range is inclusive".to_owned(),
    );
    lines.push(
        "                                     of both days, e.g. 2026-09-01..2026-09-11".to_owned(),
    );
    lines.push("  --repo <url|path>                 Filter to one repository".to_owned());
    lines.push("  --json                            Output as JSON".to_owned());
    lines.push("  --help                            Show this help".to_owned());
    lines.push("".to_owned());
    lines.push(
        "Shows activity over the selected window from locally recorded metric events.".to_owned(),
    );
    lines.push("Metric rows older than approximately 365 days are pruned locally.".to_owned());
    assert(texts(lines@) =~= help_lines());
    lines
}

/// Statistics are refused exactly if every count in them is 0, and whatever format is asked for. If
/// they are not, they are shown as JSON exactly if that is asked for, and as text otherwise.
pub proof fn lemma_refused_without_activity(
    report: Report,
    json: bool,
    stats: LocalActivityStats,
    repos: Vec<RepoActivitySummary>,
)
    requires
        reports(report, json, Ok((stats, repos))),
    ensures
        report is Fail <==> {
            &&& stats.commits.total == 0
            &&& stats.commits.human_lines == 0
            &&& stats.commits.diff_added_lines == 0
            &&& stats.sessions.total == 0
            &&& stats.checkpoints.ai_lines_added == 0
            &&& stats.checkpoints.human_lines_added == 0
            &&& stats.tokens.input == 0
            &&& stats.tokens.output == 0
            &&& stats.tokens.cache_read == 0
            &&& stats.tokens.cache_creation == 0
        },
        report !is Fail ==> (report is Json <==> json),
        report matches Report::Text(lines) ==> texts(lines@) == report_lines(stats, repos@),
        report matches Report::Fail(lines) ==> texts(lines@) == seq![
            "No activity data found for the "@ + stats.period_label@ + " window."@,
        ],
{
}

/// The format that is asked for does not decide whether statistics are refused, nor what is said
/// then.
pub proof fn lemma_refused_in_both_formats(
    text: Report,
    json: Report,
    computed: Result<(LocalActivityStats, Vec<RepoActivitySummary>), String>,
)
    requires
        reports(text, false, computed),
        reports(json, true, computed),
    ensures
        text is Fail <==> json is Fail,
        text matches Report::Fail(lines) ==> json matches Report::Fail(others) && texts(lines@)
            == texts(others@),
        text !is Json,
        json !is Text,
{
}

/// Where statistics could not be computed, the reason is given, in any format.
pub proof fn lemma_reason_given(report: Report, json: bool, reason: String)
    requires
        reports(report, json, Err(reason)),
    ensures
        report matches Report::Fail(lines) && texts(lines@) == seq!["error: "@ + reason@],
{
}

/// What the arguments ask for is what is done: statistics are computed if they are read to their
/// end and name a period, in the format and for the repository that they ask for. What is refused
/// is refused with its reason, and a hint at the help.
pub proof fn lemma_asked_is_done(
    step: UsageStep,
    args: Seq<Seq<char>>,
    from: int,
    before: UsageArgsView,
)
    requires
        follows(step, args, from, before),
    ensures
        ({
            let (asked, stop) = reading(args, from, before);
            &&& step is Help <==> stop is Help
            &&& step matches UsageStep::Help(lines) ==> texts(lines@) == help_lines()
            &&& step is Compute <==> stop is End && period_of(asked.period) is Ok
            &&& step matches UsageStep::Compute(query, json) ==> json == asked.json && query.repo()
                == before.repo_filter
            &&& step is AskRepo <==> (stop matches ArgStopView::Repo(value, _) && trimmed(
                value,
            ).len() > 0)
            &&& step matches UsageStep::AskRepo(query, pending) ==> stop == ArgStopView::Repo(
                pending.value@,
                pending.next as int,
            ) && pending.asked@ == asked && match query {
                RepoQuery::NormalizeUrl(url) => url@ == trimmed(pending.value@),
                RepoQuery::LookUpPath(path) => path@ == trimmed(pending.value@),
            }
            &&& step matches UsageStep::AskRepo(query, pending) ==> (query is NormalizeUrl <==> (
            exists|i: int| occurs_at(trimmed(pending.value@), "://"@, i)) || begins_with(
                trimmed(pending.value@),
                "git@"@,
            ))
            &&& step matches UsageStep::Fail(lines) ==> lines@.len() == 2 && lines@[1]@
                == "Run 'git-ai usage --help' for usage."@
            &&& step matches UsageStep::Fail(lines) ==> (stop matches ArgStopView::Refused(reason)
                ==> lines@[0]@ == reason)
            &&& step matches UsageStep::Fail(lines) ==> (stop is Repo ==> lines@[0]@
                == "Invalid --repo value: empty string."@)
            &&& step matches UsageStep::Fail(lines) ==> (stop is End ==> period_of(asked.period)
                == Err::<PeriodSpec, Seq<char>>(lines@[0]@))
        }),
{
    lemma_reading_keeps(args, from, before);
    if let UsageStep::AskRepo(query, pending) = step {
        lemma_asked_about(pending.value@, query);
    }
    if let UsageStep::Fail(lines) = step {
        assert(texts(lines@).len() == 2);
        assert(lines@.len() == 2);
        assert(texts(lines@)[0] == lines@[0]@);
        assert(texts(lines@)[1] == lines@[1]@);
    }
}

/// `--json` makes the command do what it would do with the rest of the arguments, but in JSON, and
/// a period makes it do that for the period.
pub proof fn lemma_options_followed(
    step: UsageStep,
    args: Seq<Seq<char>>,
    from: int,
    before: UsageArgsView,
)
    requires
        0 <= from < args.len(),
    ensures
        args[from] == "--json"@ ==> (follows(step, args, from, before) <==> follows(
            step,
            args,
            from + 1,
            UsageArgsView { json: true, ..before },
        )),
        from + 1 < args.len() && args[from] == "--period"@ ==> (follows(step, args, from, before)
            <==> follows(step, args, from + 2, UsageArgsView { period: args[from + 1], ..before })),
{
    if args[from] == "--json"@ {
        lemma_json_asked(args, from, before);
    }
    if from + 1 < args.len() && args[from] == "--period"@ {
        lemma_period_forms(args, from, before, args[from + 1]);
    }
}

/// Statistics are computed for the window of the period: a rolling one is as long as it is named,
/// unless Unix time has not run that long, and ends with the clock; one that is named by dates runs
/// from the first to the end of the last, or to the clock.
pub proof fn lemma_query_window(query: StatsQuery, json: bool, asked: UsageArgsView, spec: PeriodSpec)
    requires
        queries(UsageStep::Compute(query, json), asked, spec),
    ensures
        json == asked.json,
        query.repo() == asked.repo_filter,
        spec matches PeriodSpec::RelativeDays(days) ==> if query.end_ts <= days * 86_400 {
            query.since_ts == 0
        } else {
            query.end_ts - query.since_ts == days * 86_400
        },
        spec !is Range ==> exists|clock: Option<u64>|
            #[trigger] shown_by_clock(clock) && query.end_ts == match clock {
                Some(seconds) => if seconds <= u32::MAX {
                    seconds as int
                } else {
                    u32::MAX as int
                },
                None => 0,
            },
        query.granularity == BucketGranularity::Weekly <==> (
        spec matches PeriodSpec::RelativeDays(days) && days > 7),
{
    let (clock, start, end) = choose|clock: Option<u64>, start: WallTime, end: WallTime|
        shown_by_clock(clock) && bounds_local(spec, start, end) && bounds_plausible(
            spec,
            start,
            end,
        ) && query.window() == #[trigger] window_of(spec, clock, start, end);
    assert(shown_by_clock(clock));
}

/// The help lists every option that is read, each at the start of a line, and names the period that
/// is reported on if none is asked for.
pub proof fn lemma_help_lists_options()
    ensures
        ({
            let lines = help_lines();
            &&& lines.len() == 15
            &&& begins_with(lines[0], "git-ai usage - "@)
            &&& lines[2] == "Usage: git-ai usage [options]"@
            &&& lines[4] == "Options:"@
            &&& lines[5] == "  --period <1d|3d|7d|30d|DATE|DATE..DATE>  Time window (default: "@
                + DEFAULT_PERIOD@ + ")"@
            &&& lines[6] + lines[7].skip(36) + lines[8].skip(36)
                == "                                     DATE is <YYYY-MM-DD>: a single date runs from that day to now; a range is inclusive of both days, e.g. 2026-09-01..2026-09-11"@
            &&& lines[9] == "  --repo <url|path>                 Filter to one repository"@
            &&& lines[10] == "  --json                            Output as JSON"@
            &&& lines[11] == "  --help                            Show this help"@
            &&& lines[13] + " "@ + lines[14]
                == "Shows activity over the selected window from locally recorded metric events. Metric rows older than approximately 365 days are pruned locally."@
            &&& lines[1].len() == 0 && lines[3].len() == 0 && lines[12].len() == 0
        }),
{
    reveal_strlit("");
    reveal_strlit(" ");
    reveal_strlit(")");
    reveal_strlit("30d");
    reveal_strlit("git-ai usage - ");
    reveal_strlit("git-ai usage - Show local activity statistics");
    reveal_strlit("  --period <1d|3d|7d|30d|DATE|DATE..DATE>  Time window (default: ");
    reveal_strlit("  --period <1d|3d|7d|30d|DATE|DATE..DATE>  Time window (default: 30d)");
    reveal_strlit("                                     DATE is <YYYY-MM-DD>: a single date runs");
    reveal_strlit("                                     from that day to now; a range is inclusive");
    reveal_strlit("                                     of both days, e.g. 2026-09-01..2026-09-11");
    reveal_strlit(
        "                                     DATE is <YYYY-MM-DD>: a single date runs from that day to now; a range is inclusive of both days, e.g. 2026-09-01..2026-09-11",
    );
    reveal_strlit("Shows activity over the selected window from locally recorded metric events.");
    reveal_strlit("Metric rows older than approximately 365 days are pruned locally.");
    reveal_strlit(
        "Shows activity over the selected window from locally recorded metric events. Metric rows older than approximately 365 days are pruned locally.",
    );
    let lines = help_lines();
    assert(lines[0].subrange(0, 15) =~= "git-ai usage - "@);
    assert(lines[5] =~= "  --period <1d|3d|7d|30d|DATE|DATE..DATE>  Time window (default: "@
        + DEFAULT_PERIOD@ + ")"@);
    assert(lines[6] + lines[7].skip(36) + lines[8].skip(36)
        =~= "                                     DATE is <YYYY-MM-DD>: a single date runs from that day to now; a range is inclusive of both days, e.g. 2026-09-01..2026-09-11"@);
    assert(lines[13] + " "@ + lines[14]
        =~= "Shows activity over the selected window from locally recorded metric events. Metric rows older than approximately 365 days are pruned locally."@);
}

/// Statistics are computed from the local midnight of the first day that a period names, and for a
/// range up to the last second of its last day, under the name of the window.
pub proof fn lemma_query_bounds(
    query: StatsQuery,
    json: bool,
    asked: UsageArgsView,
    spec: PeriodSpec,
) -> (bounds: (WallTime, WallTime))
    requires
        queries(UsageStep::Compute(query, json), asked, spec),
    ensures
        spec matches PeriodSpec::Since(first) ==> {
            &&& on_local_clocks(first, 0, 0, 0, bounds.0)
            &&& query.since_ts == timestamp_of(bounds.0.earliest_instant() as int)
            &&& query.period_label@ == "since "@ + iso_text(first)
        },
        spec matches PeriodSpec::Range(first, last) ==> {
            &&& on_local_clocks(first, 0, 0, 0, bounds.0)
            &&& query.since_ts == timestamp_of(bounds.0.earliest_instant() as int)
            &&& on_local_clocks(last, 23, 59, 59, bounds.1)
            &&& query.end_ts == timestamp_of(bounds.1.earliest_instant() as int)
            &&& query.period_label@ == iso_text(first) + " to "@ + iso_text(last)
        },
        spec matches PeriodSpec::RelativeDays(days) ==> query.period_label@ == if days == 1 {
            "last 24 hours"@
        } else if days == 3 {
            "last 3 days"@
        } else if days == 7 {
            "last 7 days"@
        } else {
            "last 30 days"@
        },
{
    let (clock, start, end) = choose|clock: Option<u64>, start: WallTime, end: WallTime|
        shown_by_clock(clock) && bounds_local(spec, start, end) && bounds_plausible(
            spec,
            start,
            end,
        ) && query.window() == #[trigger] window_of(spec, clock, start, end);
    (start, end)
}

} // verus!
