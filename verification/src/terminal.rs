//! A report as lines on a terminal.

use crate::heatmap::{calendar_lines, render_calendar};
use crate::numbers::{
    duration_text, format_count_short, format_duration, format_num, grouped, short_count,
};
use crate::repo::{strip_protocol, without_protocol};
use crate::stats::{LocalActivityStats, RepoActivitySummary};
use crate::style::{BOLD, GRAY, ORANGE, RESET};
use crate::text::{
    chars_of, decimal, decimal_text, pad_left, pad_right, padded_left, padded_right, repeat_char,
    repeated, text_between, texts,
};
use vstd::prelude::*;
use vstd::utf8::encode_utf8;

verus! {

/// The width of the left column of the statistics.
pub const COL_W: usize = 34;

/// The width of the bar that splits lines between AI and humans.
pub const BAR_W: u32 = 40;

/// What [`char::to_uppercase`] gives for a character.
pub uninterp spec fn unicode_uppercase(c: char) -> Seq<char>;

/// [`char::to_uppercase`] beyond ASCII: the uppercase mapping of Unicode, of one or more
/// characters. Nothing but its name is claimed of it.
#[verifier::external_body]
fn to_uppercase(c: char) -> (s: String)
    requires
        c as u32 >= 128,
    ensures
        s@ == unicode_uppercase(c),
{
    c.to_uppercase().collect()
}

/// A character in uppercase.
pub open spec fn uppercase(c: char) -> Seq<char> {
    if 'a' <= c <= 'z' {
        seq![(c as u32 - 32) as char]
    } else if (c as u32) < 128 {
        seq![c]
    } else {
        unicode_uppercase(c)
    }
}

/// The text with its first character in uppercase.
pub open spec fn capitalized(s: Seq<char>) -> Seq<char> {
    if s.len() == 0 {
        s
    } else {
        uppercase(s[0]) + s.skip(1)
    }
}

/// The text with another in place of its first character.
pub fn with_first(first: &str, s: &str) -> (t: String)
    requires
        s@.len() > 0,
    ensures
        t@ == first@ + s@.skip(1),
{
    let chars = chars_of(s);
    assert(chars@.subrange(1, chars@.len() as int) =~= chars@.skip(1));
    first.to_owned().concat(text_between(&chars, 1, chars.len()).as_str())
}

/// The text with its first character in uppercase.
pub fn capitalize(s: &str) -> (t: String)
    ensures
        t@ == capitalized(s@),
{
    if s.is_empty() {
        return s.to_owned();
    }
    let c = s.get_char(0);
    let mut first = String::new();
    if 'a' <= c && c <= 'z' {
        first.push((c as u8 - 32) as char);
        assert(first@ =~= uppercase(c));
    } else if (c as u32) < 128 {
        first.push(c);
        assert(first@ =~= uppercase(c));
    } else {
        first = to_uppercase(c);
    }
    with_first(first.as_str(), s)
}

/// The share of lines by AI, in whole percent.
pub open spec fn ai_percent(ai: int, human: int) -> int {
    ai * 100 / (ai + human)
}

/// How the lines of a window split between AI and humans. Without lines there is nothing to show.
pub open spec fn split_lines(ai: int, human: int) -> Seq<Seq<char>> {
    if ai + human == 0 {
        seq![]
    } else {
        let percent = ai_percent(ai, human);
        let filled = percent * BAR_W / 100;
        let bar = ORANGE@ + repeated('█', filled as nat) + GRAY@ + repeated(
            '░',
            (BAR_W - filled) as nat,
        ) + RESET@;
        seq![
            "  "@ + bar + "  "@ + BOLD@ + "AI"@ + RESET@ + " "@ + padded_left(
                decimal(percent as nat),
                3,
            ) + "% · "@ + BOLD@ + "Human"@ + RESET@ + " "@ + padded_left(
                decimal((100 - percent) as nat),
                3,
            ) + "%"@,
        ]
    }
}

/// How the lines of a window split between AI and humans.
fn render_split(ai: u32, human: u32) -> (lines: Vec<String>)
    requires
        ai + human <= u32::MAX,
    ensures
        texts(lines@) == split_lines(ai as int, human as int),
{
    let mut lines: Vec<String> = Vec::new();
    let total: u32 = ai + human;
    if total == 0 {
        assert(texts(lines@) =~= seq![]);
        return lines;
    }
    proof {
        lemma_split(ai as int, human as int);
    }
    let percent: u32 = (ai as u64 * 100 / total as u64) as u32;
    let filled: u32 = percent * BAR_W / 100;
    let bar = ORANGE.to_owned().concat(repeat_char('█', filled as usize).as_str()).concat(
        GRAY,
    ).concat(repeat_char('░', (BAR_W - filled) as usize).as_str()).concat(RESET);
    lines.push(
        "  ".to_owned().concat(bar.as_str()).concat("  ").concat(BOLD).concat("AI").concat(
            RESET,
        ).concat(" ").concat(pad_left(decimal_text(percent as u64).as_str(), 3).as_str()).concat(
            "% · ",
        ).concat(BOLD).concat("Human").concat(RESET).concat(" ").concat(
            pad_left(decimal_text((100 - percent) as u64).as_str(), 3).as_str(),
        ).concat("%"),
    );
    assert(texts(lines@) =~= split_lines(ai as int, human as int));
    lines
}

/// The shares of AI and humans are percentages that make up the whole, and the bar is filled
/// within its width.
pub proof fn lemma_split(ai: int, human: int)
    requires
        0 <= ai,
        0 <= human,
        0 < ai + human,
    ensures
        0 <= ai_percent(ai, human) <= 100,
        0 <= ai_percent(ai, human) * BAR_W / 100 <= BAR_W,
        human == 0 ==> ai_percent(ai, human) == 100,
        ai == 0 ==> ai_percent(ai, human) == 0,
{
    let percent = ai_percent(ai, human);
    assert(0 <= percent <= 100) by (nonlinear_arith)
        requires
            percent == ai * 100 / (ai + human),
            0 <= ai,
            0 <= human,
            0 < ai + human,
    ;
    assert(human == 0 ==> percent == 100) by (nonlinear_arith)
        requires
            percent == ai * 100 / (ai + human),
            0 < ai + human,
    ;
    assert(ai == 0 ==> percent == 0) by (nonlinear_arith)
        requires
            percent == ai * 100 / (ai + human),
            0 < ai + human,
    ;
}

/// The name under which a repository is shown.
pub open spec fn repo_name(repo: RepoActivitySummary) -> Seq<char> {
    let name = without_protocol(repo.repo_url@);
    if name.len() == 0 {
        "unknown"@
    } else {
        name
    }
}

/// The lines that AI has committed to a repository.
pub open spec fn repo_lines(repo: RepoActivitySummary) -> Seq<char> {
    "+"@ + grouped(decimal(repo.ai_lines as nat))
}

/// The sessions in a repository.
pub open spec fn repo_sessions(repo: RepoActivitySummary) -> Seq<char> {
    grouped(decimal(repo.sessions as nat))
}

/// The highest of the numbers that a function gives for the repositories, or 0 without any.
pub open spec fn widest(
    repos: Seq<RepoActivitySummary>,
    width: spec_fn(RepoActivitySummary) -> nat,
) -> nat
    decreases repos.len(),
{
    if repos.len() == 0 {
        0
    } else if width(repos.last()) > widest(repos.drop_last(), width) {
        width(repos.last())
    } else {
        widest(repos.drop_last(), width)
    }
}

/// The width of the column of names, which holds each of them in bytes.
pub open spec fn name_width(repos: Seq<RepoActivitySummary>) -> nat {
    widest(repos, |repo: RepoActivitySummary| encode_utf8(repo_name(repo)).len())
}

/// The width of the column of lines.
pub open spec fn lines_width(repos: Seq<RepoActivitySummary>) -> nat {
    widest(repos, |repo: RepoActivitySummary| repo_lines(repo).len())
}

/// The width of the column of sessions.
pub open spec fn sessions_width(repos: Seq<RepoActivitySummary>) -> nat {
    widest(repos, |repo: RepoActivitySummary| repo_sessions(repo).len())
}

/// The columns of a repository, without its cost.
pub open spec fn repo_columns(
    repo: RepoActivitySummary,
    name_w: nat,
    lines_w: nat,
    sessions_w: nat,
) -> Seq<char> {
    "    "@ + GRAY@ + padded_right(repo_name(repo), name_w) + "  "@ + padded_left(
        repo_lines(repo),
        lines_w,
    ) + " lines  "@ + padded_left(repo_sessions(repo), sessions_w) + " "@ + if repo.sessions == 1 {
        "session "@
    } else {
        "sessions"@
    }
}

/// The row of a repository, with its cost if there is any.
pub open spec fn repo_row(
    repo: RepoActivitySummary,
    name_w: nat,
    lines_w: nat,
    sessions_w: nat,
) -> Seq<char> {
    let columns = repo_columns(repo, name_w, lines_w, sessions_w);
    match repo.cost {
        Some(cost) => columns + "  "@ + GRAY@ + cost@ + RESET@ + RESET@,
        None => columns + RESET@,
    }
}

/// The breakdown by repository. A single row would add nothing, so there is none below two.
pub open spec fn repo_table(repos: Seq<RepoActivitySummary>) -> Seq<Seq<char>> {
    if repos.len() <= 1 {
        seq![]
    } else {
        seq![""@, "  "@ + BOLD@ + "Repositories"@ + RESET@] + Seq::new(
            repos.len(),
            |i: int|
                repo_row(repos[i], name_width(repos), lines_width(repos), sessions_width(repos)),
        )
    }
}

fn name_of(repo: &RepoActivitySummary) -> (name: &str)
    ensures
        name@ == repo_name(*repo),
{
    let name = strip_protocol(repo.repo_url.as_str());
    if name.is_empty() {
        "unknown"
    } else {
        name
    }
}

fn lines_of(repo: &RepoActivitySummary) -> (lines: String)
    ensures
        lines@ == repo_lines(*repo),
{
    "+".to_owned().concat(format_num(repo.ai_lines).as_str())
}

/// The widths of the columns of names, lines and sessions.
fn column_widths(repos: &Vec<RepoActivitySummary>) -> (widths: (usize, usize, usize))
    ensures
        widths.0 == name_width(repos@),
        widths.1 == lines_width(repos@),
        widths.2 == sessions_width(repos@),
{
    let mut name_w: usize = 0;
    let mut lines_w: usize = 0;
    let mut sessions_w: usize = 0;
    let mut i: usize = 0;
    while i < repos.len()
        invariant
            i <= repos.len(),
            name_w == name_width(repos@.take(i as int)),
            lines_w == lines_width(repos@.take(i as int)),
            sessions_w == sessions_width(repos@.take(i as int)),
        decreases repos.len() - i,
    {
        let repo = &repos[i];
        assert(repos@.take(i + 1).drop_last() =~= repos@.take(i as int));
        assert(repos@.take(i + 1).last() == *repo);
        let name: usize = name_of(repo).as_bytes().len();
        let lines: usize = lines_of(repo).as_str().unicode_len();
        let sessions: usize = format_num(repo.sessions).as_str().unicode_len();
        if name > name_w {
            name_w = name;
        }
        if lines > lines_w {
            lines_w = lines;
        }
        if sessions > sessions_w {
            sessions_w = sessions;
        }
        i += 1;
    }
    assert(repos@.take(i as int) =~= repos@);
    (name_w, lines_w, sessions_w)
}

fn render_repo(
    repo: &RepoActivitySummary,
    name_w: usize,
    lines_w: usize,
    sessions_w: usize,
) -> (row: String)
    ensures
        row@ == repo_row(*repo, name_w as nat, lines_w as nat, sessions_w as nat),
{
    // The singular is padded to the width of the plural, so the columns stay aligned.
    let session_label = if repo.sessions == 1 {
        "session "
    } else {
        "sessions"
    };
    let columns = "    ".to_owned().concat(GRAY).concat(
        pad_right(name_of(repo), name_w).as_str(),
    ).concat("  ").concat(pad_left(lines_of(repo).as_str(), lines_w).as_str()).concat(
        " lines  ",
    ).concat(pad_left(format_num(repo.sessions).as_str(), sessions_w).as_str()).concat(
        " ",
    ).concat(session_label);
    match &repo.cost {
        Some(cost) => columns.concat("  ").concat(GRAY).concat(cost.as_str()).concat(RESET).concat(
            RESET,
        ),
        None => columns.concat(RESET),
    }
}

/// The breakdown by repository.
fn render_repos(repos: &Vec<RepoActivitySummary>) -> (lines: Vec<String>)
    ensures
        texts(lines@) == repo_table(repos@),
{
    let mut lines: Vec<String> = Vec::new();
    if repos.len() <= 1 {
        assert(texts(lines@) =~= seq![]);
        return lines;
    }
    let (name_w, lines_w, sessions_w) = column_widths(repos);
    lines.push("".to_owned());
    lines.push("  ".to_owned().concat(BOLD).concat("Repositories").concat(RESET));
    let ghost table = repo_table(repos@);
    assert(texts(lines@) =~= table.take(2));
    let mut i: usize = 0;
    while i < repos.len()
        invariant
            i <= repos.len(),
            repos.len() > 1,
            name_w == name_width(repos@),
            lines_w == lines_width(repos@),
            sessions_w == sessions_width(repos@),
            table == repo_table(repos@),
            texts(lines@) == table.take(2 + i),
        decreases repos.len() - i,
    {
        let row = render_repo(&repos[i], name_w, lines_w, sessions_w);
        let ghost shown = texts(lines@);
        assert(row@ == table[2 + i]);
        lines.push(row);
        assert(texts(lines@) =~= shown.push(row@));
        assert(texts(lines@) =~= table.take(2 + i + 1));
        i += 1;
    }
    assert(texts(lines@) =~= table);
    lines
}

/// Two texts side by side.
pub open spec fn side_by_side(left: Seq<char>, right: Seq<char>) -> Seq<char> {
    "  "@ + padded_right(left, COL_W as nat) + right
}

/// The statistics below the activity strip. They have no color, since escape sequences would
/// corrupt the alignment.
pub open spec fn summary_lines(stats: LocalActivityStats) -> Seq<Seq<char>> {
    seq![
        ""@,
        side_by_side(
            match stats.summary.favorite_model {
                Some(model) => "Favorite model: "@ + model@,
                None => Seq::empty(),
            },
            "Total tokens: "@ + short_count(stats.total_tokens() as nat),
        ),
        ""@,
        side_by_side(
            "Sessions: "@ + short_count(stats.sessions.total as nat),
            "Longest session: "@ + duration_text(stats.summary.longest_session_secs as nat),
        ),
        side_by_side(
            "Token spend: "@ + stats.tokens.cost@,
            "Longest streak: "@ + decimal(stats.summary.longest_streak as nat) + " days"@,
        ),
        side_by_side(
            (if stats.commits.ai_lines > 0 {
                stats.tokens.cost_per_line@
            } else {
                "—"@
            }) + " / committed line"@,
            "Current streak: "@ + decimal(stats.summary.current_streak as nat) + " days"@,
        ),
        ""@,
    ]
}

/// The lines of a report: its title, the split between AI and humans, the repositories, the
/// activity strip and the statistics.
pub open spec fn report_lines(
    stats: LocalActivityStats,
    repos: Seq<RepoActivitySummary>,
) -> Seq<Seq<char>> {
    seq![""@, "  "@ + BOLD@ + capitalized(stats.period_label@) + RESET@, ""@] + split_lines(
        stats.commits.ai_lines as int,
        stats.commits.human_lines as int,
    ) + repo_table(repos) + calendar_lines(stats) + summary_lines(stats)
}

fn beside(left: &str, right: &str) -> (line: String)
    ensures
        line@ == side_by_side(left@, right@),
{
    "  ".to_owned().concat(pad_right(left, COL_W).as_str()).concat(right)
}

/// The statistics below the activity strip.
fn render_summary(stats: &LocalActivityStats) -> (lines: Vec<String>)
    requires
        stats.countable(),
    ensures
        texts(lines@) == summary_lines(*stats),
{
    let tokens = &stats.tokens;
    let total_tokens: u64 = tokens.input + tokens.output + tokens.cache_read
        + tokens.cache_creation;
    let favorite = match &stats.summary.favorite_model {
        Some(model) => "Favorite model: ".to_owned().concat(model.as_str()),
        None => String::new(),
    };
    let per_line = if stats.commits.ai_lines > 0 {
        tokens.cost_per_line.as_str()
    } else {
        "—"
    };
    let total = "Total tokens: ".to_owned().concat(format_count_short(total_tokens).as_str());
    let sessions = "Sessions: ".to_owned().concat(
        format_count_short(stats.sessions.total as u64).as_str(),
    );
    let longest_session = "Longest session: ".to_owned().concat(
        format_duration(stats.summary.longest_session_secs).as_str(),
    );
    let spend = "Token spend: ".to_owned().concat(tokens.cost.as_str());
    let longest_streak = "Longest streak: ".to_owned().concat(
        decimal_text(stats.summary.longest_streak as u64).as_str(),
    ).concat(" days");
    let line_cost = per_line.to_owned().concat(" / committed line");
    let current_streak = "Current streak: ".to_owned().concat(
        decimal_text(stats.summary.current_streak as u64).as_str(),
    ).concat(" days");
    let mut lines: Vec<String> = Vec::new();
    lines.push("".to_owned());
    lines.push(beside(favorite.as_str(), total.as_str()));
    lines.push("".to_owned());
    lines.push(beside(sessions.as_str(), longest_session.as_str()));
    lines.push(beside(spend.as_str(), longest_streak.as_str()));
    lines.push(beside(line_cost.as_str(), current_streak.as_str()));
    lines.push("".to_owned());
    assert(texts(lines@) =~= summary_lines(*stats));
    lines
}

/// Adds lines to others.
fn extend(lines: &mut Vec<String>, more: Vec<String>)
    ensures
        texts(final(lines)@) == texts(old(lines)@) + texts(more@),
{
    let ghost added = more@;
    let mut more = more;
    lines.append(&mut more);
    assert(texts(lines@) =~= texts(old(lines)@) + texts(added));
}

/// The lines of a report.
pub fn render_report(stats: &LocalActivityStats, repos: &Vec<RepoActivitySummary>) -> (lines: Vec<
    String,
>)
    requires
        stats.dated(),
        stats.countable(),
    ensures
        texts(lines@) == report_lines(*stats, repos@),
{
    let mut lines: Vec<String> = Vec::new();
    lines.push("".to_owned());
    lines.push(
        "  ".to_owned().concat(BOLD).concat(
            capitalize(stats.period_label.as_str()).as_str(),
        ).concat(RESET),
    );
    lines.push("".to_owned());
    assert(texts(lines@) =~= seq![
        ""@,
        "  "@ + BOLD@ + capitalized(stats.period_label@) + RESET@,
        ""@,
    ]);
    extend(&mut lines, render_split(stats.commits.ai_lines, stats.commits.human_lines));
    extend(&mut lines, render_repos(repos));
    extend(&mut lines, render_calendar(stats));
    extend(&mut lines, render_summary(stats));
    lines
}

proof fn lemma_widest(
    repos: Seq<RepoActivitySummary>,
    width: spec_fn(RepoActivitySummary) -> nat,
    i: int,
)
    requires
        0 <= i < repos.len(),
    ensures
        width(repos[i]) <= widest(repos, width),
    decreases repos.len(),
{
    if i < repos.len() - 1 {
        lemma_widest(repos.drop_last(), width, i);
    }
}

/// A text has no more characters than bytes.
proof fn lemma_chars_within_bytes(s: Seq<char>)
    ensures
        s.len() <= encode_utf8(s).len(),
    decreases s.len(),
{
    if s.len() > 0 {
        lemma_chars_within_bytes(s.drop_first());
    }
}

/// The columns of the repositories are aligned: they take the same width in every row.
pub proof fn lemma_repo_columns_aligned(repos: Seq<RepoActivitySummary>, i: int, j: int)
    requires
        0 <= i < repos.len(),
        0 <= j < repos.len(),
    ensures
        ({
            let columns = |k: int|
                repo_columns(
                    repos[k],
                    name_width(repos),
                    lines_width(repos),
                    sessions_width(repos),
                );
            columns(i).len() == columns(j).len()
        }),
{
    reveal_strlit("session ");
    reveal_strlit("sessions");
    lemma_column_lengths(repos, i);
    lemma_column_lengths(repos, j);
}

proof fn lemma_column_lengths(repos: Seq<RepoActivitySummary>, i: int)
    requires
        0 <= i < repos.len(),
    ensures
        padded_right(repo_name(repos[i]), name_width(repos)).len() == name_width(repos),
        padded_left(repo_lines(repos[i]), lines_width(repos)).len() == lines_width(repos),
        padded_left(repo_sessions(repos[i]), sessions_width(repos)).len() == sessions_width(repos),
{
    lemma_widest(repos, |repo: RepoActivitySummary| encode_utf8(repo_name(repo)).len(), i);
    lemma_widest(repos, |repo: RepoActivitySummary| repo_lines(repo).len(), i);
    lemma_widest(repos, |repo: RepoActivitySummary| repo_sessions(repo).len(), i);
    lemma_chars_within_bytes(repo_name(repos[i]));
}

/// The share of AI is rounded down to whole percent, and the bar is filled in proportion to it,
/// rounded down to whole cells; humans have the rest of both. Without lines nothing is shown.
pub proof fn lemma_split_shown(ai: int, human: int) -> (shares: (nat, nat))
    requires
        0 <= ai,
        0 <= human,
    ensures
        ai + human == 0 ==> split_lines(ai, human).len() == 0,
        ai + human > 0 ==> ({
            let (percent, filled) = shares;
            &&& percent * (ai + human) <= 100 * ai < (percent + 1) * (ai + human)
            &&& 100 * filled <= 40 * percent < 100 * (filled + 1)
            &&& percent <= 100
            &&& filled <= 40
            &&& split_lines(ai, human) == seq![
                "  "@ + ORANGE@ + repeated('█', filled) + GRAY@ + repeated(
                    '░',
                    (40 - filled) as nat,
                ) + RESET@ + "  "@ + BOLD@ + "AI"@ + RESET@ + " "@ + padded_left(
                    decimal(percent),
                    3,
                ) + "% · "@ + BOLD@ + "Human"@ + RESET@ + " "@ + padded_left(
                    decimal((100 - percent) as nat),
                    3,
                ) + "%"@,
            ]
        }),
{
    if ai + human > 0 {
        lemma_split(ai, human);
        let total = ai + human;
        let percent = ai_percent(ai, human);
        assert(percent * total <= 100 * ai < (percent + 1) * total) by (nonlinear_arith)
            requires
                percent == ai * 100 / total,
                total > 0,
        ;
        let filled = percent * BAR_W / 100;
        let line = "  "@ + ORANGE@ + repeated('█', filled as nat) + GRAY@ + repeated(
            '░',
            (40 - filled) as nat,
        ) + RESET@ + "  "@ + BOLD@ + "AI"@ + RESET@ + " "@ + padded_left(
            decimal(percent as nat),
            3,
        ) + "% · "@ + BOLD@ + "Human"@ + RESET@ + " "@ + padded_left(
            decimal((100 - percent) as nat),
            3,
        ) + "%"@;
        assert(split_lines(ai, human)[0] =~= line);
        assert(split_lines(ai, human) =~= seq![line]);
        (percent as nat, filled as nat)
    } else {
        (0, 0)
    }
}

/// Two cells stand side by side: the left one after an indent of two spaces, the right one at the
/// column that is common to all lines, unless the left one is too long for that.
pub proof fn lemma_side_by_side(left: Seq<char>, right: Seq<char>)
    ensures
        ({
            let line = side_by_side(left, right);
            let start = if left.len() < 34 {
                36int
            } else {
                2 + left.len() as int
            };
            &&& line.len() == start + right.len()
            &&& line[0] == ' ' && line[1] == ' '
            &&& line.subrange(2, 2 + left.len() as int) == left
            &&& forall|i: int| 2 + left.len() <= i < start ==> #[trigger] line[i] == ' '
            &&& line.skip(start) == right
        }),
{
    reveal_strlit("  ");
    let line = side_by_side(left, right);
    let start = if left.len() < 34 {
        36int
    } else {
        2 + left.len() as int
    };
    assert(line.subrange(2, 2 + left.len() as int) =~= left);
    assert(line.skip(start) =~= right);
}

/// Whether a line begins, after its indent, with one text and ends with another.
pub open spec fn shows_cells(line: Seq<char>, left: Seq<char>, right: Seq<char>) -> bool {
    &&& line.len() >= 2 + left.len() + right.len()
    &&& line.subrange(2, 2 + left.len() as int) == left
    &&& line.skip(line.len() - right.len()) == right
}

/// What the statistics below the strip show. The total of tokens is that of all four kinds, and the
/// cost of a line is only given where AI has committed any.
pub proof fn lemma_summary_shows(stats: LocalActivityStats)
    ensures
        ({
            let lines = summary_lines(stats);
            let total = stats.tokens.input + stats.tokens.output + stats.tokens.cache_read
                + stats.tokens.cache_creation;
            &&& lines.len() == 7
            &&& lines[0].len() == 0 && lines[2].len() == 0 && lines[6].len() == 0
            &&& shows_cells(
                lines[1],
                match stats.summary.favorite_model {
                    Some(model) => "Favorite model: "@ + model@,
                    None => ""@,
                },
                "Total tokens: "@ + short_count(total as nat),
            )
            &&& shows_cells(
                lines[3],
                "Sessions: "@ + short_count(stats.sessions.total as nat),
                "Longest session: "@ + duration_text(stats.summary.longest_session_secs as nat),
            )
            &&& shows_cells(
                lines[4],
                "Token spend: "@ + stats.tokens.cost@,
                "Longest streak: "@ + decimal(stats.summary.longest_streak as nat) + " days"@,
            )
            &&& shows_cells(
                lines[5],
                if stats.commits.ai_lines == 0 {
                    "—"@ + " / committed line"@
                } else {
                    stats.tokens.cost_per_line@ + " / committed line"@
                },
                "Current streak: "@ + decimal(stats.summary.current_streak as nat) + " days"@,
            )
        }),
{
    reveal_strlit("");
    let total = stats.tokens.input + stats.tokens.output + stats.tokens.cache_read
        + stats.tokens.cache_creation;
    let favorite = match stats.summary.favorite_model {
        Some(model) => "Favorite model: "@ + model@,
        None => Seq::empty(),
    };
    assert(""@ =~= Seq::<char>::empty());
    lemma_shows_cells(favorite, "Total tokens: "@ + short_count(total as nat));
    lemma_shows_cells(
        "Sessions: "@ + short_count(stats.sessions.total as nat),
        "Longest session: "@ + duration_text(stats.summary.longest_session_secs as nat),
    );
    lemma_shows_cells(
        "Token spend: "@ + stats.tokens.cost@,
        "Longest streak: "@ + decimal(stats.summary.longest_streak as nat) + " days"@,
    );
    let cost = if stats.commits.ai_lines > 0 {
        stats.tokens.cost_per_line@
    } else {
        "—"@
    };
    lemma_shows_cells(
        cost + " / committed line"@,
        "Current streak: "@ + decimal(stats.summary.current_streak as nat) + " days"@,
    );
}

proof fn lemma_shows_cells(left: Seq<char>, right: Seq<char>)
    ensures
        shows_cells(side_by_side(left, right), left, right),
{
    lemma_side_by_side(left, right);
}

/// The statistics show how many tokens there were in all, however they are split between input,
/// output and what was read from and written to the cache; without the cache and output, those are
/// the tokens of the input.
pub proof fn lemma_total_tokens(a: LocalActivityStats, b: LocalActivityStats)
    requires
        a.summary.favorite_model == b.summary.favorite_model,
        a.tokens.input + a.tokens.output + a.tokens.cache_read + a.tokens.cache_creation
            == b.tokens.input + b.tokens.output + b.tokens.cache_read + b.tokens.cache_creation,
    ensures
        summary_lines(a)[1] == summary_lines(b)[1],
        ({
            let total = a.tokens.input + a.tokens.output + a.tokens.cache_read
                + a.tokens.cache_creation;
            let shown = "Total tokens: "@ + short_count(total as nat);
            let line = summary_lines(a)[1];
            line.len() >= shown.len() && line.skip(line.len() - shown.len()) == shown
        }),
        a.tokens.output == 0 && a.tokens.cache_read == 0 && a.tokens.cache_creation == 0 ==> ({
            let shown = "Total tokens: "@ + short_count(a.tokens.input as nat);
            let line = summary_lines(b)[1];
            line.len() >= shown.len() && line.skip(line.len() - shown.len()) == shown
        }),
{
    lemma_summary_shows(a);
    lemma_summary_shows(b);
}

/// A title that begins with a small letter of the Latin alphabet begins with the capital; others in
/// ASCII are kept, and so is what follows the first character.
pub proof fn lemma_capitalized(s: Seq<char>)
    requires
        s.len() > 0,
    ensures
        (s[0] as u32) < 128 ==> capitalized(s).len() == s.len() && capitalized(s).skip(1) == s.skip(
            1,
        ),
        'a' <= s[0] <= 'z' ==> 'A' <= capitalized(s)[0] <= 'Z' && capitalized(s)[0] as int - 'A' as int
            == s[0] as int - 'a' as int,
        (s[0] as u32) < 128 && !('a' <= s[0] <= 'z') ==> capitalized(s) == s,
        capitalized(Seq::<char>::empty()) == Seq::<char>::empty(),
        capitalized(s).len() >= s.len() - 1,
        capitalized(s).skip(capitalized(s).len() - (s.len() - 1)) == s.skip(1),
{
    let t = capitalized(s);
    assert(t.skip(t.len() - (s.len() - 1)) =~= s.skip(1));
    if (s[0] as u32) < 128 {
        assert(t.skip(1) =~= s.skip(1));
        if !('a' <= s[0] <= 'z') {
            assert(t =~= s);
        }
    }
}

proof fn lemma_widest_attained(
    repos: Seq<RepoActivitySummary>,
    width: spec_fn(RepoActivitySummary) -> nat,
) -> (i: int)
    requires
        repos.len() > 0,
    ensures
        0 <= i < repos.len(),
        width(repos[i]) == widest(repos, width),
    decreases repos.len(),
{
    if repos.len() == 1 || width(repos.last()) > widest(repos.drop_last(), width) {
        assert(repos.len() == 1 ==> widest(repos.drop_last(), width) == 0);
        repos.len() - 1
    } else {
        lemma_widest_attained(repos.drop_last(), width)
    }
}

/// A column of the repositories is as wide as the widest of its cells, the names in bytes: every
/// cell fits, and one of them fills it.
pub proof fn lemma_column_widths(repos: Seq<RepoActivitySummary>, i: int) -> (full: (int, int, int))
    requires
        0 <= i < repos.len(),
    ensures
        encode_utf8(repo_name(repos[i])).len() <= name_width(repos),
        repo_lines(repos[i]).len() <= lines_width(repos),
        repo_sessions(repos[i]).len() <= sessions_width(repos),
        0 <= full.0 < repos.len() && encode_utf8(repo_name(repos[full.0])).len() == name_width(
            repos,
        ),
        0 <= full.1 < repos.len() && repo_lines(repos[full.1]).len() == lines_width(repos),
        0 <= full.2 < repos.len() && repo_sessions(repos[full.2]).len() == sessions_width(repos),
{
    let name = |repo: RepoActivitySummary| encode_utf8(repo_name(repo)).len();
    let lines = |repo: RepoActivitySummary| repo_lines(repo).len();
    let sessions = |repo: RepoActivitySummary| repo_sessions(repo).len();
    lemma_widest(repos, name, i);
    lemma_widest(repos, lines, i);
    lemma_widest(repos, sessions, i);
    (
        lemma_widest_attained(repos, name),
        lemma_widest_attained(repos, lines),
        lemma_widest_attained(repos, sessions),
    )
}

/// What the table of repositories shows: a row for each, in their order, if there are two at least.
/// A row holds the address without its protocol, or `unknown` for none, the lines and the sessions,
/// and what it cost if that is known.
pub proof fn lemma_repos_shown(repos: Seq<RepoActivitySummary>, i: int)
    requires
        0 <= i < repos.len(),
    ensures
        repos.len() == 1 ==> repo_table(repos).len() == 0,
        repos.len() >= 2 ==> ({
            let table = repo_table(repos);
            let repo = repos[i];
            let address = without_protocol(repo.repo_url@);
            let name = if address.len() == 0 {
                "unknown"@
            } else {
                address
            };
            &&& table.len() == repos.len() + 2
            &&& table[0].len() == 0
            &&& table[1] == "  "@ + BOLD@ + "Repositories"@ + RESET@
            &&& table[i + 2] == "    "@ + GRAY@ + padded_right(name, name_width(repos)) + "  "@
                + padded_left("+"@ + grouped(decimal(repo.ai_lines as nat)), lines_width(repos))
                + " lines  "@ + padded_left(
                grouped(decimal(repo.sessions as nat)),
                sessions_width(repos),
            ) + " session"@ + (if repo.sessions == 1 {
                " "@
            } else {
                "s"@
            }) + (match repo.cost {
                Some(cost) => "  "@ + GRAY@ + cost@ + RESET@,
                None => ""@,
            }) + RESET@
        }),
{
    reveal_strlit("");
    reveal_strlit(" ");
    reveal_strlit("s");
    reveal_strlit("session ");
    reveal_strlit("sessions");
    reveal_strlit(" session");
    if repos.len() >= 2 {
        let repo = repos[i];
        let columns = repo_columns(
            repo,
            name_width(repos),
            lines_width(repos),
            sessions_width(repos),
        );
        let before = "    "@ + GRAY@ + padded_right(repo_name(repo), name_width(repos)) + "  "@
            + padded_left(repo_lines(repo), lines_width(repos)) + " lines  "@ + padded_left(
            repo_sessions(repo),
            sessions_width(repos),
        );
        let label = if repo.sessions == 1 {
            " "@
        } else {
            "s"@
        };
        let tail = if repo.sessions == 1 {
            "session "@
        } else {
            "sessions"@
        };
        assert(" "@ + tail =~= " session"@ + label);
        assert(columns =~= before + (" "@ + tail));
        assert(columns =~= before + " session"@ + label);
        match repo.cost {
            Some(cost) => {
                assert(columns + "  "@ + GRAY@ + cost@ + RESET@ + RESET@ =~= columns + ("  "@ + GRAY@
                    + cost@ + RESET@) + RESET@);
            },
            None => {
                assert(columns + ""@ + RESET@ =~= columns + RESET@);
            },
        }
    }
}

/// The parts of a report come in this order: a title between empty lines, the split between AI and
/// humans, the repositories, the activity strip and the statistics.
pub proof fn lemma_report_parts(stats: LocalActivityStats, repos: Seq<RepoActivitySummary>)
    ensures
        ({
            let report = report_lines(stats, repos);
            let split = split_lines(
                stats.commits.ai_lines as int,
                stats.commits.human_lines as int,
            );
            let table = repo_table(repos);
            let calendar = calendar_lines(stats);
            let at_table = 3 + split.len() as int;
            let at_calendar = at_table + table.len();
            let at_summary = at_calendar + calendar.len();
            &&& report.len() == at_summary + 7
            &&& report[0].len() == 0 && report[2].len() == 0
            &&& report[1] == "  "@ + BOLD@ + capitalized(stats.period_label@) + RESET@
            &&& report.subrange(3, at_table) == split
            &&& report.subrange(at_table, at_calendar) == table
            &&& report.subrange(at_calendar, at_summary) == calendar
            &&& report.skip(at_summary) == summary_lines(stats)
        }),
{
    reveal_strlit("");
    let report = report_lines(stats, repos);
    let split = split_lines(stats.commits.ai_lines as int, stats.commits.human_lines as int);
    let table = repo_table(repos);
    let calendar = calendar_lines(stats);
    let at_table = 3 + split.len() as int;
    let at_calendar = at_table + table.len();
    let at_summary = at_calendar + calendar.len();
    assert(report.subrange(3, at_table) =~= split);
    assert(report.subrange(at_table, at_calendar) =~= table);
    assert(report.subrange(at_calendar, at_summary) =~= calendar);
    assert(report.skip(at_summary) =~= summary_lines(stats));
}

} // verus!
