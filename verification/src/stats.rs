//! The statistics that a report shows.

use crate::date::Date;
use vstd::prelude::*;

verus! {

/// Lines and commits, as committed.
#[derive(Debug, PartialEq, Eq)]
pub struct CommitStats {
    /// Commits that AI had a part in.
    pub total: u32,
    pub ai_lines: u32,
    pub human_lines: u32,
    pub diff_added_lines: u32,
}

#[derive(Debug, PartialEq, Eq)]
pub struct SessionStats {
    pub total: u32,
}

/// Lines between commits.
#[derive(Debug, PartialEq, Eq)]
pub struct CheckpointStats {
    pub ai_lines_added: u32,
    pub human_lines_added: u32,
}

#[derive(Debug, PartialEq, Eq)]
pub struct TokenStats {
    pub input: u64,
    pub output: u64,
    pub cache_read: u64,
    pub cache_creation: u64,
    /// The estimated cost, as it is written.
    pub cost: String,
    /// The estimated cost for each line that AI has committed, as it is written. It is only shown
    /// where there are such lines.
    pub cost_per_line: String,
}

#[derive(Debug, PartialEq, Eq)]
pub struct SummaryStats {
    pub favorite_model: Option<String>,
    pub longest_session_secs: u32,
    pub longest_streak: u32,
    pub current_streak: u32,
}

/// The activity of one day.
#[derive(Clone, Copy, Debug, PartialEq, Eq, Structural)]
pub struct CalendarDay {
    pub date: Date,
    pub ai_lines: u32,
    /// The rank of the day's estimated cost: 0 for none, and more for a higher cost.
    pub spend: u64,
}

/// The activity in a window of time.
#[derive(Debug, PartialEq, Eq)]
pub struct LocalActivityStats {
    pub period_label: String,
    pub commits: CommitStats,
    pub sessions: SessionStats,
    pub checkpoints: CheckpointStats,
    pub tokens: TokenStats,
    pub summary: SummaryStats,
    pub calendar: Vec<CalendarDay>,
    pub calendar_start: Date,
    pub calendar_end: Date,
}

/// The activity in one repository.
#[derive(Debug, PartialEq, Eq)]
pub struct RepoActivitySummary {
    pub repo_url: String,
    pub ai_lines: u32,
    pub sessions: u32,
    /// The estimated cost, as it is written, if there is any.
    pub cost: Option<String>,
}

impl LocalActivityStats {
    /// Whether every day is on the calendar.
    pub open spec fn dated(self) -> bool {
        &&& self.calendar_start.valid()
        &&& self.calendar_end.valid()
        &&& forall|i: int| 0 <= i < self.calendar@.len() ==> (#[trigger] self.calendar@[i]).date.valid()
    }

    /// Whether the totals that a report shows can be counted.
    pub open spec fn countable(self) -> bool {
        &&& self.commits.ai_lines + self.commits.human_lines <= u32::MAX
        &&& self.total_tokens() <= u64::MAX
    }

    pub open spec fn total_tokens(self) -> int {
        self.tokens.input + self.tokens.output + self.tokens.cache_read + self.tokens.cache_creation
    }

    /// Whether nothing at all was recorded.
    pub open spec fn empty(self) -> bool {
        &&& self.commits.total == 0
        &&& self.commits.human_lines == 0
        &&& self.commits.diff_added_lines == 0
        &&& self.sessions.total == 0
        &&& self.checkpoints.ai_lines_added == 0
        &&& self.checkpoints.human_lines_added == 0
        &&& self.total_tokens() == 0
    }

    /// Whether nothing at all was recorded. Lines by humans count, and so do lines between
    /// commits, since `commits.total` only covers commits that AI had a part in.
    pub fn is_empty(&self) -> (empty: bool)
        ensures
            empty == self.empty(),
    {
        self.commits.total == 0 && self.commits.human_lines == 0 && self.commits.diff_added_lines
            == 0 && self.sessions.total == 0 && self.checkpoints.ai_lines_added == 0
            && self.checkpoints.human_lines_added == 0 && self.tokens.input == 0
            && self.tokens.output == 0 && self.tokens.cache_read == 0 && self.tokens.cache_creation
            == 0
    }
}

} // verus!
