//! The arguments of the command.

use crate::period::DEFAULT_PERIOD;
use crate::text::{after_prefix, begins_with, same_text, texts};
use vstd::prelude::*;

verus! {

/// What the arguments ask for.
#[derive(Debug, PartialEq, Eq)]
pub struct UsageArgs {
    pub json: bool,
    pub period: String,
    pub repo_filter: Option<String>,
}

/// What the arguments ask for, as plain values.
pub struct UsageArgsView {
    pub json: bool,
    pub period: Seq<char>,
    pub repo_filter: Option<Seq<char>>,
}

impl View for UsageArgs {
    type V = UsageArgsView;

    open spec fn view(&self) -> UsageArgsView {
        UsageArgsView {
            json: self.json,
            period: self.period@,
            repo_filter: match self.repo_filter {
                Some(url) => Some(url@),
                None => None,
            },
        }
    }
}

impl Default for UsageArgs {
    /// What is asked for without arguments: the default period over every repository.
    fn default() -> (args: UsageArgs)
        ensures
            args@ == (UsageArgsView { json: false, period: DEFAULT_PERIOD@, repo_filter: None }),
    {
        UsageArgs { json: false, period: DEFAULT_PERIOD.to_owned(), repo_filter: None }
    }
}

/// Why the reading of arguments stopped.
#[derive(Debug, PartialEq, Eq)]
pub enum ArgStop {
    /// All of them are read.
    End,
    /// Help is asked for.
    Help,
    /// A repository is selected by this value; what follows starts at this position.
    Repo(String, usize),
    /// One of them cannot be followed, for this reason.
    Refused(String),
}

/// Why the reading of arguments stopped, as plain values.
pub enum ArgStopView {
    End,
    Help,
    Repo(Seq<char>, int),
    Refused(Seq<char>),
}

impl View for ArgStop {
    type V = ArgStopView;

    open spec fn view(&self) -> ArgStopView {
        match *self {
            ArgStop::End => ArgStopView::End,
            ArgStop::Help => ArgStopView::Help,
            ArgStop::Repo(value, next) => ArgStopView::Repo(value@, next as int),
            ArgStop::Refused(reason) => ArgStopView::Refused(reason@),
        }
    }
}

/// What the arguments from position `i` on ask for, in addition to what is asked for already, up
/// to where the reading stops.
pub open spec fn reading(args: Seq<Seq<char>>, i: int, asked: UsageArgsView) -> (
    UsageArgsView,
    ArgStopView,
)
    decreases args.len() - i,
{
    if i >= args.len() {
        (asked, ArgStopView::End)
    } else if args[i] == "--json"@ {
        reading(args, i + 1, UsageArgsView { json: true, ..asked })
    } else if args[i] == "--help"@ || args[i] == "-h"@ {
        (asked, ArgStopView::Help)
    } else if args[i] == "--period"@ {
        if i + 1 < args.len() {
            reading(args, i + 2, UsageArgsView { period: args[i + 1], ..asked })
        } else {
            (asked, ArgStopView::Refused("Missing value for --period."@))
        }
    } else if args[i] == "--repo"@ {
        if i + 1 < args.len() {
            (asked, ArgStopView::Repo(args[i + 1], i + 2))
        } else {
            (asked, ArgStopView::Refused("Missing value for --repo."@))
        }
    } else if begins_with(args[i], "--period="@) {
        let value = args[i].skip("--period="@.len() as int);
        reading(args, i + 1, UsageArgsView { period: value, ..asked })
    } else if begins_with(args[i], "--repo="@) {
        let value = args[i].skip("--repo="@.len() as int);
        (asked, ArgStopView::Repo(value, i + 1))
    } else {
        (asked, ArgStopView::Refused("Unknown argument: "@ + args[i]))
    }
}

/// Reads the arguments from position `from` on, up to a repository that has to be looked up.
pub fn read_args(args: &Vec<String>, from: usize, before: UsageArgs) -> (read: (
    UsageArgs,
    ArgStop,
))
    ensures
        (read.0@, read.1@) == reading(texts(args@), from as int, before@),
{
    let ghost all = texts(args@);
    let ghost whole = reading(all, from as int, before@);
    let mut asked = before;
    let mut i: usize = from;
    while i < args.len()
        invariant
            all == texts(args@),
            whole == reading(all, from as int, before@),
            reading(all, i as int, asked@) == whole,
        decreases args.len() - i,
    {
        let arg = args[i].as_str();
        assert(arg@ == all[i as int]);
        if same_text(arg, "--json") {
            asked.json = true;
            i += 1;
        } else if same_text(arg, "--help") || same_text(arg, "-h") {
            return (asked, ArgStop::Help);
        } else if same_text(arg, "--period") {
            if args.len() - i < 2 {
                return (asked, ArgStop::Refused("Missing value for --period.".to_owned()));
            }
            asked.period = args[i + 1].clone();
            i += 2;
        } else if same_text(arg, "--repo") {
            if args.len() - i < 2 {
                return (asked, ArgStop::Refused("Missing value for --repo.".to_owned()));
            }
            return (asked, ArgStop::Repo(args[i + 1].clone(), i + 2));
        } else if let Some(value) = after_prefix(arg, "--period=") {
            asked.period = value;
            i += 1;
        } else if let Some(value) = after_prefix(arg, "--repo=") {
            return (asked, ArgStop::Repo(value, i + 1));
        } else {
            return (asked, ArgStop::Refused("Unknown argument: ".to_owned().concat(arg)));
        }
    }
    (asked, ArgStop::End)
}

/// A period in the same argument as its option means what it means in the next one.
pub proof fn lemma_period_forms(args: Seq<Seq<char>>, i: int, asked: UsageArgsView, value: Seq<char>)
    requires
        0 <= i < args.len(),
    ensures
        args[i] == "--period="@ + value ==> reading(args, i, asked) == reading(
            args,
            i + 1,
            UsageArgsView { period: value, ..asked },
        ),
        i + 1 < args.len() && args[i] == "--period"@ && args[i + 1] == value ==> reading(
            args,
            i,
            asked,
        ) == reading(args, i + 2, UsageArgsView { period: value, ..asked }),
{
    reveal_strlit("--json");
    reveal_strlit("--help");
    reveal_strlit("-h");
    reveal_strlit("--period");
    reveal_strlit("--repo");
    reveal_strlit("--period=");
    let arg = args[i];
    if arg == "--period="@ + value {
        assert(arg.subrange(0, 9) =~= "--period="@);
        assert(arg.skip(9) =~= value);
        assert(arg[2] == 'p' && arg[8] == '=');
    }
}

/// A repository in the same argument as its option means what it means in the next one.
pub proof fn lemma_repo_forms(args: Seq<Seq<char>>, i: int, asked: UsageArgsView, value: Seq<char>)
    requires
        0 <= i < args.len(),
    ensures
        args[i] == "--repo="@ + value ==> reading(args, i, asked) == (
            asked,
            ArgStopView::Repo(value, i + 1),
        ),
        i + 1 < args.len() && args[i] == "--repo"@ && args[i + 1] == value ==> reading(
            args,
            i,
            asked,
        ) == (asked, ArgStopView::Repo(value, i + 2)),
{
    reveal_strlit("--json");
    reveal_strlit("--help");
    reveal_strlit("-h");
    reveal_strlit("--period");
    reveal_strlit("--repo");
    reveal_strlit("--period=");
    reveal_strlit("--repo=");
    let arg = args[i];
    assert("--json"@[2] == 'j' && "--help"@[2] == 'h' && "--period="@[2] == 'p');
    if arg == "--repo="@ + value {
        assert(arg.subrange(0, 7) =~= "--repo="@);
        assert(arg.skip(7) =~= value);
        assert(arg[2] == 'r');
    }
    if arg == "--repo"@ {
        assert(arg[2] == 'r');
    }
    if begins_with(arg, "--period="@) {
        assert(arg.subrange(0, 9)[2] == arg[2]);
    }
}

/// Of several periods the last one counts: what was asked for before a period is given makes no
/// difference to it.
pub proof fn lemma_later_period_counts(
    args: Seq<Seq<char>>,
    i: int,
    asked: UsageArgsView,
    other: Seq<char>,
    value: Seq<char>,
)
    requires
        0 <= i < args.len(),
        args[i] == "--period="@ + value || (i + 1 < args.len() && args[i] == "--period"@ && args[i
            + 1] == value),
    ensures
        reading(args, i, asked) == reading(args, i, UsageArgsView { period: other, ..asked }),
{
    lemma_period_forms(args, i, asked, value);
    lemma_period_forms(args, i, UsageArgsView { period: other, ..asked }, value);
}

/// Reading on keeps what was asked for: JSON stays asked for, and so does a repository until
/// another is looked up.
pub proof fn lemma_reading_keeps(args: Seq<Seq<char>>, i: int, asked: UsageArgsView)
    ensures
        asked.json ==> reading(args, i, asked).0.json,
        reading(args, i, asked).0.repo_filter == asked.repo_filter,
    decreases args.len() - i,
{
    if i < args.len() {
        lemma_reading_keeps(args, i + 1, UsageArgsView { json: true, ..asked });
        if begins_with(args[i], "--period="@) {
            let value = args[i].skip("--period="@.len() as int);
            lemma_reading_keeps(args, i + 1, UsageArgsView { period: value, ..asked });
        }
        if i + 1 < args.len() {
            lemma_reading_keeps(args, i + 2, UsageArgsView { period: args[i + 1], ..asked });
        }
    }
}

/// A repository is read together with its value, so what follows it starts further on, and no
/// later than after the last argument.
pub proof fn lemma_reading_advances(args: Seq<Seq<char>>, i: int, asked: UsageArgsView)
    ensures
        reading(args, i, asked).1 matches ArgStopView::Repo(_, next) ==> i < next <= args.len(),
    decreases args.len() - i,
{
    if i < args.len() {
        lemma_reading_advances(args, i + 1, UsageArgsView { json: true, ..asked });
        if begins_with(args[i], "--period="@) {
            let value = args[i].skip("--period="@.len() as int);
            lemma_reading_advances(args, i + 1, UsageArgsView { period: value, ..asked });
        }
        if i + 1 < args.len() {
            lemma_reading_advances(args, i + 2, UsageArgsView { period: args[i + 1], ..asked });
        }
    }
}

/// No option is written as another is.
proof fn lemma_options_differ()
    ensures
        "--json"@ != "--help"@,
        "--json"@ != "-h"@,
        "--period"@ != "--json"@,
        "--period"@ != "--help"@,
        "--period"@ != "-h"@,
        "--repo"@ != "--json"@,
        "--repo"@ != "--help"@,
        "--repo"@ != "-h"@,
        "--repo"@ != "--period"@,
        !begins_with("--repo"@, "--period="@),
{
    reveal_strlit("--json");
    reveal_strlit("--help");
    reveal_strlit("-h");
    reveal_strlit("--period");
    reveal_strlit("--repo");
    reveal_strlit("--period=");
    assert("--json"@[2] == 'j' && "--help"@[2] == 'h' && "--repo"@[2] == 'r');
    assert("-h"@[1] == 'h');
    assert("--json"@[1] == '-' && "--period"@[1] == '-' && "--repo"@[1] == '-');
}

/// After the last argument nothing more is asked for.
pub proof fn lemma_all_read(args: Seq<Seq<char>>, asked: UsageArgsView)
    ensures
        reading(args, args.len() as int, asked) == (asked, ArgStopView::End),
{
}

/// `--json` asks for JSON wherever it is read, as the last argument too, and for nothing else.
pub proof fn lemma_json_asked(args: Seq<Seq<char>>, i: int, asked: UsageArgsView)
    requires
        0 <= i < args.len(),
        args[i] == "--json"@,
    ensures
        reading(args, i, asked) == reading(args, i + 1, UsageArgsView { json: true, ..asked }),
        reading(args, i, asked).0.json,
        i + 1 == args.len() ==> reading(args, i, asked) == (
            UsageArgsView { json: true, period: asked.period, repo_filter: asked.repo_filter },
            ArgStopView::End,
        ),
{
    lemma_reading_keeps(args, i + 1, UsageArgsView { json: true, ..asked });
    lemma_all_read(args, UsageArgsView { json: true, ..asked });
}

/// JSON is only asked for by `--json`.
pub proof fn lemma_json_asked_by_option(args: Seq<Seq<char>>, i: int, asked: UsageArgsView)
    requires
        0 <= i,
        !asked.json,
        reading(args, i, asked).0.json,
    ensures
        exists|j: int| i <= j < args.len() && #[trigger] args[j] == "--json"@,
    decreases args.len() - i,
{
    if i < args.len() && args[i] != "--json"@ {
        if args[i] == "--period"@ {
            lemma_json_asked_by_option(args, i + 2, UsageArgsView { period: args[i + 1], ..asked });
        } else {
            let value = args[i].skip("--period="@.len() as int);
            lemma_json_asked_by_option(args, i + 1, UsageArgsView { period: value, ..asked });
        }
    }
}

/// Help is given as soon as it is asked for, whatever follows.
pub proof fn lemma_help_asked(args: Seq<Seq<char>>, i: int, asked: UsageArgsView)
    requires
        0 <= i < args.len(),
        args[i] == "--help"@ || args[i] == "-h"@,
    ensures
        reading(args, i, asked) == (asked, ArgStopView::Help),
{
    lemma_options_differ();
}

/// An option that takes its value from the next argument is refused where there is none.
pub proof fn lemma_missing_value(args: Seq<Seq<char>>, i: int, asked: UsageArgsView)
    requires
        0 <= i,
        i + 1 == args.len(),
    ensures
        args[i] == "--period"@ ==> reading(args, i, asked) == (
            asked,
            ArgStopView::Refused("Missing value for --period."@),
        ),
        args[i] == "--repo"@ ==> reading(args, i, asked) == (
            asked,
            ArgStopView::Refused("Missing value for --repo."@),
        ),
{
    lemma_options_differ();
}

/// An argument that is no option is refused, and named.
pub proof fn lemma_unknown_argument(args: Seq<Seq<char>>, i: int, asked: UsageArgsView)
    requires
        0 <= i < args.len(),
        args[i] != "--json"@,
        args[i] != "--help"@,
        args[i] != "-h"@,
        args[i] != "--period"@,
        args[i] != "--repo"@,
        forall|value: Seq<char>| args[i] != #[trigger] ("--period="@ + value),
        forall|value: Seq<char>| args[i] != #[trigger] ("--repo="@ + value),
    ensures
        reading(args, i, asked) == (asked, ArgStopView::Refused("Unknown argument: "@ + args[i])),
{
    let arg = args[i];
    if begins_with(arg, "--period="@) {
        assert(arg =~= "--period="@ + arg.skip("--period="@.len() as int)) by {
            assert(arg.subrange(0, "--period="@.len() as int) == "--period="@);
        }
    }
    if begins_with(arg, "--repo="@) {
        assert(arg =~= "--repo="@ + arg.skip("--repo="@.len() as int)) by {
            assert(arg.subrange(0, "--repo="@.len() as int) == "--repo="@);
        }
    }
}

} // verus!
