# usage_report

The verified core of `git-ai usage`, a command that reports local activity over a
window of time.

- `src/` is the library: what a `--period` value selects (`period`, `date`, `clock`),
  how arguments are read and what the command does next (`args`, `repo`, `command`),
  how numbers are written (`numbers`, `rounding`), and how statistics are laid out
  for a terminal (`stats`, `terminal`, `heatmap`, `shading`, `ticks`, `style`, `text`).
  Every function states what it returns, and Verus proves it.
- `app/` is ordinary Rust around it: printing, exit codes, JSON, and costs in floating
  point. The rest of the tool takes part through the trait `Host`.
- `tests/` runs the library.

What is taken on trust stands next to the calls into chrono and the standard library:
the calendar arithmetic and the date notation in `date`, the time zone and the clock in
`clock`, the uppercase mapping of Unicode in `terminal`, and `String::push` in `text`.
