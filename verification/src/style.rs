//! The escape sequences that color a terminal.

use vstd::prelude::*;

verus! {

pub const GRAY: &'static str = "\x1b[90m";

pub const BOLD: &'static str = "\x1b[1m";

pub const RESET: &'static str = "\x1b[0m";

pub const ORANGE: &'static str = "\x1b[38;5;208m";

/// Distinct from orange, so that lines and spend do not blend together.
pub const BLUE: &'static str = "\x1b[38;5;33m";

} // verus!
