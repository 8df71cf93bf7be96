//! Local activity reports: which window a `--period` value selects, and how the
//! statistics of that window are laid out for a terminal.

pub mod args;
pub mod clock;
pub mod command;
pub mod date;
pub mod heatmap;
pub mod numbers;
pub mod period;
pub mod repo;
pub mod results;
pub mod rounding;
pub mod shading;
pub mod stats;
pub mod style;
pub mod terminal;
pub mod text;
pub mod ticks;
