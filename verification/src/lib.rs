//! The engine of a status line for the terminal: segments and their
//! configuration, the layout that fits them into the width of the terminal,
//! what plugins may hand over, and diagnostics.
//!
//! A host reads the payload and the configuration, hands them over as plain
//! values, and writes out what [`run`] and its relatives give back.

pub mod call_laws;
pub mod cells;
pub mod config;
pub mod data_context;
pub mod diagnostics;
pub mod driver;
pub mod layout;
pub mod logging;
pub mod plugins;
pub mod presets;
pub mod segments;
pub mod text;
pub mod text_laws;
pub mod theme;
pub mod value;

pub use crate::driver::{
    resolve_terminal_width, run, run_lines_with_context, run_with_context,
    run_with_segments_and_width, run_with_width, RunContext, RunOutput, DEFAULT_TERMINAL_WIDTH,
};
pub use crate::segments::builder::dispatch::{build_default_segments, build_lines, build_segments};
