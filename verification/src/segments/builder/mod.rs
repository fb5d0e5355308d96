//! From a configuration to lines of segments: `lines` reads the configured
//! lines, `catalog` and `overrides` make each segment, `dispatch` puts the
//! lines together. `model` says what comes out, and the modules of laws what
//! holds of it.

pub mod catalog;
pub mod dispatch;
pub mod entry_laws;
pub mod find_laws;
pub mod laws;
pub mod lines;
pub mod model;
pub mod overrides;
pub mod setting_laws;

pub use crate::segments::builder::dispatch::{build_default_segments, build_lines, build_segments};
