//! Plugins: what scripts are given, and what they give back.

pub mod laws;
pub mod output;
pub mod script;
