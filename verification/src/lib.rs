//! Census of metric events found in newline-delimited JSON logs.
//!
//! The pipeline is linear: locate the log files in a directory listing,
//! extract the JSON objects they hold line by line, keep the `"metric"`
//! sub-objects, and count them by metric type or collect their names.

pub mod aggregate;
pub mod cli;
pub mod extract;
pub mod filter;
pub mod json;
pub mod locate;
pub mod names;
pub mod report;
pub mod text;
