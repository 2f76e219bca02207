//! Counts code, comment and blank lines of source files.
//!
//! A file type is described by data: its extensions and the markers that
//! start a line comment or open and close a block comment. Every line of a
//! file is put into one of three categories by a small state machine, and
//! the per-file counts are summed per file type.
//!
//! - [`config`] holds the description of file types.
//! - [`registry`] says how the file types of an analyzer are kept and found.
//! - [`file_name`] finds the extension of a file name.
//! - [`text`] has what is needed of character sequences: trimming, searching,
//!   lines, numbers in base ten.
//! - [`classify`] is the line classifier and the counting of lines.
//! - [`report`] holds the result of one file and the report over many, and
//!   writes a report as text.
//! - [`analyzer`] puts them together: [`analyzer::CodeAnalyzer`].
//! - [`laws`] proves what holds of all inputs.
//!
//! Reading directories and files, reading the configuration and printing the
//! report are left to the caller.

pub mod analyzer;
pub mod classify;
pub mod config;
pub mod file_name;
pub mod laws;
pub mod registry;
pub mod report;
pub mod text;
