//! Core of `pf`, a small utility that shows the first or last N lines of a
//! text, with a per-user diagnostic log.
//!
//! The crate holds the tool's logic: splitting text into lines, selecting a
//! bounded window of them, assembling piped input, parsing the line-count
//! argument, deciding what a run does, and naming each failure with its exit
//! policy. All I/O (files, standard streams, signals, the logger) lives
//! outside, and hands these functions plain values.

pub mod cli;
pub mod diag;
pub mod input;
pub mod lines;
