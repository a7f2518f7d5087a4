//! Pretty logging and small terminal utilities, with verified core logic.
//!
//! The heart of the crate is the syntax highlighter: it scans a line of
//! text for lexical tokens (quoted strings, numbers, boolean-like words,
//! `key:` labels, brackets), resolves overlaps between token classes by a
//! fixed priority order, and produces a copy of the line in which each
//! winning span is wrapped in a terminal color escape sequence while all
//! other text passes through unchanged.
//!
//! - [`tokens`] defines the token grammar and the per-class scanners;
//! - [`resolve`] builds the priority-resolved, non-overlapping span table;
//! - [`render`] renders the table into the colorized line (`highlight_syntax`);
//! - [`laws`] states and proves the laws of the pipeline;
//! - [`log`] holds the log levels, the verbosity gate and the pretext pieces;
//! - the remaining modules are the plumbing around the core.

pub mod tokens;
pub mod resolve;
pub mod render;
pub mod laws;
pub mod log;
pub mod net;
pub mod discord;
pub mod snips;
pub mod disk;
pub mod cli;
