//! A line-oriented pattern-search library.
//!
//! Given a compiled pattern and a sequence of text lines, the library decides
//! per line whether the pattern occurs, and renders output in one of several
//! modes: match counting, inverted selection, plain match listing, and three
//! context-window modes (trailing, leading, symmetric), with optional 1-based
//! line numbering and optional in-line highlighting of matched substrings.
//!
//! Pattern matching itself is delegated to the `regex` crate behind a small
//! trusted interface; everything computed from the matcher's answers — which
//! lines are selected, how context windows are assembled and grouped, where
//! separators go, and what each output line contains — is verified.

pub mod error;
pub mod flag;
pub mod matcher;
pub mod process;
pub mod utils;
