//! A verified core for an IRC-log grep tool.
//!
//! Log lines are tab-delimited records: timestamp, speaker, message. The
//! library parses such records ([`line_view::LineView`]), classifies each
//! line against a match configuration ([`matching::match_line`]), and runs
//! the streaming context-window engine ([`engine::Engine`]) that decides
//! which lines to emit around a match, or tallies match counts.
//!
//! Reading log files, command-line handling and colored output are left to
//! the caller; the library works on plain lines of text.

use vstd::prelude::*;

pub mod engine;
pub mod line_view;
pub mod matching;
pub mod settings;
pub mod text;

verus! {

/// The ways a run can fail: a record without its two tab delimiters, a
/// pattern that is not a valid regular expression, and a configuration
/// whose options contradict each other (or select nothing at all).
#[derive(Clone, Copy, Debug, PartialEq, Eq, Structural)]
pub enum GrepError {
    MalformedLine,
    InvalidPattern,
    ConfigConflict,
}

impl GrepError {
    /// A short description of the error, as the tool reports it.
    pub fn describe(&self) -> (r: &'static str)
        ensures
            r@ == self.spec_describe(),
    {
        match self {
            GrepError::MalformedLine => "malformed log line: fewer than two tabs",
            GrepError::InvalidPattern => "invalid regex",
            GrepError::ConfigConflict => "conflicting or missing options",
        }
    }

    pub open spec fn spec_describe(self) -> Seq<char> {
        match self {
            GrepError::MalformedLine => "malformed log line: fewer than two tabs"@,
            GrepError::InvalidPattern => "invalid regex"@,
            GrepError::ConfigConflict => "conflicting or missing options"@,
        }
    }
}

} // verus!
