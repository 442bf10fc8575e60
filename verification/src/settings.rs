//! The match configuration: which lines are selected and how output is
//! shaped, together with its one-time validation.

use crate::matching::{regex_compiles, regex_valid};
use crate::GrepError;
use vstd::prelude::*;

verus! {

/// The mathematical content of a [`Settings`] value: every field by its
/// view.
pub ghost struct ConfigModel {
    /// Exact speaker filter; empty means no filter.
    pub nickname: Seq<char>,
    /// Search pattern; empty means no content filter.
    pub pattern: Seq<char>,
    /// Lines of context kept before a match and echoed after one.
    pub context: nat,
    /// Skip join/part/quit notices outright.
    pub strip_joins: bool,
    /// Drop timestamps from output (mutually exclusive with counting).
    pub strip_time_stamps: bool,
    /// Tally matches instead of printing lines.
    pub count: bool,
    /// Treat the pattern as a literal substring, not a regex.
    pub fixed: bool,
}

/// One run's match configuration, immutable while files are processed.
pub struct Settings {
    pub nickname: String,
    pub pattern_string: String,
    pub context: usize,
    pub strip_joins: bool,
    pub strip_time_stamps: bool,
    pub count: bool,
    pub fixed: bool,
}

impl View for Settings {
    type V = ConfigModel;

    open spec fn view(&self) -> ConfigModel {
        ConfigModel {
            nickname: self.nickname@,
            pattern: self.pattern_string@,
            context: self.context as nat,
            strip_joins: self.strip_joins,
            strip_time_stamps: self.strip_time_stamps,
            count: self.count,
            fixed: self.fixed,
        }
    }
}

impl Default for Settings {
    /// No filters, no context, plain streaming output.
    fn default() -> (r: Self)
        ensures
            r@ == (ConfigModel {
                nickname: Seq::<char>::empty(),
                pattern: Seq::<char>::empty(),
                context: 0nat,
                strip_joins: false,
                strip_time_stamps: false,
                count: false,
                fixed: false,
            }),
    {
        Settings {
            nickname: String::new(),
            pattern_string: String::new(),
            context: 0,
            strip_joins: false,
            strip_time_stamps: false,
            count: false,
            fixed: false,
        }
    }
}

/// The configuration errors, in the order they are checked: counting is
/// incompatible with output-shaping options; at least one filter must be
/// given; a non-fixed pattern must compile as a regex.
pub open spec fn spec_validate(c: ConfigModel) -> Result<(), GrepError> {
    if c.count && (c.strip_joins || c.strip_time_stamps || c.context > 0) {
        Err(GrepError::ConfigConflict)
    } else if c.nickname.len() == 0 && c.pattern.len() == 0 {
        Err(GrepError::ConfigConflict)
    } else if !c.fixed && c.pattern.len() > 0 && !regex_valid(c.pattern) {
        Err(GrepError::InvalidPattern)
    } else {
        Ok(())
    }
}

/// Checks the configuration once, before any file is touched.
pub fn validate_settings(settings: &Settings) -> (r: Result<(), GrepError>)
    ensures
        r == spec_validate(settings@),
{
    if settings.count && (settings.strip_joins || settings.strip_time_stamps || settings.context
        > 0) {
        return Err(GrepError::ConfigConflict);
    }
    if settings.nickname.as_str().is_empty() && settings.pattern_string.as_str().is_empty() {
        return Err(GrepError::ConfigConflict);
    }
    if !settings.fixed && !settings.pattern_string.as_str().is_empty() {
        if !regex_compiles(settings.pattern_string.as_str()) {
            return Err(GrepError::InvalidPattern);
        }
    }
    Ok(())
}

} // verus!
