//! The resolved command-line configuration and the metric-selection rules
//! that every text renderer shares.

use vstd::prelude::*;

verus! {

/// The options of one invocation, after flag parsing.
#[derive(Debug, Clone)]
pub struct Args {
    /// Paths to process, in the order given.
    pub files: Vec<String>,
    /// Show the line count.
    pub lines: bool,
    /// Show the word count.
    pub words: bool,
    /// Show the byte count.
    pub bytes: bool,
    /// Show the length of the longest line.
    pub max_line_length: bool,
    /// Leave out icons.
    pub no_color: bool,
    /// Count hidden files and directories too.
    pub all: bool,
    /// One line per input.
    pub compact: bool,
    /// List the files of a directory.
    pub verbose: bool,
    /// Render as JSON.
    pub json: bool,
    /// Glob patterns of files to leave out.
    pub exclude_patterns: Vec<String>,
    /// Glob patterns of files to keep; empty keeps all.
    pub include_patterns: Vec<String>,
}

impl Args {
    /// No metric was asked for by name, so the default set is shown.
    pub open spec fn spec_show_all(&self) -> bool {
        !self.lines && !self.words && !self.bytes && !self.max_line_length
    }

    /// Lines are shown when asked for, and by default.
    pub open spec fn spec_show_lines(&self) -> bool {
        self.lines || self.spec_show_all()
    }

    /// Words are shown when asked for, and by default.
    pub open spec fn spec_show_words(&self) -> bool {
        self.words || self.spec_show_all()
    }

    /// Bytes are shown when asked for, and by default.
    pub open spec fn spec_show_bytes(&self) -> bool {
        self.bytes || self.spec_show_all()
    }

    /// The longest line is shown only when asked for.
    pub open spec fn spec_show_max_line_length(&self) -> bool {
        self.max_line_length
    }

    #[verifier::when_used_as_spec(spec_show_lines)]
    pub fn show_lines(&self) -> (shown: bool)
        ensures
            shown == self.spec_show_lines(),
    {
        self.lines || self.show_all()
    }

    #[verifier::when_used_as_spec(spec_show_words)]
    pub fn show_words(&self) -> (shown: bool)
        ensures
            shown == self.spec_show_words(),
    {
        self.words || self.show_all()
    }

    #[verifier::when_used_as_spec(spec_show_bytes)]
    pub fn show_bytes(&self) -> (shown: bool)
        ensures
            shown == self.spec_show_bytes(),
    {
        self.bytes || self.show_all()
    }

    #[verifier::when_used_as_spec(spec_show_max_line_length)]
    pub fn show_max_line_length(&self) -> (shown: bool)
        ensures
            shown == self.spec_show_max_line_length(),
    {
        self.max_line_length
    }

    #[verifier::when_used_as_spec(spec_show_all)]
    pub fn show_all(&self) -> (all: bool)
        ensures
            all == self.spec_show_all(),
    {
        !self.lines && !self.words && !self.bytes && !self.max_line_length
    }
}

} // verus!
