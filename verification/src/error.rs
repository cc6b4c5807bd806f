//! Diagnostics for the configuration front end.
//!
//! Every failure of the lexer or parser is fatal and carries the 1-based
//! line number it occurred on; the surrounding program renders the message.

use vstd::prelude::*;

verus! {

/// What went wrong while reading a configuration.
#[derive(Debug, Clone, Copy, PartialEq, Eq, Structural)]
pub enum ParseErrorKind {
    /// A double-quoted string was opened and never closed; the line is the
    /// one the quote opened on.
    UnclosedQuote,
    /// A rule did not begin with `permit` or `deny`.
    ExpectedAction,
    /// No username or `:group` followed the action and its options.
    ExpectedIdentity,
    /// No target user followed `as`.
    ExpectedTarget,
    /// No command path followed `cmd`.
    ExpectedCommand,
}

/// A fatal lexical or syntax error: the first one encountered aborts
/// parsing, and the whole configuration is rejected.
#[derive(Debug, Clone, Copy, PartialEq, Eq, Structural)]
pub struct ParseError {
    pub kind: ParseErrorKind,
    /// 1-based line the error occurred on.
    pub line: usize,
}

} // verus!
