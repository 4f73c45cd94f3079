//! Command-line lexing and parsing.
//!
//! The tokenizer handles single and double quotes, backslash escapes,
//! `$NAME` / `${NAME}`-free variable expansion, and splits out the
//! operators `>`, `>>`, `1>`, `1>>`, `2>`, `2>>`, `|` and `&`.  The parser
//! groups tokens into pipeline stages and pulls out the redirections.

pub mod parse;
pub mod tokenize;

pub use parse::{collect_redirects, parse, parse_pipeline, ParsedCommand, Pipeline};


pub use tokenize::tokenize;

use vstd::prelude::*;

verus! {

/// What can go wrong while reading a command line.
#[derive(Debug, PartialEq, Eq, Clone, Copy)]
pub enum ParseError {
    /// The line ends inside single quotes.
    UnterminatedSingleQuote,
    /// The line ends inside double quotes.
    UnterminatedDoubleQuote,
    /// The line ends with a lone backslash outside quotes.
    TrailingBackslash,
    /// A redirection operator has no target after it.
    MissingRedirectTarget,
    /// A pipeline has an empty stage (leading, trailing or doubled `|`).
    EmptyPipelineSegment,
    /// `${...}` holds something that is not a variable name.
    BadSubstitution,
    /// `${` is not closed by `}` before the end of the line.
    UnterminatedBraceExpansion,
}

/// The text that a shell prints for `e`.
pub open spec fn parse_error_text(e: ParseError) -> Seq<char> {
    match e {
        ParseError::UnterminatedSingleQuote => "syntax error: unterminated single quote"@,
        ParseError::UnterminatedDoubleQuote => "syntax error: unterminated double quote"@,
        ParseError::TrailingBackslash => "syntax error: trailing backslash"@,
        ParseError::MissingRedirectTarget => "syntax error: missing redirect target"@,
        ParseError::EmptyPipelineSegment => "syntax error: empty pipeline segment"@,
        ParseError::BadSubstitution => "syntax error: bad substitution"@,
        ParseError::UnterminatedBraceExpansion => "syntax error: unterminated brace expansion"@,
    }
}

impl ParseError {
    /// The message shown to the user for this error.
    pub fn message(&self) -> (m: String)
        ensures
            m@ == parse_error_text(*self),
    {
        match self {
            ParseError::UnterminatedSingleQuote => "syntax error: unterminated single quote".to_owned(),
            ParseError::UnterminatedDoubleQuote => "syntax error: unterminated double quote".to_owned(),
            ParseError::TrailingBackslash => "syntax error: trailing backslash".to_owned(),
            ParseError::MissingRedirectTarget => "syntax error: missing redirect target".to_owned(),
            ParseError::EmptyPipelineSegment => "syntax error: empty pipeline segment".to_owned(),
            ParseError::BadSubstitution => "syntax error: bad substitution".to_owned(),
            ParseError::UnterminatedBraceExpansion => "syntax error: unterminated brace expansion".to_owned(),
        }
    }
}

} // verus!
