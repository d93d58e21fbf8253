//! Parser error types.

use vstd::prelude::*;
use vstd::string::StringExecFns;
use crate::parser::directive::Location;
use crate::text::{decimal, push_decimal};

verus! {

/// Error type for parsing failures.
#[derive(Debug)]
pub enum ParseError {
    /// Failed to parse a directive.
    InvalidDirective {
        /// Line number where the error occurred.
        line: usize,
        /// Column number where the error occurred.
        column: usize,
        /// Description of the error.
        message: String,
    },
    /// Unterminated string literal.
    UnterminatedString {
        /// Line number where the string started.
        line: usize,
        /// Column number where the string started.
        column: usize,
    },
    /// Unexpected end of input.
    UnexpectedEof {
        /// Line number where input ended.
        line: usize,
        /// Column number where input ended.
        column: usize,
    },
    /// The source could not be read; holds the reason.
    Io(String),
}

/// The text `at line L, column C` with both numbers in decimal.
pub open spec fn position_text(line: usize, column: usize) -> Seq<char> {
    " at line "@ + decimal(line as nat) + ", column "@ + decimal(column as nat)
}

impl ParseError {
    /// The message that describes the error.
    pub open spec fn message(self) -> Seq<char> {
        match self {
            ParseError::InvalidDirective { line, column, message } => "Failed to parse directive"@
                + position_text(line, column) + ": "@ + message@,
            ParseError::UnterminatedString { line, column } => "Unterminated string"@
                + position_text(line, column),
            ParseError::UnexpectedEof { line, column } => "Unexpected end of input"@
                + position_text(line, column),
            ParseError::Io(reason) => "IO error: "@ + reason@,
        }
    }

    /// Creates a new `InvalidDirective` error.
    pub fn invalid_directive(location: &Location, message: &str) -> (e: ParseError)
        ensures
            e matches ParseError::InvalidDirective { line, column, message: m } && line
                == location.line && column == location.column && m@ == message@,
    {
        ParseError::InvalidDirective {
            line: location.line,
            column: location.column,
            message: String::from_str(message),
        }
    }

    /// Creates a new `UnterminatedString` error.
    pub fn unterminated_string(location: &Location) -> (e: ParseError)
        ensures
            e == (ParseError::UnterminatedString { line: location.line, column: location.column }),
    {
        ParseError::UnterminatedString { line: location.line, column: location.column }
    }

    /// Creates a new `UnexpectedEof` error.
    pub fn unexpected_eof(location: &Location) -> (e: ParseError)
        ensures
            e == (ParseError::UnexpectedEof { line: location.line, column: location.column }),
    {
        ParseError::UnexpectedEof { line: location.line, column: location.column }
    }

    /// Renders the error as a message for the user.
    pub fn to_string(&self) -> (r: String)
        ensures
            r@ == self.message(),
    {
        match self {
            ParseError::InvalidDirective { line, column, message } => {
                let mut r = String::from_str("Failed to parse directive");
                push_position(&mut r, *line, *column);
                r.append(": ");
                r.append(message.as_str());
                r
            },
            ParseError::UnterminatedString { line, column } => {
                let mut r = String::from_str("Unterminated string");
                push_position(&mut r, *line, *column);
                r
            },
            ParseError::UnexpectedEof { line, column } => {
                let mut r = String::from_str("Unexpected end of input");
                push_position(&mut r, *line, *column);
                r
            },
            ParseError::Io(reason) => {
                let mut r = String::from_str("IO error: ");
                r.append(reason.as_str());
                r
            },
        }
    }
}

fn push_position(out: &mut String, line: usize, column: usize)
    ensures
        final(out)@ == old(out)@ + position_text(line, column),
{
    out.append(" at line ");
    push_decimal(out, line);
    out.append(", column ");
    push_decimal(out, column);
}

} // verus!
