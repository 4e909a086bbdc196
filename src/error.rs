//! The errors of each stage of the pipeline.
use vstd::prelude::*;

verus! {

/// A failure of the scanner, the parser or the interpreter.
#[derive(Debug, Clone, PartialEq, Eq)]
pub enum CrawlError {
    /// A lexical failure at `position` (a character offset) on `line`.
    ScannerError { position: usize, line: usize, lexeme: String, reason: String },
    /// A grammar violation at the given token.
    ParserError { token: String },
    /// A semantic failure while evaluating a statement.
    InterpreterError { reason: String },
}

impl CrawlError {
    /// A copy of this error.
    pub fn duplicate(&self) -> (r: Self)
        ensures
            r == *self,
    {
        match self {
            CrawlError::ScannerError { position, line, lexeme, reason } => CrawlError::ScannerError {
                position: *position,
                line: *line,
                lexeme: lexeme.clone(),
                reason: reason.clone(),
            },
            CrawlError::ParserError { token } => CrawlError::ParserError { token: token.clone() },
            CrawlError::InterpreterError { reason } => CrawlError::InterpreterError { reason: reason.clone() },
        }
    }

    pub open spec fn is_scanner_error(&self) -> bool {
        self is ScannerError
    }

    pub open spec fn is_parser_error(&self) -> bool {
        self is ParserError
    }

    pub open spec fn is_interpreter_error(&self) -> bool {
        self is InterpreterError
    }
}

} // verus!
