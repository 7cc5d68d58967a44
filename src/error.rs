//! Diagnostics.
use vstd::prelude::*;

verus! {

/// A diagnostic: a message, the line and column it refers to, and an
/// optional hint on how to fix it.
#[derive(Debug, Clone)]
pub struct CompileError {
    pub message: String,
    pub line: usize,
    pub column: usize,
    pub help: Option<String>,
}

impl CompileError {
    /// A diagnostic without a hint.
    pub fn new(msg: &str, line: usize, column: usize) -> (r: Self)
        ensures
            r.message@ == msg@,
            r.line == line,
            r.column == column,
            r.help is None,
    {
        CompileError { message: msg.to_owned(), line, column, help: None }
    }

    /// The same diagnostic with a hint.
    pub fn help(self, text: &str) -> (r: Self)
        ensures
            r.message == self.message,
            r.line == self.line,
            r.column == self.column,
            r.help matches Some(h) && h@ == text@,
    {
        CompileError { message: self.message, line: self.line, column: self.column, help: Some(text.to_owned()) }
    }
}

} // verus!
