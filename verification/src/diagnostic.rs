use vstd::prelude::*;

verus! {

/// A stretch of source text: character offsets and the 1-based line and column of its start.
#[derive(Clone, Copy, Debug, PartialEq, Eq)]
pub struct Span {
    pub start: usize,
    pub end: usize,
    pub line: usize,
    pub column: usize,
}

/// A place in a named file.
#[derive(Clone, Debug)]
pub struct Location {
    pub file: String,
    pub line: usize,
    pub column: usize,
}

/// A refusal with a stable code, where it happened and why.
#[derive(Clone, Debug)]
pub struct Diagnostic {
    pub location: Location,
    pub code: String,
    pub message: String,
}

impl Diagnostic {
    pub fn new(file: &str, span: Span, code: &str, message: String) -> (d: Diagnostic)
        ensures
            d.location.file@ == file@,
            d.location.line == span.line,
            d.location.column == span.column,
            d.code@ == code@,
            d.message@ == message@,
    {
        Diagnostic {
            location: Location { file: file.to_owned(), line: span.line, column: span.column },
            code: code.to_owned(),
            message,
        }
    }
}

} // verus!
