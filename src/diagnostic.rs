use vstd::prelude::*;

verus! {

/// What went wrong while scanning.
#[derive(Debug, Clone, Copy, PartialEq, Eq)]
pub enum ErrorKind {
    /// A `"` was opened and the input ended before it was closed.
    UnterminatedString,
    /// A character that starts no token.
    UnexpectedCharacter(char),
}

/// A lexical error: where it was found, what it is, and a message for people.
#[derive(Debug, Clone, PartialEq)]
pub struct Diagnostic {
    pub line: usize,
    pub kind: ErrorKind,
    pub message: String,
}

/// The mathematical counterpart of `Diagnostic`.
pub struct DiagnosticView {
    pub line: nat,
    pub kind: ErrorKind,
    pub message: Seq<char>,
}

impl View for Diagnostic {
    type V = DiagnosticView;

    open spec fn view(&self) -> DiagnosticView {
        DiagnosticView { line: self.line as nat, kind: self.kind, message: self.message@ }
    }
}

/// The views of a sequence of diagnostics.
pub open spec fn diagnostic_views(ds: Seq<Diagnostic>) -> Seq<DiagnosticView> {
    ds.map_values(|d: Diagnostic| d@)
}

/// Records an error of the given kind found on `line`.
pub fn error(line: usize, kind: ErrorKind, message: &str) -> (d: Diagnostic)
    ensures
        d@ == (DiagnosticView { line: line as nat, kind, message: message@ }),
{
    Diagnostic { line, kind, message: message.to_string() }
}

} // verus!
