//! Lexical diagnostics, returned to the caller as explicit values.
//!
//! The scanner never aborts on bad input: each lexical error becomes one
//! [`Diagnostic`] in an ordered list, and the overall "had error" signal is
//! simply whether that list is non-empty. A driver renders a diagnostic as
//! `[line {line}] Error {context}: {message}` when printing it.

use vstd::prelude::*;

verus! {

/// One reported lexical error: the 1-based source line, a context string
/// (empty for every error the scanner itself reports; reserved for a later
/// grammar stage), and the human-readable message.
#[derive(Debug, PartialEq)]
pub struct Diagnostic {
    pub line: usize,
    pub context: String,
    pub message: String,
}

/// The model of a diagnostic, with the text fields as character sequences.
pub ghost struct DiagModel {
    pub line: int,
    pub context: Seq<char>,
    pub message: Seq<char>,
}

impl View for Diagnostic {
    type V = DiagModel;

    open spec fn view(&self) -> DiagModel {
        DiagModel { line: self.line as int, context: self.context@, message: self.message@ }
    }
}

/// Builds the diagnostic record for an error at `line` with the given
/// context and message.
pub fn report(line: usize, location: String, message: String) -> (d: Diagnostic)
    ensures
        d@.line == line as int,
        d@.context == location@,
        d@.message == message@,
{
    Diagnostic { line, context: location, message }
}

/// Builds the diagnostic record for an error at `line` with an empty context.
pub fn error(line: usize, message: String) -> (d: Diagnostic)
    ensures
        d@.line == line as int,
        d@.context == Seq::<char>::empty(),
        d@.message == message@,
{
    report(line, String::new(), message)
}

} // verus!
