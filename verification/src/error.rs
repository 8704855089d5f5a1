//! Diagnostics that a scan reports.

use vstd::prelude::*;
use vstd::string::*;
use crate::text::{decimal_string, decimal_text};

verus! {

/// What went wrong at some point of the source text.
#[derive(Debug, Clone, Copy, PartialEq, Eq, Structural, Hash)]
pub enum ScanErrorKind {
    /// A character that starts no lexical category.
    UnexpectedCharacter,
    /// The end of input came before the closing quote of a string literal.
    UnterminatedString,
    /// The end of input came before every open block comment was closed.
    UnterminatedBlockComment,
    /// A number literal whose text denotes no number. The grammar of number
    /// literals admits no such text, so no scan reports this kind; it is
    /// here for a later stage that converts literals to another number type.
    InvalidNumberLiteral,
}

/// The text that describes each kind of error.
pub open spec fn message_text(kind: ScanErrorKind) -> Seq<char> {
    match kind {
        ScanErrorKind::UnexpectedCharacter => "Unexpected character."@,
        ScanErrorKind::UnterminatedString => "Unterminated string."@,
        ScanErrorKind::UnterminatedBlockComment => "Unterminated block comment."@,
        ScanErrorKind::InvalidNumberLiteral => "Invalid number literal."@,
    }
}

impl ScanErrorKind {
    /// The text that describes this kind of error.
    pub fn message(&self) -> (text: &'static str)
        ensures
            text@ == message_text(*self),
    {
        match self {
            ScanErrorKind::UnexpectedCharacter => "Unexpected character.",
            ScanErrorKind::UnterminatedString => "Unterminated string.",
            ScanErrorKind::UnterminatedBlockComment => "Unterminated block comment.",
            ScanErrorKind::InvalidNumberLiteral => "Invalid number literal.",
        }
    }
}

/// An error found while scanning, with the line that was current when it was
/// found.
#[derive(Debug, Clone, Copy, PartialEq, Eq, Structural, Hash)]
pub struct ScanError {
    pub kind: ScanErrorKind,
    pub line: usize,
}

/// The mathematical content of a [`ScanError`].
pub struct ScanErrorView {
    pub kind: ScanErrorKind,
    pub line: nat,
}

impl View for ScanError {
    type V = ScanErrorView;

    open spec fn view(&self) -> ScanErrorView {
        ScanErrorView { kind: self.kind, line: self.line as nat }
    }
}

/// The diagnostic line for an error: `[line N] Error: ` and the message of
/// its kind, with `N` the line in decimal notation.
pub open spec fn report_text(error: ScanErrorView) -> Seq<char> {
    "[line "@ + decimal_text(error.line) + "] Error: "@ + message_text(error.kind)
}

impl ScanError {
    /// The diagnostic line for this error.
    pub fn report(&self) -> (text: String)
        ensures
            text@ == report_text(self@),
    {
        let mut text = String::from_str("[line ");
        let number = decimal_string(self.line);
        text.append(number.as_str());
        text.append("] Error: ");
        text.append(self.kind.message());
        text
    }
}

/// The contents of a sequence of errors, in order.
pub open spec fn error_views(errors: Seq<ScanError>) -> Seq<ScanErrorView> {
    Seq::new(errors.len(), |i: int| errors[i]@)
}

} // verus!
