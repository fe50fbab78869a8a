//! Structured lexical diagnostics.
//!
//! A `Diagnostic` records one lexical failure: what went wrong, the span of
//! source text it is anchored at, and a human-readable message.  The scanner
//! accumulates diagnostics and never aborts; whether any diagnostic stops a
//! larger pipeline is the caller's decision.

use vstd::prelude::*;
use crate::token::PositionModel;

verus! {

/// The closed set of lexical failures.
#[derive(Clone, Copy, Debug, PartialEq, Eq, Structural)]
pub enum DiagnosticKind {
    UnterminatedString,
    UnterminatedComment,
    InvalidCharacter,
    MalformedNumber,
}

/// One recorded lexical failure, anchored at a span of source text.
#[derive(Clone, Debug)]
pub struct Diagnostic {
    pub kind: DiagnosticKind,
    pub span: crate::token::TextSpan,
    pub message: String,
}

/// Mathematical image of a `Diagnostic`.
pub struct DiagnosticModel {
    pub kind: DiagnosticKind,
    pub start: PositionModel,
    pub end: PositionModel,
    pub lexeme: Seq<char>,
    pub message: Seq<char>,
}

pub open spec fn diagnostic_model(d: Diagnostic) -> DiagnosticModel {
    DiagnosticModel {
        kind: d.kind,
        start: crate::token::position_model(d.span.start),
        end: crate::token::position_model(d.span.end),
        lexeme: d.span.lexeme@,
        message: d.message@,
    }
}

/// The message text attached to each kind of diagnostic.
pub open spec fn message_text(kind: DiagnosticKind) -> Seq<char> {
    match kind {
        DiagnosticKind::UnterminatedString => "unterminated string literal"@,
        DiagnosticKind::UnterminatedComment => "unterminated comment"@,
        DiagnosticKind::InvalidCharacter => "invalid character"@,
        DiagnosticKind::MalformedNumber => "malformed number"@,
    }
}

/// The owned message string for a diagnostic kind.
pub fn message_for(kind: DiagnosticKind) -> (r: String)
    ensures
        r@ == message_text(kind),
{
    match kind {
        DiagnosticKind::UnterminatedString => "unterminated string literal".to_owned(),
        DiagnosticKind::UnterminatedComment => "unterminated comment".to_owned(),
        DiagnosticKind::InvalidCharacter => "invalid character".to_owned(),
        DiagnosticKind::MalformedNumber => "malformed number".to_owned(),
    }
}

} // verus!
