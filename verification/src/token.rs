//! Source positions, spans, and the token model.
//!
//! A `Position` locates a point in the source text by 1-based line, 1-based
//! column, and 0-based byte offset.  A `TextSpan` is a half-open region of
//! source text together with the exact lexeme it covers, and a `Token` pairs
//! a span with its `TokenKind`.  All three are immutable values once built.

use vstd::prelude::*;

verus! {

/// A point in the source text: 1-based line and column, 0-based byte offset.
#[derive(Clone, Copy, Debug, PartialEq, Eq, Structural)]
pub struct Position {
    pub line: usize,
    pub col: usize,
    pub offset: usize,
}

/// A half-open region of source text, together with the exact substring
/// (lexeme) that the region covers.
#[derive(Clone, Debug)]
pub struct TextSpan {
    pub start: Position,
    pub end: Position,
    pub lexeme: String,
}

/// The closed set of token kinds the scanner can emit.
#[derive(Clone, Copy, Debug, PartialEq, Eq, Structural)]
pub enum TokenKind {
    Identifier,
    Colon,
    Comma,
    Comment,
    Slash,
    EndOfFile,
    Equals,
    Invalid,
    LBrace,
    LBracket,
    LParen,
    Newline,
    RBrace,
    RBracket,
    RParen,
    Semicolon,
    Whitespace,
    Arrow,
    IntLiteral,
    FloatLiteral,
    StringLiteral,
    BoolLiteral,
    LessThan,
    LessThanEqual,
    Minus,
    GreaterThan,
    GreaterThanEqual,
    EqEq,
    NotEqual,
    Plus,
    Multiply,
    Mod,
}

/// A classified lexeme: a kind plus the span it was read from.
#[derive(Clone, Debug)]
pub struct Token {
    pub kind: TokenKind,
    pub span: TextSpan,
}

impl Token {
    pub fn new(kind: TokenKind, span: TextSpan) -> (t: Token)
        ensures
            t.kind == kind,
            t.span == span,
    {
        Token { kind, span }
    }

    /// The exact source text this token was read from.
    pub fn text(&self) -> (r: &str)
        ensures
            r@ == self.span.lexeme@,
    {
        self.span.lexeme.as_str()
    }
}

/// Mathematical image of a `Position`: the same three coordinates over `int`.
pub struct PositionModel {
    pub line: int,
    pub col: int,
    pub offset: int,
}

/// Mathematical image of a `Token`: its kind, both end positions, and the
/// lexeme as a character sequence.
pub struct TokenModel {
    pub kind: TokenKind,
    pub start: PositionModel,
    pub end: PositionModel,
    pub lexeme: Seq<char>,
}

pub open spec fn position_model(p: Position) -> PositionModel {
    PositionModel { line: p.line as int, col: p.col as int, offset: p.offset as int }
}

pub open spec fn token_model(t: Token) -> TokenModel {
    TokenModel {
        kind: t.kind,
        start: position_model(t.span.start),
        end: position_model(t.span.end),
        lexeme: t.span.lexeme@,
    }
}

} // verus!
