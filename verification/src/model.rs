//! The mathematical model of the scan.
//!
//! Everything the scanner does is specified here as spec functions over the
//! input as a `Seq<char>`: character classes, maximal-run endpoints, the
//! single-token classification rule `token_at`, position tracking, and the
//! full token and diagnostic sequences `scan_tokens` / `scan_diags`.  The
//! executable scanner is proved to produce exactly these sequences.

use vstd::prelude::*;
use vstd::utf8::encode_scalar;
use crate::token::{TokenKind, PositionModel, TokenModel};
use crate::diagnostics::{DiagnosticKind, DiagnosticModel, message_text};

verus! {

// ---------------------------------------------------------------------------
// Character classes
// ---------------------------------------------------------------------------

pub open spec fn is_space_char(c: char) -> bool {
    c == ' ' || c == '\t'
}

pub open spec fn is_digit_char(c: char) -> bool {
    48 <= c as u32 <= 57
}

pub open spec fn is_letter_char(c: char) -> bool {
    (65 <= c as u32 <= 90) || (97 <= c as u32 <= 122)
}

/// Characters that may begin an identifier: `[A-Za-z_]`.
pub open spec fn is_ident_start_char(c: char) -> bool {
    is_letter_char(c) || c == '_'
}

/// Characters that may continue an identifier: `[A-Za-z0-9_]`.
pub open spec fn is_ident_cont_char(c: char) -> bool {
    is_ident_start_char(c) || is_digit_char(c)
}

// ---------------------------------------------------------------------------
// Maximal runs
// ---------------------------------------------------------------------------

/// End of the run of spaces/tabs that starts at `i`.
pub open spec fn space_run_end(s: Seq<char>, i: int) -> int
    decreases s.len() - i when 0 <= i <= s.len()
{
    if i >= s.len() || !is_space_char(s[i]) {
        i
    } else {
        space_run_end(s, i + 1)
    }
}

/// End of the run of decimal digits that starts at `i`.
pub open spec fn digit_run_end(s: Seq<char>, i: int) -> int
    decreases s.len() - i when 0 <= i <= s.len()
{
    if i >= s.len() || !is_digit_char(s[i]) {
        i
    } else {
        digit_run_end(s, i + 1)
    }
}

/// End of the run of identifier-continuation characters that starts at `i`.
pub open spec fn ident_run_end(s: Seq<char>, i: int) -> int
    decreases s.len() - i when 0 <= i <= s.len()
{
    if i >= s.len() || !is_ident_cont_char(s[i]) {
        i
    } else {
        ident_run_end(s, i + 1)
    }
}

/// First index at or after `i` holding a line-break character, or the end of
/// input.  A line comment extends to here.
pub open spec fn comment_end(s: Seq<char>, i: int) -> int
    decreases s.len() - i when 0 <= i <= s.len()
{
    if i >= s.len() || s[i] == '\n' || s[i] == '\r' {
        i
    } else {
        comment_end(s, i + 1)
    }
}

/// First index at or after `i` holding a closing quote, a line-break
/// character, or the end of input.  A string literal's body extends to here.
pub open spec fn string_body_end(s: Seq<char>, i: int) -> int
    decreases s.len() - i when 0 <= i <= s.len()
{
    if i >= s.len() || s[i] == '"' || s[i] == '\n' || s[i] == '\r' {
        i
    } else {
        string_body_end(s, i + 1)
    }
}

pub proof fn lemma_space_run_end_bounds(s: Seq<char>, i: int)
    requires
        0 <= i <= s.len(),
    ensures
        i <= space_run_end(s, i) <= s.len(),
    decreases s.len() - i,
{
    if !(i >= s.len() || !is_space_char(s[i])) {
        lemma_space_run_end_bounds(s, i + 1);
    }
}

pub proof fn lemma_digit_run_end_bounds(s: Seq<char>, i: int)
    requires
        0 <= i <= s.len(),
    ensures
        i <= digit_run_end(s, i) <= s.len(),
    decreases s.len() - i,
{
    if !(i >= s.len() || !is_digit_char(s[i])) {
        lemma_digit_run_end_bounds(s, i + 1);
    }
}

pub proof fn lemma_ident_run_end_bounds(s: Seq<char>, i: int)
    requires
        0 <= i <= s.len(),
    ensures
        i <= ident_run_end(s, i) <= s.len(),
    decreases s.len() - i,
{
    if !(i >= s.len() || !is_ident_cont_char(s[i])) {
        lemma_ident_run_end_bounds(s, i + 1);
    }
}

pub proof fn lemma_comment_end_bounds(s: Seq<char>, i: int)
    requires
        0 <= i <= s.len(),
    ensures
        i <= comment_end(s, i) <= s.len(),
    decreases s.len() - i,
{
    if !(i >= s.len() || s[i] == '\n' || s[i] == '\r') {
        lemma_comment_end_bounds(s, i + 1);
    }
}

pub proof fn lemma_string_body_end_bounds(s: Seq<char>, i: int)
    requires
        0 <= i <= s.len(),
    ensures
        i <= string_body_end(s, i) <= s.len(),
    decreases s.len() - i,
{
    if !(i >= s.len() || s[i] == '"' || s[i] == '\n' || s[i] == '\r') {
        lemma_string_body_end_bounds(s, i + 1);
    }
}

// ---------------------------------------------------------------------------
// Single-token classification
// ---------------------------------------------------------------------------

/// The outcome of classifying one token at a cursor position: its kind, the
/// index one past its last character, and the diagnostic it raises, if any.
pub struct ScanStep {
    pub kind: TokenKind,
    pub end: int,
    pub diag: Option<DiagnosticKind>,
}

/// A string literal at `i` (which holds the opening quote): terminated if a
/// closing quote arrives before a line break or the end of input, otherwise
/// flagged as unterminated but still emitted up to the failure point.
pub open spec fn string_step(s: Seq<char>, i: int) -> ScanStep
    recommends 0 <= i < s.len(),
{
    let j = string_body_end(s, i + 1);
    if j < s.len() && s[j] == '"' {
        ScanStep { kind: TokenKind::StringLiteral, end: j + 1, diag: None }
    } else {
        ScanStep {
            kind: TokenKind::StringLiteral,
            end: j,
            diag: Some(DiagnosticKind::UnterminatedString),
        }
    }
}

/// A numeric literal at `i` (which holds a digit).  A `.` followed by another
/// digit run promotes the literal to a float; a `.` not followed by a digit
/// is left for the next token.  A digit run glued to an identifier character
/// is malformed: the whole alphanumeric run is consumed as one flagged token.
pub open spec fn number_step(s: Seq<char>, i: int) -> ScanStep
    recommends 0 <= i < s.len(),
{
    let d1 = digit_run_end(s, i);
    if d1 < s.len() && s[d1] == '.' && d1 + 1 < s.len() && is_digit_char(s[d1 + 1]) {
        let d2 = digit_run_end(s, d1 + 1);
        if d2 < s.len() && is_ident_start_char(s[d2]) {
            ScanStep {
                kind: TokenKind::Invalid,
                end: ident_run_end(s, d2),
                diag: Some(DiagnosticKind::MalformedNumber),
            }
        } else {
            ScanStep { kind: TokenKind::FloatLiteral, end: d2, diag: None }
        }
    } else if d1 < s.len() && is_ident_start_char(s[d1]) {
        ScanStep {
            kind: TokenKind::Invalid,
            end: ident_run_end(s, d1),
            diag: Some(DiagnosticKind::MalformedNumber),
        }
    } else {
        ScanStep { kind: TokenKind::IntLiteral, end: d1, diag: None }
    }
}

pub open spec fn true_lexeme() -> Seq<char> {
    seq!['t', 'r', 'u', 'e']
}

pub open spec fn false_lexeme() -> Seq<char> {
    seq!['f', 'a', 'l', 's', 'e']
}

/// An identifier at `i` (which holds an identifier-start character).  The
/// lexemes `true` and `false` are boolean literals; everything else is an
/// identifier.
pub open spec fn ident_step(s: Seq<char>, i: int) -> ScanStep
    recommends 0 <= i < s.len(),
{
    let j = ident_run_end(s, i);
    let lex = s.subrange(i, j);
    if lex == true_lexeme() || lex == false_lexeme() {
        ScanStep { kind: TokenKind::BoolLiteral, end: j, diag: None }
    } else {
        ScanStep { kind: TokenKind::Identifier, end: j, diag: None }
    }
}

/// An operator or punctuation character at `i`: two-character candidates are
/// checked before their one-character prefixes; a character matching nothing
/// becomes a one-character `Invalid` token with an `InvalidCharacter`
/// diagnostic.
pub open spec fn operator_step(s: Seq<char>, i: int) -> ScanStep
    recommends 0 <= i < s.len(),
{
    let c = s[i];
    let two = i + 1 < s.len();
    if c == '=' && two && s[i + 1] == '=' {
        ScanStep { kind: TokenKind::EqEq, end: i + 2, diag: None }
    } else if c == '!' && two && s[i + 1] == '=' {
        ScanStep { kind: TokenKind::NotEqual, end: i + 2, diag: None }
    } else if c == '<' && two && s[i + 1] == '=' {
        ScanStep { kind: TokenKind::LessThanEqual, end: i + 2, diag: None }
    } else if c == '>' && two && s[i + 1] == '=' {
        ScanStep { kind: TokenKind::GreaterThanEqual, end: i + 2, diag: None }
    } else if c == '-' && two && s[i + 1] == '>' {
        ScanStep { kind: TokenKind::Arrow, end: i + 2, diag: None }
    } else if c == '=' {
        ScanStep { kind: TokenKind::Equals, end: i + 1, diag: None }
    } else if c == '<' {
        ScanStep { kind: TokenKind::LessThan, end: i + 1, diag: None }
    } else if c == '>' {
        ScanStep { kind: TokenKind::GreaterThan, end: i + 1, diag: None }
    } else if c == '-' {
        ScanStep { kind: TokenKind::Minus, end: i + 1, diag: None }
    } else if c == ':' {
        ScanStep { kind: TokenKind::Colon, end: i + 1, diag: None }
    } else if c == ',' {
        ScanStep { kind: TokenKind::Comma, end: i + 1, diag: None }
    } else if c == '/' {
        ScanStep { kind: TokenKind::Slash, end: i + 1, diag: None }
    } else if c == '{' {
        ScanStep { kind: TokenKind::LBrace, end: i + 1, diag: None }
    } else if c == '}' {
        ScanStep { kind: TokenKind::RBrace, end: i + 1, diag: None }
    } else if c == '(' {
        ScanStep { kind: TokenKind::LParen, end: i + 1, diag: None }
    } else if c == ')' {
        ScanStep { kind: TokenKind::RParen, end: i + 1, diag: None }
    } else if c == '[' {
        ScanStep { kind: TokenKind::LBracket, end: i + 1, diag: None }
    } else if c == ']' {
        ScanStep { kind: TokenKind::RBracket, end: i + 1, diag: None }
    } else if c == ';' {
        ScanStep { kind: TokenKind::Semicolon, end: i + 1, diag: None }
    } else if c == '+' {
        ScanStep { kind: TokenKind::Plus, end: i + 1, diag: None }
    } else if c == '*' {
        ScanStep { kind: TokenKind::Multiply, end: i + 1, diag: None }
    } else if c == '%' {
        ScanStep { kind: TokenKind::Mod, end: i + 1, diag: None }
    } else {
        ScanStep {
            kind: TokenKind::Invalid,
            end: i + 1,
            diag: Some(DiagnosticKind::InvalidCharacter),
        }
    }
}

/// The one rule that fires at cursor position `i`, chosen by priority:
/// whitespace run, line break (`\n` or `\r\n`), line comment, string
/// literal, number, identifier, operator/punctuation, invalid character.
pub open spec fn token_at(s: Seq<char>, i: int) -> ScanStep
    recommends 0 <= i < s.len(),
{
    let c = s[i];
    if is_space_char(c) {
        ScanStep { kind: TokenKind::Whitespace, end: space_run_end(s, i), diag: None }
    } else if c == '\n' {
        ScanStep { kind: TokenKind::Newline, end: i + 1, diag: None }
    } else if c == '\r' && i + 1 < s.len() && s[i + 1] == '\n' {
        ScanStep { kind: TokenKind::Newline, end: i + 2, diag: None }
    } else if c == '/' && i + 1 < s.len() && s[i + 1] == '/' {
        ScanStep { kind: TokenKind::Comment, end: comment_end(s, i + 2), diag: None }
    } else if c == '"' {
        string_step(s, i)
    } else if is_digit_char(c) {
        number_step(s, i)
    } else if is_ident_start_char(c) {
        ident_step(s, i)
    } else {
        operator_step(s, i)
    }
}

/// Every rule consumes at least one character and never runs past the end of
/// input: the cursor always makes progress and the scan terminates.
pub proof fn lemma_token_at_bounds(s: Seq<char>, i: int)
    requires
        0 <= i < s.len(),
    ensures
        i < token_at(s, i).end <= s.len(),
{
    let c = s[i];
    if is_space_char(c) {
        lemma_space_run_end_bounds(s, i + 1);
        assert(space_run_end(s, i) == space_run_end(s, i + 1));
    } else if c == '\n' {
    } else if c == '\r' && i + 1 < s.len() && s[i + 1] == '\n' {
    } else if c == '/' && i + 1 < s.len() && s[i + 1] == '/' {
        lemma_comment_end_bounds(s, i + 2);
    } else if c == '"' {
        lemma_string_body_end_bounds(s, i + 1);
    } else if is_digit_char(c) {
        lemma_digit_run_end_bounds(s, i + 1);
        assert(digit_run_end(s, i) == digit_run_end(s, i + 1));
        let d1 = digit_run_end(s, i);
        if d1 < s.len() && s[d1] == '.' && d1 + 1 < s.len() && is_digit_char(s[d1 + 1]) {
            lemma_digit_run_end_bounds(s, d1 + 1);
            let d2 = digit_run_end(s, d1 + 1);
            if d2 < s.len() && is_ident_start_char(s[d2]) {
                lemma_ident_run_end_bounds(s, d2);
            }
        } else if d1 < s.len() && is_ident_start_char(s[d1]) {
            lemma_ident_run_end_bounds(s, d1);
        }
    } else if is_ident_start_char(c) {
        lemma_ident_run_end_bounds(s, i + 1);
        assert(ident_run_end(s, i) == ident_run_end(s, i + 1));
    } else {
    }
}

// ---------------------------------------------------------------------------
// Positions
// ---------------------------------------------------------------------------

/// The width in bytes of one character's UTF-8 encoding.
pub open spec fn char_width(c: char) -> int {
    encode_scalar(c as u32).len() as int
}

/// The 1-based line number of the position just after the first `i`
/// characters: one more than the number of line feeds among them.
pub open spec fn line_at(s: Seq<char>, i: int) -> int
    decreases i when 0 <= i <= s.len()
{
    if i <= 0 {
        1
    } else if s[i - 1] == '\n' {
        line_at(s, i - 1) + 1
    } else {
        line_at(s, i - 1)
    }
}

/// The 1-based column of the position just after the first `i` characters:
/// the count of characters since the last line feed, plus one.
pub open spec fn col_at(s: Seq<char>, i: int) -> int
    decreases i when 0 <= i <= s.len()
{
    if i <= 0 {
        1
    } else if s[i - 1] == '\n' {
        1
    } else {
        col_at(s, i - 1) + 1
    }
}

/// The 0-based byte offset of the position just after the first `i`
/// characters: the summed UTF-8 widths of those characters.
pub open spec fn off_at(s: Seq<char>, i: int) -> int
    decreases i when 0 <= i <= s.len()
{
    if i <= 0 {
        0
    } else {
        off_at(s, i - 1) + char_width(s[i - 1])
    }
}

/// The full position just after the first `i` characters.
pub open spec fn pos_at(s: Seq<char>, i: int) -> PositionModel {
    PositionModel { line: line_at(s, i), col: col_at(s, i), offset: off_at(s, i) }
}

pub proof fn lemma_line_col_bounds(s: Seq<char>, i: int)
    requires
        0 <= i <= s.len(),
    ensures
        1 <= line_at(s, i) <= i + 1,
        1 <= col_at(s, i) <= i + 1,
    decreases i,
{
    if i > 0 {
        lemma_line_col_bounds(s, i - 1);
    }
}

/// Every character takes at least one byte, so the byte offset of a position
/// is at least its character index.
pub proof fn lemma_off_at_least_index(s: Seq<char>, i: int)
    requires
        0 <= i <= s.len(),
    ensures
        off_at(s, i) >= i,
    decreases i,
{
    if i > 0 {
        lemma_off_at_least_index(s, i - 1);
        assert(char_width(s[i - 1]) >= 1);
    }
}

pub proof fn lemma_off_at_monotone(s: Seq<char>, i: int, j: int)
    requires
        0 <= i <= j <= s.len(),
    ensures
        off_at(s, i) <= off_at(s, j),
    decreases j,
{
    if i < j {
        lemma_off_at_monotone(s, i, j - 1);
        assert(char_width(s[j - 1]) >= 1);
    }
}

pub proof fn lemma_line_at_monotone(s: Seq<char>, i: int, j: int)
    requires
        0 <= i <= j <= s.len(),
    ensures
        line_at(s, i) <= line_at(s, j),
    decreases j,
{
    if i < j {
        lemma_line_at_monotone(s, i, j - 1);
    }
}

proof fn lemma_off_at_drop_first(s: Seq<char>, i: int)
    requires
        1 <= i <= s.len(),
    ensures
        off_at(s, i) == char_width(s[0]) + off_at(s.drop_first(), i - 1),
    decreases i,
{
    if i > 1 {
        lemma_off_at_drop_first(s, i - 1);
        assert(s.drop_first()[i - 2] == s[i - 1]);
        assert(off_at(s, i) == off_at(s, i - 1) + char_width(s[i - 1]));
        assert(off_at(s.drop_first(), i - 1)
            == off_at(s.drop_first(), i - 2) + char_width(s.drop_first()[i - 2]));
    } else {
        assert(off_at(s, 1) == off_at(s, 0) + char_width(s[0]));
        assert(off_at(s, 0) == 0);
        assert(off_at(s.drop_first(), 0) == 0);
    }
}

/// The byte offset at the end of input is the length of the whole input's
/// UTF-8 encoding — the byte length of the source string.
pub proof fn lemma_off_at_total(s: Seq<char>)
    ensures
        off_at(s, s.len() as int) == vstd::utf8::encode_utf8(s).len(),
    decreases s.len(),
{
    if s.len() > 0 {
        lemma_off_at_drop_first(s, s.len() as int);
        lemma_off_at_total(s.drop_first());
    }
}

// ---------------------------------------------------------------------------
// The full scan
// ---------------------------------------------------------------------------

/// The token produced by the rule that fires at position `i`.
pub open spec fn step_token_model(s: Seq<char>, i: int) -> TokenModel
    recommends 0 <= i < s.len(),
{
    let step = token_at(s, i);
    TokenModel {
        kind: step.kind,
        start: pos_at(s, i),
        end: pos_at(s, step.end),
        lexeme: s.subrange(i, step.end),
    }
}

/// The closing `EndOfFile` token: a zero-length span at the end of input.
pub open spec fn eof_model(s: Seq<char>) -> TokenModel {
    TokenModel {
        kind: TokenKind::EndOfFile,
        start: pos_at(s, s.len() as int),
        end: pos_at(s, s.len() as int),
        lexeme: Seq::<char>::empty(),
    }
}

/// The diagnostic raised by the rule that fires at position `i`, for a rule
/// that raises one.
pub open spec fn step_diag_model(s: Seq<char>, i: int, kind: DiagnosticKind) -> DiagnosticModel
    recommends 0 <= i < s.len(),
{
    let step = token_at(s, i);
    DiagnosticModel {
        kind: kind,
        start: pos_at(s, i),
        end: pos_at(s, step.end),
        lexeme: s.subrange(i, step.end),
        message: message_text(kind),
    }
}

/// The ordered token sequence the scan emits from position `i` onward,
/// ending with the `EndOfFile` token.
pub open spec fn scan_tokens(s: Seq<char>, i: int) -> Seq<TokenModel>
    decreases s.len() - i when 0 <= i <= s.len() via scan_tokens_decreases
{
    if i >= s.len() {
        seq![eof_model(s)]
    } else {
        seq![step_token_model(s, i)] + scan_tokens(s, token_at(s, i).end)
    }
}

#[via_fn]
proof fn scan_tokens_decreases(s: Seq<char>, i: int) {
    if i < s.len() {
        lemma_token_at_bounds(s, i);
    }
}

/// The ordered diagnostic list the scan accumulates from position `i`
/// onward.
pub open spec fn scan_diags(s: Seq<char>, i: int) -> Seq<DiagnosticModel>
    decreases s.len() - i when 0 <= i <= s.len() via scan_diags_decreases
{
    if i >= s.len() {
        Seq::<DiagnosticModel>::empty()
    } else {
        let rest = scan_diags(s, token_at(s, i).end);
        match token_at(s, i).diag {
            Some(kind) => seq![step_diag_model(s, i, kind)] + rest,
            None => rest,
        }
    }
}

#[via_fn]
proof fn scan_diags_decreases(s: Seq<char>, i: int) {
    if i < s.len() {
        lemma_token_at_bounds(s, i);
    }
}

/// The concatenation, in order, of the lexemes of a token sequence.
pub open spec fn cat_lexemes(ts: Seq<TokenModel>) -> Seq<char>
    decreases ts.len(),
{
    if ts.len() == 0 {
        Seq::<char>::empty()
    } else {
        ts[0].lexeme + cat_lexemes(ts.drop_first())
    }
}

/// Losslessness: the lexemes of the tokens emitted from position `i` onward,
/// concatenated in order, are exactly the unscanned suffix of the input.
pub proof fn lemma_scan_lossless_from(s: Seq<char>, i: int)
    requires
        0 <= i <= s.len(),
    ensures
        cat_lexemes(scan_tokens(s, i)) == s.subrange(i, s.len() as int),
    decreases s.len() - i,
{
    if i >= s.len() {
        let ts = scan_tokens(s, i);
        assert(ts == seq![eof_model(s)]);
        assert(ts.len() == 1 && ts[0] == eof_model(s));
        assert(ts.drop_first() =~= Seq::<TokenModel>::empty());
        assert(cat_lexemes(ts.drop_first()).len() == 0);
        assert(cat_lexemes(ts) == ts[0].lexeme + cat_lexemes(ts.drop_first()));
        assert(cat_lexemes(ts) =~= s.subrange(i, s.len() as int));
    } else {
        lemma_token_at_bounds(s, i);
        let end = token_at(s, i).end;
        lemma_scan_lossless_from(s, end);
        let ts = scan_tokens(s, i);
        assert(ts == seq![step_token_model(s, i)] + scan_tokens(s, end));
        assert(ts.drop_first() =~= scan_tokens(s, end));
        assert(ts[0] == step_token_model(s, i));
        assert(cat_lexemes(ts) == s.subrange(i, end) + cat_lexemes(scan_tokens(s, end)));
        assert(s.subrange(i, end) + s.subrange(end, s.len() as int)
            =~= s.subrange(i, s.len() as int));
    }
}

/// The token sequence emitted from any position is non-empty and closes with
/// the `EndOfFile` token.
pub proof fn lemma_scan_ends_eof_from(s: Seq<char>, i: int)
    requires
        0 <= i <= s.len(),
    ensures
        scan_tokens(s, i).len() >= 1,
        scan_tokens(s, i).last() == eof_model(s),
    decreases s.len() - i,
{
    if i < s.len() {
        lemma_token_at_bounds(s, i);
        lemma_scan_ends_eof_from(s, token_at(s, i).end);
    }
}

} // verus!
