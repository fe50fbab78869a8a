//! The executable scanner.
//!
//! `scan` makes a single left-to-right pass over the source text and returns
//! the ordered token sequence and the accumulated diagnostic list.  Its
//! contract pins both results to the mathematical model in [`crate::model`]:
//! the same input always yields the same tokens and diagnostics, the token
//! lexemes concatenate back to the input, and the stream always closes with
//! a zero-length `EndOfFile` token.

use vstd::prelude::*;
use crate::token::{Position, TextSpan, Token, TokenKind, token_model};
use crate::diagnostics::{Diagnostic, DiagnosticKind, diagnostic_model, message_for};
use crate::model::{
    is_space_char, is_digit_char, is_ident_start_char, is_ident_cont_char,
    space_run_end, digit_run_end, ident_run_end, comment_end, string_body_end,
    lemma_space_run_end_bounds, lemma_digit_run_end_bounds, lemma_ident_run_end_bounds,
    lemma_comment_end_bounds, lemma_string_body_end_bounds,
    char_width, line_at, col_at, off_at,
    lemma_line_col_bounds, lemma_off_at_monotone, lemma_off_at_total, lemma_off_at_least_index,
    token_at, lemma_token_at_bounds, true_lexeme, false_lexeme,
    step_token_model, step_diag_model, eof_model, scan_tokens, scan_diags,
    cat_lexemes, lemma_scan_lossless_from, lemma_scan_ends_eof_from,
};

verus! {

// ---------------------------------------------------------------------------
// Trusted boundary with std
// ---------------------------------------------------------------------------

/// Relies on str::chars: yields the characters of the slice, in order.
#[verifier::external_body]
fn chars_of(s: &str) -> (r: Vec<char>)
    ensures
        r@ == s@,
{
    s.chars().collect()
}

/// Relies on str::len: the length of a string slice in bytes, which is the
/// length of the UTF-8 encoding of its characters.  No Rust allocation
/// exceeds isize::MAX bytes, so the result is strictly below usize::MAX.
#[verifier::external_body]
fn byte_len(s: &str) -> (r: usize)
    ensures
        r as int == vstd::utf8::encode_utf8(s@).len(),
        r < usize::MAX,
{
    s.len()
}

/// Relies on String::push: appends one character to the end of the string.
#[verifier::external_body]
pub(crate) fn push_char(s: &mut String, c: char)
    ensures
        final(s)@ == old(s)@.push(c),
{
    s.push(c)
}

// ---------------------------------------------------------------------------
// Character classes
// ---------------------------------------------------------------------------

fn is_space(c: char) -> (r: bool)
    ensures
        r == is_space_char(c),
{
    c == ' ' || c == '\t'
}

fn is_digit(c: char) -> (r: bool)
    ensures
        r == is_digit_char(c),
{
    let u = c as u32;
    48 <= u && u <= 57
}

fn is_ident_start(c: char) -> (r: bool)
    ensures
        r == is_ident_start_char(c),
{
    let u = c as u32;
    (65 <= u && u <= 90) || (97 <= u && u <= 122) || c == '_'
}

fn is_ident_cont(c: char) -> (r: bool)
    ensures
        r == is_ident_cont_char(c),
{
    is_ident_start(c) || is_digit(c)
}

/// The width in bytes of one character's UTF-8 encoding.
fn width_of(c: char) -> (r: usize)
    ensures
        r as int == char_width(c),
        1 <= r <= 4,
{
    let u = c as u32;
    if u < 0x80 {
        1
    } else if u < 0x800 {
        2
    } else if u < 0x10000 {
        3
    } else {
        4
    }
}

// ---------------------------------------------------------------------------
// Maximal runs
// ---------------------------------------------------------------------------

fn space_run(cs: &Vec<char>, start: usize) -> (r: usize)
    requires
        start <= cs@.len(),
    ensures
        r as int == space_run_end(cs@, start as int),
        start <= r <= cs@.len(),
{
    proof {
        lemma_space_run_end_bounds(cs@, start as int);
    }
    let n = cs.len();
    let mut j = start;
    while j < n && is_space(cs[j])
        invariant
            start <= j <= n,
            n == cs@.len(),
            space_run_end(cs@, start as int) == space_run_end(cs@, j as int),
        decreases n - j,
    {
        j = j + 1;
    }
    j
}

fn digit_run(cs: &Vec<char>, start: usize) -> (r: usize)
    requires
        start <= cs@.len(),
    ensures
        r as int == digit_run_end(cs@, start as int),
        start <= r <= cs@.len(),
{
    proof {
        lemma_digit_run_end_bounds(cs@, start as int);
    }
    let n = cs.len();
    let mut j = start;
    while j < n && is_digit(cs[j])
        invariant
            start <= j <= n,
            n == cs@.len(),
            digit_run_end(cs@, start as int) == digit_run_end(cs@, j as int),
        decreases n - j,
    {
        j = j + 1;
    }
    j
}

fn ident_run(cs: &Vec<char>, start: usize) -> (r: usize)
    requires
        start <= cs@.len(),
    ensures
        r as int == ident_run_end(cs@, start as int),
        start <= r <= cs@.len(),
{
    proof {
        lemma_ident_run_end_bounds(cs@, start as int);
    }
    let n = cs.len();
    let mut j = start;
    while j < n && is_ident_cont(cs[j])
        invariant
            start <= j <= n,
            n == cs@.len(),
            ident_run_end(cs@, start as int) == ident_run_end(cs@, j as int),
        decreases n - j,
    {
        j = j + 1;
    }
    j
}

fn comment_run(cs: &Vec<char>, start: usize) -> (r: usize)
    requires
        start <= cs@.len(),
    ensures
        r as int == comment_end(cs@, start as int),
        start <= r <= cs@.len(),
{
    proof {
        lemma_comment_end_bounds(cs@, start as int);
    }
    let n = cs.len();
    let mut j = start;
    while j < n && cs[j] != '\n' && cs[j] != '\r'
        invariant
            start <= j <= n,
            n == cs@.len(),
            comment_end(cs@, start as int) == comment_end(cs@, j as int),
        decreases n - j,
    {
        j = j + 1;
    }
    j
}

fn string_body_run(cs: &Vec<char>, start: usize) -> (r: usize)
    requires
        start <= cs@.len(),
    ensures
        r as int == string_body_end(cs@, start as int),
        start <= r <= cs@.len(),
{
    proof {
        lemma_string_body_end_bounds(cs@, start as int);
    }
    let n = cs.len();
    let mut j = start;
    while j < n && cs[j] != '"' && cs[j] != '\n' && cs[j] != '\r'
        invariant
            start <= j <= n,
            n == cs@.len(),
            string_body_end(cs@, start as int) == string_body_end(cs@, j as int),
        decreases n - j,
    {
        j = j + 1;
    }
    j
}

// ---------------------------------------------------------------------------
// One token
// ---------------------------------------------------------------------------

/// Whether `cs[i..j]` is one of the boolean literal lexemes.
fn is_bool_lexeme(cs: &Vec<char>, i: usize, j: usize) -> (r: bool)
    requires
        i <= j <= cs@.len(),
    ensures
        r == {
            let lex = cs@.subrange(i as int, j as int);
            lex == true_lexeme() || lex == false_lexeme()
        },
{
    let ghost lex = cs@.subrange(i as int, j as int);
    if j - i == 4 && cs[i] == 't' && cs[i + 1] == 'r' && cs[i + 2] == 'u' && cs[i + 3] == 'e' {
        proof {
            assert(lex =~= true_lexeme());
        }
        true
    } else if j - i == 5 && cs[i] == 'f' && cs[i + 1] == 'a' && cs[i + 2] == 'l' && cs[i + 3] == 's'
        && cs[i + 4] == 'e' {
        proof {
            assert(lex =~= false_lexeme());
        }
        true
    } else {
        proof {
            assert(lex.len() == j - i);
            if lex == true_lexeme() {
                assert(lex[0] == 't' && lex[1] == 'r' && lex[2] == 'u' && lex[3] == 'e');
                assert(false);
            }
            if lex == false_lexeme() {
                assert(lex[0] == 'f' && lex[1] == 'a' && lex[2] == 'l' && lex[3] == 's'
                    && lex[4] == 'e');
                assert(false);
            }
        }
        false
    }
}

/// Classifies the one token that starts at position `i`: its kind, its end
/// index, and the diagnostic it raises, if any.
fn next_step(cs: &Vec<char>, i: usize) -> (r: (TokenKind, usize, Option<DiagnosticKind>))
    requires
        i < cs@.len(),
        cs@.len() < usize::MAX,
    ensures
        ({
            let st = token_at(cs@, i as int);
            r.0 == st.kind && r.1 as int == st.end && r.2 == st.diag && i < r.1 <= cs@.len()
        }),
{
    proof {
        lemma_token_at_bounds(cs@, i as int);
    }
    let n = cs.len();
    let c = cs[i];
    if is_space(c) {
        (TokenKind::Whitespace, space_run(cs, i), None)
    } else if c == '\n' {
        (TokenKind::Newline, i + 1, None)
    } else if c == '\r' && i + 1 < n && cs[i + 1] == '\n' {
        (TokenKind::Newline, i + 2, None)
    } else if c == '/' && i + 1 < n && cs[i + 1] == '/' {
        (TokenKind::Comment, comment_run(cs, i + 2), None)
    } else if c == '"' {
        let j = string_body_run(cs, i + 1);
        if j < n && cs[j] == '"' {
            (TokenKind::StringLiteral, j + 1, None)
        } else {
            (TokenKind::StringLiteral, j, Some(DiagnosticKind::UnterminatedString))
        }
    } else if is_digit(c) {
        let d1 = digit_run(cs, i);
        if d1 < n && cs[d1] == '.' && d1 + 1 < n && is_digit(cs[d1 + 1]) {
            let d2 = digit_run(cs, d1 + 1);
            if d2 < n && is_ident_start(cs[d2]) {
                (TokenKind::Invalid, ident_run(cs, d2), Some(DiagnosticKind::MalformedNumber))
            } else {
                (TokenKind::FloatLiteral, d2, None)
            }
        } else if d1 < n && is_ident_start(cs[d1]) {
            (TokenKind::Invalid, ident_run(cs, d1), Some(DiagnosticKind::MalformedNumber))
        } else {
            (TokenKind::IntLiteral, d1, None)
        }
    } else if is_ident_start(c) {
        let j = ident_run(cs, i);
        if is_bool_lexeme(cs, i, j) {
            (TokenKind::BoolLiteral, j, None)
        } else {
            (TokenKind::Identifier, j, None)
        }
    } else if c == '=' && i + 1 < n && cs[i + 1] == '=' {
        (TokenKind::EqEq, i + 2, None)
    } else if c == '!' && i + 1 < n && cs[i + 1] == '=' {
        (TokenKind::NotEqual, i + 2, None)
    } else if c == '<' && i + 1 < n && cs[i + 1] == '=' {
        (TokenKind::LessThanEqual, i + 2, None)
    } else if c == '>' && i + 1 < n && cs[i + 1] == '=' {
        (TokenKind::GreaterThanEqual, i + 2, None)
    } else if c == '-' && i + 1 < n && cs[i + 1] == '>' {
        (TokenKind::Arrow, i + 2, None)
    } else if c == '=' {
        (TokenKind::Equals, i + 1, None)
    } else if c == '<' {
        (TokenKind::LessThan, i + 1, None)
    } else if c == '>' {
        (TokenKind::GreaterThan, i + 1, None)
    } else if c == '-' {
        (TokenKind::Minus, i + 1, None)
    } else if c == ':' {
        (TokenKind::Colon, i + 1, None)
    } else if c == ',' {
        (TokenKind::Comma, i + 1, None)
    } else if c == '/' {
        (TokenKind::Slash, i + 1, None)
    } else if c == '{' {
        (TokenKind::LBrace, i + 1, None)
    } else if c == '}' {
        (TokenKind::RBrace, i + 1, None)
    } else if c == '(' {
        (TokenKind::LParen, i + 1, None)
    } else if c == ')' {
        (TokenKind::RParen, i + 1, None)
    } else if c == '[' {
        (TokenKind::LBracket, i + 1, None)
    } else if c == ']' {
        (TokenKind::RBracket, i + 1, None)
    } else if c == ';' {
        (TokenKind::Semicolon, i + 1, None)
    } else if c == '+' {
        (TokenKind::Plus, i + 1, None)
    } else if c == '*' {
        (TokenKind::Multiply, i + 1, None)
    } else if c == '%' {
        (TokenKind::Mod, i + 1, None)
    } else {
        (TokenKind::Invalid, i + 1, Some(DiagnosticKind::InvalidCharacter))
    }
}

/// The owned lexeme text for `cs[i..j]`.
fn string_range(cs: &Vec<char>, i: usize, j: usize) -> (r: String)
    requires
        i <= j <= cs@.len(),
    ensures
        r@ == cs@.subrange(i as int, j as int),
{
    let mut r = String::new();
    let mut k = i;
    while k < j
        invariant
            i <= k <= j <= cs@.len(),
            r@ == cs@.subrange(i as int, k as int),
        decreases j - k,
    {
        push_char(&mut r, cs[k]);
        k = k + 1;
        proof {
            assert(r@ =~= cs@.subrange(i as int, k as int));
        }
    }
    r
}

/// Advances the line, column, and byte-offset counters across `cs[i..j]`.
fn advance_pos(cs: &Vec<char>, i: usize, j: usize, line: usize, col: usize, off: usize) -> (r: (
    usize,
    usize,
    usize,
))
    requires
        i <= j <= cs@.len(),
        cs@.len() < usize::MAX,
        line as int == line_at(cs@, i as int),
        col as int == col_at(cs@, i as int),
        off as int == off_at(cs@, i as int),
        off_at(cs@, cs@.len() as int) <= usize::MAX as int,
    ensures
        r.0 as int == line_at(cs@, j as int),
        r.1 as int == col_at(cs@, j as int),
        r.2 as int == off_at(cs@, j as int),
{
    let mut line2 = line;
    let mut col2 = col;
    let mut off2 = off;
    let mut k = i;
    while k < j
        invariant
            i <= k <= j <= cs@.len(),
            cs@.len() < usize::MAX,
            line2 as int == line_at(cs@, k as int),
            col2 as int == col_at(cs@, k as int),
            off2 as int == off_at(cs@, k as int),
            off_at(cs@, cs@.len() as int) <= usize::MAX as int,
        decreases j - k,
    {
        let c = cs[k];
        let w = width_of(c);
        proof {
            lemma_line_col_bounds(cs@, k + 1);
            lemma_off_at_monotone(cs@, k + 1, cs@.len() as int);
            assert(off_at(cs@, k + 1) == off_at(cs@, k as int) + char_width(c));
        }
        if c == '\n' {
            line2 = line2 + 1;
            col2 = 1;
        } else {
            col2 = col2 + 1;
        }
        off2 = off2 + w;
        k = k + 1;
    }
    (line2, col2, off2)
}

// ---------------------------------------------------------------------------
// The scan
// ---------------------------------------------------------------------------

/// Scans the whole source text in one pass.
///
/// The result is the full ordered token sequence, trivia included, and the
/// list of diagnostics for every malformed piece of input.  Both are pinned
/// to the model functions `scan_tokens` and `scan_diags` over the input
/// characters alone, so identical input always yields identical output.  In
/// addition: the lexemes concatenate back to the input exactly, and the
/// sequence always closes with a zero-length `EndOfFile` token.
pub fn scan(source: &str) -> (r: (Vec<Token>, Vec<Diagnostic>))
    ensures
        r.0@.map_values(|t: Token| token_model(t)) == scan_tokens(source@, 0),
        r.1@.map_values(|d: Diagnostic| diagnostic_model(d)) == scan_diags(source@, 0),
        cat_lexemes(r.0@.map_values(|t: Token| token_model(t))) == source@,
        r.0@.len() >= 1,
        r.0@.last().kind == TokenKind::EndOfFile,
        r.0@.last().span.lexeme@ == Seq::<char>::empty(),
        r.0@.last().span.start == r.0@.last().span.end,
{
    let cs = chars_of(source);
    let nbytes = byte_len(source);
    proof {
        lemma_off_at_total(cs@);
        assert(off_at(cs@, cs@.len() as int) == nbytes as int);
        lemma_off_at_least_index(cs@, cs@.len() as int);
        assert(cs@.len() < usize::MAX);
    }
    let n = cs.len();
    let mut toks: Vec<Token> = Vec::new();
    let mut diags: Vec<Diagnostic> = Vec::new();
    let mut i: usize = 0;
    let mut line: usize = 1;
    let mut col: usize = 1;
    let mut off: usize = 0;
    while i < n
        invariant
            cs@ == source@,
            n == cs@.len(),
            n < usize::MAX,
            i <= n,
            line as int == line_at(cs@, i as int),
            col as int == col_at(cs@, i as int),
            off as int == off_at(cs@, i as int),
            off_at(cs@, cs@.len() as int) <= usize::MAX as int,
            toks@.map_values(|t: Token| token_model(t)) + scan_tokens(cs@, i as int)
                == scan_tokens(cs@, 0),
            diags@.map_values(|d: Diagnostic| diagnostic_model(d)) + scan_diags(cs@, i as int)
                == scan_diags(cs@, 0),
        decreases n - i,
    {
        let ghost toks0 = toks@;
        let ghost diags0 = diags@;
        let (kind, end, dk) = next_step(&cs, i);
        let start_pos = Position { line, col, offset: off };
        let (line2, col2, off2) = advance_pos(&cs, i, end, line, col, off);
        let end_pos = Position { line: line2, col: col2, offset: off2 };
        let lex = string_range(&cs, i, end);
        match dk {
            Some(k) => {
                let dspan = TextSpan { start: start_pos, end: end_pos, lexeme: lex.clone() };
                let msg = message_for(k);
                diags.push(Diagnostic { kind: k, span: dspan, message: msg });
                proof {
                    assert(diagnostic_model(diags@.last()) == step_diag_model(cs@, i as int, k));
                    assert(diags@.map_values(|d: Diagnostic| diagnostic_model(d))
                        =~= diags0.map_values(|d: Diagnostic| diagnostic_model(d))
                            + seq![step_diag_model(cs@, i as int, k)]);
                }
            },
            None => {},
        }
        let span = TextSpan { start: start_pos, end: end_pos, lexeme: lex };
        toks.push(Token::new(kind, span));
        proof {
            assert(token_model(toks@.last()) == step_token_model(cs@, i as int));
            assert(toks@.map_values(|t: Token| token_model(t))
                =~= toks0.map_values(|t: Token| token_model(t))
                    + seq![step_token_model(cs@, i as int)]);
            assert(scan_tokens(cs@, i as int)
                == seq![step_token_model(cs@, i as int)] + scan_tokens(cs@, end as int));
            assert(toks@.map_values(|t: Token| token_model(t)) + scan_tokens(cs@, end as int)
                =~= toks0.map_values(|t: Token| token_model(t)) + scan_tokens(cs@, i as int));
            match dk {
                Some(k) => {
                    assert(scan_diags(cs@, i as int)
                        == seq![step_diag_model(cs@, i as int, k)] + scan_diags(cs@, end as int));
                    assert(diags@.map_values(|d: Diagnostic| diagnostic_model(d))
                        + scan_diags(cs@, end as int)
                        =~= diags0.map_values(|d: Diagnostic| diagnostic_model(d))
                            + scan_diags(cs@, i as int));
                },
                None => {
                    assert(scan_diags(cs@, i as int) == scan_diags(cs@, end as int));
                },
            }
        }
        i = end;
        line = line2;
        col = col2;
        off = off2;
    }
    let end_pos = Position { line, col, offset: off };
    let eof_span = TextSpan { start: end_pos, end: end_pos, lexeme: String::new() };
    toks.push(Token::new(TokenKind::EndOfFile, eof_span));
    proof {
        let ghost f = |t: Token| token_model(t);
        assert(scan_tokens(cs@, i as int) == seq![eof_model(cs@)]);
        assert(token_model(toks@.last()) == eof_model(cs@));
        assert(toks@.map_values(f) =~= scan_tokens(cs@, 0));
        lemma_scan_lossless_from(source@, 0);
        assert(source@.subrange(0, source@.len() as int) =~= source@);
        lemma_scan_ends_eof_from(source@, 0);
        assert(toks@.map_values(f).last() == token_model(toks@.last()));
    }
    (toks, diags)
}

} // verus!
