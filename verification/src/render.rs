//! The diagnostic renderer.
//!
//! A pure projection of one `Diagnostic` to a human-readable line of the
//! form `file:line:col: message`, with the 1-based line and column of the
//! diagnostic's start position in decimal.  No I/O happens here; the caller
//! decides where the text goes.

use vstd::prelude::*;
use vstd::string::StringExecFns;
use crate::diagnostics::{Diagnostic, DiagnosticModel, diagnostic_model};
use crate::lexer::push_char;

verus! {

/// The decimal digit character for a value below ten.
pub open spec fn digit_char(d: int) -> char {
    if d == 0 {
        '0'
    } else if d == 1 {
        '1'
    } else if d == 2 {
        '2'
    } else if d == 3 {
        '3'
    } else if d == 4 {
        '4'
    } else if d == 5 {
        '5'
    } else if d == 6 {
        '6'
    } else if d == 7 {
        '7'
    } else if d == 8 {
        '8'
    } else {
        '9'
    }
}

/// The decimal digits of a non-negative number, most significant first.
pub open spec fn dec_digits(n: int) -> Seq<char>
    decreases n when n >= 0
{
    if n < 10 {
        seq![digit_char(n)]
    } else {
        dec_digits(n / 10).push(digit_char(n % 10))
    }
}

fn digit_of(d: usize) -> (r: char)
    requires
        d < 10,
    ensures
        r == digit_char(d as int),
{
    if d == 0 {
        '0'
    } else if d == 1 {
        '1'
    } else if d == 2 {
        '2'
    } else if d == 3 {
        '3'
    } else if d == 4 {
        '4'
    } else if d == 5 {
        '5'
    } else if d == 6 {
        '6'
    } else if d == 7 {
        '7'
    } else if d == 8 {
        '8'
    } else {
        '9'
    }
}

/// The decimal rendering of a number.
pub fn format_usize(n: usize) -> (r: String)
    ensures
        r@ == dec_digits(n as int),
    decreases n,
{
    if n < 10 {
        let mut r = String::new();
        push_char(&mut r, digit_of(n));
        proof {
            assert(r@ =~= seq![digit_char(n as int)]);
        }
        r
    } else {
        let mut r = format_usize(n / 10);
        push_char(&mut r, digit_of(n % 10));
        r
    }
}

/// The rendered text for one diagnostic: the file identifier, the 1-based
/// line and column of the diagnostic's start, and its message.
pub open spec fn render_text(file: Seq<char>, d: DiagnosticModel) -> Seq<char> {
    file + seq![':'] + dec_digits(d.start.line) + seq![':'] + dec_digits(d.start.col)
        + seq![':', ' '] + d.message
}

/// Renders one diagnostic as `file:line:col: message`.
pub fn render_diagnostic(file: &str, d: &Diagnostic) -> (r: String)
    ensures
        r@ == render_text(file@, diagnostic_model(*d)),
{
    proof {
        reveal_strlit(":");
        reveal_strlit(": ");
    }
    let mut r = String::new();
    r.append(file);
    r.append(":");
    let line_text = format_usize(d.span.start.line);
    r.append(line_text.as_str());
    r.append(":");
    let col_text = format_usize(d.span.start.col);
    r.append(col_text.as_str());
    r.append(": ");
    r.append(d.message.as_str());
    proof {
        assert(":"@ =~= seq![':']);
        assert(": "@ =~= seq![':', ' ']);
        assert(r@ =~= render_text(file@, diagnostic_model(*d)));
    }
    r
}

} // verus!
