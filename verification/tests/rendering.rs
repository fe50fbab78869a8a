use parl::diagnostics::DiagnosticKind;
use parl::lexer::scan;
use parl::render::{format_usize, render_diagnostic};

#[test]
fn format_usize_renders_decimal() {
    assert_eq!(format_usize(0), "0");
    assert_eq!(format_usize(7), "7");
    assert_eq!(format_usize(10), "10");
    assert_eq!(format_usize(12345), "12345");
}

#[test]
fn renders_file_line_column_and_message() {
    let (_, diags) = scan("    \"abc");
    assert_eq!(diags.len(), 1);
    assert_eq!(diags[0].kind, DiagnosticKind::UnterminatedString);
    let line = render_diagnostic("main.parl", &diags[0]);
    assert_eq!(line, "main.parl:1:5: unterminated string literal");
}

#[test]
fn renders_position_on_later_line() {
    let (_, diags) = scan("a\nbb\n  12q");
    assert_eq!(diags.len(), 1);
    let line = render_diagnostic("in.parl", &diags[0]);
    assert_eq!(line, "in.parl:3:3: malformed number");
}

#[test]
fn renders_unterminated_comment_message() {
    // reserved for future block comments: no scan produces it yet, but the
    // renderer must handle every kind
    let (tokens, _) = scan("//");
    let d = parl::diagnostics::Diagnostic {
        kind: DiagnosticKind::UnterminatedComment,
        span: tokens[0].span.clone(),
        message: parl::diagnostics::message_for(DiagnosticKind::UnterminatedComment),
    };
    let line = render_diagnostic("f", &d);
    assert_eq!(line, "f:1:1: unterminated comment");
}

#[test]
fn renders_invalid_character_message() {
    let (_, diags) = scan("?");
    assert_eq!(diags.len(), 1);
    let line = render_diagnostic("f", &diags[0]);
    assert_eq!(line, "f:1:1: invalid character");
}
