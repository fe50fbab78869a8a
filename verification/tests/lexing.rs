use parl::diagnostics::DiagnosticKind;
use parl::lexer::scan;
use parl::token::{Token, TokenKind};

fn kinds(tokens: &[Token]) -> Vec<TokenKind> {
    tokens.iter().map(|t| t.kind).collect()
}

fn lexemes(tokens: &[Token]) -> Vec<String> {
    tokens.iter().map(|t| t.span.lexeme.clone()).collect()
}

#[test]
fn empty_input_yields_only_eof() {
    let (tokens, diags) = scan("");
    assert_eq!(kinds(&tokens), vec![TokenKind::EndOfFile]);
    assert_eq!(tokens[0].span.lexeme, "");
    assert_eq!(tokens[0].span.start, tokens[0].span.end);
    assert_eq!(tokens[0].span.start.line, 1);
    assert_eq!(tokens[0].span.start.col, 1);
    assert_eq!(tokens[0].span.start.offset, 0);
    assert!(diags.is_empty());
}

#[test]
fn lossless_concatenation_reconstructs_input() {
    let input = "let x: int = 12.5; // total\n\"a b\"\t{}[]() -> == != <= >= % * + - / @\r\n";
    let (tokens, diags) = scan(input);
    let rebuilt: String = tokens.iter().map(|t| t.span.lexeme.as_str()).collect::<String>();
    assert_eq!(rebuilt, input);
    // the one `@` is the only failure
    assert_eq!(diags.len(), 1);
}

#[test]
fn identical_input_yields_identical_output() {
    let input = "fun f(x: int) -> int { x % 2 } // half\n\"s\" 3.25 @";
    let (tokens1, diags1) = scan(input);
    let (tokens2, diags2) = scan(input);
    assert_eq!(kinds(&tokens1), kinds(&tokens2));
    assert_eq!(lexemes(&tokens1), lexemes(&tokens2));
    for (a, b) in tokens1.iter().zip(tokens2.iter()) {
        assert_eq!(a.span.start, b.span.start);
        assert_eq!(a.span.end, b.span.end);
    }
    assert_eq!(diags1.len(), diags2.len());
    for (a, b) in diags1.iter().zip(diags2.iter()) {
        assert_eq!(a.kind, b.kind);
        assert_eq!(a.span.lexeme, b.span.lexeme);
        assert_eq!(a.message, b.message);
    }
}

#[test]
fn arrow_is_one_token() {
    let (tokens, diags) = scan("->");
    assert_eq!(kinds(&tokens), vec![TokenKind::Arrow, TokenKind::EndOfFile]);
    assert_eq!(tokens[0].span.lexeme, "->");
    assert!(diags.is_empty());
}

#[test]
fn eqeq_is_one_token() {
    let (tokens, diags) = scan("==");
    assert_eq!(kinds(&tokens), vec![TokenKind::EqEq, TokenKind::EndOfFile]);
    assert_eq!(tokens[0].span.lexeme, "==");
    assert!(diags.is_empty());
}

#[test]
fn two_char_operators_beat_their_prefixes() {
    let (tokens, diags) = scan("a<=b>=c!=d==e->f");
    assert_eq!(
        kinds(&tokens),
        vec![
            TokenKind::Identifier,
            TokenKind::LessThanEqual,
            TokenKind::Identifier,
            TokenKind::GreaterThanEqual,
            TokenKind::Identifier,
            TokenKind::NotEqual,
            TokenKind::Identifier,
            TokenKind::EqEq,
            TokenKind::Identifier,
            TokenKind::Arrow,
            TokenKind::Identifier,
            TokenKind::EndOfFile,
        ]
    );
    assert!(diags.is_empty());
}

#[test]
fn single_char_operators_map_one_to_one() {
    let (tokens, diags) = scan(":,/{}()[];+*%=<>-");
    assert_eq!(
        kinds(&tokens),
        vec![
            TokenKind::Colon,
            TokenKind::Comma,
            TokenKind::Slash,
            TokenKind::LBrace,
            TokenKind::RBrace,
            TokenKind::LParen,
            TokenKind::RParen,
            TokenKind::LBracket,
            TokenKind::RBracket,
            TokenKind::Semicolon,
            TokenKind::Plus,
            TokenKind::Multiply,
            TokenKind::Mod,
            TokenKind::Equals,
            TokenKind::LessThan,
            TokenKind::GreaterThan,
            TokenKind::Minus,
            TokenKind::EndOfFile,
        ]
    );
    assert!(diags.is_empty());
}

#[test]
fn unterminated_string_recovers() {
    let (tokens, diags) = scan("\"abc");
    assert_eq!(kinds(&tokens), vec![TokenKind::StringLiteral, TokenKind::EndOfFile]);
    assert_eq!(tokens[0].span.lexeme, "\"abc");
    assert_eq!(diags.len(), 1);
    assert_eq!(diags[0].kind, DiagnosticKind::UnterminatedString);
    // anchored at the opening quote
    assert_eq!(diags[0].span.start.line, 1);
    assert_eq!(diags[0].span.start.col, 1);
}

#[test]
fn unterminated_string_stops_at_line_break() {
    let (tokens, diags) = scan("\"abc\ndef");
    assert_eq!(
        kinds(&tokens),
        vec![
            TokenKind::StringLiteral,
            TokenKind::Newline,
            TokenKind::Identifier,
            TokenKind::EndOfFile,
        ]
    );
    assert_eq!(tokens[0].span.lexeme, "\"abc");
    assert_eq!(diags.len(), 1);
    assert_eq!(diags[0].kind, DiagnosticKind::UnterminatedString);
}

#[test]
fn terminated_string_is_one_token() {
    let (tokens, diags) = scan("\"a b\"x");
    assert_eq!(
        kinds(&tokens),
        vec![TokenKind::StringLiteral, TokenKind::Identifier, TokenKind::EndOfFile]
    );
    assert_eq!(tokens[0].span.lexeme, "\"a b\"");
    assert!(diags.is_empty());
}

#[test]
fn invalid_character_is_isolated() {
    let (tokens, diags) = scan("a @ b");
    assert_eq!(
        kinds(&tokens),
        vec![
            TokenKind::Identifier,
            TokenKind::Whitespace,
            TokenKind::Invalid,
            TokenKind::Whitespace,
            TokenKind::Identifier,
            TokenKind::EndOfFile,
        ]
    );
    assert_eq!(tokens[0].span.lexeme, "a");
    assert_eq!(tokens[2].span.lexeme, "@");
    assert_eq!(tokens[4].span.lexeme, "b");
    assert_eq!(diags.len(), 1);
    assert_eq!(diags[0].kind, DiagnosticKind::InvalidCharacter);
}

#[test]
fn every_invalid_character_is_reported() {
    let (tokens, diags) = scan("@ # $");
    assert_eq!(diags.len(), 3);
    for d in &diags {
        assert_eq!(d.kind, DiagnosticKind::InvalidCharacter);
    }
    assert_eq!(tokens.last().unwrap().kind, TokenKind::EndOfFile);
}

#[test]
fn float_literal_is_one_token() {
    let (tokens, diags) = scan("12.5");
    assert_eq!(kinds(&tokens), vec![TokenKind::FloatLiteral, TokenKind::EndOfFile]);
    assert_eq!(tokens[0].span.lexeme, "12.5");
    assert!(diags.is_empty());
}

#[test]
fn malformed_number_consumes_whole_run() {
    let (tokens, diags) = scan("12x");
    assert_eq!(kinds(&tokens), vec![TokenKind::Invalid, TokenKind::EndOfFile]);
    assert_eq!(tokens[0].span.lexeme, "12x");
    assert_eq!(diags.len(), 1);
    assert_eq!(diags[0].kind, DiagnosticKind::MalformedNumber);
    assert_eq!(diags[0].span.lexeme, "12x");
}

#[test]
fn dot_without_digit_is_not_consumed_by_number() {
    let (tokens, diags) = scan("12.");
    assert_eq!(kinds(&tokens), vec![TokenKind::IntLiteral, TokenKind::Invalid, TokenKind::EndOfFile]);
    assert_eq!(tokens[0].span.lexeme, "12");
    assert_eq!(tokens[1].span.lexeme, ".");
    assert_eq!(diags.len(), 1);
    assert_eq!(diags[0].kind, DiagnosticKind::InvalidCharacter);
}

#[test]
fn int_literal_is_one_token() {
    let (tokens, diags) = scan("405;");
    assert_eq!(kinds(&tokens), vec![TokenKind::IntLiteral, TokenKind::Semicolon, TokenKind::EndOfFile]);
    assert_eq!(tokens[0].span.lexeme, "405");
    assert!(diags.is_empty());
}

#[test]
fn comment_without_trailing_newline() {
    let (tokens, diags) = scan("// hi");
    assert_eq!(kinds(&tokens), vec![TokenKind::Comment, TokenKind::EndOfFile]);
    assert_eq!(tokens[0].span.lexeme, "// hi");
    assert!(diags.is_empty());
}

#[test]
fn comment_stops_before_newline() {
    let (tokens, diags) = scan("x // hi\ny");
    assert_eq!(
        kinds(&tokens),
        vec![
            TokenKind::Identifier,
            TokenKind::Whitespace,
            TokenKind::Comment,
            TokenKind::Newline,
            TokenKind::Identifier,
            TokenKind::EndOfFile,
        ]
    );
    assert_eq!(tokens[2].span.lexeme, "// hi");
    assert!(diags.is_empty());
}

#[test]
fn whitespace_run_is_one_token() {
    let (tokens, diags) = scan("a \t  b");
    assert_eq!(
        kinds(&tokens),
        vec![
            TokenKind::Identifier,
            TokenKind::Whitespace,
            TokenKind::Identifier,
            TokenKind::EndOfFile,
        ]
    );
    assert_eq!(tokens[1].span.lexeme, " \t  ");
    assert!(diags.is_empty());
}

#[test]
fn crlf_is_one_newline_token() {
    let (tokens, diags) = scan("a\r\nb");
    assert_eq!(
        kinds(&tokens),
        vec![
            TokenKind::Identifier,
            TokenKind::Newline,
            TokenKind::Identifier,
            TokenKind::EndOfFile,
        ]
    );
    assert_eq!(tokens[1].span.lexeme, "\r\n");
    assert_eq!(tokens[2].span.start.line, 2);
    assert_eq!(tokens[2].span.start.col, 1);
    assert!(diags.is_empty());
}

#[test]
fn line_and_column_tracking() {
    let (tokens, _) = scan("ab\ncd ef");
    // "ef" starts on line 2, column 4, byte offset 6
    let ef = &tokens[4];
    assert_eq!(ef.span.lexeme, "ef");
    assert_eq!(ef.span.start.line, 2);
    assert_eq!(ef.span.start.col, 4);
    assert_eq!(ef.span.start.offset, 6);
    assert_eq!(ef.span.end.col, 6);
    assert_eq!(ef.span.end.offset, 8);
}

#[test]
fn byte_offsets_count_utf8_widths() {
    // the euro sign is three bytes, the e-acute two
    let (tokens, diags) = scan("\"\u{e9}\u{20ac}\"x");
    assert_eq!(
        kinds(&tokens),
        vec![TokenKind::StringLiteral, TokenKind::Identifier, TokenKind::EndOfFile]
    );
    assert_eq!(tokens[0].span.lexeme, "\"\u{e9}\u{20ac}\"");
    assert_eq!(tokens[1].span.start.offset, 7);
    assert_eq!(tokens[1].span.start.col, 5);
    assert!(diags.is_empty());
}

#[test]
fn bool_literals_are_reclassified() {
    let (tokens, diags) = scan("true false trueX truthy");
    assert_eq!(
        kinds(&tokens),
        vec![
            TokenKind::BoolLiteral,
            TokenKind::Whitespace,
            TokenKind::BoolLiteral,
            TokenKind::Whitespace,
            TokenKind::Identifier,
            TokenKind::Whitespace,
            TokenKind::Identifier,
            TokenKind::EndOfFile,
        ]
    );
    assert!(diags.is_empty());
}

#[test]
fn identifiers_allow_underscores_and_digits() {
    let (tokens, diags) = scan("_x9 y_0");
    assert_eq!(
        kinds(&tokens),
        vec![
            TokenKind::Identifier,
            TokenKind::Whitespace,
            TokenKind::Identifier,
            TokenKind::EndOfFile,
        ]
    );
    assert_eq!(tokens[0].span.lexeme, "_x9");
    assert_eq!(tokens[2].span.lexeme, "y_0");
    assert!(diags.is_empty());
}

#[test]
fn token_new_keeps_its_arguments() {
    let (tokens, _) = scan("x");
    let span = tokens[0].span.clone();
    let t = Token::new(TokenKind::Identifier, span);
    assert_eq!(t.kind, TokenKind::Identifier);
    assert_eq!(t.span.lexeme, "x");
}

#[test]
fn spans_tile_the_input() {
    let (tokens, _) = scan("a\n\"x 12.5->//c");
    assert_eq!(tokens[0].span.start.line, 1);
    assert_eq!(tokens[0].span.start.col, 1);
    assert_eq!(tokens[0].span.start.offset, 0);
    for pair in tokens.windows(2) {
        assert_eq!(pair[0].span.end, pair[1].span.start);
    }
}

#[test]
fn malformed_float_tail_is_flagged() {
    let (tokens, diags) = scan("1.5x2");
    assert_eq!(kinds(&tokens), vec![TokenKind::Invalid, TokenKind::EndOfFile]);
    assert_eq!(tokens[0].span.lexeme, "1.5x2");
    assert_eq!(diags.len(), 1);
    assert_eq!(diags[0].kind, DiagnosticKind::MalformedNumber);
}
