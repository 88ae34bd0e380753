use rscc::lexer::types::{Lexer, Span, Token, TokenKind};
use rscc::parser::report::ReportError;
use rscc::parser::{Expected, ParseError, Parser};

fn token(kind: TokenKind, start: usize, end: usize, line: usize) -> Token {
    Token { kind, span: Span { start, end, line } }
}

#[test]
fn report_points_at_the_token() {
    let source = b"int main() {\n\treturn 2\n}";
    let tokens = Lexer::new().lex(source).unwrap();
    let parser = Parser::new(source);
    let error = parser.parse_tokens(tokens).unwrap_err();
    let ParseError::Unexpected { token, expected } = error else { panic!("unexpected error") };
    assert!(matches!(expected, Expected::Kind(TokenKind::SemiColon)));
    let message = parser.error_message(&token, "SemiColon", "CurlyBraceClose").unwrap();
    assert_eq!(
        message,
        format!(
            "----------ERROR----------\n\nline 3: }}\n{}^{}expected: SemiColon, got: CurlyBraceClose\n\n{}\n",
            " ".repeat(7),
            "-".repeat(20),
            "-".repeat(25)
        )
    );
}

#[test]
fn report_keeps_tabs_before_the_caret() {
    let source = b"int main() {\n\treturn 2 3;\n}";
    let parser = Parser::new(source);
    let message = parser.error_message(&token(TokenKind::Integer(3), 23, 24, 1), "SemiColon", "Integer(3)").unwrap();
    let lines: Vec<&str> = message.split('\n').collect();
    assert_eq!(lines[2], "line 2: \treturn 2 3;");
    assert_eq!(lines[3], format!("\t{}^{}expected: SemiColon, got: Integer(3)", " ".repeat(17), "-".repeat(20)));
}

#[test]
fn report_on_a_missing_line_or_text_fails() {
    let parser = Parser::new(b"int\nmain");
    assert_eq!(parser.error_message(&token(TokenKind::Int, 0, 3, 5), "x", "y"), Err(ReportError::LineNotFound));
    assert_eq!(parser.error_message(&token(TokenKind::Int, 0, 3, 1), "x", "y"), Err(ReportError::TextNotFound));
    assert_eq!(
        parser.error_message(&token(TokenKind::Int, 0, 30, 0), "x", "y"),
        Err(ReportError::TokenOutsideSource)
    );
    assert!(parser.error_message(&token(TokenKind::Int, 0, 3, 0), "x", "y").is_ok());
}

#[test]
fn report_lines_drop_carriage_returns_and_skip_invalid_text() {
    let parser = Parser::new(b"a\r\nb");
    let message = parser.error_message(&token(TokenKind::Int, 0, 1, 0), "e", "g").unwrap();
    assert!(message.contains("line 1: a\n"));
    let parser = Parser::new(&[0xFF, b'\n', b'x', b'\n']);
    let message = parser.error_message(&token(TokenKind::Int, 2, 3, 0), "e", "g").unwrap();
    assert!(message.contains("line 1: x\n"));
}

#[test]
fn expected_labels() {
    assert_eq!(Expected::ReturnType.label().unwrap(), "return type");
    assert_eq!(Expected::Ident.label().unwrap(), "ident");
    assert_eq!(Expected::SemicolonOrAssign.label().unwrap(), "semicolon or assign expr");
    assert_eq!(Expected::IdentOrInteger.label().unwrap(), "ident or integer");
    assert!(Expected::Kind(TokenKind::SemiColon).label().is_none());
}

#[test]
fn law_report_finds_every_lexer_token_of_a_plain_source() {
    let source = b"int main() {\n\tint a = 1;\n\treturn a<=2 ? ~a : -3;\n}";
    let tokens = Lexer::new().lex(source).unwrap();
    let parser = Parser::new(source);
    for t in &tokens[..tokens.len() - 1] {
        assert!(parser.error_message(t, "x", "y").is_ok(), "{:?}", t);
    }
}

#[test]
fn report_misses_a_carriage_return_token() {
    let source = b"a\r\n";
    let tokens = Lexer::new().lex(source).unwrap();
    assert_eq!(tokens[1].kind, TokenKind::Unknown("\r".to_string()));
    let parser = Parser::new(source);
    assert_eq!(parser.error_message(&tokens[1], "x", "y"), Err(ReportError::TextNotFound));
}

#[test]
fn report_reads_invalid_token_bytes_lossily() {
    // the token's byte 0xFF reads as U+FFFD, which the first line holds
    let mut source = "\u{FFFD}\n".as_bytes().to_vec();
    source.push(0xFF);
    let parser = Parser::new(&source);
    let message = parser.error_message(&token(TokenKind::Unknown("\u{FFFD}".to_string()), 4, 5, 0), "e", "g").unwrap();
    let lines: Vec<&str> = message.split('\n').collect();
    assert_eq!(lines[2], "line 1: \u{FFFD}");
    assert_eq!(lines[3], format!("{}^{}expected: e, got: g", " ".repeat(7), "-".repeat(20)));
}

#[test]
fn report_on_the_end_token() {
    let source = b"int main() {\n\treturn 2;";
    let tokens = Lexer::new().lex(source).unwrap();
    let end = tokens.last().unwrap();
    assert_eq!(end.kind, TokenKind::EOF);
    let parser = Parser::new(source);
    let message = parser.error_message(end, "e", "EOF").unwrap();
    let lines: Vec<&str> = message.split('\n').collect();
    assert_eq!(lines[2], "line 2: \treturn 2;");
    // ends with a newline: the last line is empty and not read
    let source = b"int\n";
    let tokens = Lexer::new().lex(source).unwrap();
    let parser = Parser::new(source);
    assert_eq!(parser.error_message(tokens.last().unwrap(), "e", "g"), Err(ReportError::LineNotFound));
}
