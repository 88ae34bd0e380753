use rscc::lexer::types::{LexError, Lexer, Span, Token, TokenKind};

fn tok(kind: TokenKind, start: usize, end: usize, line: usize) -> Token {
    Token { kind, span: Span { start, end, line } }
}

fn lex(source: &str) -> Result<Vec<Token>, LexError> {
    Lexer::new().lex(source.as_bytes())
}

#[test]
fn lexes_a_small_function_with_spans() {
    let tokens = lex("int main() {\n    return 2;\n}").unwrap();
    let expected = vec![
        tok(TokenKind::Int, 0, 3, 0),
        tok(TokenKind::Ident("main".to_string()), 4, 8, 0),
        tok(TokenKind::ParenOpen, 8, 9, 0),
        tok(TokenKind::ParenClose, 9, 10, 0),
        tok(TokenKind::CurlyBraceOpen, 11, 12, 0),
        tok(TokenKind::Return, 17, 23, 1),
        tok(TokenKind::Integer(2), 24, 25, 1),
        tok(TokenKind::SemiColon, 25, 26, 1),
        tok(TokenKind::CurlyBraceClose, 27, 28, 2),
        tok(TokenKind::EOF, 27, 27, 2),
    ];
    assert_eq!(tokens, expected);
}

#[test]
fn lexer_state_moves_to_the_end_of_the_input() {
    let mut lexer = Lexer::new();
    lexer.lex(b"a\nb").unwrap();
    assert_eq!(lexer.line, 1);
    assert_eq!(lexer.offset, 3);
}

#[test]
fn two_byte_operators_take_one_token() {
    let tokens = lex("a&&b||c==d!=e<=f>=g<<h>>i").unwrap();
    let kinds: Vec<TokenKind> = tokens.into_iter().map(|t| t.kind).collect();
    assert_eq!(
        kinds,
        vec![
            TokenKind::Ident("a".to_string()),
            TokenKind::And,
            TokenKind::Ident("b".to_string()),
            TokenKind::Or,
            TokenKind::Ident("c".to_string()),
            TokenKind::Equal,
            TokenKind::Ident("d".to_string()),
            TokenKind::NotEqual,
            TokenKind::Ident("e".to_string()),
            TokenKind::LTE,
            TokenKind::Ident("f".to_string()),
            TokenKind::GTE,
            TokenKind::Ident("g".to_string()),
            TokenKind::BitwiseShiftLeft,
            TokenKind::Ident("h".to_string()),
            TokenKind::BitwiseShiftRight,
            TokenKind::Ident("i".to_string()),
            TokenKind::EOF,
        ]
    );
}

#[test]
fn two_byte_operator_span_covers_both_bytes() {
    let tokens = lex("a&&b").unwrap();
    assert_eq!(tokens[1], tok(TokenKind::And, 1, 3, 0));
    assert_eq!(tokens[2], tok(TokenKind::Ident("b".to_string()), 3, 4, 0));
    assert_eq!(tokens[3], tok(TokenKind::EOF, 3, 3, 0));
}

#[test]
fn single_byte_operators() {
    let tokens = lex("&|=!<>-~+*/%^:?").unwrap();
    let kinds: Vec<TokenKind> = tokens.into_iter().map(|t| t.kind).collect();
    assert_eq!(
        kinds,
        vec![
            TokenKind::BitwiseAnd,
            TokenKind::BitwiseOr,
            TokenKind::Assign,
            TokenKind::LogicalNegation,
            TokenKind::LT,
            TokenKind::GT,
            TokenKind::Negation,
            TokenKind::BitComplement,
            TokenKind::Add,
            TokenKind::Mul,
            TokenKind::Div,
            TokenKind::Modulo,
            TokenKind::BitwiseXor,
            TokenKind::Colon,
            TokenKind::QMark,
            TokenKind::EOF,
        ]
    );
}

#[test]
fn keywords_and_identifiers() {
    let tokens = lex("int return if else x1 Int").unwrap();
    let kinds: Vec<TokenKind> = tokens.into_iter().map(|t| t.kind).collect();
    assert_eq!(
        kinds,
        vec![
            TokenKind::Int,
            TokenKind::Return,
            TokenKind::If,
            TokenKind::Else,
            TokenKind::Ident("x1".to_string()),
            TokenKind::Ident("Int".to_string()),
            TokenKind::EOF,
        ]
    );
}

#[test]
fn a_comment_runs_to_the_end_of_the_line_and_spans_still_index_the_source() {
    let tokens = lex("int//ab\nx").unwrap();
    assert_eq!(
        tokens,
        vec![
            tok(TokenKind::Int, 0, 3, 0),
            tok(TokenKind::Ident("x".to_string()), 8, 9, 1),
            tok(TokenKind::EOF, 8, 8, 1),
        ]
    );
    let tokens = lex("x // hi\ny").unwrap();
    assert_eq!(
        tokens,
        vec![
            tok(TokenKind::Ident("x".to_string()), 0, 1, 0),
            tok(TokenKind::Ident("y".to_string()), 8, 9, 1),
            tok(TokenKind::EOF, 8, 8, 1),
        ]
    );
    // a comment at the end of the input
    let mut lexer = Lexer::new();
    let tokens = lexer.lex(b"a //z").unwrap();
    assert_eq!(tokens[1], tok(TokenKind::EOF, 4, 4, 0));
    assert_eq!((lexer.line, lexer.offset), (0, 5));
}

#[test]
fn unknown_bytes_become_unknown_tokens() {
    let tokens = Lexer::new().lex(&[b'@', 0xC3]).unwrap();
    assert_eq!(
        tokens,
        vec![
            tok(TokenKind::Unknown("@".to_string()), 0, 1, 0),
            tok(TokenKind::Unknown("\u{FFFD}".to_string()), 1, 2, 0),
            tok(TokenKind::EOF, 1, 1, 0),
        ]
    );
}

#[test]
fn tabs_and_spaces_count_one_each() {
    let tokens = lex("\t 7").unwrap();
    assert_eq!(tokens[0], tok(TokenKind::Integer(7), 2, 3, 0));
}

#[test]
fn integer_values() {
    let tokens = lex("0 42 18446744073709551615").unwrap();
    assert_eq!(tokens[0].kind, TokenKind::Integer(0));
    assert_eq!(tokens[1].kind, TokenKind::Integer(42));
    assert_eq!(tokens[2].kind, TokenKind::Integer(18446744073709551615));
}

#[test]
fn an_integer_too_large_is_an_error_with_its_span() {
    let r = lex("x 18446744073709551616");
    assert_eq!(r, Err(LexError::IntegerTooLarge(Span { start: 2, end: 22, line: 0 })));
}

#[test]
fn a_lexer_goes_on_from_its_position() {
    let mut lexer = Lexer::new();
    lexer.lex(b"ab\n").unwrap();
    let tokens = lexer.lex(b"c").unwrap();
    assert_eq!(
        tokens,
        vec![tok(TokenKind::Ident("c".to_string()), 3, 4, 1), tok(TokenKind::EOF, 3, 3, 1)]
    );
}

#[test]
fn only_whitespace_gives_only_eof() {
    let tokens = lex(" \n").unwrap();
    assert_eq!(tokens, vec![tok(TokenKind::EOF, 1, 1, 1)]);
}

#[test]
fn law_tokens_well_ordered_on_a_sample() {
    let tokens = lex("int main() {\n  int a = 1 <= 2;\n  return a;\n}\n").unwrap();
    let n = tokens.len();
    assert_eq!(tokens[n - 1].kind, TokenKind::EOF);
    for t in &tokens[..n - 1] {
        assert_ne!(t.kind, TokenKind::EOF);
    }
    for w in tokens[..n - 1].windows(2) {
        assert!(w[0].span.start < w[0].span.end);
        assert!(w[0].span.end <= w[1].span.start);
        assert!(w[0].span.line <= w[1].span.line);
    }
}

#[test]
fn law_lexing_moves_with_position_on_a_sample() {
    let source = b"int x;\n  return";
    let fresh = Lexer::new().lex(source).unwrap();
    let mut lexer = Lexer { line: 2, offset: 10 };
    let moved = lexer.lex(source).unwrap();
    assert_eq!(fresh.len(), moved.len());
    for (a, b) in fresh.iter().zip(moved.iter()) {
        assert_eq!(a.kind, b.kind);
        assert_eq!(a.span.start + 10, b.span.start);
        assert_eq!(a.span.end + 10, b.span.end);
        assert_eq!(a.span.line + 2, b.span.line);
    }
    assert_eq!(lexer.line, 3);
    assert_eq!(lexer.offset, 10 + 15);
}

#[test]
fn law_blanks_between_tokens_keep_kinds_on_a_sample() {
    let kinds = |s: &[u8]| -> Vec<TokenKind> { Lexer::new().lex(s).unwrap().into_iter().map(|t| t.kind).collect() };
    assert_eq!(kinds(b"a<<b&&c1"), kinds(b"a \n<<\tb&& c1"));
    assert_eq!(kinds(b"x=1;"), kinds(b"x =1 ;   "));
    // a blank inside a token is no boundary: it splits the token
    assert_ne!(kinds(b"a<<b"), kinds(b"a< <b"));
}
