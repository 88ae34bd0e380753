use rscc::basic::codegen::gen_program;
use rscc::basic::lexer::{lex, LexError, Token};
use rscc::basic::parser::{parse_program, BinaryOp, Expression, ParseError, Program, TokenStream, UnaryOp};

fn parse(source: &str) -> Result<Program, ParseError> {
    let tokens = lex(source.as_bytes()).unwrap();
    parse_program(&mut TokenStream::new(tokens))
}

fn returned(source: &str) -> Expression {
    let program = parse(&format!("int main() {{ return {}; }}", source)).unwrap();
    let Program(function) = program;
    let mut statements = function.1 .0;
    assert_eq!(statements.len(), 1);
    match statements.remove(0) {
        rscc::basic::parser::Statement::Return(e) => e,
    }
}

fn c(n: usize) -> Box<Expression> {
    Box::new(Expression::Const(n))
}

#[test]
fn lexes_without_positions_or_end_token() {
    let tokens = lex(b"int main() {\n\treturn 2;\n}").unwrap();
    assert_eq!(
        tokens,
        vec![
            Token::Int,
            Token::Ident("main".to_string()),
            Token::ParenOpen,
            Token::ParenClose,
            Token::CurlyBraceOpen,
            Token::Return,
            Token::Integer(2),
            Token::SemiColon,
            Token::CurlyBraceClose,
        ]
    );
}

#[test]
fn lexes_operators() {
    let tokens = lex(b"-~!+*/&&||==!=<<=>>=").unwrap();
    assert_eq!(
        tokens,
        vec![
            Token::Negation,
            Token::BitComplement,
            Token::LogicalNegation,
            Token::Add,
            Token::Mul,
            Token::Div,
            Token::And,
            Token::Or,
            Token::Equal,
            Token::NotEqual,
            Token::LT,
            Token::LTE,
            Token::GT,
            Token::GTE,
        ]
    );
}

#[test]
fn basic_unknown_bytes_become_unknown_tokens() {
    assert_eq!(lex(b"@x").unwrap(), vec![Token::Unknown("@".to_string()), Token::Ident("x".to_string())]);
}

#[test]
fn lone_ampersand_bar_or_equals_is_unsupported() {
    assert_eq!(lex(b"a & b"), Err(LexError::Unsupported { at: 2 }));
    assert_eq!(lex(b"a | b"), Err(LexError::Unsupported { at: 2 }));
    assert_eq!(lex(b"="), Err(LexError::Unsupported { at: 0 }));
}

#[test]
fn an_integer_too_large_is_an_error() {
    assert_eq!(lex(b"  18446744073709551616"), Err(LexError::IntegerTooLarge { at: 2 }));
    assert_eq!(lex(b"18446744073709551615").unwrap(), vec![Token::Integer(18446744073709551615)]);
}

#[test]
fn parses_a_program() {
    let program = parse("int main() { return 2; }").unwrap();
    assert_eq!(format!("{:?}", program), "Program(Function(\"main\", Statements([Return(Const(2))])))");
}

#[test]
fn precedence_and_associativity() {
    assert_eq!(
        returned("1 + 2 * 3"),
        Expression::Binary {
            op: BinaryOp::Add,
            l_expr: c(1),
            r_expr: Box::new(Expression::Binary { op: BinaryOp::Mul, l_expr: c(2), r_expr: c(3) }),
        }
    );
    assert_eq!(
        returned("1 - 2 - 3"),
        Expression::Binary {
            op: BinaryOp::Sub,
            l_expr: Box::new(Expression::Binary { op: BinaryOp::Sub, l_expr: c(1), r_expr: c(2) }),
            r_expr: c(3),
        }
    );
    assert_eq!(
        returned("1 || 2 && 3 == 4 < 5"),
        Expression::Binary {
            op: BinaryOp::Or,
            l_expr: c(1),
            r_expr: Box::new(Expression::Binary {
                op: BinaryOp::And,
                l_expr: c(2),
                r_expr: Box::new(Expression::Binary {
                    op: BinaryOp::Equal,
                    l_expr: c(3),
                    r_expr: Box::new(Expression::Binary { op: BinaryOp::LT, l_expr: c(4), r_expr: c(5) }),
                }),
            }),
        }
    );
    assert_eq!(
        returned("~1 * 2"),
        Expression::Binary {
            op: BinaryOp::Mul,
            l_expr: Box::new(Expression::Unary { op: UnaryOp::BitwiseComplement, expr: c(1) }),
            r_expr: c(2),
        }
    );
}

#[test]
fn parse_errors() {
    assert!(matches!(parse("main() {}"), Err(ParseError::MissingReturnType)));
    assert!(matches!(parse("int 5"), Err(ParseError::ExpectedIdent(Token::Integer(5)))));
    assert!(matches!(
        parse("int main( {"),
        Err(ParseError::Expected { expected: Token::ParenClose, got: Token::CurlyBraceOpen })
    ));
    assert!(matches!(parse("int main() { 2; }"), Err(ParseError::UnexpectedToken(Token::Integer(2)))));
    assert!(matches!(parse("int main() { return ; }"), Err(ParseError::ExpectedExpression(Token::SemiColon))));
    assert!(matches!(
        parse("int main() { return 2; "),
        Err(ParseError::UnexpectedEofExpected(Token::CurlyBraceClose))
    ));
    assert!(matches!(parse("int main() { return 2"), Err(ParseError::UnexpectedEofExpected(Token::SemiColon))));
    assert!(matches!(parse("int main() { return"), Err(ParseError::UnexpectedEof)));
    assert!(matches!(parse(""), Err(ParseError::UnexpectedEof)));
}

#[test]
fn a_token_stream_gives_its_tokens_in_order() {
    let mut stream = TokenStream::new(vec![Token::Int, Token::Return]);
    assert_eq!(stream.peek(), Some(&Token::Int));
    assert_eq!(stream.next(), Some(Token::Int));
    assert_eq!(stream.next(), Some(Token::Return));
    assert_eq!(stream.next(), None);
    assert_eq!(stream.peek(), None);
}

#[test]
fn generates_a_return() {
    let text = gen_program(parse("int main() { return 2; }").unwrap()).unwrap();
    assert_eq!(text, "\t.globl _main\n_main:\n\tmovl \t$2, %eax\n\tret\n");
}

#[test]
fn generates_operators() {
    let text = gen_program(parse("int main() { return -~!1; }").unwrap()).unwrap();
    assert_eq!(
        text,
        "\t.globl _main\n_main:\n\tmovl \t$1, %eax\n\tcmpl\t$0, %eax\n\tmovl\t$0, %eax\n\tsete\t%al\n\tnot \t%eax\n\tneg \t%eax\n\tret\n"
    );
    let text = gen_program(parse("int main() { return 1 < 2; }").unwrap()).unwrap();
    assert!(text.contains(
        "\tmovl \t$2, %eax\n\tpush \t%rax\n\tmovl \t$1, %eax\n\tpop \t%rcx\n\tcmpl \t%ecx, %eax\n\tmovl \t$0, %eax\n\tsetl %al\n"
    ));
    let text = gen_program(parse("int main() { return 6 / 3; }").unwrap()).unwrap();
    assert!(text.contains("\tmovl \t$3, %eax\n\tpush \t%rax\n\tmovl \t$6, %eax\n\n\tcdq\n\tpop \t%rcx\n\tidiv \t%ecx\n"));
}

#[test]
fn logical_operators_take_labels_in_order() {
    let text = gen_program(parse("int main() { return 1 || 0 && 2; }").unwrap()).unwrap();
    // the inner `&&` is generated first and takes the first two labels
    assert!(text.contains("\tjne \t_label0\n\tjmp \t_label1\n_label0:\n"));
    assert!(text.contains("je \t_label2\n\tmovl \t$1, %eax\n\tjmp \t_label3\n_label2:\n"));
    assert!(text.ends_with("_label3:\n\tret\n"));
}

#[test]
fn law_parse_takes_a_prefix_of_the_tokens() {
    let tokens = lex(b"int main() { return 1 + 2; } int x").unwrap();
    let mut stream = TokenStream::new(tokens);
    assert!(parse_program(&mut stream).is_ok());
    assert_eq!(stream.next(), Some(Token::Int));
    assert_eq!(stream.next(), Some(Token::Ident("x".to_string())));
    assert_eq!(stream.next(), None);
}

#[test]
fn law_labels_decide_success_on_a_sample() {
    // two logical operators take the labels 0 to 3 and nothing more
    let text = gen_program(parse("int main() { return 1 && 2 || 3; }").unwrap()).unwrap();
    for n in 0..4 {
        assert!(text.contains(&format!("_label{}:\n", n)));
    }
    assert!(!text.contains("_label4"));
}
