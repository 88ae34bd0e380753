use rscc::lexer::types::{Lexer, Span, Token, TokenKind};
use rscc::parser::types::{
    BinaryOp, BlockItem, Declare, Expression, MultipeekExt, Program, Statement,
    UnaryOp,
};
use rscc::parser::{Expected, ParseError, Parser};

fn parse(source: &str) -> (Result<Program, ParseError>, Option<Token>) {
    let tokens = Lexer::new().lex(source.as_bytes()).unwrap();
    let mut iterator = itertools::multipeek(tokens);
    let program = Parser::new(source.as_bytes()).parse_program(&mut iterator);
    let next = iterator.peek_n(1);
    (program, next)
}

fn items(source: &str) -> Vec<BlockItem> {
    let (program, _) = parse(source);
    let Program(function) = program.unwrap();
    function.1 .0
}

fn returned(source: &str) -> Expression {
    let mut items = items(&format!("int main() {{ return {}; }}", source));
    assert_eq!(items.len(), 1);
    match items.remove(0) {
        BlockItem::Statement(Statement::Return(e)) => e,
        other => panic!("not a return: {:?}", other),
    }
}

fn c(n: usize) -> Box<Expression> {
    Box::new(Expression::Const(n))
}

fn id(name: &str) -> Box<Expression> {
    Box::new(Expression::Ident(name.to_string()))
}

fn bin(op: BinaryOp, l: Box<Expression>, r: Box<Expression>) -> Box<Expression> {
    Box::new(Expression::Binary { op, l_expr: l, r_expr: r })
}

#[test]
fn parses_a_function_returning_a_constant() {
    let (program, next) = parse("int main() { return 2; }");
    let program = program.unwrap();
    assert_eq!(
        format!("{:?}", program),
        "Program(Function(\"main\", Block([Statement(Return(Const(2)))])))"
    );
    // the closing brace of the body stays pending
    assert_eq!(next.unwrap().kind, TokenKind::CurlyBraceClose);
}

#[test]
fn multiplication_binds_tighter_than_addition() {
    assert_eq!(returned("1 + 2 * 3"), *bin(BinaryOp::Add, c(1), bin(BinaryOp::Mul, c(2), c(3))));
}

#[test]
fn subtraction_associates_to_the_left() {
    assert_eq!(returned("1 - 2 - 3"), *bin(BinaryOp::Sub, bin(BinaryOp::Sub, c(1), c(2)), c(3)));
}

#[test]
fn a_unary_operator_takes_one_operand() {
    assert_eq!(
        returned("-2 * 3"),
        *bin(BinaryOp::Mul, Box::new(Expression::Unary { op: UnaryOp::Negation, expr: c(2) }), c(3))
    );
    assert_eq!(
        returned("!0*3"),
        *bin(BinaryOp::Mul, Box::new(Expression::Unary { op: UnaryOp::LogicalNegation, expr: c(0) }), c(3))
    );
    assert_eq!(
        returned("-~1"),
        Expression::Unary {
            op: UnaryOp::Negation,
            expr: Box::new(Expression::Unary { op: UnaryOp::BitwiseComplement, expr: c(1) }),
        }
    );
}

#[test]
fn operator_levels_from_loosest_to_tightest() {
    let e = returned("1 || 2 && 3 | 4 ^ 5 & 6 == 7 < 8 << 9 + 10 % 11");
    let expected = bin(
        BinaryOp::Or,
        c(1),
        bin(
            BinaryOp::And,
            c(2),
            bin(
                BinaryOp::BitwiseOr,
                c(3),
                bin(
                    BinaryOp::BitwiseXor,
                    c(4),
                    bin(
                        BinaryOp::BitwiseAnd,
                        c(5),
                        bin(
                            BinaryOp::Equal,
                            c(6),
                            bin(
                                BinaryOp::LT,
                                c(7),
                                bin(
                                    BinaryOp::BitwiseShiftLeft,
                                    c(8),
                                    bin(BinaryOp::Add, c(9), bin(BinaryOp::Modulo, c(10), c(11))),
                                ),
                            ),
                        ),
                    ),
                ),
            ),
        ),
    );
    assert_eq!(e, *expected);
}

#[test]
fn parentheses_group() {
    assert_eq!(returned("(1 + 2) * 3"), *bin(BinaryOp::Mul, bin(BinaryOp::Add, c(1), c(2)), c(3)));
}

#[test]
fn unary_operators() {
    assert_eq!(
        returned("!~x"),
        Expression::Unary {
            op: UnaryOp::LogicalNegation,
            expr: Box::new(Expression::Unary { op: UnaryOp::BitwiseComplement, expr: id("x") }),
        }
    );
}

#[test]
fn conditional_expression() {
    assert_eq!(
        returned("a ? 1 : 2"),
        Expression::Conditional { pred: id("a"), then: c(1), otherwise: c(2) }
    );
}

#[test]
fn assignment_associates_to_the_right() {
    let items = items("int main() { a = b = 1; }");
    assert_eq!(items.len(), 1);
    match &items[0] {
        BlockItem::Statement(Statement::Expr(e)) => assert_eq!(
            *e,
            Expression::Assign {
                ident: id("a"),
                expr: Box::new(Expression::Assign { ident: id("b"), expr: c(1) }),
            }
        ),
        other => panic!("unexpected {:?}", other),
    }
}

#[test]
fn declarations_with_and_without_a_value() {
    let items = items("int main() { int a = 1; int b; }");
    assert_eq!(items.len(), 2);
    match &items[0] {
        BlockItem::Declare(Declare(name, Some(value))) => {
            assert_eq!(*name, *id("a"));
            assert_eq!(*value, Expression::Const(1));
        },
        other => panic!("unexpected {:?}", other),
    }
    match &items[1] {
        BlockItem::Declare(Declare(name, None)) => assert_eq!(*name, *id("b")),
        other => panic!("unexpected {:?}", other),
    }
}

#[test]
fn if_with_and_without_else() {
    let items = items("int main() { if (a) return 1; else return 2; if (b) c = 3; }");
    assert_eq!(items.len(), 2);
    match &items[0] {
        BlockItem::Statement(Statement::If { pred, then, otherwise: Some(o) }) => {
            assert_eq!(*pred, *id("a"));
            assert!(matches!(**then, Statement::Return(Expression::Const(1))));
            assert!(matches!(**o, Statement::Return(Expression::Const(2))));
        },
        other => panic!("unexpected {:?}", other),
    }
    assert!(matches!(&items[1], BlockItem::Statement(Statement::If { otherwise: None, .. })));
}

#[test]
fn missing_return_type_is_reported() {
    let (program, _) = parse("main() {}");
    match program {
        Err(ParseError::Unexpected { token, expected: Expected::ReturnType }) => {
            assert_eq!(token.kind, TokenKind::Ident("main".to_string()));
            assert_eq!(token.span, Span { start: 0, end: 4, line: 0 });
        },
        other => panic!("unexpected {:?}", other),
    }
}

#[test]
fn a_function_name_must_be_an_identifier() {
    let (program, _) = parse("int 5() {}");
    assert!(matches!(
        program,
        Err(ParseError::Unexpected { token: Token { kind: TokenKind::Integer(5), .. }, expected: Expected::Ident })
    ));
}

#[test]
fn a_missing_token_is_reported_with_the_kind_expected() {
    let (program, _) = parse("int main( {}");
    assert!(matches!(
        program,
        Err(ParseError::Unexpected {
            token: Token { kind: TokenKind::CurlyBraceOpen, .. },
            expected: Expected::Kind(TokenKind::ParenClose),
        })
    ));
    let (program, _) = parse("int main() { return 2 }");
    assert!(matches!(
        program,
        Err(ParseError::Unexpected {
            token: Token { kind: TokenKind::CurlyBraceClose, .. },
            expected: Expected::Kind(TokenKind::SemiColon),
        })
    ));
}

#[test]
fn an_operand_must_be_a_name_an_integer_or_a_parenthesis() {
    let (program, _) = parse("int main() { return; }");
    assert!(matches!(
        program,
        Err(ParseError::Unexpected {
            token: Token { kind: TokenKind::SemiColon, .. },
            expected: Expected::IdentOrInteger,
        })
    ));
}

#[test]
fn a_declaration_needs_a_semicolon_or_a_value() {
    let (program, _) = parse("int main() { int a 1; }");
    assert!(matches!(
        program,
        Err(ParseError::Unexpected {
            token: Token { kind: TokenKind::Integer(1), .. },
            expected: Expected::SemicolonOrAssign,
        })
    ));
}

#[test]
fn declaring_something_other_than_a_name_fails() {
    let (program, _) = parse("int main() { int 5; }");
    assert!(matches!(program, Err(ParseError::DeclaredNonIdent)));
}

#[test]
fn assigning_to_something_other_than_a_name_fails() {
    let (program, _) = parse("int main() { 5 = 3; }");
    assert!(matches!(program, Err(ParseError::AssignToNonIdent(Expression::Const(5)))));
}

#[test]
fn running_out_of_tokens() {
    let tokens = vec![
        Token { kind: TokenKind::Int, span: Span { start: 0, end: 3, line: 0 } },
        Token { kind: TokenKind::Ident("f".to_string()), span: Span { start: 4, end: 5, line: 0 } },
    ];
    let program = Parser::new(b"int f").parse_tokens(tokens);
    assert!(matches!(program, Err(ParseError::UnexpectedEofExpected(TokenKind::ParenOpen))));

    let mut iterator = itertools::multipeek(Vec::<Token>::new());
    let program = Parser::new(b"").parse_program(&mut iterator);
    assert!(matches!(program, Err(ParseError::UnexpectedEof)));
}

#[test]
fn law_parse_takes_a_prefix_on_a_sample() {
    // what is left after the function is exactly the tokens after its body
    let (program, next) = parse("int main() { return 1; } int");
    assert!(program.is_ok());
    let next = next.unwrap();
    assert_eq!(next.kind, TokenKind::CurlyBraceClose);
    assert_eq!(next.span, Span { start: 23, end: 24, line: 0 });
}

#[test]
fn peek_n_looks_ahead_without_taking() {
    let tokens = Lexer::new().lex(b"a b c").unwrap();
    let mut iterator = itertools::multipeek(tokens);
    assert_eq!(iterator.peek_n(3).unwrap().kind, TokenKind::Ident("c".to_string()));
    assert_eq!(iterator.peek_n(1).unwrap().kind, TokenKind::Ident("a".to_string()));
    assert_eq!(iterator.peek_n(4).unwrap().kind, TokenKind::EOF);
    assert!(iterator.peek_n(5).is_none());
    assert_eq!(iterator.next().unwrap().kind, TokenKind::Ident("a".to_string()));
    assert_eq!(iterator.peek_n(1).unwrap().kind, TokenKind::Ident("b".to_string()));
}
