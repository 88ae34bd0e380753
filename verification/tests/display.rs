use rscc::basic;
use rscc::parser::types::{BinaryOp, Block, BlockItem, Declare, Expression, Function, Program, Statement, UnaryOp};

fn c(n: usize) -> Box<Expression> {
    Box::new(Expression::Const(n))
}

#[test]
fn operator_symbols() {
    assert_eq!(UnaryOp::Negation.to_string(), "-");
    assert_eq!(UnaryOp::LogicalNegation.to_string(), "!");
    assert_eq!(UnaryOp::BitwiseComplement.to_string(), "~");
    assert_eq!(BinaryOp::Or.to_string(), "||");
    assert_eq!(BinaryOp::GTE.to_string(), ">=");
    assert_eq!(BinaryOp::BitwiseShiftLeft.to_string(), "<<");
    assert_eq!(BinaryOp::Modulo.to_string(), "%");
    assert_eq!(basic::parser::BinaryOp::NotEqual.to_string(), "!=");
    assert_eq!(basic::parser::UnaryOp::BitwiseComplement.to_string(), "~");
}

#[test]
fn an_expression_prints_as_an_indented_tree() {
    let e = Expression::Binary {
        op: BinaryOp::Add,
        l_expr: c(1),
        r_expr: Box::new(Expression::Unary { op: UnaryOp::Negation, expr: c(2) }),
    };
    assert_eq!(e.to_string(), "Binary (+):\n\tLHS:\n\t\t1\n\tRHS:\n\t\tUnary (-):\n\t\t\t2\n");
    let mut out = String::from(">");
    e.fmt_tree(&mut out, 1);
    assert_eq!(out, ">\tBinary (+):\n\t\tLHS:\n\t\t\t1\n\t\tRHS:\n\t\t\tUnary (-):\n\t\t\t\t2\n");
}

#[test]
fn a_program_prints_its_function() {
    let program = Program(Function(
        "main".to_string(),
        Block(vec![
            BlockItem::Declare(Declare(Expression::Const(7), Some(Expression::Const(1)))),
            BlockItem::Declare(Declare(Expression::Const(8), None)),
            BlockItem::Statement(Statement::Return(Expression::Const(2))),
        ]),
    ));
    assert_eq!(
        program.to_string(),
        "FUN INT main:\n\tparams:()\n\tbody:\n\t\tDECLARE 7\n = 1\n\nDECLARE 8\n = \nRETURN Int <2\n>\n\n"
    );
}

#[test]
fn an_empty_block_prints_a_blank_line() {
    assert_eq!(Block(vec![]).to_string(), "\n");
}

#[test]
fn the_smaller_language_prints_returns_without_line_breaks() {
    let program = basic::parser::Program(basic::parser::Function(
        "main".to_string(),
        basic::parser::Statements(vec![basic::parser::Statement::Return(basic::parser::Expression::Const(2))]),
    ));
    assert_eq!(program.to_string(), "FUN INT main:\n\tparams:()\n\tbody:\n\t\tRETURN Int <2\n>\n");
}
