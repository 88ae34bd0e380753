use rscc::codegen::{AsmBuilder, CodeGen, CodegenError};
use rscc::lexer::types::Lexer;
use rscc::parser::types::{
    BinaryOp, Block, BlockItem, Declare, Expression, Function, Program, Statement,
};
use rscc::parser::Parser;

const PROLOGUE: &str = "\t.globl _main\n_main:\n\tpush \t%rbp\n\tmov  \t%rsp, %rbp\n";
const RETURN: &str = "\tmov \t%rbp, %rsp\n\tpop \t%rbp\n\tret\n";
const EPILOGUE: &str = "\tmovl \t$0, %eax\n \tmov \t%rbp, %rsp\n \tpop \t%rbp\n \tret\n";

fn program(source: &str) -> Program {
    let tokens = Lexer::new().lex(source.as_bytes()).unwrap();
    Parser::new(source.as_bytes()).parse_tokens(tokens).unwrap()
}

fn compile(source: &str) -> Result<String, CodegenError> {
    CodeGen::new().gen_program(program(source))
}

fn main_of(items: Vec<BlockItem>) -> Program {
    Program(Function("main".to_string(), Block(items)))
}

#[test]
fn returns_a_constant() {
    let text = compile("int main() { return 2; }").unwrap();
    let expected = format!("{PROLOGUE}\tmovl \t$2, %eax\n{RETURN}\taddq \t$0, %rsp\n\n");
    assert_eq!(text, expected);
}

#[test]
fn a_body_without_return_ends_with_a_return_of_zero() {
    let text = compile("int main() { int a = 1; a = a + 2; }").unwrap();
    let expected = format!(
        "{PROLOGUE}\tmovl \t$1, %eax\n\tpush \t%rax\n\
         \tmovl \t-8(%rbp), %eax\n\tpush \t%rax\n\tmovl \t$2, %eax\n\tpop \t%rcx\n\taddl \t%ecx, %eax\n\
         \tmovl \t%eax, -8(%rbp)\n\
         \taddq \t$8, %rsp\n{EPILOGUE}\n"
    );
    assert_eq!(text, expected);
}

#[test]
fn an_empty_body_returns_zero() {
    let text = compile("int main() { }").unwrap();
    assert_eq!(text, format!("{PROLOGUE}\taddq \t$0, %rsp\n{EPILOGUE}\n"));
}

#[test]
fn unary_operators_generate_in_order() {
    let text = compile("int main() { return -~!1; }").unwrap();
    let expected = format!(
        "{PROLOGUE}\tmovl \t$1, %eax\n\tcmpl\t$0, %eax\n\tmovl\t$0, %eax\n\tsete\t%al\n\tnot \t%eax\n\tneg \t%eax\n{RETURN}\taddq \t$0, %rsp\n\n"
    );
    assert_eq!(text, expected);
}

#[test]
fn subtraction_evaluates_the_right_operand_first() {
    let text = compile("int main() { return 5 - 3; }").unwrap();
    let expected = format!(
        "{PROLOGUE}\tmovl \t$3, %eax\n\tpush \t%rax\n\tmovl \t$5, %eax\n\tpop \t%rcx\n\tsubl \t%ecx, %eax\n{RETURN}\taddq \t$0, %rsp\n\n"
    );
    assert_eq!(text, expected);
}

#[test]
fn relational_and_bitwise_operators() {
    let text = compile("int main() { return 1 < 2; }").unwrap();
    assert!(text.contains(
        "\tmovl \t$2, %eax\n\tpush \t%rax\n\tmovl \t$1, %eax\n\tpop \t%rcx\n\tcmpl \t%ecx, %eax\n\tmovl \t$0, %eax\n\tsetl \t%al\n"
    ));
    let text = compile("int main() { return 6 % 4; }").unwrap();
    assert!(text.contains(
        "\tmovl \t$4, %eax\n\tpush \t%rax\n\tmovl \t$6, %eax\n\tcdq\n\tpop \t%rcx\n\tidiv \t%ecx\n\tmovl \t%edx, %eax\n"
    ));
    let text = compile("int main() { return 1 << 3; }").unwrap();
    assert!(text.contains("\tpop \t%rcx\n\tsal \t%cl, %eax\n"));
}

#[test]
fn logical_and_takes_two_labels_after_its_operands() {
    let text = compile("int main() { return 1 && 0; }").unwrap();
    let expected = format!(
        "{PROLOGUE}\tmovl \t$1, %eax\n\tcmpl \t$0, %eax\n\tjne \t_label0\n\tjmp \t_label1\n_label0:\n\tmovl \t$0, %eax\n\tcmpl $0, %eax\n\tmovl \t$0, %eax\n\tsetne \t%al\n_label1:\n{RETURN}\taddq \t$0, %rsp\n\n"
    );
    assert_eq!(text, expected);
}

#[test]
fn if_else_and_conditional_labels() {
    let text = compile("int main() { int a = 1; if (a) return 1; else return 2; }").unwrap();
    assert!(text.contains(
        "\tmovl \t-8(%rbp), %eax\n\tcmpl \t$0, %eax\n\tje \t_label0\n\tmovl \t$1, %eax\n"
    ));
    assert!(text.contains(&format!("{RETURN}\tjmp \t_label1\n_label0:\n\tmovl \t$2, %eax\n{RETURN}_label1:\n")));
    let text = compile("int main() { return 1 ? 2 : 3; }").unwrap();
    assert!(text.contains(
        "\tmovl \t$1, %eax\n\tcmpl \t$0, %eax\n\tje \t_label0\n\tmovl \t$2, %eax\n\tjmp \t_label1\n_label0:\n\tmovl \t$3, %eax\n_label1:\n"
    ));
}

#[test]
fn a_while_loop_with_break() {
    let code = main_of(vec![BlockItem::Statement(Statement::While {
        condition: Expression::Const(1),
        body: Box::new(Statement::Break),
    })]);
    let text = CodeGen::new().gen_program(code).unwrap();
    let expected = format!(
        "{PROLOGUE}_label0:\n\tmovl \t$1, %eax\n\tcmpl \t$0, %eax\n\tje \t_label1\n\tjmp \t_label1\n\tjmp \t_label0\n_label1:\n\taddq \t$0, %rsp\n{EPILOGUE}\n"
    );
    assert_eq!(text, expected);
}

#[test]
fn a_do_loop_continue_goes_to_the_condition_test() {
    let code = main_of(vec![BlockItem::Statement(Statement::Do {
        body: Box::new(Statement::Continue),
        condition: Expression::Const(0),
    })]);
    let text = CodeGen::new().gen_program(code).unwrap();
    assert!(text.contains(
        "_label0:\n\tjmp \t_label1\n_label1:\n\tmovl \t$0, %eax\n\tcmpl \t$0, %eax\n\tje \t_label2\n\tjmp \t_label0\n_label2:\n"
    ));
    let code = main_of(vec![BlockItem::Statement(Statement::Do {
        body: Box::new(Statement::Break),
        condition: Expression::Const(1),
    })]);
    let text = CodeGen::new().gen_program(code).unwrap();
    assert!(text.contains("_label0:\n\tjmp \t_label2\n_label1:\n"));
}

#[test]
fn a_for_loop_with_a_declaration_frees_its_slot() {
    let code = main_of(vec![BlockItem::Statement(Statement::ForDecl {
        init: Some(Declare(Expression::Ident("i".to_string()), Some(Expression::Const(0)))),
        condition: Expression::Const(1),
        post: None,
        body: Box::new(Statement::Null),
    })]);
    let text = CodeGen::new().gen_program(code).unwrap();
    let expected = format!(
        "{PROLOGUE}\tmovl \t$0, %eax\n\tpush \t%rax\n_label0:\n\tmovl \t$1, %eax\n\tcmpl \t$0, %eax\n\tje \t_label2\n_label1:\n\tjmp \t_label0\n_label2:\n\taddq \t$8, %rsp\n\taddq \t$0, %rsp\n{EPILOGUE}\n"
    );
    assert_eq!(text, expected);
}

#[test]
fn inner_blocks_see_outer_names_and_shadow_them() {
    let code = main_of(vec![
        BlockItem::Declare(Declare(Expression::Ident("a".to_string()), None)),
        BlockItem::Statement(Statement::Block(Block(vec![
            BlockItem::Declare(Declare(Expression::Ident("a".to_string()), None)),
            BlockItem::Statement(Statement::Expr(Expression::Ident("a".to_string()))),
        ]))),
        BlockItem::Statement(Statement::Return(Expression::Ident("a".to_string()))),
    ]);
    let text = CodeGen::new().gen_program(code).unwrap();
    let expected = format!(
        "{PROLOGUE}\tpush \t%rax\n\tpush \t%rax\n\tmovl \t-16(%rbp), %eax\n\taddq \t$8, %rsp\n\tmovl \t-8(%rbp), %eax\n{RETURN}\taddq \t$8, %rsp\n\n"
    );
    assert_eq!(text, expected);
}

#[test]
fn redeclaring_a_name_in_one_scope_fails() {
    assert_eq!(compile("int main() { int a; int a; }"), Err(CodegenError::Redeclared("a".to_string())));
}

#[test]
fn using_an_undeclared_name_fails() {
    assert_eq!(compile("int main() { return b; }"), Err(CodegenError::UndeclaredUse("b".to_string())));
    assert_eq!(compile("int main() { b = 1; }"), Err(CodegenError::UndeclaredAssign("b".to_string())));
}

#[test]
fn break_and_continue_outside_a_loop_fail() {
    let r = CodeGen::new().gen_program(main_of(vec![BlockItem::Statement(Statement::Break)]));
    assert_eq!(r, Err(CodegenError::BreakOutsideLoop));
    let r = CodeGen::new().gen_program(main_of(vec![BlockItem::Statement(Statement::Continue)]));
    assert_eq!(r, Err(CodegenError::ContinueOutsideLoop));
}

#[test]
fn declaring_or_assigning_a_non_name_fails() {
    let r = CodeGen::new().gen_program(main_of(vec![BlockItem::Declare(Declare(Expression::Const(1), None))]));
    assert_eq!(r, Err(CodegenError::DeclareNonIdent));
    let r = CodeGen::new().gen_program(main_of(vec![BlockItem::Statement(Statement::Expr(
        Expression::Assign { ident: Box::new(Expression::Const(1)), expr: Box::new(Expression::Const(2)) },
    ))]));
    assert_eq!(r, Err(CodegenError::AssignNonIdent));
}

#[test]
fn null_statement_and_expression_give_no_text() {
    let code = main_of(vec![
        BlockItem::Statement(Statement::Null),
        BlockItem::Statement(Statement::Expr(Expression::Null)),
    ]);
    let text = CodeGen::new().gen_program(code).unwrap();
    assert_eq!(text, format!("{PROLOGUE}\taddq \t$0, %rsp\n{EPILOGUE}\n"));
}

#[test]
fn labels_count_on_across_a_function() {
    let text = compile("int main() { return (1 || 2) && 3; }").unwrap();
    assert!(text.contains("_label3:\n"));
    assert!(!text.contains("_label4"));
    let e = Expression::Binary {
        op: BinaryOp::Or,
        l_expr: Box::new(Expression::Const(1)),
        r_expr: Box::new(Expression::Const(2)),
    };
    let text = CodeGen::new().gen_program(main_of(vec![BlockItem::Statement(Statement::Expr(e))])).unwrap();
    assert!(text.contains("\tcmpl \t$0, %eax\nje \t_label0\n\tmovl \t$1, %eax\n\tjmp \t_label1\n_label0:\n"));
}

#[test]
fn asm_builder_appends_instructions() {
    let text = String::from("x:\n").movl("4", "eax").negate("%eax");
    assert_eq!(text, "x:\n\tmovl\t$4, %eax\n\tneg\t%eax\n");
}

#[test]
fn a_for_loop_with_expressions() {
    let code = main_of(vec![BlockItem::Statement(Statement::For {
        init: Some(Expression::Const(1)),
        condition: Expression::Const(0),
        post: Some(Expression::Const(2)),
        body: Box::new(Statement::Continue),
    })]);
    let text = CodeGen::new().gen_program(code).unwrap();
    assert!(text.contains(
        "\tmovl \t$1, %eax\n_label0:\n\tmovl \t$0, %eax\n\tcmpl \t$0, %eax\n\tje \t_label2\n\tjmp \t_label1\n_label1:\n\tmovl \t$2, %eax\n\tjmp \t_label0\n_label2:\n"
    ));
}

#[test]
fn a_slot_count_below_zero_fails() {
    // a `for` with a declaration frees one slot even when it declares nothing
    let inner = Statement::ForDecl { init: None, condition: Expression::Const(1), post: None, body: Box::new(Statement::Null) };
    let outer = Statement::ForDecl { init: None, condition: Expression::Const(1), post: None, body: Box::new(inner) };
    let r = CodeGen::new().gen_program(main_of(vec![BlockItem::Statement(outer)]));
    assert_eq!(r, Err(CodegenError::CounterOverflow));
}

#[test]
fn a_conditional_takes_its_labels_after_its_operands() {
    let text = compile("int main() { return 1 ? 2 && 3 : 4; }").unwrap();
    assert!(text.contains("\tmovl \t$1, %eax\n\tcmpl \t$0, %eax\n\tje \t_label2\n"));
    assert!(text.contains("_label1:\n\tjmp \t_label3\n_label2:\n\tmovl \t$4, %eax\n_label3:\n"));
}

#[test]
fn law_statement_balanced_gives_back_block_slots() {
    // the slot of `a` is given back when its block ends, so `b` takes it again
    let code = main_of(vec![
        BlockItem::Statement(Statement::Block(Block(vec![BlockItem::Declare(Declare(
            Expression::Ident("a".to_string()),
            Some(Expression::Const(5)),
        ))]))),
        BlockItem::Declare(Declare(Expression::Ident("b".to_string()), Some(Expression::Const(2)))),
        BlockItem::Statement(Statement::Return(Expression::Ident("b".to_string()))),
    ]);
    let text = CodeGen::new().gen_program(code).unwrap();
    assert!(text.contains("\tmovl \t$2, %eax\n\tpush \t%rax\n\tmovl \t-8(%rbp), %eax\n"));
}

#[test]
fn break_and_continue_give_back_the_slots_of_the_loop_body() {
    let code = main_of(vec![BlockItem::Statement(Statement::While {
        condition: Expression::Const(1),
        body: Box::new(Statement::Block(Block(vec![
            BlockItem::Declare(Declare(Expression::Ident("a".to_string()), Some(Expression::Const(1)))),
            BlockItem::Statement(Statement::Break),
            BlockItem::Statement(Statement::Continue),
        ]))),
    })]);
    let text = CodeGen::new().gen_program(code).unwrap();
    assert!(text.contains(
        "\tmovl \t$1, %eax\n\tpush \t%rax\n\taddq \t$8, %rsp\n\tjmp \t_label1\n\taddq \t$8, %rsp\n\tjmp \t_label0\n\taddq \t$8, %rsp\n"
    ));
    // the counter a `for` declares stays on the stack when the body jumps
    let code = main_of(vec![BlockItem::Statement(Statement::ForDecl {
        init: Some(Declare(Expression::Ident("i".to_string()), Some(Expression::Const(0)))),
        condition: Expression::Const(1),
        post: None,
        body: Box::new(Statement::Continue),
    })]);
    let text = CodeGen::new().gen_program(code).unwrap();
    assert!(text.contains("\tje \t_label2\n\tjmp \t_label1\n_label1:\n"));
}
