//! The code generator of the smaller language: x86-64 assembly in AT&T
//! syntax, with the value of every expression in `%eax`.

use vstd::prelude::*;

use crate::basic::parser::{BinaryOp, Expression, Function, Program, Statement, UnaryOp};
use crate::codegen::CodegenError;
use crate::text::{decimal, push_decimal, push_str, push_usize};

verus! {

/// The text that combines the texts of the two operands of a binary
/// operation; `a` and `b` are the labels that `&&` and `||` use.
pub open spec fn binary_text(
    op: BinaryOp,
    lhs: Seq<char>,
    rhs: Seq<char>,
    a: Seq<char>,
    b: Seq<char>,
) -> Seq<char> {
    match op {
        BinaryOp::Add => lhs + "\tpush \t%rax\n"@ + rhs + "\tpop \t%rcx\n\taddl \t%ecx, %eax\n"@,
        BinaryOp::Mul => lhs + "\tpush \t%rax\n"@ + rhs + "\tpop \t%rcx\n\timul \t%ecx, %eax\n"@,
        BinaryOp::Div => rhs + "\tpush \t%rax\n"@ + lhs + "\n\tcdq\n\tpop \t%rcx\n\tidiv \t%ecx\n"@,
        BinaryOp::Sub => rhs + "\tpush \t%rax\n"@ + lhs + "\tpop \t%rcx\n\tsubl \t%ecx, %eax\n"@,
        BinaryOp::And => lhs + "\tcmpl \t$0, %eax\n\tjne \t"@ + a + "\n\tjmp \t"@ + b + "\n"@ + a
            + ":\n"@ + rhs + "\tcmpl $0, %eax\n\tmovl \t$0, %eax\n\tsetne \t%al\n"@ + b + ":\n"@,
        BinaryOp::Or => lhs + "\tcmpl \t$0, %eax\nje \t"@ + a + "\n\tmovl \t$1, %eax\n\tjmp \t"@ + b
            + "\n"@ + a + ":\n"@ + rhs + "\tcmpl \t$0, %eax\n\tmovl \t$0, %eax\n\tsetne %al\n"@ + b
            + ":\n"@,
        BinaryOp::Equal => lhs + "\tpush \t%rax\n"@ + rhs
            + "\tpop \t%rcx\n\tcmpl \t%ecx, %eax\n\tmovl \t$0, %eax\n\tsete %al\n"@,
        BinaryOp::NotEqual => lhs + "\tpush \t%rax\n"@ + rhs
            + "\tpop \t%rcx\n\tcmpl \t%ecx, %eax\n\tmovl \t$0, %eax\n\tsetne %al\n"@,
        BinaryOp::LT => rhs + "\tpush \t%rax\n"@ + lhs
            + "\tpop \t%rcx\n\tcmpl \t%ecx, %eax\n\tmovl \t$0, %eax\n"@ + "\tsetl %al\n"@,
        BinaryOp::LTE => rhs + "\tpush \t%rax\n"@ + lhs
            + "\tpop \t%rcx\n\tcmpl \t%ecx, %eax\n\tmovl \t$0, %eax\n"@ + "\tsetle %al\n"@,
        BinaryOp::GT => rhs + "\tpush \t%rax\n"@ + lhs
            + "\tpop \t%rcx\n\tcmpl \t%ecx, %eax\n\tmovl \t$0, %eax\n"@ + "\tsetg %al\n"@,
        BinaryOp::GTE => rhs + "\tpush \t%rax\n"@ + lhs
            + "\tpop \t%rcx\n\tcmpl \t%ecx, %eax\n\tmovl \t$0, %eax\n"@ + "\tsetge %al\n"@,
    }
}

pub open spec fn unary_text(op: UnaryOp, operand: Seq<char>) -> Seq<char> {
    match op {
        UnaryOp::Negation => operand + "\tneg \t%eax\n"@,
        UnaryOp::LogicalNegation => operand + "\tcmpl\t$0, %eax\n\tmovl\t$0, %eax\n\tsete\t%al\n"@,
        UnaryOp::BitwiseComplement => operand + "\tnot \t%eax\n"@,
    }
}

/// What generating gives: the text and the next label number, or the
/// reason generation stopped.
pub type GenOut = Result<(Seq<char>, u32), CodegenError>;

/// A fresh label and the next label number.
pub open spec fn next_label(labels: u32) -> Result<(Seq<char>, u32), CodegenError> {
    if labels < u32::MAX {
        Ok((crate::codegen::label_name(labels), (labels + 1) as u32))
    } else {
        Err(CodegenError::CounterOverflow)
    }
}

/// Generating an expression with labels numbered from `labels` on.
pub open spec fn gen_expr(labels: u32, e: Expression) -> GenOut
    decreases e,
{
    match e {
        Expression::Const(i) => Ok(("\tmovl \t$"@ + decimal(i as nat) + ", %eax\n"@, labels)),
        Expression::Unary { op, expr } => match gen_expr(labels, *expr) {
            Ok((operand, l1)) => Ok((unary_text(op, operand), l1)),
            Err(err) => Err(err),
        },
        Expression::Binary { op, l_expr, r_expr } => match gen_expr(labels, *l_expr) {
            Err(err) => Err(err),
            Ok((lhs, l1)) => match gen_expr(l1, *r_expr) {
                Err(err) => Err(err),
                Ok((rhs, l2)) => if op is And || op is Or {
                    match next_label(l2) {
                        Err(err) => Err(err),
                        Ok((a, l3)) => match next_label(l3) {
                            Err(err) => Err(err),
                            Ok((b, l4)) => Ok((binary_text(op, lhs, rhs, a, b), l4)),
                        },
                    }
                } else {
                    Ok((binary_text(op, lhs, rhs, seq![], seq![]), l2))
                },
            },
        },
    }
}

/// Generating statements one after the other.
pub open spec fn gen_statements(labels: u32, statements: Seq<Statement>) -> GenOut
    decreases statements.len(),
{
    if statements.len() == 0 {
        Ok((seq![], labels))
    } else {
        match statements[0] {
            Statement::Return(e) => match gen_expr(labels, e) {
                Err(err) => Err(err),
                Ok((value, l1)) => match gen_statements(l1, statements.drop_first()) {
                    Err(err) => Err(err),
                    Ok((rest, l2)) => Ok((value + "\tret"@ + rest, l2)),
                },
            },
        }
    }
}

/// Generating a function: its label and its statements.
pub open spec fn gen_function(labels: u32, f: Function) -> GenOut {
    match gen_statements(labels, f.1.0@) {
        Err(err) => Err(err),
        Ok((body, l1)) => Ok(("\t.globl _"@ + f.0@ + "\n_"@ + f.0@ + ":\n"@ + body + "\n"@, l1)),
    }
}

fn unary_asm(op: &UnaryOp, operand: String) -> (r: String)
    ensures
        r@ == unary_text(*op, operand@),
{
    let mut out = operand;
    match op {
        UnaryOp::Negation => push_str(&mut out, "\tneg \t%eax\n"),
        UnaryOp::LogicalNegation => push_str(&mut out, "\tcmpl\t$0, %eax\n\tmovl\t$0, %eax\n\tsete\t%al\n"),
        UnaryOp::BitwiseComplement => push_str(&mut out, "\tnot \t%eax\n"),
    }
    out
}

fn binary_asm(op: &BinaryOp, lhs: &String, rhs: &String, a: &String, b: &String) -> (r: String)
    ensures
        r@ == binary_text(*op, lhs@, rhs@, a@, b@),
{
    let mut out = String::new();
    match op {
        BinaryOp::Add => {
            push_str(&mut out, lhs.as_str());
            push_str(&mut out, "\tpush \t%rax\n");
            push_str(&mut out, rhs.as_str());
            push_str(&mut out, "\tpop \t%rcx\n\taddl \t%ecx, %eax\n");
        },
        BinaryOp::Mul => {
            push_str(&mut out, lhs.as_str());
            push_str(&mut out, "\tpush \t%rax\n");
            push_str(&mut out, rhs.as_str());
            push_str(&mut out, "\tpop \t%rcx\n\timul \t%ecx, %eax\n");
        },
        BinaryOp::Div => {
            push_str(&mut out, rhs.as_str());
            push_str(&mut out, "\tpush \t%rax\n");
            push_str(&mut out, lhs.as_str());
            push_str(&mut out, "\n\tcdq\n\tpop \t%rcx\n\tidiv \t%ecx\n");
        },
        BinaryOp::Sub => {
            // subl source, dest computes dest = dest - source
            push_str(&mut out, rhs.as_str());
            push_str(&mut out, "\tpush \t%rax\n");
            push_str(&mut out, lhs.as_str());
            push_str(&mut out, "\tpop \t%rcx\n\tsubl \t%ecx, %eax\n");
        },
        BinaryOp::And => {
            push_str(&mut out, lhs.as_str());
            push_str(&mut out, "\tcmpl \t$0, %eax\n\tjne \t");
            push_str(&mut out, a.as_str());
            push_str(&mut out, "\n\tjmp \t");
            push_str(&mut out, b.as_str());
            push_str(&mut out, "\n");
            push_str(&mut out, a.as_str());
            push_str(&mut out, ":\n");
            push_str(&mut out, rhs.as_str());
            push_str(&mut out, "\tcmpl $0, %eax\n\tmovl \t$0, %eax\n\tsetne \t%al\n");
            push_str(&mut out, b.as_str());
            push_str(&mut out, ":\n");
        },
        BinaryOp::Or => {
            push_str(&mut out, lhs.as_str());
            push_str(&mut out, "\tcmpl \t$0, %eax\nje \t");
            push_str(&mut out, a.as_str());
            push_str(&mut out, "\n\tmovl \t$1, %eax\n\tjmp \t");
            push_str(&mut out, b.as_str());
            push_str(&mut out, "\n");
            push_str(&mut out, a.as_str());
            push_str(&mut out, ":\n");
            push_str(&mut out, rhs.as_str());
            push_str(&mut out, "\tcmpl \t$0, %eax\n\tmovl \t$0, %eax\n\tsetne %al\n");
            push_str(&mut out, b.as_str());
            push_str(&mut out, ":\n");
        },
        BinaryOp::Equal => {
            push_str(&mut out, lhs.as_str());
            push_str(&mut out, "\tpush \t%rax\n");
            push_str(&mut out, rhs.as_str());
            push_str(&mut out, "\tpop \t%rcx\n\tcmpl \t%ecx, %eax\n\tmovl \t$0, %eax\n\tsete %al\n");
        },
        BinaryOp::NotEqual => {
            push_str(&mut out, lhs.as_str());
            push_str(&mut out, "\tpush \t%rax\n");
            push_str(&mut out, rhs.as_str());
            push_str(&mut out, "\tpop \t%rcx\n\tcmpl \t%ecx, %eax\n\tmovl \t$0, %eax\n\tsetne %al\n");
        },
        BinaryOp::LT | BinaryOp::LTE | BinaryOp::GT | BinaryOp::GTE => {
            push_str(&mut out, rhs.as_str());
            push_str(&mut out, "\tpush \t%rax\n");
            push_str(&mut out, lhs.as_str());
            push_str(&mut out, "\tpop \t%rcx\n\tcmpl \t%ecx, %eax\n\tmovl \t$0, %eax\n");
            match op {
                BinaryOp::LT => push_str(&mut out, "\tsetl %al\n"),
                BinaryOp::LTE => push_str(&mut out, "\tsetle %al\n"),
                BinaryOp::GT => push_str(&mut out, "\tsetg %al\n"),
                _ => push_str(&mut out, "\tsetge %al\n"),
            }
        },
    }
    out
}

/// The state of code generation: the number of the next label.
struct CodeGen {
    label_counter: u32,
}

impl CodeGen {
    fn new() -> (r: CodeGen)
        ensures
            r.label_counter == 0,
    {
        CodeGen { label_counter: 0 }
    }

    fn make_label(&mut self) -> (r: Result<String, CodegenError>)
        ensures
            match next_label(old(self).label_counter) {
                Ok((l, n)) => r is Ok && r->Ok_0@ == l && final(self).label_counter == n,
                Err(err) => r == Err::<String, CodegenError>(err),
            },
    {
        if self.label_counter == u32::MAX {
            return Err(CodegenError::CounterOverflow);
        }
        let mut label = String::from_str("_label");
        push_decimal(&mut label, self.label_counter as u64);
        self.label_counter += 1;
        Ok(label)
    }

    fn gen_expression(&mut self, expr: &Expression) -> (r: Result<String, CodegenError>)
        ensures
            match gen_expr(old(self).label_counter, *expr) {
                Ok((text, n)) => r is Ok && r->Ok_0@ == text && final(self).label_counter == n,
                Err(err) => r == Err::<String, CodegenError>(err),
            },
        decreases expr,
    {
        match expr {
            Expression::Const(i) => {
                let mut out = String::from_str("\tmovl \t$");
                push_usize(&mut out, *i);
                push_str(&mut out, ", %eax\n");
                Ok(out)
            },
            Expression::Unary { op, expr } => {
                let operand = match self.gen_expression(expr) {
                    Ok(t) => t,
                    Err(e) => return Err(e),
                };
                Ok(unary_asm(op, operand))
            },
            Expression::Binary { op, l_expr, r_expr } => {
                let lhs = match self.gen_expression(l_expr) {
                    Ok(t) => t,
                    Err(e) => return Err(e),
                };
                let rhs = match self.gen_expression(r_expr) {
                    Ok(t) => t,
                    Err(e) => return Err(e),
                };
                match op {
                    BinaryOp::And | BinaryOp::Or => {
                        let rhs_label = match self.make_label() {
                            Ok(l) => l,
                            Err(e) => return Err(e),
                        };
                        let end_label = match self.make_label() {
                            Ok(l) => l,
                            Err(e) => return Err(e),
                        };
                        Ok(binary_asm(op, &lhs, &rhs, &rhs_label, &end_label))
                    },
                    _ => {
                        let none = String::new();
                        Ok(binary_asm(op, &lhs, &rhs, &none, &none))
                    },
                }
            },
        }
    }

    fn gen_statement(&mut self, statement: &Statement) -> (r: Result<String, CodegenError>)
        ensures
            match statement {
                Statement::Return(e) => match gen_expr(old(self).label_counter, *e) {
                    Ok((text, n)) => r is Ok && r->Ok_0@ == text + "\tret"@ && final(self).label_counter == n,
                    Err(err) => r == Err::<String, CodegenError>(err),
                },
            },
    {
        match statement {
            Statement::Return(expr) => {
                let mut out = match self.gen_expression(expr) {
                    Ok(t) => t,
                    Err(e) => return Err(e),
                };
                push_str(&mut out, "\tret");
                Ok(out)
            },
        }
    }

    fn gen_function(&mut self, function: Function) -> (r: Result<String, CodegenError>)
        ensures
            match gen_function(old(self).label_counter, function) {
                Ok((text, n)) => r is Ok && r->Ok_0@ == text && final(self).label_counter == n,
                Err(err) => r == Err::<String, CodegenError>(err),
            },
    {
        let Function(name, statements) = function;
        let ghost all = statements.0@;
        let mut body = String::new();
        let mut i: usize = 0;
        proof {
            assert(all.subrange(0, all.len() as int) =~= all);
            match gen_statements(self.label_counter, all) {
                Ok((t, n)) => assert(body@ + t =~= t),
                Err(_) => {},
            }
        }
        while i < statements.0.len()
            invariant
                i <= statements.0.len(),
                all == statements.0@,
                all == function.1.0@,
                gen_statements(old(self).label_counter, all) == match gen_statements(
                    self.label_counter,
                    all.subrange(i as int, all.len() as int),
                ) {
                    Ok((t, n)) => Ok((body@ + t, n)),
                    Err(err) => Err(err),
                },
            decreases statements.0.len() - i,
        {
            let ghost rest = all.subrange(i as int, all.len() as int);
            assert(rest[0] == all[i as int]);
            assert(rest.drop_first() =~= all.subrange(i + 1, all.len() as int));
            let text = match self.gen_statement(&statements.0[i]) {
                Ok(t) => t,
                Err(e) => return Err(e),
            };
            proof {
                match gen_statements(self.label_counter, all.subrange(i + 1, all.len() as int)) {
                    Ok((t, n)) => assert(body@ + (text@ + t) =~= (body@ + text@) + t),
                    Err(_) => {},
                }
            }
            push_str(&mut body, text.as_str());
            i += 1;
        }
        proof {
            assert(all.subrange(i as int, all.len() as int) =~= Seq::<Statement>::empty());
            assert(body@ + seq![] =~= body@);
        }
        let mut out = String::from_str("\t.globl _");
        push_str(&mut out, name.as_str());
        push_str(&mut out, "\n_");
        push_str(&mut out, name.as_str());
        push_str(&mut out, ":\n");
        push_str(&mut out, body.as_str());
        push_str(&mut out, "\n");
        Ok(out)
    }
}

/// Generates the assembly text of a program; fails only where the label
/// counter would go past `u32::MAX`.
pub fn gen_program(code: Program) -> (r: Result<String, CodegenError>)
    ensures
        match gen_function(0, code.0) {
            Ok((text, _)) => r is Ok && r->Ok_0@ == text,
            Err(err) => r == Err::<String, CodegenError>(err),
        },
{
    let mut codegen = CodeGen::new();
    codegen.gen_function(code.0)
}

} // verus!
