//! The code generator: the abstract syntax tree to x86-64 assembly.
//!
//! The value of every expression ends up in `%eax`. Local variables live
//! in 8-byte slots below `%rbp`; each block keeps a scope from names to
//! slots. Labels are numbered `_label0`, `_label1`, ... in the order in
//! which they are made.

use vstd::prelude::*;

pub mod laws;
pub mod machine;
pub mod meaning;

use crate::parser::types::{
    BinaryOp, Block, BlockItem, Declare, Expression, Function, Program, Statement, UnaryOp,
};
use crate::text::{decimal, push_decimal, push_signed_decimal, push_str, push_usize, signed_decimal};

verus! {

/// Why code generation stopped.
///
/// Each of these inputs is one on which the compiler cannot go on: the
/// library answers it with this error value rather than ending the
/// process, and the command-line program ends there, with a panic that
/// names the cause (or, for a token other than the one expected, with the
/// syntax error report and exit status 1).
#[derive(Debug, PartialEq, Eq)]
pub enum CodegenError {
    /// A declaration whose name is not an identifier.
    DeclareNonIdent,
    /// An assignment whose target is not an identifier.
    AssignNonIdent,
    /// A name declared twice in the same scope.
    Redeclared(String),
    /// A name used before it is declared.
    UndeclaredUse(String),
    /// A name assigned before it is declared.
    UndeclaredAssign(String),
    /// `break` outside of a loop.
    BreakOutsideLoop,
    /// `continue` outside of a loop.
    ContinueOutsideLoop,
    /// The label counter or the stack offset went out of the range of its
    /// type.
    CounterOverflow,
}

/// A loop's labels, where `continue` and `break` jump to, and how many
/// scopes were open when its body began.
struct LoopCtx {
    continue_label: String,
    break_label: String,
    scope_depth: usize,
}

/// The state of code generation.
pub struct CodeGen {
    label_counter: u32,
    var_map_stack: Vec<Vec<(String, u32)>>,
    loop_ctx_stack: Vec<LoopCtx>,
    ebp_offset: u32,  // in slots of 8 bytes
}

/// The state of code generation as a mathematical value: the next label
/// number, the scopes (innermost last) from names to stack slots, the
/// enclosing loops (innermost last) with their `continue` and `break`
/// labels and the number of scopes open when their body began, and the
/// next free slot.
pub struct GenState {
    pub labels: u32,
    pub scopes: Seq<Seq<(Seq<char>, u32)>>,
    pub loops: Seq<(Seq<char>, Seq<char>, nat)>,
    pub ebp: u32,
}

/// What generating a piece of the tree gives: the text and the state after
/// it, or the reason code generation stopped.
pub type GenOut = Result<(Seq<char>, GenState), CodegenError>;

pub open spec fn scope_model(scope: Vec<(String, u32)>) -> Seq<(Seq<char>, u32)> {
    scope@.map_values(|p: (String, u32)| (p.0@, p.1))
}

impl View for CodeGen {
    type V = GenState;

    closed spec fn view(&self) -> GenState {
        GenState {
            labels: self.label_counter,
            scopes: self.var_map_stack@.map_values(|s: Vec<(String, u32)>| scope_model(s)),
            loops: self.loop_ctx_stack@.map_values(
                |c: LoopCtx| (c.continue_label@, c.break_label@, c.scope_depth as nat),
            ),
            ebp: self.ebp_offset,
        }
    }
}

/// No scope holds a name twice.
#[verifier::opaque]
pub open spec fn scopes_unique(scopes: Seq<Seq<(Seq<char>, u32)>>) -> bool {
    forall|k: int, i: int, j: int|
        0 <= k < scopes.len() && 0 <= i < j < scopes[k].len() ==> #[trigger] scopes[k][i].0
            != #[trigger] scopes[k][j].0
}

impl CodeGen {
    /// The invariant of the state: each scope maps a name to one slot.
    pub open spec fn wf(&self) -> bool {
        scopes_unique(self@.scopes)
    }
}

// ---------------------------------------------------------------------------
// The generated text
// ---------------------------------------------------------------------------

pub open spec fn label_name(n: u32) -> Seq<char> {
    "_label"@ + decimal(n as nat)
}

/// A fresh label, and the state with the counter moved on.
pub open spec fn next_label(st: GenState) -> Result<(Seq<char>, GenState), CodegenError> {
    if st.labels < u32::MAX {
        Ok((label_name(st.labels), GenState { labels: (st.labels + 1) as u32, ..st }))
    } else {
        Err(CodegenError::CounterOverflow)
    }
}

/// The slot of `name` in a scope.
pub open spec fn scope_get(scope: Seq<(Seq<char>, u32)>, name: Seq<char>) -> Option<u32>
    decreases scope.len(),
{
    if scope.len() == 0 {
        None
    } else if scope[0].0 == name {
        Some(scope[0].1)
    } else {
        scope_get(scope.drop_first(), name)
    }
}

/// The slot of `name` in the innermost scope that holds it.
pub open spec fn stack_get(scopes: Seq<Seq<(Seq<char>, u32)>>, name: Seq<char>) -> Option<u32>
    decreases scopes.len(),
{
    if scopes.len() == 0 {
        None
    } else {
        match scope_get(scopes.last(), name) {
            Some(slot) => Some(slot),
            None => stack_get(scopes.drop_last(), name),
        }
    }
}

/// The byte offset from `%rbp` of a slot: the slot number read as an `i32`
/// (wrapping) times -8, where that product fits in an `i32`.
pub open spec fn frame_offset(slot: u32) -> Option<int> {
    let v: int = if slot <= i32::MAX {
        slot as int
    } else {
        slot - 0x1_0000_0000
    };
    let p = v * -8;
    if i32::MIN <= p && p <= i32::MAX {
        Some(p)
    } else {
        None
    }
}

/// The text that combines the texts of the two operands of a binary
/// operation; `a` and `b` are the labels that `&&` and `||` use.
pub open spec fn binary_text(
    op: BinaryOp,
    lhs: Seq<char>,
    rhs: Seq<char>,
    a: Seq<char>,
    b: Seq<char>,
) -> Seq<char> {
    match op {
        BinaryOp::Add => lhs + "\tpush \t%rax\n"@ + rhs + "\tpop \t%rcx\n\taddl \t%ecx, %eax\n"@,
        BinaryOp::Mul => lhs + "\tpush \t%rax\n"@ + rhs + "\tpop \t%rcx\n\timul \t%ecx, %eax\n"@,
        BinaryOp::Div => rhs + "\tpush \t%rax\n"@ + lhs + "\n\tcdq\n\tpop \t%rcx\n\tidiv \t%ecx\n"@,
        BinaryOp::Sub => rhs + "\tpush \t%rax\n"@ + lhs + "\tpop \t%rcx\n\tsubl \t%ecx, %eax\n"@,
        BinaryOp::And => lhs + "\tcmpl \t$0, %eax\n\tjne \t"@ + a + "\n\tjmp \t"@ + b + "\n"@ + a
            + ":\n"@ + rhs + "\tcmpl $0, %eax\n\tmovl \t$0, %eax\n\tsetne \t%al\n"@ + b + ":\n"@,
        BinaryOp::Or => lhs + "\tcmpl \t$0, %eax\nje \t"@ + a + "\n\tmovl \t$1, %eax\n\tjmp \t"@ + b
            + "\n"@ + a + ":\n"@ + rhs + "\tcmpl \t$0, %eax\n\tmovl \t$0, %eax\n\tsetne %al\n"@ + b
            + ":\n"@,
        BinaryOp::Equal => lhs + "\tpush \t%rax\n"@ + rhs
            + "\tpop \t%rcx\n\tcmpl \t%ecx, %eax\n\tmovl \t$0, %eax\n\tsete %al\n"@,
        BinaryOp::NotEqual => lhs + "\tpush \t%rax\n"@ + rhs
            + "\tpop \t%rcx\n\tcmpl \t%ecx, %eax\n\tmovl \t$0, %eax\n\tsetne %al\n"@,
        BinaryOp::LT => rhs + "\tpush \t%rax\n"@ + lhs
            + "\tpop \t%rcx\n\tcmpl \t%ecx, %eax\n\tmovl \t$0, %eax\n"@ + "\tsetl \t%al\n"@,
        BinaryOp::LTE => rhs + "\tpush \t%rax\n"@ + lhs
            + "\tpop \t%rcx\n\tcmpl \t%ecx, %eax\n\tmovl \t$0, %eax\n"@ + "\tsetle \t%al\n"@,
        BinaryOp::GT => rhs + "\tpush \t%rax\n"@ + lhs
            + "\tpop \t%rcx\n\tcmpl \t%ecx, %eax\n\tmovl \t$0, %eax\n"@ + "\tsetg \t%al\n"@,
        BinaryOp::GTE => rhs + "\tpush \t%rax\n"@ + lhs
            + "\tpop \t%rcx\n\tcmpl \t%ecx, %eax\n\tmovl \t$0, %eax\n"@ + "\tsetge \t%al\n"@,
        BinaryOp::Modulo => rhs + "\tpush \t%rax\n"@ + lhs
            + "\tcdq\n\tpop \t%rcx\n\tidiv \t%ecx\n\tmovl \t%edx, %eax\n"@,
        BinaryOp::BitwiseShiftLeft => rhs + "\tpush \t%rax\n"@ + lhs
            + "\tpop \t%rcx\n\tsal \t%cl, %eax\n"@,
        BinaryOp::BitwiseShiftRight => rhs + "\tpush \t%rax\n"@ + lhs
            + "\tpop \t%rcx\n\tshr \t%cl, %eax\n"@,
        BinaryOp::BitwiseAnd => rhs + "\tpush \t%rax\n"@ + lhs + "\tpop \t%rcx\n\tand \t%ecx, %eax\n"@,
        BinaryOp::BitwiseOr => rhs + "\tpush \t%rax\n"@ + lhs + "\tpop \t%rcx\n\tor \t%ecx, %eax\n"@,
        BinaryOp::BitwiseXor => rhs + "\tpush \t%rax\n"@ + lhs + "\tpop \t%rcx\n\txor \t%ecx, %eax\n"@,
    }
}

pub open spec fn is_logical(op: BinaryOp) -> bool {
    op is And || op is Or
}

pub open spec fn unary_text(op: UnaryOp, operand: Seq<char>) -> Seq<char> {
    match op {
        UnaryOp::Negation => operand + "\tneg \t%eax\n"@,
        UnaryOp::LogicalNegation => operand + "\tcmpl\t$0, %eax\n\tmovl\t$0, %eax\n\tsete\t%al\n"@,
        UnaryOp::BitwiseComplement => operand + "\tnot \t%eax\n"@,
    }
}

/// Generating an expression from state `st`.
#[verifier::opaque]
pub open spec fn gen_expr(st: GenState, e: Expression) -> GenOut
    decreases e,
{
    match e {
        Expression::Const(i) => Ok(("\tmovl \t$"@ + decimal(i as nat) + ", %eax\n"@, st)),
        Expression::Unary { op, expr } => match gen_expr(st, *expr) {
            Ok((operand, st1)) => Ok((unary_text(op, operand), st1)),
            Err(err) => Err(err),
        },
        Expression::Binary { op, l_expr, r_expr } => match gen_expr(st, *l_expr) {
            Err(err) => Err(err),
            Ok((lhs, st1)) => match gen_expr(st1, *r_expr) {
                Err(err) => Err(err),
                Ok((rhs, st2)) => if is_logical(op) {
                    match next_label(st2) {
                        Err(err) => Err(err),
                        Ok((a, st3)) => match next_label(st3) {
                            Err(err) => Err(err),
                            Ok((b, st4)) => Ok((binary_text(op, lhs, rhs, a, b), st4)),
                        },
                    }
                } else {
                    Ok((binary_text(op, lhs, rhs, seq![], seq![]), st2))
                },
            },
        },
        Expression::Ident(name) => match stack_get(st.scopes, name@) {
            None => Err(CodegenError::UndeclaredUse(name)),
            Some(slot) => match frame_offset(slot) {
                None => Err(CodegenError::CounterOverflow),
                Some(off) => Ok(("\tmovl \t"@ + signed_decimal(off) + "(%rbp), %eax\n"@, st)),
            },
        },
        Expression::Assign { ident, expr } => match *ident {
            Expression::Ident(name) => match stack_get(st.scopes, name@) {
                None => Err(CodegenError::UndeclaredAssign(name)),
                Some(slot) => match frame_offset(slot) {
                    None => Err(CodegenError::CounterOverflow),
                    Some(off) => match gen_expr(st, *expr) {
                        Err(err) => Err(err),
                        Ok((value, st1)) => Ok(
                            (value + "\tmovl \t%eax, "@ + signed_decimal(off) + "(%rbp)\n"@, st1),
                        ),
                    },
                },
            },
            _ => Err(CodegenError::AssignNonIdent),
        },
        Expression::Conditional { pred, then, otherwise } => match gen_expr(st, *pred) {
            Err(err) => Err(err),
            Ok((p, st1)) => match gen_expr(st1, *then) {
                Err(err) => Err(err),
                Ok((t, st2)) => match gen_expr(st2, *otherwise) {
                    Err(err) => Err(err),
                    Ok((o, st3)) => match next_label(st3) {
                        Err(err) => Err(err),
                        Ok((ol, st4)) => match next_label(st4) {
                            Err(err) => Err(err),
                            Ok((el, st5)) => Ok(
                                (p + "\tcmpl \t$0, %eax\n\tje \t"@ + ol + "\n"@ + t + "\tjmp \t"@
                                    + el + "\n"@ + ol + ":\n"@ + o + el + ":\n"@, st5),
                            ),
                        },
                    },
                },
            },
        },
        Expression::Null => Ok((seq![], st)),
    }
}

/// Generating an optional expression: nothing where there is none.
pub open spec fn gen_opt_expr(st: GenState, e: Option<Expression>) -> GenOut {
    match e {
        Some(e) => gen_expr(st, e),
        None => Ok((seq![], st)),
    }
}

/// Entering a loop whose body begins with the scopes as they are now.
pub open spec fn push_loop(st: GenState, continue_label: Seq<char>, break_label: Seq<char>) -> GenState {
    GenState { loops: st.loops.push((continue_label, break_label, st.scopes.len())), ..st }
}

/// How many names the scopes from `depth` on hold: the slots pushed since
/// a loop body that began with `depth` scopes open.
pub open spec fn open_slots(scopes: Seq<Seq<(Seq<char>, u32)>>, depth: int) -> nat
    decreases scopes.len() - depth,
{
    if depth < 0 || depth >= scopes.len() {
        0
    } else {
        scopes[depth].len() + open_slots(scopes, depth + 1)
    }
}

/// Leaving the innermost loop by a jump to `target`: the stack pointer
/// first moves past the slots pushed since the loop's body began.
pub open spec fn jump_out(st: GenState, target: Seq<char>) -> GenOut {
    let k = open_slots(st.scopes, st.loops.last().2 as int);
    if k * 8 > u32::MAX {
        Err(CodegenError::CounterOverflow)
    } else {
        Ok(
            ((if k > 0 {
                "\taddq \t$"@ + decimal(k * 8) + ", %rsp\n"@
            } else {
                seq![]
            }) + "\tjmp \t"@ + target + "\n"@, st),
        )
    }
}

pub open spec fn pop_loop(st: GenState) -> GenState {
    GenState { loops: st.loops.drop_last(), ..st }
}

pub open spec fn push_scope(st: GenState) -> GenState {
    GenState { scopes: st.scopes.push(seq![]), ..st }
}

pub open spec fn pop_scope(st: GenState) -> GenState {
    GenState { scopes: st.scopes.drop_last(), ..st }
}

/// Generating a declaration: the name takes the next free slot in the
/// innermost scope, then the initial value (if any) is computed and
/// pushed.
#[verifier::opaque]
pub open spec fn gen_decl(st: GenState, d: Declare) -> GenOut {
    match d.0 {
        Expression::Ident(name) => {
            let top = st.scopes.last();
            if scope_get(top, name@) is Some {
                Err(CodegenError::Redeclared(name))
            } else if st.ebp == u32::MAX {
                Err(CodegenError::CounterOverflow)
            } else {
                let st1 = GenState {
                    scopes: st.scopes.update(st.scopes.len() - 1, top.push((name@, st.ebp))),
                    ebp: (st.ebp + 1) as u32,
                    ..st
                };
                match gen_opt_expr(st1, d.1) {
                    Err(err) => Err(err),
                    Ok((value, st2)) => Ok((value + "\tpush \t%rax\n"@, st2)),
                }
            }
        },
        _ => Err(CodegenError::DeclareNonIdent),
    }
}

/// The text of a `for` loop from the texts of its parts.
pub open spec fn for_text(
    init: Seq<char>,
    condition_label: Seq<char>,
    condition: Seq<char>,
    end_label: Seq<char>,
    body: Seq<char>,
    post_label: Seq<char>,
    post: Seq<char>,
) -> Seq<char> {
    init + condition_label + ":\n"@ + condition + "\tcmpl \t$0, %eax\n\tje \t"@ + end_label + "\n"@ + body + post_label
        + ":\n"@ + post + "\tjmp \t"@ + condition_label + "\n"@ + end_label + ":\n"@
}

/// Generating a statement from state `st`.
pub open spec fn gen_stmt(st: GenState, s: Statement) -> GenOut
    decreases s, 1nat,
{
    match s {
        Statement::Return(e) => match gen_expr(st, e) {
            Err(err) => Err(err),
            Ok((value, st1)) => Ok((value + "\tmov \t%rbp, %rsp\n\tpop \t%rbp\n\tret\n"@, st1)),
        },
        Statement::Expr(e) => gen_expr(st, e),
        Statement::If { .. } => gen_if_stmt(st, s),
        Statement::Block(b) => gen_block(st, b),
        Statement::For { .. } => gen_for_stmt(st, s),
        Statement::ForDecl { .. } => gen_for_decl_stmt(st, s),
        Statement::While { .. } => gen_while_stmt(st, s),
        Statement::Do { .. } => gen_do_stmt(st, s),
        Statement::Break => if st.loops.len() == 0 {
            Err(CodegenError::BreakOutsideLoop)
        } else {
            jump_out(st, st.loops.last().1)
        },
        Statement::Continue => if st.loops.len() == 0 {
            Err(CodegenError::ContinueOutsideLoop)
        } else {
            jump_out(st, st.loops.last().0)
        },
        Statement::Null => Ok((seq![], st)),
    }
}

/// Generating an `if` statement (the statement is one).
pub open spec fn gen_if_stmt(st: GenState, s: Statement) -> GenOut
    decreases s, 0nat,
{
    match s {
        Statement::If { pred, then, otherwise } => match gen_expr(st, pred) {
            Err(err) => Err(err),
            Ok((p, st1)) => match gen_stmt(st1, *then) {
                Err(err) => Err(err),
                Ok((t, st2)) => match next_label(st2) {
                    Err(err) => Err(err),
                    Ok((else_label, st3)) => match (match otherwise {
                        Some(o) => gen_stmt(st3, *o),
                        None => Ok((seq![], st3)),
                    }) {
                        Err(err) => Err(err),
                        Ok((o, st4)) => match next_label(st4) {
                            Err(err) => Err(err),
                            Ok((end_label, st5)) => Ok(
                                (p + "\tcmpl \t$0, %eax\n\tje \t"@ + else_label + "\n"@ + t
                                    + "\tjmp \t"@ + end_label + "\n"@ + else_label + ":\n"@ + o
                                    + end_label + ":\n"@, st5),
                            ),
                        },
                    },
                },
            },
        },
        _ => Err(CodegenError::CounterOverflow),
    }
}

/// Generating a `for` loop (the statement is one).
pub open spec fn gen_for_stmt(st: GenState, s: Statement) -> GenOut
    decreases s, 0nat,
{
    match s {
        Statement::For { init, condition, post, body } => match next_label(st) {
            Err(err) => Err(err),
            Ok((cl, st1)) => match next_label(st1) {
                Err(err) => Err(err),
                Ok((pl, st2)) => match next_label(st2) {
                    Err(err) => Err(err),
                    Ok((el, st3)) => match gen_opt_expr(push_loop(st3, pl, el), init) {
                        Err(err) => Err(err),
                        Ok((i, st4)) => match gen_expr(st4, condition) {
                            Err(err) => Err(err),
                            Ok((c, st5)) => match gen_opt_expr(st5, post) {
                                Err(err) => Err(err),
                                Ok((p, st6)) => match gen_stmt(st6, *body) {
                                    Err(err) => Err(err),
                                    Ok((b, st7)) => Ok(
                                        (for_text(i, cl, c, el, b, pl, p), pop_loop(st7)),
                                    ),
                                },
                            },
                        },
                    },
                },
            },
        },
        _ => Err(CodegenError::CounterOverflow),
    }
}

/// Generating a `for` loop that declares its counter (the statement is one).
pub open spec fn gen_for_decl_stmt(st: GenState, s: Statement) -> GenOut
    decreases s, 0nat,
{
    match s {
        Statement::ForDecl { init, condition, post, body } => match next_label(st) {
            Err(err) => Err(err),
            Ok((cl, st1)) => match next_label(st1) {
                Err(err) => Err(err),
                Ok((pl, st2)) => match next_label(st2) {
                    Err(err) => Err(err),
                    Ok((el, st3)) => match (match init {
                        Some(d) => gen_decl(push_scope(st3), d),
                        None => Ok((seq![], push_scope(st3))),
                    }) {
                        Err(err) => Err(err),
                        Ok((i, st4)) => match gen_expr(push_loop(st4, pl, el), condition) {
                            Err(err) => Err(err),
                            Ok((c, st5)) => match gen_opt_expr(st5, post) {
                                Err(err) => Err(err),
                                Ok((p, st6)) => match gen_stmt(st6, *body) {
                                    Err(err) => Err(err),
                                    Ok((b, st7)) => {
                                        let st8 = pop_scope(pop_loop(st7));
                                        if st8.ebp == 0 {
                                            Err(CodegenError::CounterOverflow)
                                        } else {
                                            Ok(
                                                (for_text(i, cl, c, el, b, pl, p)
                                                    + "\taddq \t$8, %rsp\n"@, GenState {
                                                    ebp: (st8.ebp - 1) as u32,
                                                    ..st8
                                                }),
                                            )
                                        }
                                    },
                                },
                            },
                        },
                    },
                },
            },
        },
        _ => Err(CodegenError::CounterOverflow),
    }
}

/// Generating a `while` loop (the statement is one).
pub open spec fn gen_while_stmt(st: GenState, s: Statement) -> GenOut
    decreases s, 0nat,
{
    match s {
        Statement::While { condition, body } => match next_label(st) {
            Err(err) => Err(err),
            Ok((cl, st1)) => match next_label(st1) {
                Err(err) => Err(err),
                Ok((el, st2)) => match gen_expr(push_loop(st2, cl, el), condition) {
                    Err(err) => Err(err),
                    Ok((c, st3)) => match gen_stmt(st3, *body) {
                        Err(err) => Err(err),
                        Ok((b, st4)) => Ok(
                            (cl + ":\n"@ + c + "\tcmpl \t$0, %eax\n\tje \t"@ + el + "\n"@ + b
                                + "\tjmp \t"@ + cl + "\n"@ + el + ":\n"@, pop_loop(st4)),
                        ),
                    },
                },
            },
        },
        _ => Err(CodegenError::CounterOverflow),
    }
}

/// Generating a `do` loop (the statement is one).
pub open spec fn gen_do_stmt(st: GenState, s: Statement) -> GenOut
    decreases s, 0nat,
{
    match s {
        Statement::Do { body, condition } => match next_label(st) {
            Err(err) => Err(err),
            Ok((bl, st1)) => match next_label(st1) {
                Err(err) => Err(err),
                Ok((cl, st1a)) => match next_label(st1a) {
                    Err(err) => Err(err),
                    Ok((el, st2)) => match gen_stmt(push_loop(st2, cl, el), *body) {
                        Err(err) => Err(err),
                        Ok((b, st3)) => match gen_expr(st3, condition) {
                            Err(err) => Err(err),
                            Ok((c, st4)) => Ok(
                                (bl + ":\n"@ + b + cl + ":\n"@ + c + "\tcmpl \t$0, %eax\n\tje \t"@
                                    + el + "\n\tjmp \t"@ + bl + "\n"@ + el + ":\n"@, pop_loop(st4)),
                            ),
                        },
                    },
                },
            },
        },
        _ => Err(CodegenError::CounterOverflow),
    }
}

/// Generating a block: a new scope for its items; when it closes, its
/// slots are given back and the stack pointer moves past them.
pub open spec fn gen_block(st: GenState, b: Block) -> GenOut
    decreases b, 0nat,
{
    match gen_items(push_scope(st), b.0@) {
        Err(err) => Err(err),
        Ok((body, st1)) => close_block(body, st1),
    }
}

/// Closing a block whose items gave `body` and left the state `st`: the
/// innermost scope goes, its slots are given back, and the stack pointer
/// moves past them.
pub open spec fn close_block(body: Seq<char>, st: GenState) -> GenOut {
    let var_offset = slots_of(st.scopes.last().len());
    let st1 = pop_scope(st);
    if st1.ebp < var_offset {
        Err(CodegenError::CounterOverflow)
    } else if var_offset * 8 > u32::MAX {
        Err(CodegenError::CounterOverflow)
    } else {
        Ok(
            (body + "\taddq \t$"@ + decimal((var_offset * 8) as nat) + ", %rsp\n"@, GenState {
                ebp: (st1.ebp - var_offset) as u32,
                ..st1
            }),
        )
    }
}

/// The number of slots of a scope of `n` names, as a `u32` (wrapping).
pub open spec fn slots_of(n: nat) -> u32 {
    (n % 0x1_0000_0000) as u32
}

/// Generating the items of a block one after the other.
pub open spec fn gen_items(st: GenState, items: Seq<BlockItem>) -> GenOut
    decreases items, 0nat,
{
    if items.len() == 0 {
        Ok((seq![], st))
    } else {
        match gen_item(st, items[0]) {
            Err(err) => Err(err),
            Ok((t, st1)) => match gen_items(st1, items.drop_first()) {
                Err(err) => Err(err),
                Ok((rest, st2)) => Ok((t + rest, st2)),
            },
        }
    }
}

pub open spec fn gen_item(st: GenState, item: BlockItem) -> GenOut
    decreases item, 0nat,
{
    match item {
        BlockItem::Statement(s) => gen_stmt(st, s),
        BlockItem::Declare(d) => gen_decl(st, d),
    }
}

/// Whether a block ends with a `return` statement.
pub open spec fn ends_with_return(b: Block) -> bool {
    b.0@.len() > 0 && b.0@.last() matches BlockItem::Statement(Statement::Return(_))
}

/// Generating a function: its label, the frame set-up, its body, and an
/// implicit `return 0` where the body does not end with `return`.
pub open spec fn gen_function(st: GenState, f: Function) -> GenOut {
    match gen_block(st, f.1) {
        Err(err) => Err(err),
        Ok((body, st1)) => {
            let body = if ends_with_return(f.1) {
                body
            } else {
                body + "\tmovl \t$0, %eax\n \tmov \t%rbp, %rsp\n \tpop \t%rbp\n \tret\n"@
            };
            Ok(
                ("\t.globl _"@ + f.0@ + "\n_"@ + f.0@ + ":\n\tpush \t%rbp\n\tmov  \t%rsp, %rbp\n"@
                    + body + "\n"@, st1),
            )
        },
    }
}

/// Whether generating gave the text and state that `out` describes.
pub open spec fn produced(out: GenOut, r: Result<String, CodegenError>, after: GenState) -> bool {
    match out {
        Ok((text, st)) => r is Ok && r->Ok_0@ == text && after == st,
        Err(err) => r == Err::<String, CodegenError>(err),
    }
}

/// `acc` followed by what `out` generates.
pub open spec fn after_text(acc: Seq<char>, out: GenOut) -> GenOut {
    match out {
        Ok((text, st)) => Ok((acc + text, st)),
        Err(err) => Err(err),
    }
}

proof fn lemma_scope_get_none(scope: Seq<(Seq<char>, u32)>, name: Seq<char>)
    ensures
        scope_get(scope, name) is None ==> forall|i: int| 0 <= i < scope.len() ==> scope[i].0 != name,
    decreases scope.len(),
{
    if scope.len() > 0 {
        lemma_scope_get_none(scope.drop_first(), name);
        assert forall|i: int| 1 <= i < scope.len() implies scope[i] == scope.drop_first()[i - 1] by {}
    }
}


/// Generating the items from `i` on: the item at `i`, then the rest.
proof fn lemma_gen_items_step(st: GenState, items: Seq<BlockItem>, i: int)
    requires
        0 <= i < items.len(),
    ensures
        gen_items(st, items.subrange(i, items.len() as int)) == match gen_item(st, items[i]) {
            Err(err) => Err(err),
            Ok((t, st1)) => after_text(t, gen_items(st1, items.subrange(i + 1, items.len() as int))),
        },
{
    let rest = items.subrange(i, items.len() as int);
    assert(rest[0] == items[i]);
    assert(rest.drop_first() =~= items.subrange(i + 1, items.len() as int));
}

/// The slot of `name` in `scope`.
fn find_in_scope(scope: &Vec<(String, u32)>, name: &String) -> (r: Option<u32>)
    ensures
        r == scope_get(scope_model(*scope), name@),
{
    let ghost m = scope_model(*scope);
    let mut j: usize = 0;
    assert(m.subrange(0, m.len() as int) =~= m);
    while j < scope.len()
        invariant
            j <= scope.len(),
            m == scope_model(*scope),
            scope_get(m, name@) == scope_get(m.subrange(j as int, m.len() as int), name@),
        decreases scope.len() - j,
    {
        let ghost rest = m.subrange(j as int, m.len() as int);
        assert(rest[0] == m[j as int]);
        assert(rest.drop_first() =~= m.subrange(j + 1, m.len() as int));
        if scope[j].0 == *name {
            return Some(scope[j].1);
        }
        j += 1;
    }
    assert(m.subrange(j as int, m.len() as int) =~= Seq::<(Seq<char>, u32)>::empty());
    None
}

/// The text of a stack slot's offset from `%rbp`, where it fits an `i32`.
fn offset_text(slot: u32) -> (r: Option<String>)
    ensures
        match frame_offset(slot) {
            Some(off) => r is Some && r->Some_0@ == signed_decimal(off),
            None => r is None,
        },
{
    let v: i64 = if slot <= 0x7fff_ffff {
        slot as i64
    } else {
        slot as i64 - 0x1_0000_0000
    };
    assert(-0x8000_0000 <= v <= 0x7fff_ffff);
    assert(-0x4_0000_0000 <= v * -8 <= 0x4_0000_0000) by (nonlinear_arith)
        requires
            -0x8000_0000 <= v <= 0x7fff_ffff,
    ;
    let p: i64 = v * -8;
    if p < -0x8000_0000 || p > 0x7fff_ffff {
        None
    } else {
        let mut text = String::new();
        push_signed_decimal(&mut text, p);
        assert(text@ =~= signed_decimal(p as int));
        Some(text)
    }
}

/// The text of a unary operation on the operand's text.
fn unary_asm(op: &UnaryOp, operand: String) -> (r: String)
    ensures
        r@ == unary_text(*op, operand@),
{
    let mut out = operand;
    match op {
        UnaryOp::Negation => push_str(&mut out, "\tneg \t%eax\n"),
        UnaryOp::LogicalNegation => push_str(&mut out, "\tcmpl\t$0, %eax\n\tmovl\t$0, %eax\n\tsete\t%al\n"),
        UnaryOp::BitwiseComplement => push_str(&mut out, "\tnot \t%eax\n"),
    }
    out
}

/// The text of a binary operation on the operands' texts; `a` and `b` are
/// the labels that `&&` and `||` use.
fn binary_asm(op: &BinaryOp, lhs: &String, rhs: &String, a: &String, b: &String) -> (r: String)
    ensures
        r@ == binary_text(*op, lhs@, rhs@, a@, b@),
{
    let mut out = String::new();
    match op {
        BinaryOp::Add => {
            push_str(&mut out, lhs.as_str());
            push_str(&mut out, "\tpush \t%rax\n");
            push_str(&mut out, rhs.as_str());
            push_str(&mut out, "\tpop \t%rcx\n\taddl \t%ecx, %eax\n");
        },
        BinaryOp::Mul => {
            push_str(&mut out, lhs.as_str());
            push_str(&mut out, "\tpush \t%rax\n");
            push_str(&mut out, rhs.as_str());
            push_str(&mut out, "\tpop \t%rcx\n\timul \t%ecx, %eax\n");
        },
        BinaryOp::Div => {
            push_str(&mut out, rhs.as_str());
            push_str(&mut out, "\tpush \t%rax\n");
            push_str(&mut out, lhs.as_str());
            push_str(&mut out, "\n\tcdq\n\tpop \t%rcx\n\tidiv \t%ecx\n");
        },
        BinaryOp::Sub => {
            // subl source, dest computes dest = dest - source
            push_str(&mut out, rhs.as_str());
            push_str(&mut out, "\tpush \t%rax\n");
            push_str(&mut out, lhs.as_str());
            push_str(&mut out, "\tpop \t%rcx\n\tsubl \t%ecx, %eax\n");
        },
        BinaryOp::And => {
            push_str(&mut out, lhs.as_str());
            push_str(&mut out, "\tcmpl \t$0, %eax\n\tjne \t");
            push_str(&mut out, a.as_str());
            push_str(&mut out, "\n\tjmp \t");
            push_str(&mut out, b.as_str());
            push_str(&mut out, "\n");
            push_str(&mut out, a.as_str());
            push_str(&mut out, ":\n");
            push_str(&mut out, rhs.as_str());
            push_str(&mut out, "\tcmpl $0, %eax\n\tmovl \t$0, %eax\n\tsetne \t%al\n");
            push_str(&mut out, b.as_str());
            push_str(&mut out, ":\n");
        },
        BinaryOp::Or => {
            push_str(&mut out, lhs.as_str());
            push_str(&mut out, "\tcmpl \t$0, %eax\nje \t");
            push_str(&mut out, a.as_str());
            push_str(&mut out, "\n\tmovl \t$1, %eax\n\tjmp \t");
            push_str(&mut out, b.as_str());
            push_str(&mut out, "\n");
            push_str(&mut out, a.as_str());
            push_str(&mut out, ":\n");
            push_str(&mut out, rhs.as_str());
            push_str(&mut out, "\tcmpl \t$0, %eax\n\tmovl \t$0, %eax\n\tsetne %al\n");
            push_str(&mut out, b.as_str());
            push_str(&mut out, ":\n");
        },
        BinaryOp::Equal => {
            push_str(&mut out, lhs.as_str());
            push_str(&mut out, "\tpush \t%rax\n");
            push_str(&mut out, rhs.as_str());
            push_str(&mut out, "\tpop \t%rcx\n\tcmpl \t%ecx, %eax\n\tmovl \t$0, %eax\n\tsete %al\n");
        },
        BinaryOp::NotEqual => {
            push_str(&mut out, lhs.as_str());
            push_str(&mut out, "\tpush \t%rax\n");
            push_str(&mut out, rhs.as_str());
            push_str(&mut out, "\tpop \t%rcx\n\tcmpl \t%ecx, %eax\n\tmovl \t$0, %eax\n\tsetne %al\n");
        },
        BinaryOp::LT | BinaryOp::LTE | BinaryOp::GT | BinaryOp::GTE => {
            push_str(&mut out, rhs.as_str());
            push_str(&mut out, "\tpush \t%rax\n");
            push_str(&mut out, lhs.as_str());
            push_str(&mut out, "\tpop \t%rcx\n\tcmpl \t%ecx, %eax\n\tmovl \t$0, %eax\n");
            match op {
                BinaryOp::LT => push_str(&mut out, "\tsetl \t%al\n"),
                BinaryOp::LTE => push_str(&mut out, "\tsetle \t%al\n"),
                BinaryOp::GT => push_str(&mut out, "\tsetg \t%al\n"),
                _ => push_str(&mut out, "\tsetge \t%al\n"),
            }
        },
        BinaryOp::Modulo => {
            push_str(&mut out, rhs.as_str());
            push_str(&mut out, "\tpush \t%rax\n");
            push_str(&mut out, lhs.as_str());
            push_str(&mut out, "\tcdq\n\tpop \t%rcx\n\tidiv \t%ecx\n\tmovl \t%edx, %eax\n");
        },
        BinaryOp::BitwiseShiftLeft => {
            push_str(&mut out, rhs.as_str());
            push_str(&mut out, "\tpush \t%rax\n");
            push_str(&mut out, lhs.as_str());
            push_str(&mut out, "\tpop \t%rcx\n\tsal \t%cl, %eax\n");
        },
        BinaryOp::BitwiseShiftRight => {
            push_str(&mut out, rhs.as_str());
            push_str(&mut out, "\tpush \t%rax\n");
            push_str(&mut out, lhs.as_str());
            push_str(&mut out, "\tpop \t%rcx\n\tshr \t%cl, %eax\n");
        },
        BinaryOp::BitwiseAnd => {
            push_str(&mut out, rhs.as_str());
            push_str(&mut out, "\tpush \t%rax\n");
            push_str(&mut out, lhs.as_str());
            push_str(&mut out, "\tpop \t%rcx\n\tand \t%ecx, %eax\n");
        },
        BinaryOp::BitwiseOr => {
            push_str(&mut out, rhs.as_str());
            push_str(&mut out, "\tpush \t%rax\n");
            push_str(&mut out, lhs.as_str());
            push_str(&mut out, "\tpop \t%rcx\n\tor \t%ecx, %eax\n");
        },
        BinaryOp::BitwiseXor => {
            push_str(&mut out, rhs.as_str());
            push_str(&mut out, "\tpush \t%rax\n");
            push_str(&mut out, lhs.as_str());
            push_str(&mut out, "\tpop \t%rcx\n\txor \t%ecx, %eax\n");
        },
    }
    out
}

/// The number of slots of a scope of `n` names, as a `u32` (wrapping).
fn slots(n: usize) -> (r: u32)
    ensures
        r == slots_of(n as nat),
{
    (n as u64 % 0x1_0000_0000) as u32
}

/// The text of a `for` loop from the texts of its parts.
fn for_asm(
    init: &String,
    condition_label: &String,
    condition: &String,
    end_label: &String,
    body: &String,
    post_label: &String,
    post: &String,
) -> (r: String)
    ensures
        r@ == for_text(init@, condition_label@, condition@, end_label@, body@, post_label@, post@),
{
    let mut out = String::new();
    push_str(&mut out, init.as_str());
    push_str(&mut out, condition_label.as_str());
    push_str(&mut out, ":\n");
    push_str(&mut out, condition.as_str());
    push_str(&mut out, "\tcmpl \t$0, %eax\n\tje \t");
    push_str(&mut out, end_label.as_str());
    push_str(&mut out, "\n");
    push_str(&mut out, body.as_str());
    push_str(&mut out, post_label.as_str());
    push_str(&mut out, ":\n");
    push_str(&mut out, post.as_str());
    push_str(&mut out, "\tjmp \t");
    push_str(&mut out, condition_label.as_str());
    push_str(&mut out, "\n");
    push_str(&mut out, end_label.as_str());
    push_str(&mut out, ":\n");
    out
}

impl CodeGen {
    pub fn new() -> (r: CodeGen)
        ensures
            r@ == (GenState { labels: 0, scopes: seq![], loops: seq![], ebp: 1 }),
            r.wf(),
    {
        let r = CodeGen {
            label_counter: 0,
            var_map_stack: Vec::new(),
            loop_ctx_stack: Vec::new(),
            ebp_offset: 1,
        };
        assert(r@.scopes =~= Seq::<Seq<(Seq<char>, u32)>>::empty());
        reveal(scopes_unique);
        assert(r@.loops =~= Seq::<(Seq<char>, Seq<char>, nat)>::empty());
        r
    }

    /// Enters a loop whose `continue` and `break` jump to the given labels.
    fn enter_loop(&mut self, continue_label: &String, break_label: &String)
        ensures
            final(self)@ == push_loop(old(self)@, continue_label@, break_label@),
            final(self).var_map_stack == old(self).var_map_stack,
            old(self).wf() ==> final(self).wf(),
    {
        self.loop_ctx_stack.push(
            LoopCtx {
                continue_label: continue_label.clone(),
                break_label: break_label.clone(),
                scope_depth: self.var_map_stack.len(),
            },
        );
        assert(self@.loops =~= push_loop(old(self)@, continue_label@, break_label@).loops);
    }

    /// Leaves the innermost loop.
    fn leave_loop(&mut self)
        requires
            old(self).loop_ctx_stack.len() > 0,
        ensures
            final(self)@ == pop_loop(old(self)@),
            final(self).var_map_stack == old(self).var_map_stack,
            old(self).wf() ==> final(self).wf(),
    {
        self.loop_ctx_stack.pop();
        assert(self@.loops =~= pop_loop(old(self)@).loops);
    }

    /// Opens a new, empty, innermost scope.
    fn enter_scope(&mut self)
        ensures
            final(self)@ == push_scope(old(self)@),
            final(self).var_map_stack.len() == old(self).var_map_stack.len() + 1,
            final(self).loop_ctx_stack == old(self).loop_ctx_stack,
            old(self).wf() ==> final(self).wf(),
    {
        let ghost before = self@;
        let fresh: Vec<(String, u32)> = Vec::new();
        assert(scope_model(fresh) =~= Seq::<(Seq<char>, u32)>::empty());
        self.var_map_stack.push(fresh);
        assert(self@.scopes =~= push_scope(before).scopes);
        assert(old(self).wf() ==> self.wf()) by {
            reveal(scopes_unique);
            if old(self).wf() {
                assert forall|k: int, i: int, j: int|
                    0 <= k < self@.scopes.len() && 0 <= i < j < self@.scopes[k].len() implies #[trigger] self@.scopes[k][i].0
                        != #[trigger] self@.scopes[k][j].0 by {
                    assert(k < before.scopes.len());
                    assert(self@.scopes[k] == before.scopes[k]);
                }
            }
        }
    }

    /// Closes the innermost scope and gives back how many names it held.
    fn leave_scope(&mut self) -> (n: usize)
        requires
            old(self).var_map_stack.len() > 0,
            old(self).wf(),
        ensures
            final(self)@ == pop_scope(old(self)@),
            n == old(self)@.scopes.last().len(),
            final(self).var_map_stack.len() == old(self).var_map_stack.len() - 1,
            final(self).loop_ctx_stack == old(self).loop_ctx_stack,
            final(self).wf(),
    {
        let ghost before = self@;
        let n = match self.var_map_stack.pop() {
            Some(m) => {
                assert(scope_model(m) == before.scopes.last());
                m.len()
            },
            None => 0,
        };
        assert(self@.scopes =~= pop_scope(before).scopes);
        reveal(scopes_unique);
        assert forall|k: int, i: int, j: int|
            0 <= k < self@.scopes.len() && 0 <= i < j < self@.scopes[k].len() implies #[trigger] self@.scopes[k][i].0
                != #[trigger] self@.scopes[k][j].0 by {
            assert(self@.scopes[k] == before.scopes[k]);
        }
        n
    }

    /// A fresh label `_labelN`.
    fn make_label(&mut self) -> (r: Result<String, CodegenError>)
        ensures
            match next_label(old(self)@) {
                Ok((l, st)) => r is Ok && r->Ok_0@ == l && final(self)@ == st,
                Err(err) => r == Err::<String, CodegenError>(err) && final(self)@ == old(self)@,
            },
            final(self).var_map_stack == old(self).var_map_stack,
            final(self).loop_ctx_stack == old(self).loop_ctx_stack,
            final(self).ebp_offset == old(self).ebp_offset,
    {
        if self.label_counter == u32::MAX {
            return Err(CodegenError::CounterOverflow);
        }
        let mut label = String::from_str("_label");
        push_decimal(&mut label, self.label_counter as u64);
        self.label_counter += 1;
        Ok(label)
    }

    /// The slot of `name` in the innermost scope that holds it.
    fn lookup(&self, name: &String) -> (r: Option<u32>)
        ensures
            r == stack_get(self@.scopes, name@),
    {
        let ghost scopes = self@.scopes;
        let mut i = self.var_map_stack.len();
        assert(scopes.subrange(0, i as int) =~= scopes);
        while i > 0
            invariant
                i <= self.var_map_stack.len(),
                scopes == self@.scopes,
                stack_get(scopes, name@) == stack_get(scopes.subrange(0, i as int), name@),
            decreases i,
        {
            let ghost prefix = scopes.subrange(0, i as int);
            i -= 1;
            assert(prefix.last() == scopes[i as int]);
            assert(prefix.drop_last() =~= scopes.subrange(0, i as int));
            assert(scopes[i as int] == scope_model(self.var_map_stack[i as int]));
            match find_in_scope(&self.var_map_stack[i], name) {
                Some(slot) => {
                    return Some(slot);
                },
                None => {},
            }
        }
        assert(scopes.subrange(0, 0) =~= Seq::<Seq<(Seq<char>, u32)>>::empty());
        None
    }

    /// Generates the code that leaves the value of `expr` in `%eax`.
    fn gen_expression(&mut self, expr: &Expression) -> (r: Result<String, CodegenError>)
        requires
            old(self).wf(),
        ensures
            produced(gen_expr(old(self)@, *expr), r, final(self)@),
            final(self).wf(),
            final(self).var_map_stack == old(self).var_map_stack,
            final(self).loop_ctx_stack == old(self).loop_ctx_stack,
            final(self).ebp_offset == old(self).ebp_offset,
        decreases expr,
    {
        reveal_with_fuel(gen_expr, 1);
        match expr {
            Expression::Const(i) => {
                let mut out = String::from_str("\tmovl \t$");
                push_usize(&mut out, *i);
                push_str(&mut out, ", %eax\n");
                Ok(out)
            },
            Expression::Unary { op, expr } => {
                let operand = match self.gen_expression(expr) {
                    Ok(t) => t,
                    Err(e) => return Err(e),
                };
                Ok(unary_asm(op, operand))
            },
            Expression::Binary { op, l_expr, r_expr } => {
                let lhs = match self.gen_expression(l_expr) {
                    Ok(t) => t,
                    Err(e) => return Err(e),
                };
                let rhs = match self.gen_expression(r_expr) {
                    Ok(t) => t,
                    Err(e) => return Err(e),
                };
                match op {
                    BinaryOp::And | BinaryOp::Or => {
                        let rhs_label = match self.make_label() {
                            Ok(l) => l,
                            Err(e) => return Err(e),
                        };
                        let end_label = match self.make_label() {
                            Ok(l) => l,
                            Err(e) => return Err(e),
                        };
                        Ok(binary_asm(op, &lhs, &rhs, &rhs_label, &end_label))
                    },
                    _ => {
                        let none = String::new();
                        Ok(binary_asm(op, &lhs, &rhs, &none, &none))
                    },
                }
            },
            Expression::Ident(ident) => {
                let slot = match self.lookup(ident) {
                    Some(slot) => slot,
                    None => return Err(CodegenError::UndeclaredUse(ident.clone())),
                };
                let offset = match offset_text(slot) {
                    Some(t) => t,
                    None => return Err(CodegenError::CounterOverflow),
                };
                let mut out = String::from_str("\tmovl \t");
                push_str(&mut out, offset.as_str());
                push_str(&mut out, "(%rbp), %eax\n");
                Ok(out)
            },
            Expression::Assign { ident, expr } => {
                let name = match &**ident {
                    Expression::Ident(name) => name,
                    _ => return Err(CodegenError::AssignNonIdent),
                };
                let slot = match self.lookup(name) {
                    Some(slot) => slot,
                    None => return Err(CodegenError::UndeclaredAssign(name.clone())),
                };
                let offset = match offset_text(slot) {
                    Some(t) => t,
                    None => return Err(CodegenError::CounterOverflow),
                };
                let mut out = match self.gen_expression(expr) {
                    Ok(t) => t,
                    Err(e) => return Err(e),
                };
                push_str(&mut out, "\tmovl \t%eax, ");
                push_str(&mut out, offset.as_str());
                push_str(&mut out, "(%rbp)\n");
                Ok(out)
            },
            Expression::Conditional { pred, then, otherwise } => {
                let pred = match self.gen_expression(pred) {
                    Ok(t) => t,
                    Err(e) => return Err(e),
                };
                let then = match self.gen_expression(then) {
                    Ok(t) => t,
                    Err(e) => return Err(e),
                };
                let otherwise = match self.gen_expression(otherwise) {
                    Ok(t) => t,
                    Err(e) => return Err(e),
                };
                let otherwise_label = match self.make_label() {
                    Ok(l) => l,
                    Err(e) => return Err(e),
                };
                let end_label = match self.make_label() {
                    Ok(l) => l,
                    Err(e) => return Err(e),
                };
                let mut out = pred;
                push_str(&mut out, "\tcmpl \t$0, %eax\n\tje \t");
                push_str(&mut out, otherwise_label.as_str());
                push_str(&mut out, "\n");
                push_str(&mut out, then.as_str());
                push_str(&mut out, "\tjmp \t");
                push_str(&mut out, end_label.as_str());
                push_str(&mut out, "\n");
                push_str(&mut out, otherwise_label.as_str());
                push_str(&mut out, ":\n");
                push_str(&mut out, otherwise.as_str());
                push_str(&mut out, end_label.as_str());
                push_str(&mut out, ":\n");
                Ok(out)
            },
            Expression::Null => Ok(String::new()),
        }
    }


    /// Generates a declaration in the innermost scope.
    fn gen_decl(&mut self, declare: &Declare) -> (r: Result<String, CodegenError>)
        requires
            old(self).wf(),
            old(self).var_map_stack.len() > 0,
        ensures
            produced(gen_decl(old(self)@, *declare), r, final(self)@),
            final(self).wf(),
            final(self).var_map_stack.len() == old(self).var_map_stack.len(),
            final(self)@.scopes.drop_last() == old(self)@.scopes.drop_last(),
            final(self).loop_ctx_stack == old(self).loop_ctx_stack,
    {
        reveal(gen_decl);
        let ident = match &declare.0 {
            Expression::Ident(ident) => ident,
            _ => return Err(CodegenError::DeclareNonIdent),
        };
        let n = self.var_map_stack.len();
        assert(old(self)@.scopes.last() == scope_model(self.var_map_stack[n - 1]));
        match find_in_scope(&self.var_map_stack[n - 1], ident) {
            Some(_) => return Err(CodegenError::Redeclared(ident.clone())),
            None => {},
        }
        if self.ebp_offset == u32::MAX {
            return Err(CodegenError::CounterOverflow);
        }
        let ghost before = self@.scopes;
        let mut top = match self.var_map_stack.pop() {
            Some(top) => top,
            None => return Err(CodegenError::DeclareNonIdent),  // the stack is not empty
        };
        let ghost top_before = scope_model(top);
        top.push((ident.clone(), self.ebp_offset));
        assert(scope_model(top) =~= top_before.push((ident@, self.ebp_offset)));
        self.var_map_stack.push(top);
        self.ebp_offset += 1;
        proof {
            reveal(scopes_unique);
            assert(self@.scopes =~= before.update(before.len() - 1, top_before.push((ident@, (self.ebp_offset - 1) as u32))));
            lemma_scope_get_none(top_before, ident@);
            assert(self@.scopes.drop_last() =~= before.drop_last());
            assert forall|k: int, i: int, j: int|
                0 <= k < self@.scopes.len() && 0 <= i < j < self@.scopes[k].len() implies #[trigger] self@.scopes[k][i].0
                    != #[trigger] self@.scopes[k][j].0 by {
                if k < self@.scopes.len() - 1 {
                    assert(self@.scopes[k] == before[k]);
                } else if j < top_before.len() {
                    assert(self@.scopes[k][i] == top_before[i]);
                    assert(self@.scopes[k][j] == top_before[j]);
                } else {
                    assert(self@.scopes[k][i] == top_before[i]);
                }
            }
        }
        let mut out = match &declare.1 {
            Some(expr) => match self.gen_expression(expr) {
                Ok(t) => t,
                Err(e) => return Err(e),
            },
            None => String::new(),
        };
        push_str(&mut out, "\tpush \t%rax\n");
        Ok(out)
    }

    /// Leaves the innermost loop by a jump to `target`, first moving the
    /// stack pointer past the slots pushed since the loop's body began.
    fn jump_out(&self, target: &String) -> (r: Result<String, CodegenError>)
        requires
            self.loop_ctx_stack.len() > 0,
        ensures
            produced(jump_out(self@, target@), r, self@),
    {
        let ghost scopes = self@.scopes;
        let depth = self.loop_ctx_stack[self.loop_ctx_stack.len() - 1].scope_depth;
        assert(self@.loops.last().2 == depth as nat);
        let limit: u64 = 536_870_911;  // the largest slot count whose bytes fit in u32
        let mut k: u64 = 0;
        let mut i = depth;
        if i > self.var_map_stack.len() {
            i = self.var_map_stack.len();
        }
        while i < self.var_map_stack.len()
            invariant
                scopes == self@.scopes,
                depth <= i || i == self.var_map_stack.len(),
                i <= self.var_map_stack.len(),
                limit == 536_870_911,
                self@.loops.last().2 == depth as nat,
                k <= limit,
                k + open_slots(scopes, i as int) == open_slots(scopes, depth as int),
            decreases self.var_map_stack.len() - i,
        {
            assert(scopes[i as int].len() == self.var_map_stack[i as int].len());
            let n = self.var_map_stack[i].len();
            assert(open_slots(scopes, i as int) == n + open_slots(scopes, i + 1));
            if n as u64 > limit - k {
                assert(open_slots(scopes, depth as int) >= k + n);
                assert(k + n >= 536_870_912);
                let ghost total = open_slots(scopes, depth as int);
                assert(total * 8 > u32::MAX) by (nonlinear_arith)
                    requires
                        total >= 536_870_912,
                ;
                return Err(CodegenError::CounterOverflow);
            }
            k = k + n as u64;
            i += 1;
        }
        assert(open_slots(scopes, i as int) == 0);
        let mut out = String::new();
        if k > 0 {
            push_str(&mut out, "\taddq \t$");
            push_decimal(&mut out, k * 8);
            push_str(&mut out, ", %rsp\n");
        }
        push_str(&mut out, "\tjmp \t");
        push_str(&mut out, target.as_str());
        push_str(&mut out, "\n");
        Ok(out)
    }

    /// Generates a statement. It leaves the scopes and loops as they were,
    /// never moves the label counter back, and leaves the next free slot as
    /// it was where every `for` with a declaration declares its counter.
    fn gen_statement(&mut self, statement: &Statement) -> (r: Result<String, CodegenError>)
        requires
            old(self).wf(),
        ensures
            produced(gen_stmt(old(self)@, *statement), r, final(self)@),
            final(self).wf(),
            r is Ok ==> final(self)@.scopes == old(self)@.scopes && final(self)@.loops == old(
                self,
            )@.loops,
            r is Ok ==> final(self)@.labels >= old(self)@.labels,
            r is Ok && crate::codegen::laws::declares_counters(*statement) ==> final(self)@.ebp
                == old(self)@.ebp,
        decreases statement, 1nat,
    {
        proof {
            crate::codegen::laws::law_statement_balanced(self@, *statement);
        }
        match statement {
            Statement::Return(expr) => {
                let mut out = match self.gen_expression(expr) {
                    Ok(t) => t,
                    Err(e) => return Err(e),
                };
                push_str(&mut out, "\tmov \t%rbp, %rsp\n\tpop \t%rbp\n\tret\n");
                Ok(out)
            },
            Statement::Expr(expression) => self.gen_expression(expression),
            Statement::If { .. } => self.gen_if(statement),
            Statement::Block(block) => self.gen_block(block),
            Statement::For { .. } => self.gen_for(statement),
            Statement::ForDecl { .. } => self.gen_for_decl(statement),
            Statement::While { .. } => self.gen_while(statement),
            Statement::Do { .. } => self.gen_do(statement),
            Statement::Break => {
                let n = self.loop_ctx_stack.len();
                if n == 0 {
                    return Err(CodegenError::BreakOutsideLoop);
                }
                self.jump_out(&self.loop_ctx_stack[n - 1].break_label)
            },
            Statement::Continue => {
                let n = self.loop_ctx_stack.len();
                if n == 0 {
                    return Err(CodegenError::ContinueOutsideLoop);
                }
                self.jump_out(&self.loop_ctx_stack[n - 1].continue_label)
            },
            Statement::Null => Ok(String::new()),
        }
    }

    /// Generates an `if` statement.
    fn gen_if(&mut self, statement: &Statement) -> (r: Result<String, CodegenError>)
        requires
            old(self).wf(),
            statement is If,
        ensures
            produced(gen_stmt(old(self)@, *statement), r, final(self)@),
            final(self).wf(),
            r is Ok ==> final(self)@.scopes == old(self)@.scopes && final(self)@.loops == old(
                self,
            )@.loops,
        decreases statement, 0nat,
    {
        let Statement::If { pred, then, otherwise } = statement else {
            return Err(CodegenError::CounterOverflow);  // not reached: the statement is a If
        };
            let pred = match self.gen_expression(pred) {
                Ok(t) => t,
                Err(e) => return Err(e),
            };
            let then = match self.gen_statement(then) {
                Ok(t) => t,
                Err(e) => return Err(e),
            };
            let else_label = match self.make_label() {
                Ok(l) => l,
                Err(e) => return Err(e),
            };
            let otherwise = match otherwise {
                Some(otherwise) => match self.gen_statement(otherwise) {
                    Ok(t) => t,
                    Err(e) => return Err(e),
                },
                None => String::new(),
            };
            let end_label = match self.make_label() {
                Ok(l) => l,
                Err(e) => return Err(e),
            };
            let mut out = pred;
            push_str(&mut out, "\tcmpl \t$0, %eax\n\tje \t");
            push_str(&mut out, else_label.as_str());
            push_str(&mut out, "\n");
            push_str(&mut out, then.as_str());
            push_str(&mut out, "\tjmp \t");
            push_str(&mut out, end_label.as_str());
            push_str(&mut out, "\n");
            push_str(&mut out, else_label.as_str());
            push_str(&mut out, ":\n");
            push_str(&mut out, otherwise.as_str());
            push_str(&mut out, end_label.as_str());
            push_str(&mut out, ":\n");
            Ok(out)
    }

    /// Generates a `for` loop.
    fn gen_for(&mut self, statement: &Statement) -> (r: Result<String, CodegenError>)
        requires
            old(self).wf(),
            statement is For,
        ensures
            produced(gen_stmt(old(self)@, *statement), r, final(self)@),
            final(self).wf(),
            r is Ok ==> final(self)@.scopes == old(self)@.scopes && final(self)@.loops == old(
                self,
            )@.loops,
        decreases statement, 0nat,
    {
        let Statement::For { init, condition, post, body } = statement else {
            return Err(CodegenError::CounterOverflow);  // not reached: the statement is a For
        };
            let condition_label = match self.make_label() {
                Ok(l) => l,
                Err(e) => return Err(e),
            };
            let post_label = match self.make_label() {
                Ok(l) => l,
                Err(e) => return Err(e),
            };
            let end_label = match self.make_label() {
                Ok(l) => l,
                Err(e) => return Err(e),
            };
            self.enter_loop(&post_label, &end_label);
            let init = match init {
                Some(i) => match self.gen_expression(i) {
                    Ok(t) => t,
                    Err(e) => return Err(e),
                },
                None => String::new(),
            };
            let condition = match self.gen_expression(condition) {
                Ok(t) => t,
                Err(e) => return Err(e),
            };
            let post = match post {
                Some(i) => match self.gen_expression(i) {
                    Ok(t) => t,
                    Err(e) => return Err(e),
                },
                None => String::new(),
            };
            let body = match self.gen_statement(body) {
                Ok(t) => t,
                Err(e) => return Err(e),
            };
            self.leave_loop();
            Ok(for_asm(&init, &condition_label, &condition, &end_label, &body, &post_label, &post))
    }

    /// Generates a `for` loop that declares its counter.
    fn gen_for_decl(&mut self, statement: &Statement) -> (r: Result<String, CodegenError>)
        requires
            old(self).wf(),
            statement is ForDecl,
        ensures
            produced(gen_stmt(old(self)@, *statement), r, final(self)@),
            final(self).wf(),
            r is Ok ==> final(self)@.scopes == old(self)@.scopes && final(self)@.loops == old(
                self,
            )@.loops,
        decreases statement, 0nat,
    {
        let Statement::ForDecl { init, condition, post, body } = statement else {
            return Err(CodegenError::CounterOverflow);  // not reached: the statement is a ForDecl
        };
            let condition_label = match self.make_label() {
                Ok(l) => l,
                Err(e) => return Err(e),
            };
            let post_label = match self.make_label() {
                Ok(l) => l,
                Err(e) => return Err(e),
            };
            let end_label = match self.make_label() {
                Ok(l) => l,
                Err(e) => return Err(e),
            };
            self.enter_scope();
            let init = match init {
                Some(i) => match self.gen_decl(i) {
                    Ok(t) => t,
                    Err(e) => return Err(e),
                },
                None => String::new(),
            };
            self.enter_loop(&post_label, &end_label);
            let condition = match self.gen_expression(condition) {
                Ok(t) => t,
                Err(e) => return Err(e),
            };
            let post = match post {
                Some(i) => match self.gen_expression(i) {
                    Ok(t) => t,
                    Err(e) => return Err(e),
                },
                None => String::new(),
            };
            let body = match self.gen_statement(body) {
                Ok(t) => t,
                Err(e) => return Err(e),
            };
            self.leave_loop();
            self.leave_scope();
            if self.ebp_offset == 0 {
                return Err(CodegenError::CounterOverflow);
            }
            self.ebp_offset -= 1;  // the one declaration of the loop's header
            let mut out = for_asm(&init, &condition_label, &condition, &end_label, &body, &post_label, &post);
            push_str(&mut out, "\taddq \t$8, %rsp\n");
            Ok(out)
    }

    /// Generates a `while` loop.
    fn gen_while(&mut self, statement: &Statement) -> (r: Result<String, CodegenError>)
        requires
            old(self).wf(),
            statement is While,
        ensures
            produced(gen_stmt(old(self)@, *statement), r, final(self)@),
            final(self).wf(),
            r is Ok ==> final(self)@.scopes == old(self)@.scopes && final(self)@.loops == old(
                self,
            )@.loops,
        decreases statement, 0nat,
    {
        let Statement::While { condition, body } = statement else {
            return Err(CodegenError::CounterOverflow);  // not reached: the statement is a While
        };
            let condition_label = match self.make_label() {
                Ok(l) => l,
                Err(e) => return Err(e),
            };
            let end_label = match self.make_label() {
                Ok(l) => l,
                Err(e) => return Err(e),
            };
            self.enter_loop(&condition_label, &end_label);
            let condition = match self.gen_expression(condition) {
                Ok(t) => t,
                Err(e) => return Err(e),
            };
            let body = match self.gen_statement(body) {
                Ok(t) => t,
                Err(e) => return Err(e),
            };
            self.leave_loop();
            let mut out = condition_label.clone();
            push_str(&mut out, ":\n");
            push_str(&mut out, condition.as_str());
            push_str(&mut out, "\tcmpl \t$0, %eax\n\tje \t");
            push_str(&mut out, end_label.as_str());
            push_str(&mut out, "\n");
            push_str(&mut out, body.as_str());
            push_str(&mut out, "\tjmp \t");
            push_str(&mut out, condition_label.as_str());
            push_str(&mut out, "\n");
            push_str(&mut out, end_label.as_str());
            push_str(&mut out, ":\n");
            Ok(out)
    }

    /// Generates a `do` loop.
    fn gen_do(&mut self, statement: &Statement) -> (r: Result<String, CodegenError>)
        requires
            old(self).wf(),
            statement is Do,
        ensures
            produced(gen_stmt(old(self)@, *statement), r, final(self)@),
            final(self).wf(),
            r is Ok ==> final(self)@.scopes == old(self)@.scopes && final(self)@.loops == old(
                self,
            )@.loops,
        decreases statement, 0nat,
    {
        let Statement::Do { body, condition } = statement else {
            return Err(CodegenError::CounterOverflow);  // not reached: the statement is a Do
        };
            let body_label = match self.make_label() {
                Ok(l) => l,
                Err(e) => return Err(e),
            };
            let condition_label = match self.make_label() {
                Ok(l) => l,
                Err(e) => return Err(e),
            };
            let end_label = match self.make_label() {
                Ok(l) => l,
                Err(e) => return Err(e),
            };
            self.enter_loop(&condition_label, &end_label);
            let body = match self.gen_statement(body) {
                Ok(t) => t,
                Err(e) => return Err(e),
            };
            let condition = match self.gen_expression(condition) {
                Ok(t) => t,
                Err(e) => return Err(e),
            };
            self.leave_loop();
            let mut out = body_label.clone();
            push_str(&mut out, ":\n");
            push_str(&mut out, body.as_str());
            push_str(&mut out, condition_label.as_str());
            push_str(&mut out, ":\n");
            push_str(&mut out, condition.as_str());
            push_str(&mut out, "\tcmpl \t$0, %eax\n\tje \t");
            push_str(&mut out, end_label.as_str());
            push_str(&mut out, "\n\tjmp \t");
            push_str(&mut out, body_label.as_str());
            push_str(&mut out, "\n");
            push_str(&mut out, end_label.as_str());
            push_str(&mut out, ":\n");
            Ok(out)
    }

    /// Generates a block item.
    fn gen_block_item(&mut self, block_item: &BlockItem) -> (r: Result<String, CodegenError>)
        requires
            old(self).wf(),
            old(self).var_map_stack.len() > 0,
        ensures
            produced(gen_item(old(self)@, *block_item), r, final(self)@),
            final(self).wf(),
            r is Ok ==> final(self).var_map_stack.len() == old(self).var_map_stack.len()
                && final(self)@.scopes.drop_last() == old(self)@.scopes.drop_last()
                && final(self)@.loops == old(self)@.loops,
        decreases block_item, 0nat,
    {
        match block_item {
            BlockItem::Statement(statement) => {
                let r = self.gen_statement(statement);
                assert(self@.scopes.len() == self.var_map_stack.len());
                r
            },
            BlockItem::Declare(declare) => self.gen_decl(declare),
        }
    }

    /// Generates the items of a block from position `i` on.
    fn gen_items_from(&mut self, block: &Block, i: usize) -> (r: Result<String, CodegenError>)
        requires
            old(self).wf(),
            old(self).var_map_stack.len() > 0,
            i <= block.0.len(),
        ensures
            produced(gen_items(old(self)@, block.0@.subrange(i as int, block.0.len() as int)), r, final(self)@),
            final(self).wf(),
            r is Ok ==> final(self).var_map_stack.len() == old(self).var_map_stack.len()
                && final(self)@.scopes.drop_last() == old(self)@.scopes.drop_last()
                && final(self)@.loops == old(self)@.loops,
        decreases block, block.0.len() - i,
    {
        let items = &block.0;
        if i == items.len() {
            proof {
                        assert(items@.subrange(i as int, items.len() as int) =~= Seq::<BlockItem>::empty());
            }
            return Ok(String::new());
        }
        proof {
            lemma_gen_items_step(old(self)@, items@, i as int);
        }
        let mut text = match self.gen_block_item(&items[i]) {
            Ok(t) => t,
            Err(e) => return Err(e),
        };
        let rest = match self.gen_items_from(block, i + 1) {
            Ok(t) => t,
            Err(e) => return Err(e),
        };
        push_str(&mut text, rest.as_str());
        Ok(text)
    }

    /// Generates a block: its items in a new scope, then gives the scope's
    /// slots back.
    fn gen_block(&mut self, block: &Block) -> (r: Result<String, CodegenError>)
        requires
            old(self).wf(),
        ensures
            produced(gen_block(old(self)@, *block), r, final(self)@),
            final(self).wf(),
            r is Ok ==> final(self)@.scopes == old(self)@.scopes && final(self)@.loops == old(
                self,
            )@.loops,
        decreases block, block.0.len() + 1,
    {
        let ghost start = push_scope(self@);
        proof {
            assert(start.scopes.drop_last() =~= self@.scopes);
            assert(block.0@.subrange(0, block.0@.len() as int) =~= block.0@);
        }
        self.enter_scope();
        let body = match self.gen_items_from(block, 0) {
            Ok(t) => t,
            Err(e) => {
                assert(gen_items(start, block.0@) == Err::<(Seq<char>, GenState), CodegenError>(e));
                assert(gen_block(old(self)@, *block) == Err::<(Seq<char>, GenState), CodegenError>(e));
                return Err(e);
            },
        };
        assert(gen_items(start, block.0@) == Ok::<(Seq<char>, GenState), CodegenError>((body@, self@)));
        assert(gen_block(old(self)@, *block) == close_block(body@, self@));
        self.close_block(body)
    }

    /// Closes the innermost scope after the items of a block that gave
    /// `body`.
    fn close_block(&mut self, body: String) -> (r: Result<String, CodegenError>)
        requires
            old(self).wf(),
            old(self).var_map_stack.len() > 0,
        ensures
            produced(close_block(body@, old(self)@), r, final(self)@),
            final(self).wf(),
            final(self)@.scopes == old(self)@.scopes.drop_last(),
            final(self)@.loops == old(self)@.loops,
    {
        let mut body = body;
        let count = self.leave_scope();
        let var_offset = slots(count);
        if self.ebp_offset < var_offset {
            return Err(CodegenError::CounterOverflow);
        }
        self.ebp_offset -= var_offset;
        if var_offset > u32::MAX / 8 {
            return Err(CodegenError::CounterOverflow);
        }
        push_str(&mut body, "\taddq \t$");
        push_decimal(&mut body, (var_offset * 8) as u64);
        push_str(&mut body, ", %rsp\n");
        Ok(body)
    }

    fn gen_function(&mut self, function: Function) -> (r: Result<String, CodegenError>)
        requires
            old(self).wf(),
        ensures
            produced(gen_function(old(self)@, function), r, final(self)@),
            final(self).wf(),
    {
        let Function(name, block) = function;
        let mut body = match self.gen_block(&block) {
            Ok(t) => t,
            Err(e) => return Err(e),
        };
        let n = block.0.len();
        let ends_in_return = n != 0 && match &block.0[n - 1] {
            BlockItem::Statement(Statement::Return(_)) => true,
            _ => false,
        };
        if !ends_in_return {
            push_str(&mut body, "\tmovl \t$0, %eax\n \tmov \t%rbp, %rsp\n \tpop \t%rbp\n \tret\n");
        }
        let mut out = String::from_str("\t.globl _");
        push_str(&mut out, name.as_str());
        push_str(&mut out, "\n_");
        push_str(&mut out, name.as_str());
        push_str(&mut out, ":\n\tpush \t%rbp\n\tmov  \t%rsp, %rbp\n");
        push_str(&mut out, body.as_str());
        push_str(&mut out, "\n");
        Ok(out)
    }

    /// Generates the assembly text of a program.
    ///
    /// Gives the text, or the reason why generation stopped: a name
    /// declared twice in a scope or used before its declaration, `break` or
    /// `continue` outside of a loop, a declaration or assignment whose name
    /// is not an identifier, or a counter out of range.
    pub fn gen_program(&mut self, code: Program) -> (r: Result<String, CodegenError>)
        requires
            old(self).wf(),
        ensures
            produced(gen_function(old(self)@, code.0), r, final(self)@),
            final(self).wf(),
    {
        self.gen_function(code.0)
    }

}

/// Appending instructions to assembly text.
pub trait AsmBuilder: Sized {
    /// Appends a move of the immediate `value` into register `reg`.
    fn movl(self, value: &str, reg: &str) -> Self;

    /// Appends a negation of `reg`.
    fn negate(self, reg: &str) -> Self;
}

impl AsmBuilder for String {
    fn movl(self, value: &str, reg: &str) -> (r: String)
        ensures
            r@ == self@ + "\tmovl\t$"@ + value@ + ", %"@ + reg@ + "\n"@,
    {
        let mut out = self;
        push_str(&mut out, "\tmovl\t$");
        push_str(&mut out, value);
        push_str(&mut out, ", %");
        push_str(&mut out, reg);
        push_str(&mut out, "\n");
        out
    }

    fn negate(self, reg: &str) -> (r: String)
        ensures
            r@ == self@ + "\tneg\t"@ + reg@ + "\n"@,
    {
        let mut out = self;
        push_str(&mut out, "\tneg\t");
        push_str(&mut out, reg);
        push_str(&mut out, "\n");
        out
    }
}

} // verus!
