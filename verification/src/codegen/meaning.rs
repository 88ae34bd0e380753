//! What the code of an expression computes: for an expression made of
//! constants, names, assignments, operators and conditionals, the
//! generated text is a program of the instructions of `machine`, and that
//! program leaves the expression's 32-bit value in `%eax` and the frame
//! as the assignments that ran leave it.

use vstd::prelude::*;

use crate::codegen::machine::{
    binary_shape, ends, join, lemma_binary_shape_through, lemma_decimal_zero, lemma_join_concat,
    lemma_join_one, lemma_pushed_shape_through, lemma_run_concat, lemma_run_four, lemma_run_one,
    lemma_run_three, leaves, pushed_shape, quotient, remainder, render, run, signed, skip_to, wrap,
    Cond, Instr, Machine,
};
use crate::codegen::{
    binary_text, frame_offset, gen_expr, label_name, stack_get, unary_text, CodegenError, GenState,
};
use crate::parser::types::{BinaryOp, Expression, UnaryOp};
use crate::text::{decimal, lemma_decimal_injective, signed_decimal};

verus! {

/// `1` where `b` holds, else `0`, as a comparison leaves it.
pub open spec fn truth(b: bool) -> int {
    if b {
        1
    } else {
        0
    }
}

/// Whether the code of an operator runs straight through: not `&&` or
/// `||`, whose code jumps.
pub open spec fn straight(op: BinaryOp) -> bool {
    !(op is And || op is Or)
}

/// Whether `idiv` divides the value `a` by the value `b`: `b` is not zero
/// and the quotient is a 32-bit signed number.
pub open spec fn divides(a: int, b: int) -> bool {
    signed(b) != 0 && -0x8000_0000 <= quotient(signed(a), signed(b)) < 0x8000_0000
}

/// The offset from `%rbp` of the slot that the scopes give a name.
pub open spec fn name_offset(sc: Seq<Seq<(Seq<char>, u32)>>, name: Seq<char>) -> Option<int> {
    match stack_get(sc, name) {
        Some(slot) => frame_offset(slot),
        None => None,
    }
}

/// Whether every slot of a frame holds a 32-bit value.
pub open spec fn frame_ok(frame: Map<int, int>) -> bool {
    forall|k: int| frame.dom().contains(k) ==> 0 <= #[trigger] frame[k] < 0x1_0000_0000
}

/// Whether the scopes give a name a slot that the frame holds.
pub open spec fn in_frame(sc: Seq<Seq<(Seq<char>, u32)>>, frame: Map<int, int>, name: Seq<char>) -> bool {
    name_offset(sc, name) matches Some(off) && frame.dom().contains(off)
}

/// Whether the code of an operator computes its left operand first.
pub open spec fn left_first(op: BinaryOp) -> bool {
    op is Add || op is Mul || op is Equal || op is NotEqual || op is And || op is Or
}

/// Whether `&&` or `||` is decided by its left operand's value `a`, so
/// that its right operand is not computed.
pub open spec fn decided(op: BinaryOp, a: int) -> bool {
    (op is And && a == 0) || (op is Or && a != 0)
}

/// Whether an expression is made of constants, names that the scopes
/// `sc` give a slot of the frame, assignments to such names, operators
/// and conditionals, with no `/` or `%` whose division faults, each part
/// taken in the frame that the code leaves before it.
pub open spec fn computes(e: Expression, sc: Seq<Seq<(Seq<char>, u32)>>, frame: Map<int, int>) -> bool
    decreases e,
{
    match e {
        Expression::Const(_) => true,
        Expression::Ident(name) => in_frame(sc, frame, name@),
        Expression::Unary { op, expr } => computes(*expr, sc, frame),
        Expression::Binary { op, l_expr, r_expr } => if left_first(op) {
            &&& computes(*l_expr, sc, frame)
            &&& computes(*r_expr, sc, after(*l_expr, sc, frame))
        } else {
            &&& computes(*r_expr, sc, frame)
            &&& computes(*l_expr, sc, after(*r_expr, sc, frame))
            &&& (op is Div || op is Modulo) ==> divides(
                value(*l_expr, sc, after(*r_expr, sc, frame)),
                value(*r_expr, sc, frame),
            )
        },
        Expression::Assign { ident, expr } => match *ident {
            Expression::Ident(name) => in_frame(sc, frame, name@) && computes(*expr, sc, frame),
            _ => false,
        },
        Expression::Conditional { pred, then, otherwise } => {
            &&& computes(*pred, sc, frame)
            &&& computes(*then, sc, after(*pred, sc, frame))
            &&& computes(*otherwise, sc, after(*pred, sc, frame))
        },
        _ => false,
    }
}

/// The frame after the code of an expression has run from `frame`.
pub open spec fn after(e: Expression, sc: Seq<Seq<(Seq<char>, u32)>>, frame: Map<int, int>) -> Map<
    int,
    int,
>
    decreases e,
{
    match e {
        Expression::Unary { op, expr } => after(*expr, sc, frame),
        Expression::Binary { op, l_expr, r_expr } => if left_first(op) {
            let f1 = after(*l_expr, sc, frame);
            if decided(op, value(*l_expr, sc, frame)) {
                f1
            } else {
                after(*r_expr, sc, f1)
            }
        } else {
            after(*l_expr, sc, after(*r_expr, sc, frame))
        },
        Expression::Assign { ident, expr } => match *ident {
            Expression::Ident(name) => after(*expr, sc, frame).insert(
                name_offset(sc, name@)->Some_0,
                value(*expr, sc, frame),
            ),
            _ => frame,
        },
        Expression::Conditional { pred, then, otherwise } => if value(*pred, sc, frame) != 0 {
            after(*then, sc, after(*pred, sc, frame))
        } else {
            after(*otherwise, sc, after(*pred, sc, frame))
        },
        _ => frame,
    }
}

/// How many `&&`, `||` and conditionals an expression holds: each takes
/// two labels.
pub open spec fn logical_count(e: Expression) -> nat
    decreases e,
{
    match e {
        Expression::Unary { op, expr } => logical_count(*expr),
        Expression::Assign { ident, expr } => logical_count(*expr),
        Expression::Conditional { pred, then, otherwise } => logical_count(*pred) + logical_count(
            *then,
        ) + logical_count(*otherwise) + 1,
        Expression::Binary { op, l_expr, r_expr } => logical_count(*l_expr) + logical_count(*r_expr)
            + if op is And || op is Or {
            1nat
        } else {
            0nat
        },
        _ => 0,
    }
}

/// The state `st` with `n` more labels taken.
pub open spec fn advanced(st: GenState, n: nat) -> GenState {
    GenState { labels: (st.labels + n) as u32, ..st }
}

/// The 32-bit value of a unary operation on the value `v`.
pub open spec fn unary_value(op: UnaryOp, v: int) -> int {
    match op {
        UnaryOp::Negation => wrap(-v),
        UnaryOp::BitwiseComplement => (!(v as u32)) as int,
        UnaryOp::LogicalNegation => truth(v == 0),
    }
}

/// The 32-bit value of a binary operation on the values `a` (left) and
/// `b` (right); `&&` and `||` give `1` or `0`, comparisons and division
/// are signed, division rounds toward zero, `>>` shifts in zeros, and a
/// shift counts modulo 32.
pub open spec fn binary_value(op: BinaryOp, a: int, b: int) -> int {
    match op {
        BinaryOp::Add => wrap(a + b),
        BinaryOp::Sub => wrap(a - b),
        BinaryOp::Mul => wrap(a * b),
        BinaryOp::And => truth(a != 0 && b != 0),
        BinaryOp::Or => truth(a != 0 || b != 0),
        BinaryOp::Div => wrap(quotient(signed(a), signed(b))),
        BinaryOp::Modulo => wrap(remainder(signed(a), signed(b))),
        BinaryOp::Equal => truth(a == b),
        BinaryOp::NotEqual => truth(a != b),
        BinaryOp::LT => truth(signed(a) < signed(b)),
        BinaryOp::LTE => truth(signed(a) <= signed(b)),
        BinaryOp::GT => truth(signed(a) > signed(b)),
        BinaryOp::GTE => truth(signed(a) >= signed(b)),
        BinaryOp::BitwiseAnd => ((a as u32) & (b as u32)) as int,
        BinaryOp::BitwiseOr => ((a as u32) | (b as u32)) as int,
        BinaryOp::BitwiseXor => ((a as u32) ^ (b as u32)) as int,
        BinaryOp::BitwiseShiftLeft => ((a as u32) << ((b % 32) as u32)) as int,
        BinaryOp::BitwiseShiftRight => ((a as u32) >> ((b % 32) as u32)) as int,
    }
}

/// The 32-bit value of an expression that `computes`, where the frame
/// holds the values of the names; an assignment has the value it stores.
pub open spec fn value(e: Expression, sc: Seq<Seq<(Seq<char>, u32)>>, frame: Map<int, int>) -> int
    decreases e,
{
    match e {
        Expression::Const(n) => wrap(n as int),
        Expression::Ident(name) => frame[name_offset(sc, name@)->Some_0],
        Expression::Unary { op, expr } => unary_value(op, value(*expr, sc, frame)),
        Expression::Binary { op, l_expr, r_expr } => if left_first(op) {
            binary_value(
                op,
                value(*l_expr, sc, frame),
                value(*r_expr, sc, after(*l_expr, sc, frame)),
            )
        } else {
            binary_value(
                op,
                value(*l_expr, sc, after(*r_expr, sc, frame)),
                value(*r_expr, sc, frame),
            )
        },
        Expression::Assign { ident, expr } => value(*expr, sc, frame),
        Expression::Conditional { pred, then, otherwise } => if value(*pred, sc, frame) != 0 {
            value(*then, sc, after(*pred, sc, frame))
        } else {
            value(*otherwise, sc, after(*pred, sc, frame))
        },
        _ => 0,
    }
}

/// The instructions after the operand of a unary operation.
spec fn unary_trailer(op: UnaryOp) -> Seq<Instr> {
    match op {
        UnaryOp::Negation => seq![Instr::Neg],
        UnaryOp::BitwiseComplement => seq![Instr::Not],
        UnaryOp::LogicalNegation => seq![Instr::CmpZeroTight, Instr::MovZeroTight, Instr::SetByte(Cond::E, 2)],
    }
}

/// The instructions of `/` and `%` after their operands.
spec fn division_tail(op: BinaryOp) -> Seq<Instr> {
    if op is Div {
        seq![Instr::Blank, Instr::Cdq, Instr::Pop, Instr::Idiv]
    } else {
        seq![Instr::Cdq, Instr::Pop, Instr::Idiv, Instr::MovEdx]
    }
}


/// The instructions of a comparison after its operands are popped.
spec fn compare(c: Cond) -> Seq<Instr> {
    seq![Instr::CmpRegs, Instr::MovImm(0), Instr::SetByte(c, 1)]
}

/// The instructions of an operation after its first operand is popped.
spec fn binary_trailer(op: BinaryOp) -> Seq<Instr> {
    match op {
        BinaryOp::Add => seq![Instr::Add],
        BinaryOp::Mul => seq![Instr::Imul],
        BinaryOp::Sub => seq![Instr::Sub],
        BinaryOp::Equal => seq![Instr::CmpRegs, Instr::MovImm(0), Instr::SetByte(Cond::E, 0)],
        BinaryOp::NotEqual => seq![Instr::CmpRegs, Instr::MovImm(0), Instr::SetByte(Cond::Ne, 0)],
        BinaryOp::LT => compare(Cond::L),
        BinaryOp::LTE => compare(Cond::Le),
        BinaryOp::GT => compare(Cond::G),
        BinaryOp::GTE => compare(Cond::Ge),
        BinaryOp::BitwiseAnd => seq![Instr::BitAnd],
        BinaryOp::BitwiseOr => seq![Instr::BitOr],
        BinaryOp::BitwiseXor => seq![Instr::BitXor],
        BinaryOp::BitwiseShiftLeft => seq![Instr::Sal],
        _ => seq![Instr::Shr],
    }
}

/// The text of three instructions.
#[verifier::spinoff_prover]
#[verifier::rlimit(50)]
pub proof fn lemma_join_three(i: Instr, j: Instr, k: Instr)
    ensures
        join(seq![i, j, k]) == render(i) + seq!['\n'] + render(j) + seq!['\n'] + render(k) + seq!['\n'],
{
    assert(seq![i, j, k] =~= seq![i] + seq![j] + seq![k]);
    lemma_join_concat(seq![i] + seq![j], seq![k]);
    lemma_join_concat(seq![i], seq![j]);
    lemma_join_one(i);
    lemma_join_one(j);
    lemma_join_one(k);
    assert(join(seq![i, j, k]) =~= render(i) + seq!['\n'] + render(j) + seq!['\n'] + render(k)
        + seq!['\n']);
}

/// The text of the code of a binary operation, piece by piece.
#[verifier::spinoff_prover]
#[verifier::rlimit(50)]
pub proof fn lemma_join_shape(f: Seq<Instr>, s: Seq<Instr>, t: Seq<Instr>)
    ensures
        join(binary_shape(f, s, t)) == join(f) + "\tpush \t%rax\n"@ + join(s) + "\tpop \t%rcx\n"@
            + join(t),
{
    let p1 = f + seq![Instr::Push];
    let p2 = p1 + s;
    let p3 = p2 + seq![Instr::Pop];
    lemma_join_concat(f, seq![Instr::Push]);
    lemma_join_concat(p1, s);
    lemma_join_concat(p2, seq![Instr::Pop]);
    lemma_join_concat(p3, t);
    lemma_join_one(Instr::Push);
    lemma_join_one(Instr::Pop);
    reveal_strlit("\tpush \t%rax\n");
    reveal_strlit("\tpush \t%rax");
    reveal_strlit("\tpop \t%rcx\n");
    reveal_strlit("\tpop \t%rcx");
    assert(join(binary_shape(f, s, t)) =~= join(f) + "\tpush \t%rax\n"@ + join(s)
        + "\tpop \t%rcx\n"@ + join(t));
}

#[verifier::spinoff_prover]
#[verifier::rlimit(50)]
proof fn lemma_unary_text(op: UnaryOp, x: Seq<char>)
    ensures
        unary_text(op, x) == x + join(unary_trailer(op)),
{
    match op {
        UnaryOp::Negation => {
            lemma_join_one(Instr::Neg);
            reveal_strlit("\tneg \t%eax\n");
            reveal_strlit("\tneg \t%eax");
            assert(unary_text(op, x) =~= x + join(unary_trailer(op)));
        },
        UnaryOp::BitwiseComplement => {
            lemma_join_one(Instr::Not);
            reveal_strlit("\tnot \t%eax\n");
            reveal_strlit("\tnot \t%eax");
            assert(unary_text(op, x) =~= x + join(unary_trailer(op)));
        },
        UnaryOp::LogicalNegation => {
            lemma_join_three(Instr::CmpZeroTight, Instr::MovZeroTight, Instr::SetByte(Cond::E, 2));
            reveal_strlit("\tcmpl\t$0, %eax\n\tmovl\t$0, %eax\n\tsete\t%al\n");
            reveal_strlit("\tcmpl\t$0, %eax");
            reveal_strlit("\tmovl\t$0, %eax");
            reveal_strlit("\tset");
            reveal_strlit("%al");
            assert(unary_text(op, x) =~= x + join(unary_trailer(op)));
        },
    }
}

proof fn lemma_unary_runs(op: UnaryOp, v: int)
    requires
        0 <= v < 0x1_0000_0000,
    ensures
        forall|m: Machine| m.eax == v ==> #[trigger] leaves(unary_trailer(op), m, unary_value(op, v)),
{
    assert forall|m: Machine| m.eax == v implies #[trigger] leaves(
        unary_trailer(op),
        m,
        unary_value(op, v),
    ) by {
        match op {
            UnaryOp::Negation => lemma_run_one(Instr::Neg, m),
            UnaryOp::BitwiseComplement => lemma_run_one(Instr::Not, m),
            UnaryOp::LogicalNegation => lemma_run_three(
                Instr::CmpZeroTight,
                Instr::MovZeroTight,
                Instr::SetByte(Cond::E, 2),
                m,
            ),
        }
    }
}

#[verifier::spinoff_prover]
#[verifier::rlimit(50)]
proof fn lemma_binary_text(op: BinaryOp, x: Seq<char>, y: Seq<char>)
    requires
        straight(op),
        !(op is Div || op is Modulo),
    ensures
        binary_text(op, x, y, seq![], seq![]) == (if left_first(op) {
            x + "\tpush \t%rax\n"@ + y
        } else {
            y + "\tpush \t%rax\n"@ + x
        }) + "\tpop \t%rcx\n"@ + join(binary_trailer(op)),
{
    let t = binary_trailer(op);
    let push = "\tpush \t%rax\n"@;
    let pop = "\tpop \t%rcx\n"@;
    reveal_strlit("\tpop \t%rcx\n");
    match op {
        BinaryOp::Add => {
            lemma_join_one(Instr::Add);
            reveal_strlit("\tpop \t%rcx\n\taddl \t%ecx, %eax\n");
            reveal_strlit("\taddl \t%ecx, %eax");
            assert(binary_text(op, x, y, seq![], seq![]) =~= x + push + y + pop + join(t));
        },
        BinaryOp::Mul => {
            lemma_join_one(Instr::Imul);
            reveal_strlit("\tpop \t%rcx\n\timul \t%ecx, %eax\n");
            reveal_strlit("\timul \t%ecx, %eax");
            assert(binary_text(op, x, y, seq![], seq![]) =~= x + push + y + pop + join(t));
        },
        BinaryOp::Sub => {
            lemma_join_one(Instr::Sub);
            reveal_strlit("\tpop \t%rcx\n\tsubl \t%ecx, %eax\n");
            reveal_strlit("\tsubl \t%ecx, %eax");
            assert(binary_text(op, x, y, seq![], seq![]) =~= y + push + x + pop + join(t));
        },
        BinaryOp::BitwiseAnd => {
            lemma_join_one(Instr::BitAnd);
            reveal_strlit("\tpop \t%rcx\n\tand \t%ecx, %eax\n");
            reveal_strlit("\tand \t%ecx, %eax");
            assert(binary_text(op, x, y, seq![], seq![]) =~= y + push + x + pop + join(t));
        },
        BinaryOp::BitwiseOr => {
            lemma_join_one(Instr::BitOr);
            reveal_strlit("\tpop \t%rcx\n\tor \t%ecx, %eax\n");
            reveal_strlit("\tor \t%ecx, %eax");
            assert(binary_text(op, x, y, seq![], seq![]) =~= y + push + x + pop + join(t));
        },
        BinaryOp::BitwiseXor => {
            lemma_join_one(Instr::BitXor);
            reveal_strlit("\tpop \t%rcx\n\txor \t%ecx, %eax\n");
            reveal_strlit("\txor \t%ecx, %eax");
            assert(binary_text(op, x, y, seq![], seq![]) =~= y + push + x + pop + join(t));
        },
        BinaryOp::BitwiseShiftLeft => {
            lemma_join_one(Instr::Sal);
            reveal_strlit("\tpop \t%rcx\n\tsal \t%cl, %eax\n");
            reveal_strlit("\tsal \t%cl, %eax");
            assert(binary_text(op, x, y, seq![], seq![]) =~= y + push + x + pop + join(t));
        },
        BinaryOp::BitwiseShiftRight => {
            lemma_join_one(Instr::Shr);
            reveal_strlit("\tpop \t%rcx\n\tshr \t%cl, %eax\n");
            reveal_strlit("\tshr \t%cl, %eax");
            assert(binary_text(op, x, y, seq![], seq![]) =~= y + push + x + pop + join(t));
        },
        _ => {
            lemma_binary_compare_text(op, x, y);
        },
    }
}

#[verifier::spinoff_prover]
#[verifier::rlimit(50)]
proof fn lemma_binary_compare_text(op: BinaryOp, x: Seq<char>, y: Seq<char>)
    requires
        op is Equal || op is NotEqual || op is LT || op is LTE || op is GT || op is GTE,
    ensures
        binary_text(op, x, y, seq![], seq![]) == (if left_first(op) {
            x + "\tpush \t%rax\n"@ + y
        } else {
            y + "\tpush \t%rax\n"@ + x
        }) + "\tpop \t%rcx\n"@ + join(binary_trailer(op)),
{
    let t = binary_trailer(op);
    let push = "\tpush \t%rax\n"@;
    let pop = "\tpop \t%rcx\n"@;
    lemma_join_three(t[0], t[1], t[2]);
    assert(t =~= seq![t[0], t[1], t[2]]);
    lemma_decimal_zero();
    reveal_strlit("\tpop \t%rcx\n");
    reveal_strlit("\tcmpl \t%ecx, %eax");
    reveal_strlit("\tmovl \t$");
    reveal_strlit(", %eax");
    reveal_strlit("\tset");
    reveal_strlit("%al");
    match op {
        BinaryOp::Equal => {
            reveal_strlit("\tpop \t%rcx\n\tcmpl \t%ecx, %eax\n\tmovl \t$0, %eax\n\tsete %al\n");
            assert(binary_text(op, x, y, seq![], seq![]) =~= x + push + y + pop + join(t));
        },
        BinaryOp::NotEqual => {
            reveal_strlit("\tpop \t%rcx\n\tcmpl \t%ecx, %eax\n\tmovl \t$0, %eax\n\tsetne %al\n");
            assert(binary_text(op, x, y, seq![], seq![]) =~= x + push + y + pop + join(t));
        },
        _ => {
            reveal_strlit("\tpop \t%rcx\n\tcmpl \t%ecx, %eax\n\tmovl \t$0, %eax\n");
            reveal_strlit("\tsetl \t%al\n");
            reveal_strlit("\tsetle \t%al\n");
            reveal_strlit("\tsetg \t%al\n");
            reveal_strlit("\tsetge \t%al\n");
            assert(binary_text(op, x, y, seq![], seq![]) =~= y + push + x + pop + join(t));
        },
    }
}

/// A compare, `movl $0, %eax` and a `set` leave `1` where the
/// condition holds of `%eax` and `%ecx` as signed numbers, else `0`.
pub proof fn lemma_compare_runs(c: Cond, s: u8, m: Machine)
    ensures
        leaves(
            seq![Instr::CmpRegs, Instr::MovImm(0), Instr::SetByte(c, s)],
            m,
            truth(crate::codegen::machine::holds(c, (signed(m.eax), signed(m.ecx)))),
        ),
{
    lemma_run_three(Instr::CmpRegs, Instr::MovImm(0), Instr::SetByte(c, s), m);
}

#[verifier::spinoff_prover]
#[verifier::rlimit(50)]
proof fn lemma_binary_runs_at(op: BinaryOp, a: int, b: int, m: Machine)
    requires
        straight(op),
        !(op is Div || op is Modulo),
        0 <= a < 0x1_0000_0000,
        0 <= b < 0x1_0000_0000,
        if left_first(op) {
            m.eax == b && m.ecx == a
        } else {
            m.eax == a && m.ecx == b
        },
    ensures
        leaves(binary_trailer(op), m, binary_value(op, a, b)),
{
    match op {
        BinaryOp::Add => lemma_run_one(Instr::Add, m),
        BinaryOp::Mul => {
            lemma_run_one(Instr::Imul, m);
            assert(b * a == a * b) by (nonlinear_arith);
        },
        BinaryOp::Sub => lemma_run_one(Instr::Sub, m),
        BinaryOp::BitwiseAnd => lemma_run_one(Instr::BitAnd, m),
        BinaryOp::BitwiseOr => lemma_run_one(Instr::BitOr, m),
        BinaryOp::BitwiseXor => lemma_run_one(Instr::BitXor, m),
        BinaryOp::BitwiseShiftLeft => lemma_run_one(Instr::Sal, m),
        BinaryOp::BitwiseShiftRight => lemma_run_one(Instr::Shr, m),
        BinaryOp::Equal => lemma_compare_runs(Cond::E, 0, m),
        BinaryOp::NotEqual => lemma_compare_runs(Cond::Ne, 0, m),
        BinaryOp::LT => lemma_compare_runs(Cond::L, 1, m),
        BinaryOp::LTE => lemma_compare_runs(Cond::Le, 1, m),
        BinaryOp::GT => lemma_compare_runs(Cond::G, 1, m),
        BinaryOp::GTE => lemma_compare_runs(Cond::Ge, 1, m),
        _ => {},
    }
}

proof fn lemma_binary_runs(op: BinaryOp, a: int, b: int)
    requires
        straight(op),
        !(op is Div || op is Modulo),
        0 <= a < 0x1_0000_0000,
        0 <= b < 0x1_0000_0000,
    ensures
        forall|m: Machine|
            (if left_first(op) {
                m.eax == b && m.ecx == a
            } else {
                m.eax == a && m.ecx == b
            }) ==> #[trigger] leaves(binary_trailer(op), m, binary_value(op, a, b)),
{
    assert forall|m: Machine|
        (if left_first(op) {
            m.eax == b && m.ecx == a
        } else {
            m.eax == a && m.ecx == b
        }) implies #[trigger] leaves(binary_trailer(op), m, binary_value(op, a, b)) by {
        lemma_binary_runs_at(op, a, b, m);
    }
}

/// The text of four instructions.
#[verifier::spinoff_prover]
#[verifier::rlimit(50)]
pub proof fn lemma_join_four(i: Instr, j: Instr, k: Instr, l: Instr)
    ensures
        join(seq![i, j, k, l]) == render(i) + seq!['\n'] + render(j) + seq!['\n'] + render(k)
            + seq!['\n'] + render(l) + seq!['\n'],
{
    assert(seq![i, j, k, l] =~= seq![i] + seq![j, k, l]);
    lemma_join_concat(seq![i], seq![j, k, l]);
    lemma_join_one(i);
    lemma_join_three(j, k, l);
    assert(join(seq![i, j, k, l]) =~= render(i) + seq!['\n'] + render(j) + seq!['\n'] + render(k)
        + seq!['\n'] + render(l) + seq!['\n']);
}

/// The text of the code of an operation that pops its first operand
/// itself, piece by piece.
#[verifier::spinoff_prover]
#[verifier::rlimit(50)]
pub proof fn lemma_join_pushed(f: Seq<Instr>, s: Seq<Instr>, t: Seq<Instr>)
    ensures
        join(pushed_shape(f, s, t)) == join(f) + "\tpush \t%rax\n"@ + join(s) + join(t),
{
    let p1 = f + seq![Instr::Push];
    let p2 = p1 + s;
    lemma_join_concat(f, seq![Instr::Push]);
    lemma_join_concat(p1, s);
    lemma_join_concat(p2, t);
    lemma_join_one(Instr::Push);
    reveal_strlit("\tpush \t%rax\n");
    reveal_strlit("\tpush \t%rax");
    assert(join(pushed_shape(f, s, t)) =~= join(f) + "\tpush \t%rax\n"@ + join(s) + join(t));
}

#[verifier::spinoff_prover]
#[verifier::rlimit(50)]
proof fn lemma_division_text(op: BinaryOp, x: Seq<char>, y: Seq<char>)
    requires
        op is Div || op is Modulo,
    ensures
        binary_text(op, x, y, seq![], seq![]) == y + "\tpush \t%rax\n"@ + x + join(division_tail(op)),
{
    let t = division_tail(op);
    lemma_join_four(t[0], t[1], t[2], t[3]);
    assert(t =~= seq![t[0], t[1], t[2], t[3]]);
    reveal_strlit("\tcdq");
    reveal_strlit("\tpop \t%rcx");
    reveal_strlit("\tidiv \t%ecx");
    if op is Div {
        reveal_strlit("\n\tcdq\n\tpop \t%rcx\n\tidiv \t%ecx\n");
    } else {
        reveal_strlit("\tcdq\n\tpop \t%rcx\n\tidiv \t%ecx\n\tmovl \t%edx, %eax\n");
        reveal_strlit("\tmovl \t%edx, %eax");
    }
    assert(binary_text(op, x, y, seq![], seq![]) =~= y + "\tpush \t%rax\n"@ + x + join(t));
}

#[verifier::spinoff_prover]
#[verifier::rlimit(50)]
proof fn lemma_division_runs_at(op: BinaryOp, a: int, b: int, m: Machine)
    requires
        op is Div || op is Modulo,
        0 <= a < 0x1_0000_0000,
        0 <= b < 0x1_0000_0000,
        divides(a, b),
        m.eax == a,
        m.stack.len() > 0,
        m.stack.last() == b,
    ensures
        run(division_tail(op), m) matches Some(m2) && m2.eax == binary_value(op, a, b) && m2.stack
            == m.stack.drop_last() && m2.mem == m.mem,
{
    let m1 = Machine { edx: if signed(a) < 0 { 0xffff_ffffint } else { 0int }, ..m };
    assert(signed(m1.edx) * 0x1_0000_0000 + a == signed(a));
    if op is Div {
        lemma_run_four(Instr::Blank, Instr::Cdq, Instr::Pop, Instr::Idiv, m);
        lemma_run_three(Instr::Cdq, Instr::Pop, Instr::Idiv, m);
    } else {
        lemma_run_four(Instr::Cdq, Instr::Pop, Instr::Idiv, Instr::MovEdx, m);
        lemma_run_three(Instr::Pop, Instr::Idiv, Instr::MovEdx, m1);
    }
}

proof fn lemma_division_runs(op: BinaryOp, a: int, b: int)
    requires
        op is Div || op is Modulo,
        0 <= a < 0x1_0000_0000,
        0 <= b < 0x1_0000_0000,
        divides(a, b),
    ensures
        forall|m: Machine|
            m.eax == a && m.stack.len() > 0 && m.stack.last() == b ==> (#[trigger] run(
                division_tail(op),
                m,
            ) matches Some(m2) && m2.eax == binary_value(op, a, b) && m2.stack
                == m.stack.drop_last() && m2.mem == m.mem),
{
    assert forall|m: Machine|
        m.eax == a && m.stack.len() > 0 && m.stack.last() == b implies (#[trigger] run(
            division_tail(op),
            m,
        ) matches Some(m2) && m2.eax == binary_value(op, a, b) && m2.stack
            == m.stack.drop_last() && m2.mem == m.mem) by {
        lemma_division_runs_at(op, a, b, m);
    }
}

/// Every label of `prog` is `label_name(k)` for some `k < hi`.
pub open spec fn labels_below(prog: Seq<Instr>, hi: int) -> bool {
    forall|i: int|
        0 <= i < prog.len() && #[trigger] prog[i] is Label ==> exists|k: u32|
            k < hi && prog[i]->Label_0 == label_name(k)
}

/// Different label numbers give different labels.
pub proof fn lemma_label_names_differ(x: u32, y: u32)
    requires
        x != y,
    ensures
        label_name(x) != label_name(y),
{
    reveal_strlit("_label");
    if label_name(x) == label_name(y) {
        assert(decimal(x as nat) =~= label_name(x).skip(6));
        assert(decimal(y as nat) =~= label_name(y).skip(6));
        lemma_decimal_injective(x as nat, y as nat);
    }
}

/// Labels below a bound, in two programs, are labels below it in both.
pub proof fn lemma_labels_below_concat(p: Seq<Instr>, q: Seq<Instr>, hi: int)
    requires
        labels_below(p, hi),
        labels_below(q, hi),
    ensures
        labels_below(p + q, hi),
{
    assert forall|i: int| 0 <= i < (p + q).len() && #[trigger] (p + q)[i] is Label implies exists|k: u32|
        k < hi && (p + q)[i]->Label_0 == label_name(k) by {
        if i < p.len() {
            assert((p + q)[i] == p[i]);
        } else {
            assert((p + q)[i] == q[i - p.len()]);
        }
    }
}

/// Labels below a bound are below any larger bound.
pub proof fn lemma_labels_below_wider(p: Seq<Instr>, hi: int, hi2: int)
    requires
        labels_below(p, hi),
        hi <= hi2,
    ensures
        labels_below(p, hi2),
{
}

/// A label numbered `hi` or more is not among labels below `hi`.
pub proof fn lemma_fresh_label_absent(p: Seq<Instr>, hi: int, n: u32)
    requires
        labels_below(p, hi),
        hi <= n,
    ensures
        forall|i: int| 0 <= i < p.len() ==> p[i] != Instr::Label(label_name(n)),
{
    assert forall|i: int| 0 <= i < p.len() implies p[i] != Instr::Label(label_name(n)) by {
        if p[i] == Instr::Label(label_name(n)) {
            assert(p[i] is Label);
            let k = choose|k: u32| k < hi && p[i]->Label_0 == label_name(k);
            lemma_label_names_differ(k, n);
        }
    }
}

proof fn lemma_skip_to_absent(p: Seq<Instr>, q: Seq<Instr>, l: Seq<char>)
    requires
        forall|i: int| 0 <= i < p.len() ==> p[i] != Instr::Label(l),
    ensures
        skip_to(p + q, l) == skip_to(q, l),
    decreases p.len(),
{
    if p.len() == 0 {
        assert(p + q =~= q);
    } else {
        assert((p + q).drop_first() =~= p.drop_first() + q);
        assert((p + q)[0] == p[0]);
        lemma_skip_to_absent(p.drop_first(), q, l);
    }
}

/// The instructions between the operands of `&&`.
pub open spec fn and_head(a: Seq<char>, b: Seq<char>) -> Seq<Instr> {
    seq![Instr::CmpZero, Instr::Jne(a), Instr::Jmp(b), Instr::Label(a)]
}

/// The instructions after the right operand of `&&`.
pub open spec fn and_tail(b: Seq<char>) -> Seq<Instr> {
    seq![Instr::CmpZeroShort, Instr::MovImm(0), Instr::SetByte(Cond::Ne, 1), Instr::Label(b)]
}

/// The instructions between the operands of `||`.
pub open spec fn or_head(a: Seq<char>, b: Seq<char>) -> Seq<Instr> {
    seq![Instr::CmpZero, Instr::Je(a, false), Instr::MovImm(1), Instr::Jmp(b), Instr::Label(a)]
}

/// The instructions after the right operand of `||`.
pub open spec fn or_tail(b: Seq<char>) -> Seq<Instr> {
    seq![Instr::CmpZero, Instr::MovImm(0), Instr::SetByte(Cond::Ne, 0), Instr::Label(b)]
}

/// The code of `&&` (`and` holds) or `||`: the left operand, a test that
/// jumps, the right operand, and its test.
pub open spec fn logic_shape(and: bool, pl: Seq<Instr>, pr: Seq<Instr>, a: Seq<char>, b: Seq<char>) -> Seq<Instr> {
    if and {
        pl + and_head(a, b) + pr + and_tail(b)
    } else {
        pl + or_head(a, b) + pr + or_tail(b)
    }
}

proof fn lemma_skip_to_tail(x: Instr, y: Instr, z: Instr, b: Seq<char>)
    requires
        !(x is Label),
        !(y is Label),
        !(z is Label),
    ensures
        skip_to(seq![x, y, z, Instr::Label(b)], b) == Some(Seq::<Instr>::empty()),
{
    let t1 = seq![Instr::Label(b)];
    let t2 = seq![z, Instr::Label(b)];
    let t3 = seq![y, z, Instr::Label(b)];
    let t4 = seq![x, y, z, Instr::Label(b)];
    assert(t1.drop_first() =~= Seq::<Instr>::empty());
    assert(t1[0] == Instr::Label(b));
    assert(skip_to(t1, b) == Some(Seq::<Instr>::empty()));
    assert(t2.drop_first() =~= t1);
    assert(t2[0] != Instr::Label(b));
    assert(skip_to(t2, b) == skip_to(t1, b));
    assert(t3.drop_first() =~= t2);
    assert(t3[0] != Instr::Label(b));
    assert(skip_to(t3, b) == skip_to(t2, b));
    assert(t4.drop_first() =~= t3);
    assert(t4[0] != Instr::Label(b));
    assert(skip_to(t4, b) == skip_to(t3, b));
}

proof fn lemma_tail_runs(first: Instr, s: u8, b: Seq<char>, m: Machine)
    requires
        first is CmpZero || first is CmpZeroShort,
    ensures
        leaves(
            seq![first, Instr::MovImm(0), Instr::SetByte(Cond::Ne, s), Instr::Label(b)],
            m,
            truth(signed(m.eax) != 0),
        ),
{
    lemma_run_four(first, Instr::MovImm(0), Instr::SetByte(Cond::Ne, s), Instr::Label(b), m);
    let m1 = Machine { flags: (signed(m.eax), 0), ..m };
    lemma_run_three(Instr::MovImm(0), Instr::SetByte(Cond::Ne, s), Instr::Label(b), m1);
}

/// Running the code of `&&` or `||`: with the operand code leaving `va`
/// and `vb` (and the frames `f1` and `f2`), and label `b` neither `a` nor
/// a label of the right operand's code, it leaves `1` or `0` as the
/// operator means, and the right operand runs only where the left one
/// does not decide.
#[verifier::spinoff_prover]
#[verifier::rlimit(40)]
pub proof fn lemma_logic_runs(
    and: bool,
    pl: Seq<Instr>,
    pr: Seq<Instr>,
    a: Seq<char>,
    b: Seq<char>,
    va: int,
    vb: int,
    m: Machine,
    f1: Map<int, int>,
    f2: Map<int, int>,
)
    requires
        forall|m2: Machine| m2.mem == m.mem ==> #[trigger] ends(pl, m2, va, f1),
        forall|m2: Machine| m2.mem == f1 ==> #[trigger] ends(pr, m2, vb, f2),
        0 <= va < 0x1_0000_0000,
        0 <= vb < 0x1_0000_0000,
        a != b,
        forall|i: int| 0 <= i < pr.len() ==> pr[i] != Instr::Label(b),
    ensures
        ends(
            logic_shape(and, pl, pr, a, b),
            m,
            if and {
                truth(va != 0 && vb != 0)
            } else {
                truth(va != 0 || vb != 0)
            },
            if (and && va == 0) || (!and && va != 0) {
                f1
            } else {
                f2
            },
        ),
{
    let head = if and { and_head(a, b) } else { or_head(a, b) };
    let tail = if and { and_tail(b) } else { or_tail(b) };
    let rest = head + pr + tail;
    assert(logic_shape(and, pl, pr, a, b) =~= pl + rest);
    assert(ends(pl, m, va, f1));
    let m1 = run(pl, m)->Some_0;
    lemma_run_concat(pl, rest, m);
    let m2 = Machine { flags: (signed(va), 0), ..m1 };
    assert(rest[0] == Instr::CmpZero);
    let r1 = rest.drop_first();
    assert(run(rest, m1) == run(r1, m2));
    // the end of the right operand's test, reached by jumping to `b`
    lemma_skip_to_absent(pr, tail, b);
    if and {
        lemma_skip_to_tail(Instr::CmpZeroShort, Instr::MovImm(0), Instr::SetByte(Cond::Ne, 1), b);
    } else {
        lemma_skip_to_tail(Instr::CmpZero, Instr::MovImm(0), Instr::SetByte(Cond::Ne, 0), b);
    }
    assert(skip_to(pr + tail, b) == Some(Seq::<Instr>::empty()));
    let to_b = seq![Instr::Label(a)] + pr + tail;
    assert(to_b.drop_first() =~= pr + tail);
    assert(skip_to(to_b, b) == Some(Seq::<Instr>::empty()));
    // the right operand, reached by jumping to `a` or falling through
    assert(to_b[0] == Instr::Label(a));
    assert(skip_to(to_b, a) == Some(pr + tail));
    assert(ends(pr, m2, vb, f2));
    let m3 = run(pr, m2)->Some_0;
    lemma_run_concat(pr, tail, m2);
    if and {
        lemma_tail_runs(Instr::CmpZeroShort, 1, b, m3);
    } else {
        lemma_tail_runs(Instr::CmpZero, 0, b, m3);
    }
    assert(run(pr + tail, m2) == run(tail, m3));
    if and {
        let r2 = seq![Instr::Jmp(b)] + to_b;
        assert(r1 =~= seq![Instr::Jne(a)] + r2);
        assert(r1.drop_first() =~= r2);
        assert(r2.drop_first() =~= to_b);
        assert(r2[0] == Instr::Jmp(b));
        if va != 0 {
            assert(skip_to(r2, a) == skip_to(to_b, a));
        } else {
            assert(run(r2, m2) == run(Seq::<Instr>::empty(), m2));
        }
    } else {
        let r2 = seq![Instr::MovImm(1), Instr::Jmp(b)] + to_b;
        assert(r1 =~= seq![Instr::Je(a, false)] + r2);
        assert(r1.drop_first() =~= r2);
        assert(r2[0] == Instr::MovImm(1));
        let r3 = r2.drop_first();
        assert(r3 =~= seq![Instr::Jmp(b)] + to_b);
        assert(r3[0] == Instr::Jmp(b));
        assert(r3.drop_first() =~= to_b);
        if va == 0 {
            assert(r2[1] == Instr::Jmp(b));
            assert(skip_to(r3, a) == skip_to(to_b, a));
            assert(skip_to(r2, a) == skip_to(r3, a));
        } else {
            let m4 = Machine { eax: wrap(1), ..m2 };
            assert(run(r2, m2) == run(r3, m4));
            assert(run(r3, m4) == run(Seq::<Instr>::empty(), m4));
        }
    }
}

/// The text of five instructions.
#[verifier::spinoff_prover]
#[verifier::rlimit(50)]
pub proof fn lemma_join_five(i: Instr, j: Instr, k: Instr, l: Instr, n: Instr)
    ensures
        join(seq![i, j, k, l, n]) == render(i) + seq!['\n'] + render(j) + seq!['\n'] + render(k)
            + seq!['\n'] + render(l) + seq!['\n'] + render(n) + seq!['\n'],
{
    assert(seq![i, j, k, l, n] =~= seq![i] + seq![j, k, l, n]);
    lemma_join_concat(seq![i], seq![j, k, l, n]);
    lemma_join_one(i);
    lemma_join_four(j, k, l, n);
    assert(join(seq![i, j, k, l, n]) =~= render(i) + seq!['\n'] + render(j) + seq!['\n'] + render(
        k,
    ) + seq!['\n'] + render(l) + seq!['\n'] + render(n) + seq!['\n']);
}

/// The text of the code of `&&` and `||`, piece by piece.
#[verifier::spinoff_prover]
#[verifier::rlimit(50)]
pub proof fn lemma_join_logic(and: bool, pl: Seq<Instr>, pr: Seq<Instr>, a: Seq<char>, b: Seq<char>)
    ensures
        join(logic_shape(and, pl, pr, a, b)) == join(pl) + join(
            if and {
                and_head(a, b)
            } else {
                or_head(a, b)
            },
        ) + join(pr) + join(
            if and {
                and_tail(b)
            } else {
                or_tail(b)
            },
        ),
{
    let head = if and { and_head(a, b) } else { or_head(a, b) };
    let tail = if and { and_tail(b) } else { or_tail(b) };
    lemma_join_concat(pl, head);
    lemma_join_concat(pl + head, pr);
    lemma_join_concat(pl + head + pr, tail);
}

/// The text of `&&` and `||` between their operands' texts `x` and `y`.
#[verifier::spinoff_prover]
#[verifier::rlimit(50)]
pub proof fn lemma_logic_text(and: bool, x: Seq<char>, y: Seq<char>, a: Seq<char>, b: Seq<char>)
    ensures
        and ==> crate::codegen::binary_text(BinaryOp::And, x, y, a, b) == x + join(and_head(a, b))
            + y + join(and_tail(b)),
        !and ==> crate::codegen::binary_text(BinaryOp::Or, x, y, a, b) == x + join(or_head(a, b))
            + y + join(or_tail(b)),
{
    lemma_decimal_zero();
    assert(decimal(1) == seq!['1']);
    reveal_strlit("\tcmpl \t$0, %eax");
    reveal_strlit("\tcmpl $0, %eax");
    reveal_strlit("\tjne \t");
    reveal_strlit("\tjmp \t");
    reveal_strlit("je \t");
    reveal_strlit(":");
    reveal_strlit("\tmovl \t$");
    reveal_strlit(", %eax");
    reveal_strlit("\tset");
    reveal_strlit("%al");
    if and {
        lemma_join_four(Instr::CmpZero, Instr::Jne(a), Instr::Jmp(b), Instr::Label(a));
        lemma_join_four(
            Instr::CmpZeroShort,
            Instr::MovImm(0),
            Instr::SetByte(Cond::Ne, 1),
            Instr::Label(b),
        );
        reveal_strlit("\tcmpl \t$0, %eax\n\tjne \t");
        reveal_strlit("\n\tjmp \t");
        reveal_strlit("\n");
        reveal_strlit(":\n");
        reveal_strlit("\tcmpl $0, %eax\n\tmovl \t$0, %eax\n\tsetne \t%al\n");
        assert(crate::codegen::binary_text(BinaryOp::And, x, y, a, b) =~= x + join(and_head(a, b))
            + y + join(and_tail(b)));
    } else {
        lemma_join_five(
            Instr::CmpZero,
            Instr::Je(a, false),
            Instr::MovImm(1),
            Instr::Jmp(b),
            Instr::Label(a),
        );
        lemma_join_four(Instr::CmpZero, Instr::MovImm(0), Instr::SetByte(Cond::Ne, 0), Instr::Label(b));
        reveal_strlit("\tcmpl \t$0, %eax\nje \t");
        reveal_strlit("\n\tmovl \t$1, %eax\n\tjmp \t");
        reveal_strlit("\n");
        reveal_strlit(":\n");
        reveal_strlit("\tcmpl \t$0, %eax\n\tmovl \t$0, %eax\n\tsetne %al\n");
        assert(crate::codegen::binary_text(BinaryOp::Or, x, y, a, b) =~= x + join(or_head(a, b))
            + y + join(or_tail(b)));
    }
}

/// A program without labels has labels below any bound.
pub proof fn lemma_no_labels(p: Seq<Instr>, hi: int)
    requires
        forall|i: int| 0 <= i < p.len() ==> !(#[trigger] p[i] is Label),
    ensures
        labels_below(p, hi),
{
}

/// The code of a conditional: the condition, a test that jumps to label
/// `ol` where it is zero, the first branch, a jump to label `el` past the
/// second branch, and the second branch.
pub open spec fn cond_shape(
    pp: Seq<Instr>,
    pt: Seq<Instr>,
    po: Seq<Instr>,
    ol: Seq<char>,
    el: Seq<char>,
) -> Seq<Instr> {
    pp + seq![Instr::CmpZero, Instr::Je(ol, true)] + pt + seq![Instr::Jmp(el), Instr::Label(ol)] + po
        + seq![Instr::Label(el)]
}

#[verifier::spinoff_prover]
#[verifier::rlimit(50)]
proof fn lemma_cond_text(
    p: Seq<Instr>,
    t: Seq<Instr>,
    o: Seq<Instr>,
    ol: Seq<char>,
    el: Seq<char>,
)
    ensures
        join(cond_shape(p, t, o, ol, el)) == join(p) + "\tcmpl \t$0, %eax\n\tje \t"@ + ol + "\n"@
            + join(t) + "\tjmp \t"@ + el + "\n"@ + ol + ":\n"@ + join(o) + el + ":\n"@,
{
    let h = seq![Instr::CmpZero, Instr::Je(ol, true)];
    let m = seq![Instr::Jmp(el), Instr::Label(ol)];
    let e = seq![Instr::Label(el)];
    lemma_join_concat(p, h);
    lemma_join_concat(p + h, t);
    lemma_join_concat(p + h + t, m);
    lemma_join_concat(p + h + t + m, o);
    lemma_join_concat(p + h + t + m + o, e);
    assert(h =~= seq![Instr::CmpZero] + seq![Instr::Je(ol, true)]);
    lemma_join_concat(seq![Instr::CmpZero], seq![Instr::Je(ol, true)]);
    assert(m =~= seq![Instr::Jmp(el)] + seq![Instr::Label(ol)]);
    lemma_join_concat(seq![Instr::Jmp(el)], seq![Instr::Label(ol)]);
    lemma_join_one(Instr::CmpZero);
    lemma_join_one(Instr::Je(ol, true));
    lemma_join_one(Instr::Jmp(el));
    lemma_join_one(Instr::Label(ol));
    lemma_join_one(Instr::Label(el));
    reveal_strlit("\tcmpl \t$0, %eax");
    reveal_strlit("\tje \t");
    reveal_strlit("\tjmp \t");
    reveal_strlit(":");
    reveal_strlit("\tcmpl \t$0, %eax\n\tje \t");
    reveal_strlit("\n");
    reveal_strlit(":\n");
    assert(join(cond_shape(p, t, o, ol, el)) =~= join(p) + "\tcmpl \t$0, %eax\n\tje \t"@ + ol
        + "\n"@ + join(t) + "\tjmp \t"@ + el + "\n"@ + ol + ":\n"@ + join(o) + el + ":\n"@);
}

#[verifier::spinoff_prover]
proof fn lemma_cond_runs(
    pp: Seq<Instr>,
    pt: Seq<Instr>,
    po: Seq<Instr>,
    ol: Seq<char>,
    el: Seq<char>,
    vp: int,
    vt: int,
    vo: int,
    m: Machine,
    f1: Map<int, int>,
    ft: Map<int, int>,
    fo: Map<int, int>,
)
    requires
        forall|m2: Machine| m2.mem == m.mem ==> #[trigger] ends(pp, m2, vp, f1),
        forall|m2: Machine| m2.mem == f1 ==> #[trigger] ends(pt, m2, vt, ft),
        forall|m2: Machine| m2.mem == f1 ==> #[trigger] ends(po, m2, vo, fo),
        0 <= vp < 0x1_0000_0000,
        ol != el,
        forall|i: int| 0 <= i < pt.len() ==> pt[i] != Instr::Label(ol),
        forall|i: int| 0 <= i < po.len() ==> po[i] != Instr::Label(el),
    ensures
        ends(
            cond_shape(pp, pt, po, ol, el),
            m,
            if vp != 0 {
                vt
            } else {
                vo
            },
            if vp != 0 {
                ft
            } else {
                fo
            },
        ),
{
    let last = seq![Instr::Label(el)];
    let x = seq![Instr::Jmp(el), Instr::Label(ol)] + po + last;
    let r1 = seq![Instr::Je(ol, true)] + pt + x;
    let rest = seq![Instr::CmpZero] + r1;
    assert(cond_shape(pp, pt, po, ol, el) =~= pp + rest);
    assert(ends(pp, m, vp, f1));
    let m1 = run(pp, m)->Some_0;
    lemma_run_concat(pp, rest, m);
    let m2 = Machine { flags: (signed(vp), 0), ..m1 };
    assert(rest[0] == Instr::CmpZero);
    assert(rest.drop_first() =~= r1);
    assert(run(rest, m1) == run(r1, m2));
    assert(r1[0] == Instr::Je(ol, true));
    assert(r1.drop_first() =~= pt + x);
    // the end, reached by jumping to `el`
    lemma_skip_to_absent(po, last, el);
    assert(last.drop_first() =~= Seq::<Instr>::empty());
    assert(last[0] == Instr::Label(el));
    assert(skip_to(po + last, el) == Some(Seq::<Instr>::empty()));
    let to_el = seq![Instr::Label(ol)] + po + last;
    assert(to_el.drop_first() =~= po + last);
    assert(to_el[0] == Instr::Label(ol));
    assert(skip_to(to_el, el) == Some(Seq::<Instr>::empty()));
    assert(x =~= seq![Instr::Jmp(el)] + to_el);
    assert(x[0] == Instr::Jmp(el));
    assert(x.drop_first() =~= to_el);
    if vp == 0 {
        lemma_skip_to_absent(pt, x, ol);
        assert(skip_to(to_el, ol) == Some(po + last));
        assert(skip_to(x, ol) == skip_to(to_el, ol));
        assert(ends(po, m2, vo, fo));
        let m3 = run(po, m2)->Some_0;
        lemma_run_concat(po, last, m2);
        lemma_run_one(Instr::Label(el), m3);
    } else {
        assert(ends(pt, m2, vt, ft));
        let m3 = run(pt, m2)->Some_0;
        lemma_run_concat(pt, x, m2);
        assert(run(x, m3) == run(Seq::<Instr>::empty(), m3));
    }
}


/// `prog` is the code of `e` generated from `st`, and computes its value
/// from `frame`, leaving the frame as `after` says.
pub open spec fn code_of(st: GenState, e: Expression, prog: Seq<Instr>, frame: Map<int, int>) -> bool {
    &&& gen_expr(st, e) == Ok::<(Seq<char>, GenState), CodegenError>(
        (join(prog), advanced(st, 2 * logical_count(e))),
    )
    &&& forall|m: Machine|
        m.mem == frame ==> #[trigger] ends(
            prog,
            m,
            value(e, st.scopes, frame),
            after(e, st.scopes, frame),
        )
    &&& 0 <= value(e, st.scopes, frame) < 0x1_0000_0000
    &&& frame_ok(after(e, st.scopes, frame))
    &&& after(e, st.scopes, frame).dom() == frame.dom()
    &&& labels_below(prog, st.labels + 2 * logical_count(e))
}

#[verifier::spinoff_prover]
#[verifier::rlimit(50)]
proof fn lemma_logic_case(
    st: GenState,
    op: BinaryOp,
    l: Expression,
    r: Expression,
    pl: Seq<Instr>,
    pr: Seq<Instr>,
    frame: Map<int, int>,
) -> (prog: Seq<Instr>)
    requires
        op is And || op is Or,
        st.labels + 2 * logical_count(Expression::Binary { op, l_expr: Box::new(l), r_expr: Box::new(r) })
            <= u32::MAX,
        frame_ok(frame),
        code_of(st, l, pl, frame),
        code_of(advanced(st, 2 * logical_count(l)), r, pr, after(l, st.scopes, frame)),
    ensures
        code_of(st, Expression::Binary { op, l_expr: Box::new(l), r_expr: Box::new(r) }, prog, frame),
{
    let e = Expression::Binary { op, l_expr: Box::new(l), r_expr: Box::new(r) };
    reveal_with_fuel(gen_expr, 1);
    let hi = st.labels + 2 * logical_count(e);
    let st1 = advanced(st, 2 * logical_count(l));
    let st2 = advanced(st1, 2 * logical_count(r));
    let f1 = after(l, st.scopes, frame);
    let f2 = after(r, st.scopes, f1);
    let a = value(l, st.scopes, frame);
    let b = value(r, st.scopes, f1);
    lemma_labels_below_wider(pl, st1.labels as int, hi);
    lemma_labels_below_wider(pr, st2.labels as int, hi);
    let and = op is And;
    let la = label_name(st2.labels);
    let lb = label_name((st2.labels + 1) as u32);
    assert(advanced(st, 2 * logical_count(e)) == advanced(st2, 2));
    lemma_logic_text(and, join(pl), join(pr), la, lb);
    lemma_join_logic(and, pl, pr, la, lb);
    lemma_label_names_differ(st2.labels, (st2.labels + 1) as u32);
    lemma_fresh_label_absent(pr, st2.labels as int, (st2.labels + 1) as u32);
    assert forall|m: Machine| m.mem == frame implies #[trigger] ends(
        logic_shape(and, pl, pr, la, lb),
        m,
        value(e, st.scopes, frame),
        after(e, st.scopes, frame),
    ) by {
        lemma_logic_runs(and, pl, pr, la, lb, a, b, m, f1, f2);
    }
    let head = if and { and_head(la, lb) } else { or_head(la, lb) };
    let tail = if and { and_tail(lb) } else { or_tail(lb) };
    assert(labels_below(head, hi)) by {
        assert forall|i: int| 0 <= i < head.len() && #[trigger] head[i] is Label implies exists|k: u32|
            k < hi && head[i]->Label_0 == label_name(k) by {
            assert(head[i]->Label_0 == label_name(st2.labels));
        }
    }
    assert(labels_below(tail, hi)) by {
        assert forall|i: int| 0 <= i < tail.len() && #[trigger] tail[i] is Label implies exists|k: u32|
            k < hi && tail[i]->Label_0 == label_name(k) by {
            assert(tail[i]->Label_0 == label_name((st2.labels + 1) as u32));
        }
    }
    lemma_labels_below_concat(pl, head, hi);
    lemma_labels_below_concat(pl + head, pr, hi);
    lemma_labels_below_concat(pl + head + pr, tail, hi);
    assert(logic_shape(and, pl, pr, la, lb) == pl + head + pr + tail);
    logic_shape(and, pl, pr, la, lb)
}

#[verifier::spinoff_prover]
#[verifier::rlimit(50)]
proof fn lemma_arith_case(
    st: GenState,
    op: BinaryOp,
    l: Expression,
    r: Expression,
    pl: Seq<Instr>,
    pr: Seq<Instr>,
    frame: Map<int, int>,
) -> (prog: Seq<Instr>)
    requires
        !(op is And || op is Or),
        computes(Expression::Binary { op, l_expr: Box::new(l), r_expr: Box::new(r) }, st.scopes, frame),
        st.labels + 2 * logical_count(Expression::Binary { op, l_expr: Box::new(l), r_expr: Box::new(r) })
            <= u32::MAX,
        frame_ok(frame),
        left_first(op) ==> code_of(st, l, pl, frame),
        left_first(op) ==> code_of(advanced(st, 2 * logical_count(l)), r, pr, after(l, st.scopes, frame)),
        !left_first(op) ==> code_of(advanced(st, 2 * logical_count(l)), r, pr, frame),
        !left_first(op) ==> code_of(st, l, pl, after(r, st.scopes, frame)),
    ensures
        code_of(st, Expression::Binary { op, l_expr: Box::new(l), r_expr: Box::new(r) }, prog, frame),
{
    let e = Expression::Binary { op, l_expr: Box::new(l), r_expr: Box::new(r) };
    reveal_with_fuel(gen_expr, 1);
    let hi = st.labels + 2 * logical_count(e);
    let st1 = advanced(st, 2 * logical_count(l));
    let st2 = advanced(st1, 2 * logical_count(r));
    assert(advanced(st, 2 * logical_count(e)) == st2);
    lemma_labels_below_wider(pl, st1.labels as int, hi);
    lemma_labels_below_wider(pr, st2.labels as int, hi);
    lemma_no_labels(seq![Instr::Push], hi);
    lemma_no_labels(seq![Instr::Pop], hi);
    // the operand computed first runs from `frame` to `f1`, the other
    // from `f1` to `f2`
    let f1 = if left_first(op) { after(l, st.scopes, frame) } else { after(r, st.scopes, frame) };
    let f2 = after(e, st.scopes, frame);
    let a = if left_first(op) { value(l, st.scopes, frame) } else { value(l, st.scopes, f1) };
    let b = if left_first(op) { value(r, st.scopes, f1) } else { value(r, st.scopes, frame) };
    assert(value(e, st.scopes, frame) == binary_value(op, a, b));
    if op is Div || op is Modulo {
        let t = division_tail(op);
        lemma_division_text(op, join(pl), join(pr));
        lemma_division_runs(op, a, b);
        lemma_pushed_shape_through(pr, pl, t, b, a, value(e, st.scopes, frame), frame, f1, f2);
        lemma_join_pushed(pr, pl, t);
        lemma_no_labels(t, hi);
        lemma_labels_below_concat(pr, seq![Instr::Push], hi);
        lemma_labels_below_concat(pr + seq![Instr::Push], pl, hi);
        lemma_labels_below_concat(pr + seq![Instr::Push] + pl, t, hi);
        pushed_shape(pr, pl, t)
    } else {
        let t = binary_trailer(op);
        lemma_binary_text(op, join(pl), join(pr));
        lemma_binary_runs(op, a, b);
        lemma_no_labels(t, hi);
        let f = if left_first(op) { pl } else { pr };
        let g = if left_first(op) { pr } else { pl };
        if left_first(op) {
            lemma_binary_shape_through(pl, pr, t, a, b, value(e, st.scopes, frame), frame, f1, f2);
        } else {
            lemma_binary_shape_through(pr, pl, t, b, a, value(e, st.scopes, frame), frame, f1, f2);
        }
        lemma_join_shape(f, g, t);
        lemma_labels_below_concat(f, seq![Instr::Push], hi);
        lemma_labels_below_concat(f + seq![Instr::Push], g, hi);
        lemma_labels_below_concat(f + seq![Instr::Push] + g, seq![Instr::Pop], hi);
        lemma_labels_below_concat(f + seq![Instr::Push] + g + seq![Instr::Pop], t, hi);
        binary_shape(f, g, t)
    }
}

#[verifier::spinoff_prover]
#[verifier::rlimit(50)]
proof fn lemma_cond_case(
    st: GenState,
    pe: Expression,
    te: Expression,
    oe: Expression,
    pp: Seq<Instr>,
    pt: Seq<Instr>,
    po: Seq<Instr>,
    frame: Map<int, int>,
) -> (prog: Seq<Instr>)
    requires
        st.labels + 2 * logical_count(
            Expression::Conditional {
                pred: Box::new(pe),
                then: Box::new(te),
                otherwise: Box::new(oe),
            },
        ) <= u32::MAX,
        code_of(st, pe, pp, frame),
        code_of(advanced(st, 2 * logical_count(pe)), te, pt, after(pe, st.scopes, frame)),
        code_of(
            advanced(st, 2 * logical_count(pe) + 2 * logical_count(te)),
            oe,
            po,
            after(pe, st.scopes, frame),
        ),
    ensures
        code_of(
            st,
            Expression::Conditional {
                pred: Box::new(pe),
                then: Box::new(te),
                otherwise: Box::new(oe),
            },
            prog,
            frame,
        ),
{
    let e = Expression::Conditional {
        pred: Box::new(pe),
        then: Box::new(te),
        otherwise: Box::new(oe),
    };
    reveal_with_fuel(gen_expr, 1);
    let hi = st.labels + 2 * logical_count(e);
    let st1 = advanced(st, 2 * logical_count(pe));
    let st2 = advanced(st1, 2 * logical_count(te));
    let st3 = advanced(st2, 2 * logical_count(oe));
    assert(st2 == advanced(st, 2 * logical_count(pe) + 2 * logical_count(te)));
    assert(advanced(st, 2 * logical_count(e)) == advanced(st3, 2));
    let f1 = after(pe, st.scopes, frame);
    let ol = label_name(st3.labels);
    let el = label_name((st3.labels + 1) as u32);
    lemma_labels_below_wider(pp, st1.labels as int, hi);
    lemma_labels_below_wider(pt, st2.labels as int, hi);
    lemma_labels_below_wider(po, st3.labels as int, hi);
    lemma_label_names_differ(st3.labels, (st3.labels + 1) as u32);
    lemma_fresh_label_absent(pt, st2.labels as int, st3.labels);
    lemma_fresh_label_absent(po, st3.labels as int, (st3.labels + 1) as u32);
    lemma_cond_text(pp, pt, po, ol, el);
    assert forall|m: Machine| m.mem == frame implies #[trigger] ends(
        cond_shape(pp, pt, po, ol, el),
        m,
        value(e, st.scopes, frame),
        after(e, st.scopes, frame),
    ) by {
        lemma_cond_runs(
            pp,
            pt,
            po,
            ol,
            el,
            value(pe, st.scopes, frame),
            value(te, st.scopes, f1),
            value(oe, st.scopes, f1),
            m,
            f1,
            after(te, st.scopes, f1),
            after(oe, st.scopes, f1),
        );
    }
    let h = seq![Instr::CmpZero, Instr::Je(ol, true)];
    let mid = seq![Instr::Jmp(el), Instr::Label(ol)];
    let last = seq![Instr::Label(el)];
    lemma_no_labels(h, hi);
    assert(labels_below(mid, hi)) by {
        assert forall|i: int| 0 <= i < mid.len() && #[trigger] mid[i] is Label implies exists|k: u32|
            k < hi && mid[i]->Label_0 == label_name(k) by {
            assert(mid[i]->Label_0 == label_name(st3.labels));
        }
    }
    assert(labels_below(last, hi)) by {
        assert forall|i: int| 0 <= i < last.len() && #[trigger] last[i] is Label implies exists|k: u32|
            k < hi && last[i]->Label_0 == label_name(k) by {
            assert(last[i]->Label_0 == label_name((st3.labels + 1) as u32));
        }
    }
    lemma_labels_below_concat(pp, h, hi);
    lemma_labels_below_concat(pp + h, pt, hi);
    lemma_labels_below_concat(pp + h + pt, mid, hi);
    lemma_labels_below_concat(pp + h + pt + mid, po, hi);
    lemma_labels_below_concat(pp + h + pt + mid + po, last, hi);
    assert(cond_shape(pp, pt, po, ol, el) == pp + h + pt + mid + po + last);
    cond_shape(pp, pt, po, ol, el)
}

#[verifier::spinoff_prover]
#[verifier::rlimit(50)]
proof fn lemma_assign_case(
    st: GenState,
    name: String,
    x: Expression,
    p: Seq<Instr>,
    frame: Map<int, int>,
) -> (prog: Seq<Instr>)
    requires
        in_frame(st.scopes, frame, name@),
        code_of(st, x, p, frame),
    ensures
        code_of(
            st,
            Expression::Assign { ident: Box::new(Expression::Ident(name)), expr: Box::new(x) },
            prog,
            frame,
        ),
{
    let e = Expression::Assign { ident: Box::new(Expression::Ident(name)), expr: Box::new(x) };
    reveal_with_fuel(gen_expr, 1);
    let hi = st.labels + 2 * logical_count(e);
    let off = name_offset(st.scopes, name@)->Some_0;
    let f1 = after(x, st.scopes, frame);
    let v = value(x, st.scopes, frame);
    let t = seq![Instr::Store(off)];
    lemma_join_concat(p, t);
    lemma_join_one(Instr::Store(off));
    reveal_strlit("\tmovl \t%eax, ");
    reveal_strlit("(%rbp)\n");
    reveal_strlit("(%rbp)");
    assert(join(p + t) =~= join(p) + "\tmovl \t%eax, "@ + signed_decimal(off) + "(%rbp)\n"@);
    assert(f1.dom().contains(off));
    assert forall|m: Machine| m.mem == frame implies #[trigger] ends(
        p + t,
        m,
        value(e, st.scopes, frame),
        after(e, st.scopes, frame),
    ) by {
        lemma_run_concat(p, t, m);
        assert(ends(p, m, v, f1));
        let m1 = run(p, m)->Some_0;
        lemma_run_one(Instr::Store(off), m1);
    }
    assert(after(e, st.scopes, frame) == f1.insert(off, v));
    assert(after(e, st.scopes, frame).dom() =~= frame.dom());
    lemma_no_labels(t, hi);
    lemma_labels_below_concat(p, t, hi);
    p + t
}

/// The code of an expression computes its value: for an expression made
/// of constants, names, assignments to names, operators and
/// conditionals, with no division by zero and no quotient out of range,
/// with each name in a slot of a frame whose slots hold 32-bit values,
/// and with label numbers enough for its `&&`, `||` and conditionals,
/// generation succeeds from any state, takes two labels for each of
/// those and changes nothing else, and its text is a program that, run
/// from any machine state with that frame, ends with the expression's
/// 32-bit value in `%eax` (what its slot holds for a name, the value
/// stored for an assignment, a product for `*`, a sum for `+`, `1` or `0`
/// for a comparison and for `&&` and `||`, the value of the branch that
/// the condition picks for a conditional), the stack as it was, and the
/// frame changed only by the assignments that ran; the labels of that
/// text are the labels it took.
#[verifier::spinoff_prover]
#[verifier::rlimit(80)]
pub proof fn law_expression_code_computes_its_value(
    st: GenState,
    e: Expression,
    frame: Map<int, int>,
) -> (prog: Seq<Instr>)
    requires
        computes(e, st.scopes, frame),
        frame_ok(frame),
        st.labels + 2 * logical_count(e) <= u32::MAX,
    ensures
        gen_expr(st, e) == Ok::<(Seq<char>, GenState), CodegenError>(
            (join(prog), advanced(st, 2 * logical_count(e))),
        ),
        forall|m: Machine|
            m.mem == frame ==> #[trigger] ends(
                prog,
                m,
                value(e, st.scopes, frame),
                after(e, st.scopes, frame),
            ),
        0 <= value(e, st.scopes, frame) < 0x1_0000_0000,
        frame_ok(after(e, st.scopes, frame)),
        after(e, st.scopes, frame).dom() == frame.dom(),
        labels_below(prog, st.labels + 2 * logical_count(e)),
    decreases e,
{
    reveal_with_fuel(gen_expr, 1);
    let hi = st.labels + 2 * logical_count(e);
    match e {
        Expression::Const(n) => {
            let prog = seq![Instr::MovImm(n as nat)];
            lemma_join_one(Instr::MovImm(n as nat));
            reveal_strlit(", %eax\n");
            reveal_strlit(", %eax");
            reveal_strlit("\tmovl \t$");
            assert(join(prog) =~= "\tmovl \t$"@ + decimal(n as nat) + ", %eax\n"@);
            assert forall|m: Machine| m.mem == frame implies #[trigger] ends(
                prog,
                m,
                value(e, st.scopes, frame),
                after(e, st.scopes, frame),
            ) by {
                lemma_run_one(Instr::MovImm(n as nat), m);
            }
            assert(st == advanced(st, 0));
            lemma_no_labels(prog, hi);
            prog
        },
        Expression::Ident(name) => {
            let off = name_offset(st.scopes, name@)->Some_0;
            let prog = seq![Instr::Load(off)];
            lemma_join_one(Instr::Load(off));
            reveal_strlit("(%rbp), %eax\n");
            reveal_strlit("(%rbp), %eax");
            reveal_strlit("\tmovl \t");
            assert(join(prog) =~= "\tmovl \t"@ + signed_decimal(off) + "(%rbp), %eax\n"@);
            assert forall|m: Machine| m.mem == frame implies #[trigger] ends(
                prog,
                m,
                value(e, st.scopes, frame),
                after(e, st.scopes, frame),
            ) by {
                lemma_run_one(Instr::Load(off), m);
            }
            assert(st == advanced(st, 0));
            lemma_no_labels(prog, hi);
            prog
        },
        Expression::Unary { op, expr } => {
            let p = law_expression_code_computes_its_value(st, *expr, frame);
            let t = unary_trailer(op);
            let f1 = after(*expr, st.scopes, frame);
            lemma_join_concat(p, t);
            lemma_unary_text(op, join(p));
            lemma_unary_runs(op, value(*expr, st.scopes, frame));
            assert forall|m: Machine| m.mem == frame implies #[trigger] ends(
                p + t,
                m,
                value(e, st.scopes, frame),
                after(e, st.scopes, frame),
            ) by {
                lemma_run_concat(p, t, m);
                assert(ends(p, m, value(*expr, st.scopes, frame), f1));
                let m1 = run(p, m)->Some_0;
                assert(leaves(t, m1, value(e, st.scopes, frame)));
            }
            lemma_no_labels(t, hi);
            lemma_labels_below_concat(p, t, hi);
            p + t
        },
        Expression::Assign { ident, expr } => {
            let x = *expr;
            let name = (*ident)->Ident_0;
            let p = law_expression_code_computes_its_value(st, x, frame);
            assert(e == Expression::Assign {
                ident: Box::new(Expression::Ident(name)),
                expr: Box::new(x),
            });
            let prog = lemma_assign_case(st, name, x, p, frame);
            assert(code_of(st, e, prog, frame));
            prog
        },
        Expression::Binary { op, l_expr, r_expr } => {
            let l = *l_expr;
            let r = *r_expr;
            let st1 = advanced(st, 2 * logical_count(l));
            assert(e == Expression::Binary { op, l_expr: Box::new(l), r_expr: Box::new(r) });
            let prog = if left_first(op) {
                let pl = law_expression_code_computes_its_value(st, l, frame);
                let pr = law_expression_code_computes_its_value(st1, r, after(l, st.scopes, frame));
                if op is And || op is Or {
                    lemma_logic_case(st, op, l, r, pl, pr, frame)
                } else {
                    lemma_arith_case(st, op, l, r, pl, pr, frame)
                }
            } else {
                let pr = law_expression_code_computes_its_value(st1, r, frame);
                let pl = law_expression_code_computes_its_value(st, l, after(r, st.scopes, frame));
                lemma_arith_case(st, op, l, r, pl, pr, frame)
            };
            assert(code_of(st, e, prog, frame));
            prog
        },
        Expression::Conditional { pred, then, otherwise } => {
            let pe = *pred;
            let te = *then;
            let oe = *otherwise;
            let f1 = after(pe, st.scopes, frame);
            let pp = law_expression_code_computes_its_value(st, pe, frame);
            let pt = law_expression_code_computes_its_value(
                advanced(st, 2 * logical_count(pe)),
                te,
                f1,
            );
            let po = law_expression_code_computes_its_value(
                advanced(st, 2 * logical_count(pe) + 2 * logical_count(te)),
                oe,
                f1,
            );
            assert(advanced(advanced(st, 2 * logical_count(pe)), 2 * logical_count(te)) == advanced(
                st,
                2 * logical_count(pe) + 2 * logical_count(te),
            ));
            assert(e == Expression::Conditional {
                pred: Box::new(pe),
                then: Box::new(te),
                otherwise: Box::new(oe),
            });
            let prog = lemma_cond_case(st, pe, te, oe, pp, pt, po, frame);
            assert(code_of(st, e, prog, frame));
            prog
        },
        _ => {
            assert(false);
            seq![]
        },
    }
}

} // verus!
