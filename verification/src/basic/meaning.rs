//! What the code of an expression of the smaller language computes: the
//! generated text is a program of the instructions of the code
//! generator's machine model, and that program leaves the expression's
//! 32-bit value in `%eax`.

use vstd::prelude::*;

use crate::basic::codegen::{binary_text, gen_expr, unary_text};
use crate::basic::parser::{BinaryOp, Expression, UnaryOp};
use crate::codegen::machine::{
    binary_shape, ends, join, lemma_binary_shape, lemma_decimal_zero, lemma_join_concat, lemma_join_one,
    lemma_pushed_shape, lemma_run_concat, lemma_run_four, lemma_run_one, lemma_run_three, leaves,
    pushed_shape, quotient, run, signed, wrap, Cond, Instr, Machine,
};
use crate::codegen::meaning::{
    and_head, and_tail, divides, labels_below, lemma_compare_runs, lemma_fresh_label_absent,
    lemma_join_five, lemma_join_four, lemma_join_logic, lemma_join_pushed, lemma_join_shape,
    lemma_join_three, lemma_label_names_differ, lemma_labels_below_concat, lemma_labels_below_wider,
    lemma_logic_runs, lemma_no_labels, logic_shape, or_head, or_tail, truth,
};
use crate::codegen::label_name;
use crate::codegen::CodegenError;
use crate::text::decimal;

verus! {

/// Whether the code of an operator runs straight through: not `&&` or
/// `||`, whose code jumps.
pub open spec fn straight(op: BinaryOp) -> bool {
    !(op is And || op is Or)
}

/// Whether an expression has no `/` whose division faults.
pub open spec fn computes(e: Expression) -> bool
    decreases e,
{
    match e {
        Expression::Const(_) => true,
        Expression::Unary { op, expr } => computes(*expr),
        Expression::Binary { op, l_expr, r_expr } => computes(*l_expr) && computes(*r_expr) && (
        op is Div ==> divides(value(*l_expr), value(*r_expr))),
    }
}

/// How many `&&` and `||` an expression holds: each takes two labels.
pub open spec fn logical_count(e: Expression) -> nat
    decreases e,
{
    match e {
        Expression::Const(_) => 0,
        Expression::Unary { op, expr } => logical_count(*expr),
        Expression::Binary { op, l_expr, r_expr } => logical_count(*l_expr) + logical_count(*r_expr)
            + if op is And || op is Or {
            1nat
        } else {
            0nat
        },
    }
}

/// The 32-bit value of a unary operation on the value `v`.
pub open spec fn unary_value(op: UnaryOp, v: int) -> int {
    match op {
        UnaryOp::Negation => wrap(-v),
        UnaryOp::BitwiseComplement => (!(v as u32)) as int,
        UnaryOp::LogicalNegation => truth(v == 0),
    }
}

/// The 32-bit value of a binary operation on the values `a` (left) and
/// `b` (right); `&&` and `||` give `1` or `0`, comparisons and division
/// are signed, and division rounds toward zero.
pub open spec fn binary_value(op: BinaryOp, a: int, b: int) -> int {
    match op {
        BinaryOp::Add => wrap(a + b),
        BinaryOp::Sub => wrap(a - b),
        BinaryOp::Mul => wrap(a * b),
        BinaryOp::And => truth(a != 0 && b != 0),
        BinaryOp::Or => truth(a != 0 || b != 0),
        BinaryOp::Div => wrap(quotient(signed(a), signed(b))),
        BinaryOp::Equal => truth(a == b),
        BinaryOp::NotEqual => truth(a != b),
        BinaryOp::LT => truth(signed(a) < signed(b)),
        BinaryOp::LTE => truth(signed(a) <= signed(b)),
        BinaryOp::GT => truth(signed(a) > signed(b)),
        BinaryOp::GTE => truth(signed(a) >= signed(b)),
    }
}

/// The 32-bit value of an expression that `computes`.
pub open spec fn value(e: Expression) -> int
    decreases e,
{
    match e {
        Expression::Const(n) => wrap(n as int),
        Expression::Unary { op, expr } => unary_value(op, value(*expr)),
        Expression::Binary { op, l_expr, r_expr } => binary_value(op, value(*l_expr), value(*r_expr)),
    }
}

/// The instructions after the operand of a unary operation.
spec fn unary_trailer(op: UnaryOp) -> Seq<Instr> {
    match op {
        UnaryOp::Negation => seq![Instr::Neg],
        UnaryOp::BitwiseComplement => seq![Instr::Not],
        UnaryOp::LogicalNegation => seq![Instr::CmpZeroTight, Instr::MovZeroTight, Instr::SetByte(Cond::E, 2)],
    }
}

/// Whether the code of an operator computes its left operand first.
spec fn left_first(op: BinaryOp) -> bool {
    op is Add || op is Mul || op is Equal || op is NotEqual
}

/// The instructions of a comparison after its operands are popped.
spec fn compare(c: Cond) -> Seq<Instr> {
    seq![Instr::CmpRegs, Instr::MovImm(0), Instr::SetByte(c, 0)]
}

/// The instructions of an operation after its first operand is popped.
spec fn binary_trailer(op: BinaryOp) -> Seq<Instr> {
    match op {
        BinaryOp::Add => seq![Instr::Add],
        BinaryOp::Mul => seq![Instr::Imul],
        BinaryOp::Sub => seq![Instr::Sub],
        BinaryOp::Equal => compare(Cond::E),
        BinaryOp::NotEqual => compare(Cond::Ne),
        BinaryOp::LT => compare(Cond::L),
        BinaryOp::LTE => compare(Cond::Le),
        BinaryOp::GT => compare(Cond::G),
        _ => compare(Cond::Ge),
    }
}

#[verifier::spinoff_prover]
#[verifier::rlimit(50)]
proof fn lemma_unary_text(op: UnaryOp, x: Seq<char>)
    ensures
        unary_text(op, x) == x + join(unary_trailer(op)),
{
    match op {
        UnaryOp::Negation => {
            lemma_join_one(Instr::Neg);
            reveal_strlit("\tneg \t%eax\n");
            reveal_strlit("\tneg \t%eax");
            assert(unary_text(op, x) =~= x + join(unary_trailer(op)));
        },
        UnaryOp::BitwiseComplement => {
            lemma_join_one(Instr::Not);
            reveal_strlit("\tnot \t%eax\n");
            reveal_strlit("\tnot \t%eax");
            assert(unary_text(op, x) =~= x + join(unary_trailer(op)));
        },
        UnaryOp::LogicalNegation => {
            lemma_join_three(Instr::CmpZeroTight, Instr::MovZeroTight, Instr::SetByte(Cond::E, 2));
            reveal_strlit("\tcmpl\t$0, %eax\n\tmovl\t$0, %eax\n\tsete\t%al\n");
            reveal_strlit("\tcmpl\t$0, %eax");
            reveal_strlit("\tmovl\t$0, %eax");
            reveal_strlit("\tset");
            reveal_strlit("%al");
            assert(unary_text(op, x) =~= x + join(unary_trailer(op)));
        },
    }
}

proof fn lemma_unary_runs(op: UnaryOp, v: int)
    requires
        0 <= v < 0x1_0000_0000,
    ensures
        forall|m: Machine| m.eax == v ==> #[trigger] leaves(unary_trailer(op), m, unary_value(op, v)),
{
    assert forall|m: Machine| m.eax == v implies #[trigger] leaves(
        unary_trailer(op),
        m,
        unary_value(op, v),
    ) by {
        match op {
            UnaryOp::Negation => lemma_run_one(Instr::Neg, m),
            UnaryOp::BitwiseComplement => lemma_run_one(Instr::Not, m),
            UnaryOp::LogicalNegation => lemma_run_three(
                Instr::CmpZeroTight,
                Instr::MovZeroTight,
                Instr::SetByte(Cond::E, 2),
                m,
            ),
        }
    }
}

#[verifier::spinoff_prover]
#[verifier::rlimit(50)]
proof fn lemma_binary_text(op: BinaryOp, x: Seq<char>, y: Seq<char>)
    requires
        straight(op),
        !(op is Div),
    ensures
        binary_text(op, x, y, seq![], seq![]) == (if left_first(op) {
            x + "\tpush \t%rax\n"@ + y
        } else {
            y + "\tpush \t%rax\n"@ + x
        }) + "\tpop \t%rcx\n"@ + join(binary_trailer(op)),
{
    let t = binary_trailer(op);
    let push = "\tpush \t%rax\n"@;
    let pop = "\tpop \t%rcx\n"@;
    reveal_strlit("\tpop \t%rcx\n");
    match op {
        BinaryOp::Add => {
            lemma_join_one(Instr::Add);
            reveal_strlit("\tpop \t%rcx\n\taddl \t%ecx, %eax\n");
            reveal_strlit("\taddl \t%ecx, %eax");
            assert(binary_text(op, x, y, seq![], seq![]) =~= x + push + y + pop + join(t));
        },
        BinaryOp::Mul => {
            lemma_join_one(Instr::Imul);
            reveal_strlit("\tpop \t%rcx\n\timul \t%ecx, %eax\n");
            reveal_strlit("\timul \t%ecx, %eax");
            assert(binary_text(op, x, y, seq![], seq![]) =~= x + push + y + pop + join(t));
        },
        BinaryOp::Sub => {
            lemma_join_one(Instr::Sub);
            reveal_strlit("\tpop \t%rcx\n\tsubl \t%ecx, %eax\n");
            reveal_strlit("\tsubl \t%ecx, %eax");
            assert(binary_text(op, x, y, seq![], seq![]) =~= y + push + x + pop + join(t));
        },
        _ => {
            lemma_binary_compare_text(op, x, y);
        },
    }
}

#[verifier::spinoff_prover]
#[verifier::rlimit(50)]
proof fn lemma_binary_compare_text(op: BinaryOp, x: Seq<char>, y: Seq<char>)
    requires
        op is Equal || op is NotEqual || op is LT || op is LTE || op is GT || op is GTE,
    ensures
        binary_text(op, x, y, seq![], seq![]) == (if left_first(op) {
            x + "\tpush \t%rax\n"@ + y
        } else {
            y + "\tpush \t%rax\n"@ + x
        }) + "\tpop \t%rcx\n"@ + join(binary_trailer(op)),
{
    let t = binary_trailer(op);
    let push = "\tpush \t%rax\n"@;
    let pop = "\tpop \t%rcx\n"@;
    lemma_join_three(t[0], t[1], t[2]);
    assert(t =~= seq![t[0], t[1], t[2]]);
    lemma_decimal_zero();
    reveal_strlit("\tpop \t%rcx\n");
    reveal_strlit("\tcmpl \t%ecx, %eax");
    reveal_strlit("\tmovl \t$");
    reveal_strlit(", %eax");
    reveal_strlit("\tset");
    reveal_strlit("%al");
    match op {
        BinaryOp::Equal => {
            reveal_strlit("\tpop \t%rcx\n\tcmpl \t%ecx, %eax\n\tmovl \t$0, %eax\n\tsete %al\n");
            assert(binary_text(op, x, y, seq![], seq![]) =~= x + push + y + pop + join(t));
        },
        BinaryOp::NotEqual => {
            reveal_strlit("\tpop \t%rcx\n\tcmpl \t%ecx, %eax\n\tmovl \t$0, %eax\n\tsetne %al\n");
            assert(binary_text(op, x, y, seq![], seq![]) =~= x + push + y + pop + join(t));
        },
        _ => {
            reveal_strlit("\tpop \t%rcx\n\tcmpl \t%ecx, %eax\n\tmovl \t$0, %eax\n");
            reveal_strlit("\tsetl %al\n");
            reveal_strlit("\tsetle %al\n");
            reveal_strlit("\tsetg %al\n");
            reveal_strlit("\tsetge %al\n");
            assert(binary_text(op, x, y, seq![], seq![]) =~= y + push + x + pop + join(t));
        },
    }
}

#[verifier::spinoff_prover]
#[verifier::rlimit(50)]
proof fn lemma_binary_runs_at(op: BinaryOp, a: int, b: int, m: Machine)
    requires
        straight(op),
        !(op is Div),
        0 <= a < 0x1_0000_0000,
        0 <= b < 0x1_0000_0000,
        if left_first(op) {
            m.eax == b && m.ecx == a
        } else {
            m.eax == a && m.ecx == b
        },
    ensures
        leaves(binary_trailer(op), m, binary_value(op, a, b)),
{
    match op {
        BinaryOp::Add => lemma_run_one(Instr::Add, m),
        BinaryOp::Mul => {
            lemma_run_one(Instr::Imul, m);
            assert(b * a == a * b) by (nonlinear_arith);
        },
        BinaryOp::Sub => lemma_run_one(Instr::Sub, m),
        BinaryOp::Equal => lemma_compare_runs(Cond::E, 0, m),
        BinaryOp::NotEqual => lemma_compare_runs(Cond::Ne, 0, m),
        BinaryOp::LT => lemma_compare_runs(Cond::L, 0, m),
        BinaryOp::LTE => lemma_compare_runs(Cond::Le, 0, m),
        BinaryOp::GT => lemma_compare_runs(Cond::G, 0, m),
        BinaryOp::GTE => lemma_compare_runs(Cond::Ge, 0, m),
        _ => {},
    }
}

proof fn lemma_binary_runs(op: BinaryOp, a: int, b: int)
    requires
        straight(op),
        !(op is Div),
        0 <= a < 0x1_0000_0000,
        0 <= b < 0x1_0000_0000,
    ensures
        forall|m: Machine|
            (if left_first(op) {
                m.eax == b && m.ecx == a
            } else {
                m.eax == a && m.ecx == b
            }) ==> #[trigger] leaves(binary_trailer(op), m, binary_value(op, a, b)),
{
    assert forall|m: Machine|
        (if left_first(op) {
            m.eax == b && m.ecx == a
        } else {
            m.eax == a && m.ecx == b
        }) implies #[trigger] leaves(binary_trailer(op), m, binary_value(op, a, b)) by {
        lemma_binary_runs_at(op, a, b, m);
    }
}

/// The instructions of `/` after its operands.
spec fn division_tail() -> Seq<Instr> {
    seq![Instr::Blank, Instr::Cdq, Instr::Pop, Instr::Idiv]
}

#[verifier::spinoff_prover]
#[verifier::rlimit(50)]
proof fn lemma_division_text(x: Seq<char>, y: Seq<char>)
    ensures
        binary_text(BinaryOp::Div, x, y, seq![], seq![]) == y + "\tpush \t%rax\n"@ + x + join(
            division_tail(),
        ),
{
    lemma_join_four(Instr::Blank, Instr::Cdq, Instr::Pop, Instr::Idiv);
    reveal_strlit("\tcdq");
    reveal_strlit("\tpop \t%rcx");
    reveal_strlit("\tidiv \t%ecx");
    reveal_strlit("\n\tcdq\n\tpop \t%rcx\n\tidiv \t%ecx\n");
    assert(binary_text(BinaryOp::Div, x, y, seq![], seq![]) =~= y + "\tpush \t%rax\n"@ + x + join(
        division_tail(),
    ));
}

#[verifier::spinoff_prover]
#[verifier::rlimit(50)]
proof fn lemma_division_runs(a: int, b: int)
    requires
        0 <= a < 0x1_0000_0000,
        0 <= b < 0x1_0000_0000,
        divides(a, b),
    ensures
        forall|m: Machine|
            m.eax == a && m.stack.len() > 0 && m.stack.last() == b ==> (#[trigger] run(
                division_tail(),
                m,
            ) matches Some(m2) && m2.eax == binary_value(BinaryOp::Div, a, b) && m2.stack
                == m.stack.drop_last() && m2.mem == m.mem),
{
    assert forall|m: Machine|
        m.eax == a && m.stack.len() > 0 && m.stack.last() == b implies (#[trigger] run(
            division_tail(),
            m,
        ) matches Some(m2) && m2.eax == binary_value(BinaryOp::Div, a, b) && m2.stack
            == m.stack.drop_last() && m2.mem == m.mem) by {
        let m1 = Machine { edx: if signed(a) < 0 { 0xffff_ffffint } else { 0int }, ..m };
        assert(signed(m1.edx) * 0x1_0000_0000 + a == signed(a));
        lemma_run_four(Instr::Blank, Instr::Cdq, Instr::Pop, Instr::Idiv, m);
        lemma_run_three(Instr::Cdq, Instr::Pop, Instr::Idiv, m);
    }
}

#[verifier::spinoff_prover]
#[verifier::rlimit(50)]
proof fn lemma_logic_text(and: bool, x: Seq<char>, y: Seq<char>, a: Seq<char>, b: Seq<char>)
    ensures
        and ==> binary_text(BinaryOp::And, x, y, a, b) == x + join(and_head(a, b)) + y + join(
            and_tail(b),
        ),
        !and ==> binary_text(BinaryOp::Or, x, y, a, b) == x + join(or_head(a, b)) + y + join(
            or_tail(b),
        ),
{
    lemma_decimal_zero();
    assert(decimal(1) == seq!['1']);
    reveal_strlit("\tcmpl \t$0, %eax");
    reveal_strlit("\tcmpl $0, %eax");
    reveal_strlit("\tjne \t");
    reveal_strlit("\tjmp \t");
    reveal_strlit("je \t");
    reveal_strlit(":");
    reveal_strlit("\tmovl \t$");
    reveal_strlit(", %eax");
    reveal_strlit("\tset");
    reveal_strlit("%al");
    if and {
        lemma_join_four(Instr::CmpZero, Instr::Jne(a), Instr::Jmp(b), Instr::Label(a));
        lemma_join_four(
            Instr::CmpZeroShort,
            Instr::MovImm(0),
            Instr::SetByte(Cond::Ne, 1),
            Instr::Label(b),
        );
        reveal_strlit("\tcmpl \t$0, %eax\n\tjne \t");
        reveal_strlit("\n\tjmp \t");
        reveal_strlit("\n");
        reveal_strlit(":\n");
        reveal_strlit("\tcmpl $0, %eax\n\tmovl \t$0, %eax\n\tsetne \t%al\n");
        assert(binary_text(BinaryOp::And, x, y, a, b) =~= x + join(and_head(a, b)) + y + join(
            and_tail(b),
        ));
    } else {
        lemma_join_five(
            Instr::CmpZero,
            Instr::Je(a, false),
            Instr::MovImm(1),
            Instr::Jmp(b),
            Instr::Label(a),
        );
        lemma_join_four(Instr::CmpZero, Instr::MovImm(0), Instr::SetByte(Cond::Ne, 0), Instr::Label(b));
        reveal_strlit("\tcmpl \t$0, %eax\nje \t");
        reveal_strlit("\n\tmovl \t$1, %eax\n\tjmp \t");
        reveal_strlit("\n");
        reveal_strlit(":\n");
        reveal_strlit("\tcmpl \t$0, %eax\n\tmovl \t$0, %eax\n\tsetne %al\n");
        assert(binary_text(BinaryOp::Or, x, y, a, b) =~= x + join(or_head(a, b)) + y + join(
            or_tail(b),
        ));
    }
}

/// `prog` is the code of `e` generated with labels from `labels` on, and
/// computes its value.
pub open spec fn code_of(labels: u32, e: Expression, prog: Seq<Instr>) -> bool {
    &&& gen_expr(labels, e) == Ok::<(Seq<char>, u32), CodegenError>(
        (join(prog), (labels + 2 * logical_count(e)) as u32),
    )
    &&& forall|m: Machine| #[trigger] leaves(prog, m, value(e))
    &&& 0 <= value(e) < 0x1_0000_0000
    &&& labels_below(prog, labels + 2 * logical_count(e))
}

#[verifier::spinoff_prover]
#[verifier::rlimit(50)]
proof fn lemma_logic_case(
    labels: u32,
    op: BinaryOp,
    l: Expression,
    r: Expression,
    pl: Seq<Instr>,
    pr: Seq<Instr>,
) -> (prog: Seq<Instr>)
    requires
        op is And || op is Or,
        labels + 2 * logical_count(Expression::Binary { op, l_expr: Box::new(l), r_expr: Box::new(r) })
            <= u32::MAX,
        code_of(labels, l, pl),
        code_of((labels + 2 * logical_count(l)) as u32, r, pr),
    ensures
        code_of(labels, Expression::Binary { op, l_expr: Box::new(l), r_expr: Box::new(r) }, prog),
{
    let e = Expression::Binary { op, l_expr: Box::new(l), r_expr: Box::new(r) };
    let hi = labels + 2 * logical_count(e);
    let l1 = (labels + 2 * logical_count(l)) as u32;
    let l2 = (l1 + 2 * logical_count(r)) as u32;
    let a = value(l);
    let b = value(r);
    lemma_labels_below_wider(pl, l1 as int, hi);
    lemma_labels_below_wider(pr, l2 as int, hi);
    let and = op is And;
    let la = label_name(l2);
    let lb = label_name((l2 + 1) as u32);
    lemma_logic_text(and, join(pl), join(pr), la, lb);
    lemma_join_logic(and, pl, pr, la, lb);
    lemma_label_names_differ(l2, (l2 + 1) as u32);
    lemma_fresh_label_absent(pr, l2 as int, (l2 + 1) as u32);
    assert forall|m: Machine| #[trigger] leaves(logic_shape(and, pl, pr, la, lb), m, value(e)) by {
        assert forall|m2: Machine| m2.mem == m.mem implies #[trigger] ends(pl, m2, a, m.mem) by {
            assert(leaves(pl, m2, a));
        }
        assert forall|m2: Machine| m2.mem == m.mem implies #[trigger] ends(pr, m2, b, m.mem) by {
            assert(leaves(pr, m2, b));
        }
        lemma_logic_runs(and, pl, pr, la, lb, a, b, m, m.mem, m.mem);
    }
    let head = if and { and_head(la, lb) } else { or_head(la, lb) };
    let tail = if and { and_tail(lb) } else { or_tail(lb) };
    assert(labels_below(head, hi)) by {
        assert forall|i: int| 0 <= i < head.len() && #[trigger] head[i] is Label implies exists|k: u32|
            k < hi && head[i]->Label_0 == label_name(k) by {
            assert(head[i]->Label_0 == label_name(l2));
        }
    }
    assert(labels_below(tail, hi)) by {
        assert forall|i: int| 0 <= i < tail.len() && #[trigger] tail[i] is Label implies exists|k: u32|
            k < hi && tail[i]->Label_0 == label_name(k) by {
            assert(tail[i]->Label_0 == label_name((l2 + 1) as u32));
        }
    }
    lemma_labels_below_concat(pl, head, hi);
    lemma_labels_below_concat(pl + head, pr, hi);
    lemma_labels_below_concat(pl + head + pr, tail, hi);
    assert(logic_shape(and, pl, pr, la, lb) == pl + head + pr + tail);
    logic_shape(and, pl, pr, la, lb)
}

#[verifier::spinoff_prover]
#[verifier::rlimit(50)]
proof fn lemma_arith_case(
    labels: u32,
    op: BinaryOp,
    l: Expression,
    r: Expression,
    pl: Seq<Instr>,
    pr: Seq<Instr>,
) -> (prog: Seq<Instr>)
    requires
        !(op is And || op is Or),
        computes(Expression::Binary { op, l_expr: Box::new(l), r_expr: Box::new(r) }),
        labels + 2 * logical_count(Expression::Binary { op, l_expr: Box::new(l), r_expr: Box::new(r) })
            <= u32::MAX,
        code_of(labels, l, pl),
        code_of((labels + 2 * logical_count(l)) as u32, r, pr),
    ensures
        code_of(labels, Expression::Binary { op, l_expr: Box::new(l), r_expr: Box::new(r) }, prog),
{
    let e = Expression::Binary { op, l_expr: Box::new(l), r_expr: Box::new(r) };
    let hi = labels + 2 * logical_count(e);
    let l1 = (labels + 2 * logical_count(l)) as u32;
    let l2 = (l1 + 2 * logical_count(r)) as u32;
    let a = value(l);
    let b = value(r);
    lemma_labels_below_wider(pl, l1 as int, hi);
    lemma_labels_below_wider(pr, l2 as int, hi);
    lemma_no_labels(seq![Instr::Push], hi);
    lemma_no_labels(seq![Instr::Pop], hi);
    if op is Div {
        let t = division_tail();
        lemma_division_text(join(pl), join(pr));
        lemma_division_runs(a, b);
        assert forall|m: Machine| #[trigger] leaves(pushed_shape(pr, pl, t), m, value(e)) by {
            lemma_pushed_shape(pr, pl, t, b, a, value(e), m.mem);
        }
        lemma_join_pushed(pr, pl, t);
        lemma_no_labels(t, hi);
        lemma_labels_below_concat(pr, seq![Instr::Push], hi);
        lemma_labels_below_concat(pr + seq![Instr::Push], pl, hi);
        lemma_labels_below_concat(pr + seq![Instr::Push] + pl, t, hi);
        pushed_shape(pr, pl, t)
    } else {
        let t = binary_trailer(op);
        lemma_binary_text(op, join(pl), join(pr));
        lemma_binary_runs(op, a, b);
        lemma_no_labels(t, hi);
        let f = if left_first(op) { pl } else { pr };
        let g = if left_first(op) { pr } else { pl };
        assert forall|m: Machine| #[trigger] leaves(binary_shape(f, g, t), m, value(e)) by {
            if left_first(op) {
                lemma_binary_shape(pl, pr, t, a, b, value(e), m.mem);
            } else {
                lemma_binary_shape(pr, pl, t, b, a, value(e), m.mem);
            }
        }
        lemma_join_shape(f, g, t);
        lemma_labels_below_concat(f, seq![Instr::Push], hi);
        lemma_labels_below_concat(f + seq![Instr::Push], g, hi);
        lemma_labels_below_concat(f + seq![Instr::Push] + g, seq![Instr::Pop], hi);
        lemma_labels_below_concat(f + seq![Instr::Push] + g + seq![Instr::Pop], t, hi);
        binary_shape(f, g, t)
    }
}

/// The code of an expression computes its value: for an expression with
/// no division by zero and no quotient out of range, and with label
/// numbers enough for its `&&` and `||`, generation succeeds from any
/// label number, takes two labels for each `&&` and `||`, and its text is
/// a program that, run from any machine state, ends with the expression's
/// 32-bit value in `%eax` (`1` where `!=` joins different values, `0`
/// where it joins equal ones; a product for `*`; each operator as it
/// means it) and the stack as it was; the labels of that text are the
/// labels it took.
#[verifier::spinoff_prover]
#[verifier::rlimit(50)]
pub proof fn law_expression_code_computes_its_value(labels: u32, e: Expression) -> (prog: Seq<
    Instr,
>)
    requires
        computes(e),
        labels + 2 * logical_count(e) <= u32::MAX,
    ensures
        gen_expr(labels, e) == Ok::<(Seq<char>, u32), CodegenError>(
            (join(prog), (labels + 2 * logical_count(e)) as u32),
        ),
        forall|m: Machine| #[trigger] leaves(prog, m, value(e)),
        0 <= value(e) < 0x1_0000_0000,
        labels_below(prog, labels + 2 * logical_count(e)),
    decreases e,
{
    let hi = labels + 2 * logical_count(e);
    match e {
        Expression::Const(n) => {
            let prog = seq![Instr::MovImm(n as nat)];
            lemma_join_one(Instr::MovImm(n as nat));
            reveal_strlit(", %eax\n");
            reveal_strlit(", %eax");
            reveal_strlit("\tmovl \t$");
            assert(join(prog) =~= "\tmovl \t$"@ + decimal(n as nat) + ", %eax\n"@);
            assert forall|m: Machine| #[trigger] leaves(prog, m, value(e)) by {
                lemma_run_one(Instr::MovImm(n as nat), m);
            }
            lemma_no_labels(prog, hi);
            prog
        },
        Expression::Unary { op, expr } => {
            let p = law_expression_code_computes_its_value(labels, *expr);
            let t = unary_trailer(op);
            lemma_join_concat(p, t);
            lemma_unary_text(op, join(p));
            lemma_unary_runs(op, value(*expr));
            assert forall|m: Machine| #[trigger] leaves(p + t, m, value(e)) by {
                lemma_run_concat(p, t, m);
                assert(leaves(p, m, value(*expr)));
                let m1 = run(p, m)->Some_0;
                assert(leaves(t, m1, value(e)));
            }
            lemma_no_labels(t, hi);
            lemma_labels_below_concat(p, t, hi);
            p + t
        },
        Expression::Binary { op, l_expr, r_expr } => {
            let l = *l_expr;
            let r = *r_expr;
            let pl = law_expression_code_computes_its_value(labels, l);
            let pr = law_expression_code_computes_its_value((labels + 2 * logical_count(l)) as u32, r);
            assert(e == Expression::Binary { op, l_expr: Box::new(l), r_expr: Box::new(r) });
            let prog = if op is And || op is Or {
                lemma_logic_case(labels, op, l, r, pl, pr)
            } else {
                lemma_arith_case(labels, op, l, r, pl, pr)
            };
            assert(code_of(labels, e, prog));
            prog
        },
    }
}

} // verus!
