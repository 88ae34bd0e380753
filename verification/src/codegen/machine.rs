//! What the emitted instructions compute: a model of the x86-64
//! instructions that expression code uses (on `%eax`, `%ecx`, `%edx`, the
//! stack and the operands of the last compare, with labels and jumps),
//! each with its assembly spelling, and how a program of them runs.

use vstd::prelude::*;

use crate::text::{decimal, digit_char, signed_decimal};

verus! {

/// The condition that a `set` instruction tests.
pub enum Cond {
    E,
    Ne,
    L,
    Le,
    G,
    Ge,
}

/// The instructions of expression code.
pub enum Instr {
    /// `movl $n, %eax`
    MovImm(nat),
    /// `movl $0, %eax`, spelled with a tab only
    MovZeroTight,
    /// `push %rax`
    Push,
    /// `pop %rcx`
    Pop,
    /// `addl %ecx, %eax`
    Add,
    /// `imul %ecx, %eax`
    Imul,
    /// `subl %ecx, %eax`
    Sub,
    /// `neg %eax`
    Neg,
    /// `not %eax`
    Not,
    /// `cmpl %ecx, %eax`
    CmpRegs,
    /// `cmpl $0, %eax`, spelled with a tab only
    CmpZeroTight,
    /// `set<cond> %al`, with one of three spellings of the space before
    /// `%al`
    SetByte(Cond, u8),
    /// `and %ecx, %eax`
    BitAnd,
    /// `or %ecx, %eax`
    BitOr,
    /// `xor %ecx, %eax`
    BitXor,
    /// `sal %cl, %eax`
    Sal,
    /// `shr %cl, %eax`
    Shr,
    /// An empty line
    Blank,
    /// `cdq`: `%edx` takes the sign of `%eax`
    Cdq,
    /// `idiv %ecx`: `%edx:%eax` divided by `%ecx`, the quotient to
    /// `%eax` and the remainder to `%edx`
    Idiv,
    /// `movl %edx, %eax`
    MovEdx,
    /// `cmpl $0, %eax`
    CmpZero,
    /// `cmpl $0, %eax`, spelled with a space only
    CmpZeroShort,
    /// A label
    Label(Seq<char>),
    /// `jmp label`
    Jmp(Seq<char>),
    /// `jne label`
    Jne(Seq<char>),
    /// `je label`, with or without the tab that begins a line
    Je(Seq<char>, bool),
    /// `movl off(%rbp), %eax`
    Load(int),
    /// `movl %eax, off(%rbp)`
    Store(int),
}

/// How a condition is written after `set`.
pub open spec fn cond_text(c: Cond) -> Seq<char> {
    match c {
        Cond::E => seq!['e'],
        Cond::Ne => seq!['n', 'e'],
        Cond::L => seq!['l'],
        Cond::Le => seq!['l', 'e'],
        Cond::G => seq!['g'],
        Cond::Ge => seq!['g', 'e'],
    }
}

/// The space between a `set` instruction and `%al`: a space, a space
/// and a tab, or a tab.
pub open spec fn gap_text(spelling: u8) -> Seq<char> {
    if spelling == 0 {
        seq![' ']
    } else if spelling == 1 {
        seq![' ', '\t']
    } else {
        seq!['\t']
    }
}

/// How an instruction is written, without its line break.
pub open spec fn render(i: Instr) -> Seq<char> {
    match i {
        Instr::MovImm(n) => "\tmovl \t$"@ + decimal(n) + ", %eax"@,
        Instr::MovZeroTight => "\tmovl\t$0, %eax"@,
        Instr::Push => "\tpush \t%rax"@,
        Instr::Pop => "\tpop \t%rcx"@,
        Instr::Add => "\taddl \t%ecx, %eax"@,
        Instr::Imul => "\timul \t%ecx, %eax"@,
        Instr::Sub => "\tsubl \t%ecx, %eax"@,
        Instr::Neg => "\tneg \t%eax"@,
        Instr::Not => "\tnot \t%eax"@,
        Instr::CmpRegs => "\tcmpl \t%ecx, %eax"@,
        Instr::CmpZeroTight => "\tcmpl\t$0, %eax"@,
        Instr::SetByte(c, s) => "\tset"@ + cond_text(c) + gap_text(s) + "%al"@,
        Instr::BitAnd => "\tand \t%ecx, %eax"@,
        Instr::BitOr => "\tor \t%ecx, %eax"@,
        Instr::BitXor => "\txor \t%ecx, %eax"@,
        Instr::Sal => "\tsal \t%cl, %eax"@,
        Instr::Shr => "\tshr \t%cl, %eax"@,
        Instr::Blank => seq![],
        Instr::Cdq => "\tcdq"@,
        Instr::Idiv => "\tidiv \t%ecx"@,
        Instr::MovEdx => "\tmovl \t%edx, %eax"@,
        Instr::CmpZero => "\tcmpl \t$0, %eax"@,
        Instr::CmpZeroShort => "\tcmpl $0, %eax"@,
        Instr::Label(l) => l + ":"@,
        Instr::Jmp(l) => "\tjmp \t"@ + l,
        Instr::Jne(l) => "\tjne \t"@ + l,
        Instr::Je(l, tab) => if tab {
            "\tje \t"@ + l
        } else {
            "je \t"@ + l
        },
        Instr::Load(off) => "\tmovl \t"@ + signed_decimal(off) + "(%rbp), %eax"@,
        Instr::Store(off) => "\tmovl \t%eax, "@ + signed_decimal(off) + "(%rbp)"@,
    }
}

/// The text of a program: each instruction on a line of its own.
pub open spec fn join(prog: Seq<Instr>) -> Seq<char>
    decreases prog.len(),
{
    if prog.len() == 0 {
        seq![]
    } else {
        render(prog[0]) + seq!['\n'] + join(prog.drop_first())
    }
}

/// The registers, the stack and the operands of the last compare.
pub struct Machine {
    pub eax: int,
    pub ecx: int,
    pub edx: int,
    pub stack: Seq<int>,
    pub flags: (int, int),
    /// The frame: what each offset from `%rbp` holds.
    pub mem: Map<int, int>,
}

/// A value as a 32-bit register holds it.
pub open spec fn wrap(x: int) -> int {
    x % 0x1_0000_0000
}

/// A 32-bit register value read as a signed number.
pub open spec fn signed(x: int) -> int {
    if x >= 0x8000_0000 {
        x - 0x1_0000_0000
    } else {
        x
    }
}

/// Division that rounds toward zero, as `idiv` divides.
pub open spec fn quotient(x: int, y: int) -> int {
    let q = (if x < 0 { -x } else { x }) / (if y < 0 { -y } else { y });
    if (x < 0) == (y < 0) {
        q
    } else {
        -q
    }
}

/// The remainder that goes with `quotient`: it has the sign of `x`.
pub open spec fn remainder(x: int, y: int) -> int {
    x - y * quotient(x, y)
}

/// Whether a condition holds of the operands of the last compare, the
/// first compared against the second.
pub open spec fn holds(c: Cond, flags: (int, int)) -> bool {
    match c {
        Cond::E => flags.0 == flags.1,
        Cond::Ne => flags.0 != flags.1,
        Cond::L => flags.0 < flags.1,
        Cond::Le => flags.0 <= flags.1,
        Cond::G => flags.0 > flags.1,
        Cond::Ge => flags.0 >= flags.1,
    }
}

/// What one instruction does; `pop` on an empty stack faults, and so
/// do `idiv` by zero or with a quotient out of range and a load or a
/// store outside the frame.
pub open spec fn exec(i: Instr, m: Machine) -> Option<Machine> {
    match i {
        Instr::MovImm(n) => Some(Machine { eax: wrap(n as int), ..m }),
        Instr::MovZeroTight => Some(Machine { eax: 0, ..m }),
        Instr::Push => Some(Machine { stack: m.stack.push(m.eax), ..m }),
        Instr::Pop => if m.stack.len() == 0 {
            None
        } else {
            Some(Machine { ecx: m.stack.last(), stack: m.stack.drop_last(), ..m })
        },
        Instr::Add => Some(Machine { eax: wrap(m.eax + m.ecx), ..m }),
        Instr::Imul => Some(Machine { eax: wrap(m.eax * m.ecx), ..m }),
        Instr::Sub => Some(Machine { eax: wrap(m.eax - m.ecx), ..m }),
        Instr::Neg => Some(Machine { eax: wrap(-m.eax), ..m }),
        Instr::Not => Some(Machine { eax: (!(m.eax as u32)) as int, ..m }),
        Instr::CmpRegs => Some(Machine { flags: (signed(m.eax), signed(m.ecx)), ..m }),
        Instr::CmpZeroTight => Some(Machine { flags: (signed(m.eax), 0), ..m }),
        Instr::SetByte(c, _) => Some(
            Machine { eax: m.eax - m.eax % 256 + if holds(c, m.flags) { 1int } else { 0int }, ..m },
        ),
        Instr::BitAnd => Some(Machine { eax: ((m.eax as u32) & (m.ecx as u32)) as int, ..m }),
        Instr::BitOr => Some(Machine { eax: ((m.eax as u32) | (m.ecx as u32)) as int, ..m }),
        Instr::BitXor => Some(Machine { eax: ((m.eax as u32) ^ (m.ecx as u32)) as int, ..m }),
        Instr::Sal => Some(
            Machine { eax: ((m.eax as u32) << ((m.ecx % 32) as u32)) as int, ..m },
        ),
        Instr::Shr => Some(
            Machine { eax: ((m.eax as u32) >> ((m.ecx % 32) as u32)) as int, ..m },
        ),
        Instr::Blank => Some(m),
        Instr::Cdq => Some(
            Machine { edx: if signed(m.eax) < 0 { 0xffff_ffffint } else { 0int }, ..m },
        ),
        Instr::Idiv => {
            let x = signed(m.edx) * 0x1_0000_0000 + m.eax;
            let y = signed(m.ecx);
            if y == 0 || !(-0x8000_0000 <= quotient(x, y) < 0x8000_0000) {
                None
            } else {
                Some(Machine { eax: wrap(quotient(x, y)), edx: wrap(remainder(x, y)), ..m })
            }
        },
        Instr::MovEdx => Some(Machine { eax: m.edx, ..m }),
        Instr::CmpZero => Some(Machine { flags: (signed(m.eax), 0), ..m }),
        Instr::CmpZeroShort => Some(Machine { flags: (signed(m.eax), 0), ..m }),
        Instr::Load(off) => if m.mem.dom().contains(off) {
            Some(Machine { eax: m.mem[off], ..m })
        } else {
            None
        },
        Instr::Store(off) => if m.mem.dom().contains(off) {
            Some(Machine { mem: m.mem.insert(off, m.eax), ..m })
        } else {
            None
        },
        _ => Some(m),
    }
}

/// The label that an instruction jumps to from `m`, if it jumps.
pub open spec fn jump(i: Instr, m: Machine) -> Option<Seq<char>> {
    match i {
        Instr::Jmp(l) => Some(l),
        Instr::Jne(l) => if holds(Cond::Ne, m.flags) {
            Some(l)
        } else {
            None
        },
        Instr::Je(l, _) => if holds(Cond::E, m.flags) {
            Some(l)
        } else {
            None
        },
        _ => None,
    }
}

/// Whether an instruction never jumps.
pub open spec fn plain(i: Instr) -> bool {
    !(i is Jmp || i is Jne || i is Je)
}

/// What follows the first occurrence of label `l` in `prog`.
pub open spec fn skip_to(prog: Seq<Instr>, l: Seq<char>) -> Option<Seq<Instr>>
    decreases prog.len(),
{
    if prog.len() == 0 {
        None
    } else if prog[0] == Instr::Label(l) {
        Some(prog.drop_first())
    } else {
        skip_to(prog.drop_first(), l)
    }
}

/// What follows a label is shorter than the program.
pub proof fn lemma_skip_to_shorter(prog: Seq<Instr>, l: Seq<char>)
    ensures
        skip_to(prog, l) matches Some(rest) ==> rest.len() < prog.len(),
    decreases prog.len(),
{
    if prog.len() > 0 && prog[0] != Instr::Label(l) {
        lemma_skip_to_shorter(prog.drop_first(), l);
    }
}

/// Running a program, one instruction after the other; a jump goes on
/// after the label it names, which must come later in the program (the
/// assembler allows a label once).
pub open spec fn run(prog: Seq<Instr>, m: Machine) -> Option<Machine>
    decreases prog.len(),
{
    if prog.len() == 0 {
        Some(m)
    } else {
        match jump(prog[0], m) {
            Some(l) => match skip_to(prog.drop_first(), l) {
                None => None,
                Some(rest) => {
                    proof {
                        lemma_skip_to_shorter(prog.drop_first(), l);
                    }
                    run(rest, m)
                },
            },
            None => match exec(prog[0], m) {
                None => None,
                Some(m1) => run(prog.drop_first(), m1),
            },
        }
    }
}

/// Running `prog` from `m` ends with `v` in `%eax`, the stack as it was
/// and `frame` as the frame.
pub open spec fn ends(prog: Seq<Instr>, m: Machine, v: int, frame: Map<int, int>) -> bool {
    run(prog, m) matches Some(m2) && m2.eax == v && m2.stack == m.stack && m2.mem == frame
}

/// Running `prog` from `m` ends with `v` in `%eax` and the stack and the
/// frame as they were.
pub open spec fn leaves(prog: Seq<Instr>, m: Machine, v: int) -> bool {
    run(prog, m) matches Some(m2) && m2.eax == v && m2.stack == m.stack && m2.mem == m.mem
}

/// The text of two programs one after the other.
pub proof fn lemma_join_concat(a: Seq<Instr>, b: Seq<Instr>)
    ensures
        join(a + b) == join(a) + join(b),
    decreases a.len(),
{
    if a.len() == 0 {
        assert(a + b =~= b);
        assert(join(a) + join(b) =~= join(b));
    } else {
        assert((a + b).drop_first() =~= a.drop_first() + b);
        lemma_join_concat(a.drop_first(), b);
        assert(join(a + b) =~= render(a[0]) + seq!['\n'] + join(a.drop_first() + b));
    }
}

/// A label found in a program is found at the same place when more
/// follows it.
pub proof fn lemma_skip_to_concat(p: Seq<Instr>, q: Seq<Instr>, l: Seq<char>)
    ensures
        skip_to(p, l) matches Some(r) ==> skip_to(p + q, l) == Some(r + q),
    decreases p.len(),
{
    if p.len() > 0 {
        assert((p + q).drop_first() =~= p.drop_first() + q);
        assert((p + q)[0] == p[0]);
        if p[0] == Instr::Label(l) {
            assert(p.drop_first() + q =~= (p + q).drop_first());
        } else {
            lemma_skip_to_concat(p.drop_first(), q, l);
        }
    }
}

/// Running one program after another: where the first runs to its end
/// (every jump in it landing in it), the second goes on from there.
pub proof fn lemma_run_concat(a: Seq<Instr>, b: Seq<Instr>, m: Machine)
    ensures
        run(a, m) matches Some(m1) ==> run(a + b, m) == run(b, m1),
    decreases a.len(),
{
    if a.len() == 0 {
        assert(a + b =~= b);
    } else {
        assert((a + b).drop_first() =~= a.drop_first() + b);
        assert((a + b)[0] == a[0]);
        match jump(a[0], m) {
            Some(l) => {
                lemma_skip_to_concat(a.drop_first(), b, l);
                if let Some(r) = skip_to(a.drop_first(), l) {
                    lemma_skip_to_shorter(a.drop_first(), l);
                    lemma_run_concat(r, b, m);
                }
            },
            None => {
                if let Some(m1) = exec(a[0], m) {
                    lemma_run_concat(a.drop_first(), b, m1);
                }
            },
        }
    }
}

/// The text of one instruction.
pub proof fn lemma_join_one(i: Instr)
    ensures
        join(seq![i]) == render(i) + seq!['\n'],
{
    assert(seq![i].drop_first() =~= Seq::<Instr>::empty());
    assert(join(Seq::<Instr>::empty()) =~= Seq::<char>::empty());
    assert(join(seq![i]) =~= render(i) + seq!['\n']);
}

/// Running one instruction that does not jump.
pub proof fn lemma_run_one(i: Instr, m: Machine)
    requires
        plain(i),
    ensures
        run(seq![i], m) == exec(i, m),
{
    assert(seq![i].drop_first() =~= Seq::<Instr>::empty());
    assert(seq![i][0] == i);
    if let Some(m1) = exec(i, m) {
        assert(run(Seq::<Instr>::empty(), m1) == Some(m1));
    }
}

/// The code of a binary operation: the operand computed first, pushed,
/// the other operand, the first popped into `%ecx`, then `trailer`.
pub open spec fn binary_shape(first: Seq<Instr>, second: Seq<Instr>, trailer: Seq<Instr>) -> Seq<Instr> {
    first + seq![Instr::Push] + second + seq![Instr::Pop] + trailer
}

/// Running the code of a binary operation in a frame: with the operand
/// code leaving `a` and `b`, `trailer` runs with `b` in `%eax` and `a` in
/// `%ecx`.
pub proof fn lemma_binary_shape(
    first: Seq<Instr>,
    second: Seq<Instr>,
    trailer: Seq<Instr>,
    a: int,
    b: int,
    v: int,
    frame: Map<int, int>,
)
    requires
        forall|m: Machine| m.mem == frame ==> #[trigger] leaves(first, m, a),
        forall|m: Machine| m.mem == frame ==> #[trigger] leaves(second, m, b),
        forall|m: Machine| m.eax == b && m.ecx == a ==> #[trigger] leaves(trailer, m, v),
    ensures
        forall|m: Machine| m.mem == frame ==> #[trigger] leaves(binary_shape(first, second, trailer), m, v),
{
    assert forall|m: Machine| m.mem == frame implies #[trigger] leaves(binary_shape(first, second, trailer), m, v) by {
        assert(leaves(first, m, a));
        let m1 = run(first, m)->Some_0;
        let m2 = Machine { stack: m1.stack.push(m1.eax), ..m1 };
        assert(leaves(second, m2, b));
        let m3 = run(second, m2)->Some_0;
        let m4 = Machine { ecx: m3.stack.last(), stack: m3.stack.drop_last(), ..m3 };
        assert(m3.stack.drop_last() =~= m.stack);
        assert(leaves(trailer, m4, v));
        let p1 = first + seq![Instr::Push];
        let p2 = p1 + second;
        let p3 = p2 + seq![Instr::Pop];
        lemma_run_concat(first, seq![Instr::Push], m);
        lemma_run_one(Instr::Push, m1);
        lemma_run_concat(p1, second, m);
        lemma_run_concat(p2, seq![Instr::Pop], m);
        lemma_run_one(Instr::Pop, m3);
        lemma_run_concat(p3, trailer, m);
    }
}

/// Running the code of a binary operation whose operands write to the
/// frame: the first operand's code takes the frame from `f0` to `f1`, the
/// second's from `f1` to `f2`.
pub proof fn lemma_binary_shape_through(
    first: Seq<Instr>,
    second: Seq<Instr>,
    trailer: Seq<Instr>,
    a: int,
    b: int,
    v: int,
    f0: Map<int, int>,
    f1: Map<int, int>,
    f2: Map<int, int>,
)
    requires
        forall|m: Machine| m.mem == f0 ==> #[trigger] ends(first, m, a, f1),
        forall|m: Machine| m.mem == f1 ==> #[trigger] ends(second, m, b, f2),
        forall|m: Machine| m.eax == b && m.ecx == a ==> #[trigger] leaves(trailer, m, v),
    ensures
        forall|m: Machine| m.mem == f0 ==> #[trigger] ends(binary_shape(first, second, trailer), m, v, f2),
{
    assert forall|m: Machine| m.mem == f0 implies #[trigger] ends(
        binary_shape(first, second, trailer),
        m,
        v,
        f2,
    ) by {
        assert(ends(first, m, a, f1));
        let m1 = run(first, m)->Some_0;
        let m2 = Machine { stack: m1.stack.push(m1.eax), ..m1 };
        assert(ends(second, m2, b, f2));
        let m3 = run(second, m2)->Some_0;
        let m4 = Machine { ecx: m3.stack.last(), stack: m3.stack.drop_last(), ..m3 };
        assert(m3.stack.drop_last() =~= m.stack);
        assert(leaves(trailer, m4, v));
        let p1 = first + seq![Instr::Push];
        let p2 = p1 + second;
        let p3 = p2 + seq![Instr::Pop];
        lemma_run_concat(first, seq![Instr::Push], m);
        lemma_run_one(Instr::Push, m1);
        lemma_run_concat(p1, second, m);
        lemma_run_concat(p2, seq![Instr::Pop], m);
        lemma_run_one(Instr::Pop, m3);
        lemma_run_concat(p3, trailer, m);
    }
}

/// The code of an operation that pops its first operand itself: the
/// operand computed first, pushed, the other operand, then `tail`.
pub open spec fn pushed_shape(first: Seq<Instr>, second: Seq<Instr>, tail: Seq<Instr>) -> Seq<Instr> {
    first + seq![Instr::Push] + second + tail
}

/// Running such code in a frame: with the operand code leaving `a` and
/// `b`, `tail` runs with `b` in `%eax` and `a` on top of the stack.
pub proof fn lemma_pushed_shape(
    first: Seq<Instr>,
    second: Seq<Instr>,
    tail: Seq<Instr>,
    a: int,
    b: int,
    v: int,
    frame: Map<int, int>,
)
    requires
        forall|m: Machine| m.mem == frame ==> #[trigger] leaves(first, m, a),
        forall|m: Machine| m.mem == frame ==> #[trigger] leaves(second, m, b),
        forall|m: Machine|
            m.eax == b && m.stack.len() > 0 && m.stack.last() == a ==> (#[trigger] run(tail, m) matches Some(
                m2,
            ) && m2.eax == v && m2.stack == m.stack.drop_last() && m2.mem == m.mem),
    ensures
        forall|m: Machine| m.mem == frame ==> #[trigger] leaves(pushed_shape(first, second, tail), m, v),
{
    assert forall|m: Machine| m.mem == frame implies #[trigger] leaves(pushed_shape(first, second, tail), m, v) by {
        assert(leaves(first, m, a));
        let m1 = run(first, m)->Some_0;
        let m2 = Machine { stack: m1.stack.push(m1.eax), ..m1 };
        assert(leaves(second, m2, b));
        let m3 = run(second, m2)->Some_0;
        assert(m3.stack.drop_last() =~= m.stack);
        assert(run(tail, m3) matches Some(m4) && m4.eax == v && m4.stack == m3.stack.drop_last()
            && m4.mem == m3.mem);
        let p1 = first + seq![Instr::Push];
        let p2 = p1 + second;
        lemma_run_concat(first, seq![Instr::Push], m);
        lemma_run_one(Instr::Push, m1);
        lemma_run_concat(p1, second, m);
        lemma_run_concat(p2, tail, m);
    }
}

/// Running such code whose operands write to the frame: the first
/// operand's code takes the frame from `f0` to `f1`, the second's from
/// `f1` to `f2`.
pub proof fn lemma_pushed_shape_through(
    first: Seq<Instr>,
    second: Seq<Instr>,
    tail: Seq<Instr>,
    a: int,
    b: int,
    v: int,
    f0: Map<int, int>,
    f1: Map<int, int>,
    f2: Map<int, int>,
)
    requires
        forall|m: Machine| m.mem == f0 ==> #[trigger] ends(first, m, a, f1),
        forall|m: Machine| m.mem == f1 ==> #[trigger] ends(second, m, b, f2),
        forall|m: Machine|
            m.eax == b && m.stack.len() > 0 && m.stack.last() == a ==> (#[trigger] run(tail, m) matches Some(
                m2,
            ) && m2.eax == v && m2.stack == m.stack.drop_last() && m2.mem == m.mem),
    ensures
        forall|m: Machine| m.mem == f0 ==> #[trigger] ends(pushed_shape(first, second, tail), m, v, f2),
{
    assert forall|m: Machine| m.mem == f0 implies #[trigger] ends(
        pushed_shape(first, second, tail),
        m,
        v,
        f2,
    ) by {
        assert(ends(first, m, a, f1));
        let m1 = run(first, m)->Some_0;
        let m2 = Machine { stack: m1.stack.push(m1.eax), ..m1 };
        assert(ends(second, m2, b, f2));
        let m3 = run(second, m2)->Some_0;
        assert(m3.stack.drop_last() =~= m.stack);
        assert(run(tail, m3) matches Some(m4) && m4.eax == v && m4.stack == m3.stack.drop_last()
            && m4.mem == m3.mem);
        let p1 = first + seq![Instr::Push];
        let p2 = p1 + second;
        lemma_run_concat(first, seq![Instr::Push], m);
        lemma_run_one(Instr::Push, m1);
        lemma_run_concat(p1, second, m);
        lemma_run_concat(p2, tail, m);
    }
}

/// Running a trailer of instructions one by one.
pub proof fn lemma_run_two(i: Instr, j: Instr, m: Machine)
    requires
        plain(i),
        plain(j),
    ensures
        run(seq![i, j], m) == match exec(i, m) {
            None => None,
            Some(m1) => exec(j, m1),
        },
{
    assert(seq![i, j].drop_first() =~= seq![j]);
    assert(seq![i, j][0] == i);
    if let Some(m1) = exec(i, m) {
        lemma_run_one(j, m1);
    }
}

/// Running three instructions that do not jump.
pub proof fn lemma_run_three(i: Instr, j: Instr, k: Instr, m: Machine)
    requires
        plain(i),
        plain(j),
        plain(k),
    ensures
        run(seq![i, j, k], m) == match exec(i, m) {
            None => None,
            Some(m1) => match exec(j, m1) {
                None => None,
                Some(m2) => exec(k, m2),
            },
        },
{
    assert(seq![i, j, k].drop_first() =~= seq![j, k]);
    assert(seq![i, j, k][0] == i);
    if let Some(m1) = exec(i, m) {
        lemma_run_two(j, k, m1);
    }
}

/// Running four instructions: the first, then the other three.
pub proof fn lemma_run_four(i: Instr, j: Instr, k: Instr, l: Instr, m: Machine)
    requires
        plain(i),
    ensures
        run(seq![i, j, k, l], m) == match exec(i, m) {
            None => None,
            Some(m1) => run(seq![j, k, l], m1),
        },
{
    assert(seq![i, j, k, l].drop_first() =~= seq![j, k, l]);
    assert(seq![i, j, k, l][0] == i);
}

/// `movl $0, %eax` is written with the digit `0`.
pub proof fn lemma_decimal_zero()
    ensures
        decimal(0) == seq!['0'],
{
    assert(digit_char(0) == '0');
}

} // verus!
