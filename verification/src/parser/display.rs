//! The printed form of the syntax tree: operators by their symbols,
//! expressions as indented trees, statements and declarations one per line.
//!
//! Only returns, declarations and the expressions built from integers and
//! unary and binary operators have a printed form.

use vstd::prelude::*;

use crate::parser::types::{
    BinaryOp, Block, BlockItem, Declare, Expression, Function, Program, Statement, UnaryOp,
};
use crate::text::{decimal, push_str, push_usize};

verus! {

/// `n` tab characters.
pub open spec fn tabs(n: nat) -> Seq<char> {
    Seq::new(n, |i: int| '\t')
}

/// Appends `n` tab characters at the end of `s`.
pub fn push_tabs(s: &mut String, n: usize)
    ensures
        final(s)@ == old(s)@ + tabs(n as nat),
{
    let mut i: usize = 0;
    while i < n
        invariant
            i <= n,
            s@ == old(s)@ + tabs(i as nat),
        decreases n - i,
    {
        push_str(s, "\t");
        proof {
            reveal_strlit("\t");
            assert(tabs(i as nat) + "\t"@ =~= tabs((i + 1) as nat));
        }
        i += 1;
    }
}

pub open spec fn unary_symbol(op: UnaryOp) -> Seq<char> {
    match op {
        UnaryOp::Negation => "-"@,
        UnaryOp::LogicalNegation => "!"@,
        UnaryOp::BitwiseComplement => "~"@,
    }
}

pub open spec fn binary_symbol(op: BinaryOp) -> Seq<char> {
    match op {
        BinaryOp::Add => "+"@,
        BinaryOp::Mul => "*"@,
        BinaryOp::Div => "/"@,
        BinaryOp::Sub => "-"@,
        BinaryOp::And => "&&"@,
        BinaryOp::Or => "||"@,
        BinaryOp::Equal => "=="@,
        BinaryOp::NotEqual => "!="@,
        BinaryOp::LT => "<"@,
        BinaryOp::LTE => "<="@,
        BinaryOp::GT => ">"@,
        BinaryOp::GTE => ">="@,
        BinaryOp::Modulo => "%"@,
        BinaryOp::BitwiseShiftLeft => "<<"@,
        BinaryOp::BitwiseShiftRight => ">>"@,
        BinaryOp::BitwiseAnd => "&"@,
        BinaryOp::BitwiseOr => "|"@,
        BinaryOp::BitwiseXor => "^"@,
    }
}

/// An expression has a printed form when it is built from integers and
/// unary and binary operators alone.
pub open spec fn printable(e: Expression) -> bool
    decreases e,
{
    match e {
        Expression::Const(_) => true,
        Expression::Unary { expr, .. } => printable(*expr),
        Expression::Binary { l_expr, r_expr, .. } => printable(*l_expr) && printable(*r_expr),
        _ => false,
    }
}

/// The number of operators on the longest path from the root to an integer.
pub open spec fn height(e: Expression) -> nat
    decreases e,
{
    match e {
        Expression::Unary { expr, .. } => height(*expr) + 1,
        Expression::Binary { l_expr, r_expr, .. } => {
            let l = height(*l_expr);
            let r = height(*r_expr);
            (if l < r { r } else { l }) + 1
        },
        _ => 0,
    }
}

/// The printed tree of an expression whose root is indented by `depth`
/// tabs: one line per node, the operands of a unary operator one tab
/// deeper, those of a binary operator under `LHS:` and `RHS:` two tabs
/// deeper.
pub open spec fn tree_text(e: Expression, depth: nat) -> Seq<char>
    decreases e,
{
    match e {
        Expression::Const(n) => tabs(depth) + decimal(n as nat) + "\n"@,
        Expression::Unary { op, expr } => tabs(depth) + "Unary ("@ + unary_symbol(op) + "):\n"@
            + tree_text(*expr, depth + 1),
        Expression::Binary { op, l_expr, r_expr } => tabs(depth) + "Binary ("@ + binary_symbol(op)
            + "):\n"@ + tabs(depth) + "\tLHS:\n"@ + tree_text(*l_expr, depth + 2) + tabs(depth)
            + "\tRHS:\n"@ + tree_text(*r_expr, depth + 2),
        _ => seq![],
    }
}

/// A statement has a printed form when it is a return of a printable
/// expression.
pub open spec fn printable_statement(s: Statement) -> bool {
    match s {
        Statement::Return(e) => printable(e),
        _ => false,
    }
}

/// Whether the expressions of a statement can be printed without running
/// out of `usize` tab counts.
pub open spec fn shallow_statement(s: Statement) -> bool {
    match s {
        Statement::Return(e) => 2 * height(e) <= usize::MAX,
        _ => true,
    }
}

pub open spec fn statement_text(s: Statement) -> Seq<char> {
    match s {
        Statement::Return(e) => "RETURN Int <"@ + tree_text(e, 0) + ">\n"@,
        _ => seq![],
    }
}

pub open spec fn printable_item(item: BlockItem) -> bool {
    match item {
        BlockItem::Statement(s) => printable_statement(s),
        BlockItem::Declare(Declare(name, init)) => printable(name) && match init {
            Some(e) => printable(e),
            None => true,
        },
    }
}

pub open spec fn shallow_item(item: BlockItem) -> bool {
    match item {
        BlockItem::Statement(s) => shallow_statement(s),
        BlockItem::Declare(Declare(name, init)) => 2 * height(name) <= usize::MAX && match init {
            Some(e) => 2 * height(e) <= usize::MAX,
            None => true,
        },
    }
}

/// A declaration prints as `DECLARE`, the name's tree, `=` and the tree of
/// the initial value, if any.
pub open spec fn item_text(item: BlockItem) -> Seq<char> {
    match item {
        BlockItem::Statement(s) => statement_text(s),
        BlockItem::Declare(Declare(name, init)) => "DECLARE "@ + tree_text(name, 0) + " = "@
            + match init {
            Some(e) => tree_text(e, 0) + "\n"@,
            None => "\n"@,
        },
    }
}

/// The printed items one after the other.
pub open spec fn items_text(items: Seq<BlockItem>) -> Seq<char>
    decreases items.len(),
{
    if items.len() == 0 {
        seq![]
    } else {
        items_text(items.drop_last()) + item_text(items.last())
    }
}

pub open spec fn printable_block(b: Block) -> bool {
    forall|i: int| 0 <= i < b.0@.len() ==> printable_item(#[trigger] b.0@[i])
}

pub open spec fn shallow_block(b: Block) -> bool {
    forall|i: int| 0 <= i < b.0@.len() ==> shallow_item(#[trigger] b.0@[i])
}

/// A block prints as its items followed by an empty line.
pub open spec fn block_text(b: Block) -> Seq<char> {
    items_text(b.0@) + "\n"@
}

pub open spec fn function_text(f: Function) -> Seq<char> {
    "FUN INT "@ + f.0@ + ":\n\tparams:()\n\tbody:\n\t\t"@ + block_text(f.1)
}

impl UnaryOp {
    /// The operator's symbol.
    pub fn to_string(&self) -> (r: String)
        ensures
            r@ == unary_symbol(*self),
    {
        let mut out = String::new();
        match self {
            UnaryOp::Negation => push_str(&mut out, "-"),
            UnaryOp::LogicalNegation => push_str(&mut out, "!"),
            UnaryOp::BitwiseComplement => push_str(&mut out, "~"),
        }
        out
    }
}

impl BinaryOp {
    /// The operator's symbol.
    pub fn to_string(&self) -> (r: String)
        ensures
            r@ == binary_symbol(*self),
    {
        let mut out = String::new();
        let symbol = match self {
            BinaryOp::Add => "+",
            BinaryOp::Mul => "*",
            BinaryOp::Div => "/",
            BinaryOp::Sub => "-",
            BinaryOp::And => "&&",
            BinaryOp::Or => "||",
            BinaryOp::Equal => "==",
            BinaryOp::NotEqual => "!=",
            BinaryOp::LT => "<",
            BinaryOp::LTE => "<=",
            BinaryOp::GT => ">",
            BinaryOp::GTE => ">=",
            BinaryOp::Modulo => "%",
            BinaryOp::BitwiseShiftLeft => "<<",
            BinaryOp::BitwiseShiftRight => ">>",
            BinaryOp::BitwiseAnd => "&",
            BinaryOp::BitwiseOr => "|",
            BinaryOp::BitwiseXor => "^",
        };
        push_str(&mut out, symbol);
        out
    }
}

impl Expression {
    /// Appends the printed tree of the expression, its root indented by
    /// `depth` tabs.
    #[verifier::spinoff_prover]
    #[verifier::rlimit(40)]
    pub fn fmt_tree(&self, out: &mut String, depth: usize)
        requires
            printable(*self),
            depth + 2 * height(*self) <= usize::MAX,
        ensures
            final(out)@ == old(out)@ + tree_text(*self, depth as nat),
        decreases self,
    {
        let ghost start = out@;
        match self {
            Expression::Const(n) => {
                push_tabs(out, depth);
                push_usize(out, *n);
                push_str(out, "\n");
                assert(out@ =~= start + tree_text(*self, depth as nat));
            },
            Expression::Unary { op, expr } => {
                push_tabs(out, depth);
                push_str(out, "Unary (");
                let symbol = op.to_string();
                push_str(out, symbol.as_str());
                push_str(out, "):\n");
                expr.fmt_tree(out, depth + 1);
                assert(out@ =~= start + tree_text(*self, depth as nat));
            },
            Expression::Binary { op, l_expr, r_expr } => {
                push_tabs(out, depth);
                push_str(out, "Binary (");
                let symbol = op.to_string();
                push_str(out, symbol.as_str());
                push_str(out, "):\n");
                push_tabs(out, depth);
                push_str(out, "\tLHS:\n");
                l_expr.fmt_tree(out, depth + 2);
                push_tabs(out, depth);
                push_str(out, "\tRHS:\n");
                r_expr.fmt_tree(out, depth + 2);
                assert(out@ =~= start + tree_text(*self, depth as nat));
            },
            _ => unreached(),
        }
    }

    /// The printed tree of the expression, its root not indented.
    pub fn to_string(&self) -> (r: String)
        requires
            printable(*self),
            2 * height(*self) <= usize::MAX,
        ensures
            r@ == tree_text(*self, 0),
    {
        let mut out = String::new();
        self.fmt_tree(&mut out, 0);
        assert(out@ =~= tree_text(*self, 0));
        out
    }
}

impl Statement {
    /// A return prints as `RETURN Int <`, the tree of its value and `>`.
    pub fn to_string(&self) -> (r: String)
        requires
            printable_statement(*self),
            shallow_statement(*self),
        ensures
            r@ == statement_text(*self),
    {
        let mut out = String::new();
        match self {
            Statement::Return(e) => {
                push_str(&mut out, "RETURN Int <");
                e.fmt_tree(&mut out, 0);
                push_str(&mut out, ">\n");
                assert(out@ =~= statement_text(*self));
            },
            _ => unreached(),
        }
        out
    }
}

impl BlockItem {
    pub fn to_string(&self) -> (r: String)
        requires
            printable_item(*self),
            shallow_item(*self),
        ensures
            r@ == item_text(*self),
    {
        match self {
            BlockItem::Statement(s) => s.to_string(),
            BlockItem::Declare(Declare(name, init)) => {
                let mut out = String::new();
                push_str(&mut out, "DECLARE ");
                name.fmt_tree(&mut out, 0);
                push_str(&mut out, " = ");
                match init {
                    Some(e) => {
                        e.fmt_tree(&mut out, 0);
                        push_str(&mut out, "\n");
                    },
                    None => push_str(&mut out, "\n"),
                }
                assert(out@ =~= item_text(*self));
                out
            },
        }
    }
}

impl Block {
    pub fn to_string(&self) -> (r: String)
        requires
            printable_block(*self),
            shallow_block(*self),
        ensures
            r@ == block_text(*self),
    {
        let mut out = String::new();
        let mut i: usize = 0;
        while i < self.0.len()
            invariant
                i <= self.0.len(),
                printable_block(*self),
                shallow_block(*self),
                out@ == items_text(self.0@.subrange(0, i as int)),
            decreases self.0.len() - i,
        {
            let text = self.0[i].to_string();
            proof {
                let s = self.0@.subrange(0, i + 1);
                assert(s.drop_last() =~= self.0@.subrange(0, i as int));
            }
            push_str(&mut out, text.as_str());
            i += 1;
        }
        assert(self.0@.subrange(0, i as int) =~= self.0@);
        push_str(&mut out, "\n");
        out
    }
}

impl Function {
    pub fn to_string(&self) -> (r: String)
        requires
            printable_block(self.1),
            shallow_block(self.1),
        ensures
            r@ == function_text(*self),
    {
        let mut out = String::new();
        push_str(&mut out, "FUN INT ");
        push_str(&mut out, self.0.as_str());
        push_str(&mut out, ":\n\tparams:()\n\tbody:\n\t\t");
        let body = self.1.to_string();
        push_str(&mut out, body.as_str());
        assert(out@ =~= function_text(*self));
        out
    }
}

impl Program {
    /// The printed form of the program's function.
    pub fn to_string(&self) -> (r: String)
        requires
            printable_block((self.0).1),
            shallow_block((self.0).1),
        ensures
            r@ == function_text(self.0),
    {
        self.0.to_string()
    }
}

} // verus!
