//! The printed form of the smaller language's syntax tree.

use vstd::prelude::*;

use crate::basic::parser::{BinaryOp, Expression, Function, Program, Statement, Statements, UnaryOp};
use crate::parser::display::{push_tabs, tabs};
use crate::text::{decimal, push_str, push_usize};

verus! {

pub open spec fn unary_symbol(op: UnaryOp) -> Seq<char> {
    match op {
        UnaryOp::Negation => "-"@,
        UnaryOp::LogicalNegation => "!"@,
        UnaryOp::BitwiseComplement => "~"@,
    }
}

pub open spec fn binary_symbol(op: BinaryOp) -> Seq<char> {
    match op {
        BinaryOp::Add => "+"@,
        BinaryOp::Mul => "*"@,
        BinaryOp::Div => "/"@,
        BinaryOp::Sub => "-"@,
        BinaryOp::And => "&&"@,
        BinaryOp::Or => "||"@,
        BinaryOp::Equal => "=="@,
        BinaryOp::NotEqual => "!="@,
        BinaryOp::LT => "<"@,
        BinaryOp::LTE => "<="@,
        BinaryOp::GT => ">"@,
        BinaryOp::GTE => ">="@,
    }
}

/// The number of operators on the longest path from the root to an integer.
pub open spec fn height(e: Expression) -> nat
    decreases e,
{
    match e {
        Expression::Const(_) => 0,
        Expression::Unary { expr, .. } => height(*expr) + 1,
        Expression::Binary { l_expr, r_expr, .. } => {
            let l = height(*l_expr);
            let r = height(*r_expr);
            (if l < r { r } else { l }) + 1
        },
    }
}

/// The printed tree of an expression whose root is indented by `depth`
/// tabs: one line per node, the operand of a unary operator one tab
/// deeper, those of a binary operator under `LHS:` and `RHS:` two tabs
/// deeper.
pub open spec fn tree_text(e: Expression, depth: nat) -> Seq<char>
    decreases e,
{
    match e {
        Expression::Const(n) => tabs(depth) + decimal(n as nat) + "\n"@,
        Expression::Unary { op, expr } => tabs(depth) + "Unary ("@ + unary_symbol(op) + "):\n"@
            + tree_text(*expr, depth + 1),
        Expression::Binary { op, l_expr, r_expr } => tabs(depth) + "Binary ("@ + binary_symbol(op)
            + "):\n"@ + tabs(depth) + "\tLHS:\n"@ + tree_text(*l_expr, depth + 2) + tabs(depth)
            + "\tRHS:\n"@ + tree_text(*r_expr, depth + 2),
    }
}

/// A return prints as `RETURN Int <`, the tree of its value and `>`.
pub open spec fn statement_text(s: Statement) -> Seq<char> {
    match s {
        Statement::Return(e) => "RETURN Int <"@ + tree_text(e, 0) + ">"@,
    }
}

pub open spec fn shallow_statement(s: Statement) -> bool {
    match s {
        Statement::Return(e) => 2 * height(e) <= usize::MAX,
    }
}

pub open spec fn statements_text(s: Seq<Statement>) -> Seq<char>
    decreases s.len(),
{
    if s.len() == 0 {
        seq![]
    } else {
        statements_text(s.drop_last()) + statement_text(s.last())
    }
}

pub open spec fn shallow_statements(s: Statements) -> bool {
    forall|i: int| 0 <= i < s.0@.len() ==> shallow_statement(#[trigger] s.0@[i])
}

/// The statements one after the other, then a line break.
pub open spec fn body_text(s: Statements) -> Seq<char> {
    statements_text(s.0@) + "\n"@
}

pub open spec fn function_text(f: Function) -> Seq<char> {
    "FUN INT "@ + f.0@ + ":\n\tparams:()\n\tbody:\n\t\t"@ + body_text(f.1)
}

impl UnaryOp {
    /// The operator's symbol.
    pub fn to_string(&self) -> (r: String)
        ensures
            r@ == unary_symbol(*self),
    {
        let mut out = String::new();
        match self {
            UnaryOp::Negation => push_str(&mut out, "-"),
            UnaryOp::LogicalNegation => push_str(&mut out, "!"),
            UnaryOp::BitwiseComplement => push_str(&mut out, "~"),
        }
        out
    }
}

impl BinaryOp {
    /// The operator's symbol.
    pub fn to_string(&self) -> (r: String)
        ensures
            r@ == binary_symbol(*self),
    {
        let mut out = String::new();
        let symbol = match self {
            BinaryOp::Add => "+",
            BinaryOp::Mul => "*",
            BinaryOp::Div => "/",
            BinaryOp::Sub => "-",
            BinaryOp::And => "&&",
            BinaryOp::Or => "||",
            BinaryOp::Equal => "==",
            BinaryOp::NotEqual => "!=",
            BinaryOp::LT => "<",
            BinaryOp::LTE => "<=",
            BinaryOp::GT => ">",
            BinaryOp::GTE => ">=",
        };
        push_str(&mut out, symbol);
        out
    }
}

impl Expression {
    /// Appends the printed tree of the expression, its root indented by
    /// `depth` tabs.
    #[verifier::spinoff_prover]
    #[verifier::rlimit(40)]
    pub fn fmt_tree(&self, out: &mut String, depth: usize)
        requires
            depth + 2 * height(*self) <= usize::MAX,
        ensures
            final(out)@ == old(out)@ + tree_text(*self, depth as nat),
        decreases self,
    {
        let ghost start = out@;
        match self {
            Expression::Const(n) => {
                push_tabs(out, depth);
                push_usize(out, *n);
                push_str(out, "\n");
                assert(out@ =~= start + tree_text(*self, depth as nat));
            },
            Expression::Unary { op, expr } => {
                push_tabs(out, depth);
                push_str(out, "Unary (");
                let symbol = op.to_string();
                push_str(out, symbol.as_str());
                push_str(out, "):\n");
                expr.fmt_tree(out, depth + 1);
                assert(out@ =~= start + tree_text(*self, depth as nat));
            },
            Expression::Binary { op, l_expr, r_expr } => {
                push_tabs(out, depth);
                push_str(out, "Binary (");
                let symbol = op.to_string();
                push_str(out, symbol.as_str());
                push_str(out, "):\n");
                push_tabs(out, depth);
                push_str(out, "\tLHS:\n");
                l_expr.fmt_tree(out, depth + 2);
                push_tabs(out, depth);
                push_str(out, "\tRHS:\n");
                r_expr.fmt_tree(out, depth + 2);
                assert(out@ =~= start + tree_text(*self, depth as nat));
            },
        }
    }

    /// The printed tree of the expression, its root not indented.
    pub fn to_string(&self) -> (r: String)
        requires
            2 * height(*self) <= usize::MAX,
        ensures
            r@ == tree_text(*self, 0),
    {
        let mut out = String::new();
        self.fmt_tree(&mut out, 0);
        assert(out@ =~= tree_text(*self, 0));
        out
    }
}

impl Statement {
    pub fn to_string(&self) -> (r: String)
        requires
            shallow_statement(*self),
        ensures
            r@ == statement_text(*self),
    {
        let mut out = String::new();
        match self {
            Statement::Return(e) => {
                push_str(&mut out, "RETURN Int <");
                e.fmt_tree(&mut out, 0);
                push_str(&mut out, ">");
                assert(out@ =~= statement_text(*self));
            },
        }
        out
    }
}

impl Statements {
    pub fn to_string(&self) -> (r: String)
        requires
            shallow_statements(*self),
        ensures
            r@ == body_text(*self),
    {
        let mut out = String::new();
        let mut i: usize = 0;
        while i < self.0.len()
            invariant
                i <= self.0.len(),
                shallow_statements(*self),
                out@ == statements_text(self.0@.subrange(0, i as int)),
            decreases self.0.len() - i,
        {
            let text = self.0[i].to_string();
            proof {
                let s = self.0@.subrange(0, i + 1);
                assert(s.drop_last() =~= self.0@.subrange(0, i as int));
            }
            push_str(&mut out, text.as_str());
            i += 1;
        }
        assert(self.0@.subrange(0, i as int) =~= self.0@);
        push_str(&mut out, "\n");
        out
    }
}

impl Function {
    pub fn to_string(&self) -> (r: String)
        requires
            shallow_statements(self.1),
        ensures
            r@ == function_text(*self),
    {
        let mut out = String::new();
        push_str(&mut out, "FUN INT ");
        push_str(&mut out, self.0.as_str());
        push_str(&mut out, ":\n\tparams:()\n\tbody:\n\t\t");
        let body = self.1.to_string();
        push_str(&mut out, body.as_str());
        assert(out@ =~= function_text(*self));
        out
    }
}

impl Program {
    /// The printed form of the program's function.
    pub fn to_string(&self) -> (r: String)
        requires
            shallow_statements((self.0).1),
        ensures
            r@ == function_text(self.0),
    {
        self.0.to_string()
    }
}

} // verus!
