//! Laws of the code generator.

use vstd::prelude::*;

use crate::codegen::{
    gen_block, gen_decl, gen_do_stmt, gen_expr, gen_for_decl_stmt, gen_for_stmt, gen_function,
    gen_if_stmt, gen_item, gen_items, gen_opt_expr, gen_stmt, gen_while_stmt, next_label,
    pop_loop, pop_scope, push_loop, push_scope, GenOut, GenState,
};
use crate::parser::types::{Block, BlockItem, Declare, Expression, Function, Statement};

verus! {

/// How many labels an expression needs: two for each `&&`, `||` and `?:`.
pub open spec fn expr_labels(e: Expression) -> nat
    decreases e,
{
    match e {
        Expression::Unary { op: _, expr } => expr_labels(*expr),
        Expression::Binary { op, l_expr, r_expr } => expr_labels(*l_expr) + expr_labels(*r_expr)
            + if crate::codegen::is_logical(op) {
            2nat
        } else {
            0nat
        },
        Expression::Assign { ident: _, expr } => expr_labels(*expr),
        Expression::Conditional { pred, then, otherwise } => expr_labels(*pred) + expr_labels(*then)
            + expr_labels(*otherwise) + 2,
        _ => 0,
    }
}

pub open spec fn opt_expr_labels(e: Option<Expression>) -> nat {
    match e {
        Some(e) => expr_labels(e),
        None => 0,
    }
}

/// How many labels a statement needs: two for each `if` and `while`,
/// three for each `do` and `for`, besides those of its expressions.
pub open spec fn stmt_labels(s: Statement) -> nat
    decreases s, 1nat,
{
    match s {
        Statement::Return(e) => expr_labels(e),
        Statement::Expr(e) => expr_labels(e),
        Statement::If { pred, then, otherwise } => expr_labels(pred) + stmt_labels(*then) + (
        match otherwise {
            Some(o) => stmt_labels(*o),
            None => 0,
        }) + 2,
        Statement::Block(b) => items_labels(b.0@),
        Statement::For { init, condition, post, body } => opt_expr_labels(init) + expr_labels(condition)
            + opt_expr_labels(post) + stmt_labels(*body) + 3,
        Statement::ForDecl { init, condition, post, body } => (match init {
            Some(d) => opt_expr_labels(d.1),
            None => 0,
        }) + expr_labels(condition) + opt_expr_labels(post) + stmt_labels(*body) + 3,
        Statement::While { condition, body } => expr_labels(condition) + stmt_labels(*body) + 2,
        Statement::Do { body, condition } => expr_labels(condition) + stmt_labels(*body) + 3,
        _ => 0,
    }
}

/// Whether every `for` loop with a declaration in the statement does
/// declare its counter: such a loop frees a slot when it ends, whether it
/// declared one or not.
pub open spec fn declares_counters(s: Statement) -> bool
    decreases s, 1nat,
{
    match s {
        Statement::If { then, otherwise, .. } => declares_counters(*then) && match otherwise {
            Some(o) => declares_counters(*o),
            None => true,
        },
        Statement::Block(b) => items_declare_counters(b.0@),
        Statement::For { body, .. } => declares_counters(*body),
        Statement::ForDecl { init, body, .. } => init is Some && declares_counters(*body),
        Statement::While { body, .. } => declares_counters(*body),
        Statement::Do { body, .. } => declares_counters(*body),
        _ => true,
    }
}

pub open spec fn items_declare_counters(items: Seq<BlockItem>) -> bool
    decreases items, 0nat,
{
    if items.len() == 0 {
        true
    } else {
        (match items[0] {
            BlockItem::Statement(s) => declares_counters(s),
            BlockItem::Declare(_) => true,
        }) && items_declare_counters(items.drop_first())
    }
}

pub open spec fn items_labels(items: Seq<BlockItem>) -> nat
    decreases items, 0nat,
{
    if items.len() == 0 {
        0
    } else {
        (match items[0] {
            BlockItem::Statement(s) => stmt_labels(s),
            BlockItem::Declare(d) => opt_expr_labels(d.1),
        }) + items_labels(items.drop_first())
    }
}

/// An expression leaves the scopes, the loops and the stack slots as they
/// were, and takes its labels.
pub open spec fn expr_keeps(out: GenOut, st: GenState, e: Expression) -> bool {
    out matches Ok((_, st2)) ==> st2.scopes == st.scopes && st2.loops == st.loops && st2.ebp
        == st.ebp && st2.labels == st.labels + expr_labels(e)
}

proof fn lemma_next_label(st: GenState)
    ensures
        next_label(st) matches Ok((_, st2)) ==> st2.scopes == st.scopes && st2.loops == st.loops
            && st2.ebp == st.ebp && st2.labels == st.labels + 1,
{
}

proof fn lemma_expr(st: GenState, e: Expression)
    ensures
        expr_keeps(gen_expr(st, e), st, e),
    decreases e,
{
    reveal_with_fuel(gen_expr, 1);
    match e {
        Expression::Unary { op, expr } => {
            lemma_expr(st, *expr);
        },
        Expression::Binary { op, l_expr, r_expr } => {
            lemma_expr(st, *l_expr);
            if let Ok((_, st1)) = gen_expr(st, *l_expr) {
                lemma_expr(st1, *r_expr);
                if let Ok((_, st2)) = gen_expr(st1, *r_expr) {
                    lemma_next_label(st2);
                    if let Ok((_, st3)) = next_label(st2) {
                        lemma_next_label(st3);
                    }
                }
            }
        },
        Expression::Assign { ident, expr } => {
            lemma_expr(st, *expr);
        },
        Expression::Conditional { pred, then, otherwise } => {
            lemma_expr(st, *pred);
            if let Ok((_, st1)) = gen_expr(st, *pred) {
                lemma_expr(st1, *then);
                if let Ok((_, st2)) = gen_expr(st1, *then) {
                    lemma_expr(st2, *otherwise);
                    if let Ok((_, st3)) = gen_expr(st2, *otherwise) {
                        lemma_next_label(st3);
                        if let Ok((_, st4)) = next_label(st3) {
                            lemma_next_label(st4);
                        }
                    }
                }
            }
        },
        _ => {},
    }
}

proof fn lemma_opt_expr(st: GenState, e: Option<Expression>)
    ensures
        gen_opt_expr(st, e) matches Ok((_, st2)) ==> st2.scopes == st.scopes && st2.loops
            == st.loops && st2.ebp == st.ebp && st2.labels == st.labels + opt_expr_labels(e),
{
    if let Some(e) = e {
        lemma_expr(st, e);
    }
}

/// A declaration changes only the innermost scope, and takes the labels of
/// its initial value.
proof fn lemma_decl(st: GenState, d: Declare)
    requires
        st.scopes.len() > 0,
    ensures
        gen_decl(st, d) matches Ok((_, st2)) ==> st2.scopes.len() == st.scopes.len()
            && st2.scopes.drop_last() == st.scopes.drop_last() && st2.loops == st.loops
            && st2.labels == st.labels + opt_expr_labels(d.1) && st2.ebp == st.ebp + 1
            && st2.scopes.last().len() == st.scopes.last().len() + 1,
{
    reveal(gen_decl);
    if let Expression::Ident(name) = d.0 {
        let top = st.scopes.last();
        if !(crate::codegen::scope_get(top, name@) is Some) && st.ebp != u32::MAX {
            let st1 = GenState {
                scopes: st.scopes.update(st.scopes.len() - 1, top.push((name@, st.ebp))),
                ebp: (st.ebp + 1) as u32,
                ..st
            };
            assert(st1.scopes.drop_last() =~= st.scopes.drop_last());
            assert(st1.scopes.last() == top.push((name@, st.ebp)));
            lemma_opt_expr(st1, d.1);
        }
    }
}

/// A statement leaves the scopes and the loops as they were, and takes its
/// labels.
proof fn lemma_stmt(st: GenState, s: Statement)
    ensures
        gen_stmt(st, s) matches Ok((_, st2)) ==> st2.scopes == st.scopes && st2.loops == st.loops
            && st2.labels == st.labels + stmt_labels(s) && (declares_counters(s) ==> st2.ebp
            == st.ebp),
    decreases s, 1nat,
{
    match s {
        Statement::Return(e) => lemma_expr(st, e),
        Statement::Expr(e) => lemma_expr(st, e),
        Statement::If { .. } => lemma_if(st, s),
        Statement::Block(b) => lemma_block(st, b),
        Statement::For { .. } => lemma_for(st, s),
        Statement::ForDecl { .. } => lemma_for_decl(st, s),
        Statement::While { .. } => lemma_while(st, s),
        Statement::Do { .. } => lemma_do(st, s),
        _ => {},
    }
}

proof fn lemma_if(st: GenState, s: Statement)
    requires
        s is If,
    ensures
        gen_if_stmt(st, s) matches Ok((_, st2)) ==> st2.scopes == st.scopes && st2.loops
            == st.loops && st2.labels == st.labels + stmt_labels(s) && (declares_counters(s) ==> st2.ebp
            == st.ebp),
    decreases s, 0nat,
{
    if let Statement::If { pred, then, otherwise } = s {
        lemma_expr(st, pred);
        if let Ok((_, st1)) = gen_expr(st, pred) {
            lemma_stmt(st1, *then);
            if let Ok((_, st2)) = gen_stmt(st1, *then) {
                lemma_next_label(st2);
                if let Ok((_, st3)) = next_label(st2) {
                    let o = match otherwise {
                        Some(o) => gen_stmt(st3, *o),
                        None => Ok((seq![], st3)),
                    };
                    if let Some(o) = otherwise {
                        lemma_stmt(st3, *o);
                    }
                    if let Ok((_, st4)) = o {
                        lemma_next_label(st4);
                    }
                }
            }
        }
    }
}

proof fn lemma_for(st: GenState, s: Statement)
    requires
        s is For,
    ensures
        gen_for_stmt(st, s) matches Ok((_, st2)) ==> st2.scopes == st.scopes && st2.loops
            == st.loops && st2.labels == st.labels + stmt_labels(s) && (declares_counters(s) ==> st2.ebp
            == st.ebp),
    decreases s, 0nat,
{
    if let Statement::For { init, condition, post, body } = s {
        lemma_next_label(st);
        if let Ok((cl, st1)) = next_label(st) {
            lemma_next_label(st1);
            if let Ok((pl, st2)) = next_label(st1) {
                lemma_next_label(st2);
                if let Ok((el, st3)) = next_label(st2) {
                    let s3 = push_loop(st3, pl, el);
                    lemma_opt_expr(s3, init);
                    if let Ok((_, st4)) = gen_opt_expr(s3, init) {
                        lemma_expr(st4, condition);
                        if let Ok((_, st5)) = gen_expr(st4, condition) {
                            lemma_opt_expr(st5, post);
                            if let Ok((_, st6)) = gen_opt_expr(st5, post) {
                                lemma_stmt(st6, *body);
                                if let Ok((_, st7)) = gen_stmt(st6, *body) {
                                    assert(pop_loop(st7).loops =~= st.loops);
                                }
                            }
                        }
                    }
                }
            }
        }
    }
}

proof fn lemma_for_decl(st: GenState, s: Statement)
    requires
        s is ForDecl,
    ensures
        gen_for_decl_stmt(st, s) matches Ok((_, st2)) ==> st2.scopes == st.scopes && st2.loops
            == st.loops && st2.labels == st.labels + stmt_labels(s) && (declares_counters(s) ==> st2.ebp
            == st.ebp),
    decreases s, 0nat,
{
    if let Statement::ForDecl { init, condition, post, body } = s {
        lemma_next_label(st);
        if let Ok((cl, st1)) = next_label(st) {
            lemma_next_label(st1);
            if let Ok((pl, st2)) = next_label(st1) {
                lemma_next_label(st2);
                if let Ok((el, st3)) = next_label(st2) {
                    let s3 = push_scope(st3);
                    let i = match init {
                        Some(d) => gen_decl(s3, d),
                        None => Ok((seq![], s3)),
                    };
                    if let Some(d) = init {
                        lemma_decl(s3, d);
                    }
                    if let Ok((_, st4)) = i {
                        let s4 = push_loop(st4, pl, el);
                        lemma_expr(s4, condition);
                        if let Ok((_, st5)) = gen_expr(s4, condition) {
                            lemma_opt_expr(st5, post);
                            if let Ok((_, st6)) = gen_opt_expr(st5, post) {
                                lemma_stmt(st6, *body);
                                if let Ok((_, st7)) = gen_stmt(st6, *body) {
                                    assert(pop_scope(pop_loop(st7)).loops =~= st.loops);
                                    assert(pop_scope(pop_loop(st7)).scopes =~= st.scopes);
                                }
                            }
                        }
                    }
                }
            }
        }
    }
}

proof fn lemma_while(st: GenState, s: Statement)
    requires
        s is While,
    ensures
        gen_while_stmt(st, s) matches Ok((_, st2)) ==> st2.scopes == st.scopes && st2.loops
            == st.loops && st2.labels == st.labels + stmt_labels(s) && (declares_counters(s) ==> st2.ebp
            == st.ebp),
    decreases s, 0nat,
{
    if let Statement::While { condition, body } = s {
        lemma_next_label(st);
        if let Ok((cl, st1)) = next_label(st) {
            lemma_next_label(st1);
            if let Ok((el, st2)) = next_label(st1) {
                let s2 = push_loop(st2, cl, el);
                lemma_expr(s2, condition);
                if let Ok((_, st3)) = gen_expr(s2, condition) {
                    lemma_stmt(st3, *body);
                    if let Ok((_, st4)) = gen_stmt(st3, *body) {
                        assert(pop_loop(st4).loops =~= st.loops);
                    }
                }
            }
        }
    }
}

proof fn lemma_do(st: GenState, s: Statement)
    requires
        s is Do,
    ensures
        gen_do_stmt(st, s) matches Ok((_, st2)) ==> st2.scopes == st.scopes && st2.loops
            == st.loops && st2.labels == st.labels + stmt_labels(s) && (declares_counters(s) ==> st2.ebp
            == st.ebp),
    decreases s, 0nat,
{
    if let Statement::Do { body, condition } = s {
        lemma_next_label(st);
        if let Ok((bl, st1)) = next_label(st) {
            lemma_next_label(st1);
            if let Ok((cl, st1a)) = next_label(st1) {
                lemma_next_label(st1a);
                if let Ok((el, st2)) = next_label(st1a) {
                    let s2 = push_loop(st2, cl, el);
                    lemma_stmt(s2, *body);
                    if let Ok((_, st3)) = gen_stmt(s2, *body) {
                        lemma_expr(st3, condition);
                        if let Ok((_, st4)) = gen_expr(st3, condition) {
                            assert(pop_loop(st4).loops =~= st.loops);
                        }
                    }
                }
            }
        }
    }
}

proof fn lemma_block(st: GenState, b: Block)
    ensures
        gen_block(st, b) matches Ok((_, st2)) ==> st2.scopes == st.scopes && st2.loops
            == st.loops && st2.labels == st.labels + items_labels(b.0@) && (items_declare_counters(
            b.0@,
        ) ==> st2.ebp == st.ebp),
    decreases b, 0nat,
{
    let s1 = push_scope(st);
    lemma_items(s1, b.0@);
    if let Ok((_, st2)) = gen_items(s1, b.0@) {
        assert(pop_scope(st2).scopes =~= st.scopes);
    }
}

proof fn lemma_items(st: GenState, items: Seq<BlockItem>)
    requires
        st.scopes.len() > 0,
    ensures
        gen_items(st, items) matches Ok((_, st2)) ==> st2.scopes.len() == st.scopes.len()
            && st2.scopes.drop_last() == st.scopes.drop_last() && st2.loops == st.loops
            && st2.labels == st.labels + items_labels(items) && st2.scopes.last().len()
            >= st.scopes.last().len() && (items_declare_counters(items) ==> st2.ebp == st.ebp
            + st2.scopes.last().len() - st.scopes.last().len()),
    decreases items, 0nat,
{
    reveal_with_fuel(gen_items, 1);
    if items.len() > 0 {
        match items[0] {
            BlockItem::Statement(s) => lemma_stmt(st, s),
            BlockItem::Declare(d) => lemma_decl(st, d),
        }
        if let Ok((_, st1)) = gen_item(st, items[0]) {
            lemma_items(st1, items.drop_first());
        }
    }
}

/// Generating a function leaves the scopes and the enclosing loops of the
/// generator as they were, and moves its label counter on by exactly the
/// number of labels that the body's constructs need: two for each `&&`,
/// `||`, `?:`, `if` and `while`, three for each `do` and `for`. Where every
/// `for` with a declaration declares its counter, the next free stack
/// slot is as it was too.
pub proof fn law_function_balanced(st: GenState, f: Function)
    ensures
        gen_function(st, f) matches Ok((_, st2)) ==> st2.scopes == st.scopes && st2.loops
            == st.loops && st2.labels == st.labels + items_labels(f.1.0@) && (
        items_declare_counters(f.1.0@) ==> st2.ebp == st.ebp),
{
    lemma_block(st, f.1);
}

/// Generating a statement leaves the scopes and the enclosing loops as they
/// were and moves the label counter on, never back, by exactly the labels
/// the statement needs. Where every `for` with a declaration in it
/// declares its counter, the next free stack slot is as it was too: a
/// declaration inside a block takes a slot that the block gives back.
pub proof fn law_statement_balanced(st: GenState, s: Statement)
    ensures
        gen_stmt(st, s) matches Ok((_, st2)) ==> st2.scopes == st.scopes && st2.loops == st.loops
            && st2.labels == st.labels + stmt_labels(s) && st.labels <= st2.labels && (
        declares_counters(s) ==> st2.ebp == st.ebp),
{
    lemma_stmt(st, s);
}

/// Generating an expression leaves the scopes, the loops and the stack
/// slots as they were, and moves the label counter on by two for each
/// `&&`, `||` and `?:` in it.
pub proof fn law_expression_keeps_state(st: GenState, e: Expression)
    ensures
        expr_keeps(gen_expr(st, e), st, e),
{
    lemma_expr(st, e);
}

} // verus!
