//! What the expression pass does, as functions of the tree and of the state
//! (scopes and id cursor) in which each node is reached.
use vstd::prelude::*;
use crate::ast::{Block, Expression, Identifier, Statement};
use crate::errors::{ErrorKind, ErrorView};
use crate::scope::{local_lookup, lookup, BindingView, ScopesView};
use crate::type_namer::{opt_type_errors, opt_type_resolved, opt_type_unresolved};
use crate::scoped_id::bumped;

verus! {

/// Scopes and id cursor of the expression pass.
pub struct NameState {
    pub scopes: ScopesView,
    pub cursor: Seq<u64>,
    /// The declared type aliases, for annotations.
    pub types: Seq<BindingView>,
}

pub open spec fn expr_size(e: Expression) -> nat
    decreases e,
{
    match e {
        Expression::Literal(_) | Expression::VariableRef(_) => 1,
        Expression::BinaryOp(b) => 1 + expr_size(*b.left) + expr_size(*b.right),
        Expression::UnaryOp(u) => 1 + expr_size(*u.expression),
        Expression::IfExpression(i) => 1 + expr_size(*i.condition) + expr_size(*i.true_expr) + expr_size(*i.else_expr),
        Expression::FnCall(c) => 1 + exprs_size(c.args@),
        Expression::Assignment(a) => 1 + expr_size(*a.rvalue),
        Expression::Declaration(d) => 1 + expr_size(*d.value),
    }
}

pub open spec fn exprs_size(es: Seq<Expression>) -> nat
    decreases es,
{
    if es.len() == 0 {
        0
    } else {
        exprs_size(es.drop_last()) + expr_size(es.last())
    }
}

pub open spec fn stmt_size(st: Statement) -> nat
    decreases st,
{
    match st {
        Statement::Expression(e) => expr_size(e),
        Statement::Return(r) => match r.value {
            Some(v) => 1 + expr_size(*v),
            None => 1,
        },
        Statement::DoBlock(b) => block_size(b),
        Statement::IfBlock(i) => expr_size(i.condition) + block_size(i.block) + match i.else_block {
            Some(b) => block_size(b),
            None => 0,
        },
    }
}

pub open spec fn stmts_size(ss: Seq<Statement>) -> nat
    decreases ss,
{
    if ss.len() == 0 {
        0
    } else {
        stmts_size(ss.drop_last()) + stmt_size(ss.last())
    }
}

pub open spec fn block_size(b: Block) -> nat
    decreases b,
{
    1 + stmts_size(b.statements@)
}

/// Every name the expression pass assigns is still unassigned.
pub open spec fn expr_unresolved(e: Expression) -> bool
    decreases e,
{
    match e {
        Expression::Literal(_) => true,
        Expression::VariableRef(id) => id.id@.len() == 0,
        Expression::BinaryOp(b) => expr_unresolved(*b.left) && expr_unresolved(*b.right),
        Expression::UnaryOp(u) => expr_unresolved(*u.expression),
        Expression::IfExpression(i) => expr_unresolved(*i.condition) && expr_unresolved(*i.true_expr) && expr_unresolved(*i.else_expr),
        Expression::FnCall(c) => c.ident.id@.len() == 0 && exprs_unresolved(c.args@),
        Expression::Assignment(a) => a.lvalue.id@.len() == 0 && expr_unresolved(*a.rvalue),
        Expression::Declaration(d) => d.ident.id@.len() == 0 && expr_unresolved(*d.value) && opt_type_unresolved(d.type_decl),
    }
}

pub open spec fn exprs_unresolved(es: Seq<Expression>) -> bool
    decreases es,
{
    es.len() == 0 || (exprs_unresolved(es.drop_last()) && expr_unresolved(es.last()))
}

pub open spec fn stmt_unresolved(st: Statement) -> bool
    decreases st,
{
    match st {
        Statement::Expression(e) => expr_unresolved(e),
        Statement::Return(r) => match r.value {
            Some(v) => expr_unresolved(*v),
            None => true,
        },
        Statement::DoBlock(b) => block_unresolved(b),
        Statement::IfBlock(i) => expr_unresolved(i.condition) && block_unresolved(i.block) && match i.else_block {
            Some(b) => block_unresolved(b),
            None => true,
        },
    }
}

pub open spec fn stmts_unresolved(ss: Seq<Statement>) -> bool
    decreases ss,
{
    ss.len() == 0 || (stmts_unresolved(ss.drop_last()) && stmt_unresolved(ss.last()))
}

pub open spec fn block_unresolved(b: Block) -> bool
    decreases b,
{
    stmts_unresolved(b.statements@)
}

/// The state after declaring `name`: the next sibling id, bound in the
/// innermost frame.
pub open spec fn declared(s: NameState, name: Seq<char>) -> NameState {
    let id = bumped(s.cursor);
    NameState {
        scopes: ScopesView {
            frames: s.scopes.frames.update(s.scopes.frames.len() - 1, s.scopes.frames.last().push((name, id))),
            ..s.scopes
        },
        cursor: id,
        ..s
    }
}

/// Entering a block: it takes the next sibling id, and its contents are
/// named one level deeper in a fresh frame.
pub open spec fn entered(s: NameState) -> NameState {
    NameState {
        scopes: ScopesView { frames: s.scopes.frames.push(Seq::empty()), ..s.scopes },
        cursor: bumped(s.cursor).push(0),
        ..s
    }
}

/// Leaving a block: its level and frame are dropped.
pub open spec fn left(s: NameState) -> NameState {
    NameState {
        scopes: ScopesView { frames: s.scopes.frames.drop_last(), ..s.scopes },
        cursor: s.cursor.drop_last(),
        ..s
    }
}

pub open spec fn after_expr(s: NameState, e: Expression) -> NameState
    decreases e,
{
    match e {
        Expression::Literal(_) | Expression::VariableRef(_) => s,
        Expression::BinaryOp(b) => after_expr(after_expr(s, *b.left), *b.right),
        Expression::UnaryOp(u) => after_expr(s, *u.expression),
        Expression::IfExpression(i) => after_expr(after_expr(after_expr(s, *i.condition), *i.true_expr), *i.else_expr),
        Expression::FnCall(c) => if lookup(s.scopes, c.ident.token.text@) is Some {
            after_exprs(s, c.args@)
        } else {
            s
        },
        Expression::Assignment(a) => after_expr(s, *a.rvalue),
        Expression::Declaration(d) => {
            let s1 = after_expr(s, *d.value);
            if local_lookup(s1.scopes, d.ident.token.text@) is Some {
                s1
            } else {
                declared(s1, d.ident.token.text@)
            }
        },
    }
}

pub open spec fn after_exprs(s: NameState, es: Seq<Expression>) -> NameState
    decreases es,
{
    if es.len() == 0 {
        s
    } else {
        after_expr(after_exprs(s, es.drop_last()), es.last())
    }
}

pub open spec fn unknown(tok: Identifier) -> Seq<ErrorView> {
    seq![ErrorView { kind: ErrorKind::UnknownReference, token: tok.token }]
}

/// Diagnostics the expression pass reports for `e`, in order.
pub open spec fn expr_errors(s: NameState, e: Expression) -> Seq<ErrorView>
    decreases e,
{
    match e {
        Expression::Literal(_) => Seq::empty(),
        Expression::VariableRef(id) => if lookup(s.scopes, id.token.text@) is Some {
            Seq::empty()
        } else {
            unknown(id)
        },
        Expression::BinaryOp(b) => expr_errors(s, *b.left) + expr_errors(after_expr(s, *b.left), *b.right),
        Expression::UnaryOp(u) => expr_errors(s, *u.expression),
        Expression::IfExpression(i) => {
            let s1 = after_expr(s, *i.condition);
            let s2 = after_expr(s1, *i.true_expr);
            expr_errors(s, *i.condition) + expr_errors(s1, *i.true_expr) + expr_errors(s2, *i.else_expr)
        },
        Expression::FnCall(c) => if lookup(s.scopes, c.ident.token.text@) is Some {
            exprs_errors(s, c.args@)
        } else {
            unknown(c.ident)
        },
        Expression::Assignment(a) => {
            let s1 = after_expr(s, *a.rvalue);
            expr_errors(s, *a.rvalue) + if lookup(s1.scopes, a.lvalue.token.text@) is Some {
                Seq::empty()
            } else {
                unknown(a.lvalue)
            }
        },
        Expression::Declaration(d) => {
            let s1 = after_expr(s, *d.value);
            expr_errors(s, *d.value) + opt_type_errors(s.types, d.type_decl) + if local_lookup(s1.scopes, d.ident.token.text@) is Some {
                seq![ErrorView { kind: ErrorKind::DuplicateDefinition, token: d.ident.token }]
            } else {
                Seq::empty()
            }
        },
    }
}

pub open spec fn exprs_errors(s: NameState, es: Seq<Expression>) -> Seq<ErrorView>
    decreases es,
{
    if es.len() == 0 {
        Seq::empty()
    } else {
        exprs_errors(s, es.drop_last()) + expr_errors(after_exprs(s, es.drop_last()), es.last())
    }
}

/// A reference after the pass: bound to what its name resolves to in `s`,
/// or left as it was when the name is unknown.
pub open spec fn resolved_ident(s: NameState, old_id: Identifier, new_id: Identifier) -> bool {
    &&& new_id.token == old_id.token
    &&& new_id.id@ == match lookup(s.scopes, old_id.token.text@) {
        Some(id) => id,
        None => old_id.id@,
    }
}

/// The expression after the pass, reached in state `s`.
pub open spec fn resolved_expr(s: NameState, old_e: Expression, new_e: Expression) -> bool
    decreases old_e,
{
    match (old_e, new_e) {
        (Expression::Literal(a), Expression::Literal(b)) => a == b,
        (Expression::VariableRef(a), Expression::VariableRef(b)) => resolved_ident(s, a, b),
        (Expression::BinaryOp(a), Expression::BinaryOp(b)) => {
            &&& a.op == b.op
            &&& resolved_expr(s, *a.left, *b.left)
            &&& resolved_expr(after_expr(s, *a.left), *a.right, *b.right)
        },
        (Expression::UnaryOp(a), Expression::UnaryOp(b)) => a.op == b.op && resolved_expr(s, *a.expression, *b.expression),
        (Expression::IfExpression(a), Expression::IfExpression(b)) => {
            let s1 = after_expr(s, *a.condition);
            &&& resolved_expr(s, *a.condition, *b.condition)
            &&& resolved_expr(s1, *a.true_expr, *b.true_expr)
            &&& resolved_expr(after_expr(s1, *a.true_expr), *a.else_expr, *b.else_expr)
        },
        (Expression::FnCall(a), Expression::FnCall(b)) => {
            &&& resolved_ident(s, a.ident, b.ident)
            &&& if lookup(s.scopes, a.ident.token.text@) is Some {
                resolved_exprs(s, a.args@, b.args@)
            } else {
                b.args == a.args
            }
        },
        (Expression::Assignment(a), Expression::Assignment(b)) => {
            &&& resolved_expr(s, *a.rvalue, *b.rvalue)
            &&& resolved_ident(after_expr(s, *a.rvalue), a.lvalue, b.lvalue)
        },
        (Expression::Declaration(a), Expression::Declaration(b)) => {
            let s1 = after_expr(s, *a.value);
            &&& resolved_expr(s, *a.value, *b.value)
            &&& b.mutable == a.mutable
            &&& opt_type_resolved(s.types, a.type_decl, b.type_decl)
            &&& b.ident.token == a.ident.token
            &&& b.ident.id@ == if local_lookup(s1.scopes, a.ident.token.text@) is Some {
                a.ident.id@
            } else {
                bumped(s1.cursor)
            }
        },
        _ => false,
    }
}

pub open spec fn resolved_exprs(s: NameState, olds: Seq<Expression>, news: Seq<Expression>) -> bool
    decreases olds,
{
    &&& news.len() == olds.len()
    &&& (olds.len() == 0 || {
        &&& resolved_exprs(s, olds.drop_last(), news.drop_last())
        &&& resolved_expr(after_exprs(s, olds.drop_last()), olds.last(), news.last())
    })
}

pub open spec fn after_stmt(s: NameState, st: Statement) -> NameState
    decreases st,
{
    match st {
        Statement::Expression(e) => after_expr(s, e),
        Statement::Return(r) => match r.value {
            Some(v) => after_expr(s, *v),
            None => s,
        },
        Statement::DoBlock(b) => after_block(s, b),
        Statement::IfBlock(i) => {
            let s1 = after_block(after_expr(s, i.condition), i.block);
            match i.else_block {
                Some(b) => after_block(s1, b),
                None => s1,
            }
        },
    }
}

pub open spec fn after_stmts(s: NameState, ss: Seq<Statement>) -> NameState
    decreases ss,
{
    if ss.len() == 0 {
        s
    } else {
        after_stmt(after_stmts(s, ss.drop_last()), ss.last())
    }
}

pub open spec fn after_block(s: NameState, b: Block) -> NameState
    decreases b,
{
    left(after_stmts(entered(s), b.statements@))
}

pub open spec fn stmt_errors(s: NameState, st: Statement) -> Seq<ErrorView>
    decreases st,
{
    match st {
        Statement::Expression(e) => expr_errors(s, e),
        Statement::Return(r) => match r.value {
            Some(v) => expr_errors(s, *v),
            None => Seq::empty(),
        },
        Statement::DoBlock(b) => block_errors(s, b),
        Statement::IfBlock(i) => {
            let s1 = after_expr(s, i.condition);
            let s2 = after_block(s1, i.block);
            expr_errors(s, i.condition) + block_errors(s1, i.block) + match i.else_block {
                Some(b) => block_errors(s2, b),
                None => Seq::empty(),
            }
        },
    }
}

pub open spec fn stmts_errors(s: NameState, ss: Seq<Statement>) -> Seq<ErrorView>
    decreases ss,
{
    if ss.len() == 0 {
        Seq::empty()
    } else {
        stmts_errors(s, ss.drop_last()) + stmt_errors(after_stmts(s, ss.drop_last()), ss.last())
    }
}

pub open spec fn block_errors(s: NameState, b: Block) -> Seq<ErrorView>
    decreases b,
{
    stmts_errors(entered(s), b.statements@)
}

pub open spec fn resolved_stmt(s: NameState, old_s: Statement, new_s: Statement) -> bool
    decreases old_s,
{
    match (old_s, new_s) {
        (Statement::Expression(a), Statement::Expression(b)) => resolved_expr(s, a, b),
        (Statement::Return(a), Statement::Return(b)) => match (a.value, b.value) {
            (Some(x), Some(y)) => resolved_expr(s, *x, *y),
            (None, None) => true,
            _ => false,
        },
        (Statement::DoBlock(a), Statement::DoBlock(b)) => resolved_block(s, a, b),
        (Statement::IfBlock(a), Statement::IfBlock(b)) => {
            let s1 = after_expr(s, a.condition);
            &&& resolved_expr(s, a.condition, b.condition)
            &&& resolved_block(s1, a.block, b.block)
            &&& match (a.else_block, b.else_block) {
                (Some(x), Some(y)) => resolved_block(after_block(s1, a.block), x, y),
                (None, None) => true,
                _ => false,
            }
        },
        _ => false,
    }
}

pub open spec fn resolved_stmts(s: NameState, olds: Seq<Statement>, news: Seq<Statement>) -> bool
    decreases olds,
{
    &&& news.len() == olds.len()
    &&& (olds.len() == 0 || {
        &&& resolved_stmts(s, olds.drop_last(), news.drop_last())
        &&& resolved_stmt(after_stmts(s, olds.drop_last()), olds.last(), news.last())
    })
}

/// The block after the pass: it carries the next sibling id, and its
/// statements are resolved one level deeper.
pub open spec fn resolved_block(s: NameState, old_b: Block, new_b: Block) -> bool
    decreases old_b,
{
    &&& new_b.scope_id@ == bumped(s.cursor)
    &&& resolved_stmts(entered(s), old_b.statements@, new_b.statements@)
}

/// A declaration in a block shadows any outer one of the same name: inside
/// the block the name resolves to the inner declaration, and once the block
/// is left it resolves as it did before the block.
pub proof fn lemma_shadowing(s: NameState, x: Seq<char>)
    requires
        s.cursor.len() > 0,
    ensures
        ({
            let inner = declared(entered(s), x);
            &&& lookup(inner.scopes, x) == Some(inner.cursor)
            &&& inner.cursor == bumped(entered(s).cursor)
            &&& left(inner).scopes == s.scopes
            &&& lookup(left(inner).scopes, x) == lookup(s.scopes, x)
        }),
{
    let e = entered(s);
    let inner = declared(e, x);
    let fr = inner.scopes.frames;
    assert(fr.last() == seq![(x, inner.cursor)]);
    assert(fr.last().drop_last() =~= Seq::<BindingView>::empty());
    assert(fr.drop_last() =~= s.scopes.frames);
    assert(left(inner).scopes == s.scopes);
}

} // verus!
