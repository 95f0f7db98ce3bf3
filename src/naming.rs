//! What a clean run of the naming passes guarantees of the tree.
use vstd::prelude::*;
use crate::ast::{Block, BlockFnDeclaration, Expression, Statement, TypeExpression};
use crate::expr_namer::{fn_entry, fn_errors, fn_named, fn_resolvable, param_frame};
use crate::expr_spec::{
    after_block, after_expr, after_exprs, after_stmt, after_stmts, block_errors, declared, entered,
    expr_errors, exprs_errors, resolved_block, resolved_expr, resolved_exprs, resolved_stmt,
    resolved_stmts, stmt_errors, stmts_errors, NameState,
};
use crate::scope::{bindings_assigned, lemma_assoc_get_assigned, lemma_lookup_assigned, scopes_assigned, BindingView, ScopesView};
use crate::type_namer::{type_errors, type_resolved, types_errors, types_resolved};

verus! {

/// Every name of the annotation is assigned.
pub open spec fn type_named(te: TypeExpression) -> bool
    decreases te,
{
    match te {
        TypeExpression::Named(i) => i.id@.len() > 0,
        TypeExpression::Primitive(_) => true,
        TypeExpression::Function(f) => types_named(f.params@) && type_named(*f.return_type),
    }
}

pub open spec fn types_named(ts: Seq<TypeExpression>) -> bool
    decreases ts,
{
    ts.len() == 0 || (types_named(ts.drop_last()) && type_named(ts.last()))
}

/// Every name of the expression is assigned: references, callees, assigned
/// and declared variables, and the type names of annotations.
pub open spec fn expr_named(e: Expression) -> bool
    decreases e,
{
    match e {
        Expression::Literal(_) => true,
        Expression::VariableRef(id) => id.id@.len() > 0,
        Expression::BinaryOp(b) => expr_named(*b.left) && expr_named(*b.right),
        Expression::UnaryOp(u) => expr_named(*u.expression),
        Expression::IfExpression(i) => expr_named(*i.condition) && expr_named(*i.true_expr) && expr_named(*i.else_expr),
        Expression::FnCall(c) => c.ident.id@.len() > 0 && exprs_named(c.args@),
        Expression::Assignment(a) => a.lvalue.id@.len() > 0 && expr_named(*a.rvalue),
        Expression::Declaration(d) => {
            &&& d.ident.id@.len() > 0
            &&& expr_named(*d.value)
            &&& match d.type_decl {
                Some(te) => type_named(te),
                None => true,
            }
        },
    }
}

pub open spec fn exprs_named(es: Seq<Expression>) -> bool
    decreases es,
{
    es.len() == 0 || (exprs_named(es.drop_last()) && expr_named(es.last()))
}

pub open spec fn stmt_named(st: Statement) -> bool
    decreases st,
{
    match st {
        Statement::Expression(e) => expr_named(e),
        Statement::Return(r) => match r.value {
            Some(v) => expr_named(*v),
            None => true,
        },
        Statement::DoBlock(b) => block_named(b),
        Statement::IfBlock(i) => expr_named(i.condition) && block_named(i.block) && match i.else_block {
            Some(b) => block_named(b),
            None => true,
        },
    }
}

pub open spec fn stmts_named(ss: Seq<Statement>) -> bool
    decreases ss,
{
    ss.len() == 0 || (stmts_named(ss.drop_last()) && stmt_named(ss.last()))
}

/// The block and every name in it are assigned.
pub open spec fn block_named(b: Block) -> bool
    decreases b,
{
    b.scope_id@.len() > 0 && stmts_named(b.statements@)
}

/// A state in which the pass hands out assigned identifiers.
pub open spec fn ready(s: NameState) -> bool {
    &&& s.cursor.len() > 0
    &&& s.scopes.frames.len() > 0
    &&& scopes_assigned(s.scopes)
    &&& bindings_assigned(s.types)
}

proof fn lemma_declared_ready(s: NameState, x: Seq<char>)
    requires
        ready(s),
    ensures
        ready(declared(s, x)),
{
    let d = declared(s, x);
    let fr = d.scopes.frames;
    assert forall|i: int| 0 <= i < fr.len() implies bindings_assigned(#[trigger] fr[i]) by {
        if i == fr.len() - 1 {
            let f = fr[i];
            assert forall|k: int| 0 <= k < f.len() implies (#[trigger] f[k]).1.len() > 0 by {
                if k < f.len() - 1 {
                    assert(f[k] == s.scopes.frames.last()[k]);
                    assert(bindings_assigned(s.scopes.frames[s.scopes.frames.len() - 1]));
                }
            }
        } else {
            assert(fr[i] == s.scopes.frames[i]);
        }
    }
}

proof fn lemma_entered_ready(s: NameState)
    requires
        ready(s),
    ensures
        ready(entered(s)),
{
    let fr = entered(s).scopes.frames;
    assert forall|i: int| 0 <= i < fr.len() implies bindings_assigned(#[trigger] fr[i]) by {
        if i < fr.len() - 1 {
            assert(fr[i] == s.scopes.frames[i]);
        }
    }
}

proof fn lemma_left_ready(s: NameState, outer: NameState)
    requires
        ready(s),
        s.cursor.len() == outer.cursor.len() + 1,
        s.scopes.frames.len() == outer.scopes.frames.len() + 1,
        outer.cursor.len() > 0,
        outer.scopes.frames.len() > 0,
    ensures
        ready(crate::expr_spec::left(s)),
{
    let fr = crate::expr_spec::left(s).scopes.frames;
    assert forall|i: int| 0 <= i < fr.len() implies bindings_assigned(#[trigger] fr[i]) by {
        assert(fr[i] == s.scopes.frames[i]);
    }
}

/// The naming pass keeps a state ready, and keeps the depth of its cursor
/// and of its frames.
pub proof fn lemma_after_expr_ready(s: NameState, e: Expression)
    requires
        ready(s),
    ensures
        ready(after_expr(s, e)),
        after_expr(s, e).cursor.len() == s.cursor.len(),
        after_expr(s, e).scopes.frames.len() == s.scopes.frames.len(),
    decreases e,
{
    match e {
        Expression::Literal(_) | Expression::VariableRef(_) => {},
        Expression::BinaryOp(b) => {
            lemma_after_expr_ready(s, *b.left);
            lemma_after_expr_ready(after_expr(s, *b.left), *b.right);
        },
        Expression::UnaryOp(u) => {
            lemma_after_expr_ready(s, *u.expression);
        },
        Expression::IfExpression(i) => {
            lemma_after_expr_ready(s, *i.condition);
            let s1 = after_expr(s, *i.condition);
            lemma_after_expr_ready(s1, *i.true_expr);
            lemma_after_expr_ready(after_expr(s1, *i.true_expr), *i.else_expr);
        },
        Expression::FnCall(c) => {
            lemma_after_exprs_ready(s, c.args@);
        },
        Expression::Assignment(a) => {
            lemma_after_expr_ready(s, *a.rvalue);
        },
        Expression::Declaration(d) => {
            lemma_after_expr_ready(s, *d.value);
            lemma_declared_ready(after_expr(s, *d.value), d.ident.token.text@);
        },
    }
}

/// As `lemma_after_expr_ready`, for a sequence of expressions.
pub proof fn lemma_after_exprs_ready(s: NameState, es: Seq<Expression>)
    requires
        ready(s),
    ensures
        ready(after_exprs(s, es)),
        after_exprs(s, es).cursor.len() == s.cursor.len(),
        after_exprs(s, es).scopes.frames.len() == s.scopes.frames.len(),
    decreases es,
{
    if es.len() > 0 {
        lemma_after_exprs_ready(s, es.drop_last());
        lemma_after_expr_ready(after_exprs(s, es.drop_last()), es.last());
    }
}

/// As `lemma_after_expr_ready`, for a statement.
pub proof fn lemma_after_stmt_ready(s: NameState, st: Statement)
    requires
        ready(s),
    ensures
        ready(after_stmt(s, st)),
        after_stmt(s, st).cursor.len() == s.cursor.len(),
        after_stmt(s, st).scopes.frames.len() == s.scopes.frames.len(),
    decreases st,
{
    match st {
        Statement::Expression(e) => {
            lemma_after_expr_ready(s, e);
        },
        Statement::Return(r) => {
            if let Some(v) = r.value {
                lemma_after_expr_ready(s, *v);
            }
        },
        Statement::DoBlock(b) => {
            lemma_after_block_ready(s, b);
        },
        Statement::IfBlock(i) => {
            lemma_after_expr_ready(s, i.condition);
            let s1 = after_expr(s, i.condition);
            lemma_after_block_ready(s1, i.block);
            if let Some(eb) = i.else_block {
                lemma_after_block_ready(after_block(s1, i.block), eb);
            }
        },
    }
}

/// As `lemma_after_expr_ready`, for a sequence of statements.
pub proof fn lemma_after_stmts_ready(s: NameState, ss: Seq<Statement>)
    requires
        ready(s),
    ensures
        ready(after_stmts(s, ss)),
        after_stmts(s, ss).cursor.len() == s.cursor.len(),
        after_stmts(s, ss).scopes.frames.len() == s.scopes.frames.len(),
    decreases ss,
{
    if ss.len() > 0 {
        lemma_after_stmts_ready(s, ss.drop_last());
        lemma_after_stmt_ready(after_stmts(s, ss.drop_last()), ss.last());
    }
}

/// As `lemma_after_expr_ready`, for a block.
pub proof fn lemma_after_block_ready(s: NameState, b: Block)
    requires
        ready(s),
    ensures
        ready(after_block(s, b)),
        after_block(s, b).cursor.len() == s.cursor.len(),
        after_block(s, b).scopes.frames.len() == s.scopes.frames.len(),
    decreases b,
{
    lemma_entered_ready(s);
    lemma_after_stmts_ready(entered(s), b.statements@);
    lemma_left_ready(after_stmts(entered(s), b.statements@), s);
}

proof fn lemma_type_named(t: Seq<BindingView>, old_te: TypeExpression, new_te: TypeExpression)
    requires
        bindings_assigned(t),
        type_errors(t, old_te).len() == 0,
        type_resolved(t, old_te, new_te),
    ensures
        type_named(new_te),
    decreases old_te,
{
    match (old_te, new_te) {
        (TypeExpression::Named(a), TypeExpression::Named(b)) => {
            lemma_assoc_get_assigned(t, a.token.text@);
        },
        (TypeExpression::Function(a), TypeExpression::Function(b)) => {
            lemma_types_named(t, a.params@, b.params@);
            lemma_type_named(t, *a.return_type, *b.return_type);
        },
        _ => {},
    }
}

proof fn lemma_types_named(t: Seq<BindingView>, olds: Seq<TypeExpression>, news: Seq<TypeExpression>)
    requires
        bindings_assigned(t),
        types_errors(t, olds).len() == 0,
        types_resolved(t, olds, news),
    ensures
        types_named(news),
    decreases olds,
{
    if olds.len() > 0 {
        lemma_types_named(t, olds.drop_last(), news.drop_last());
        lemma_type_named(t, olds.last(), news.last());
    }
}

/// When the naming pass reports nothing for an expression, every name in
/// the resolved expression is assigned.
pub proof fn lemma_expr_named(s: NameState, old_e: Expression, new_e: Expression)
    requires
        ready(s),
        expr_errors(s, old_e).len() == 0,
        resolved_expr(s, old_e, new_e),
    ensures
        expr_named(new_e),
    decreases old_e,
{
    match (old_e, new_e) {
        (Expression::VariableRef(a), Expression::VariableRef(b)) => {
            lemma_lookup_assigned(s.scopes, a.token.text@);
        },
        (Expression::BinaryOp(a), Expression::BinaryOp(b)) => {
            lemma_expr_named(s, *a.left, *b.left);
            lemma_after_expr_ready(s, *a.left);
            lemma_expr_named(after_expr(s, *a.left), *a.right, *b.right);
        },
        (Expression::UnaryOp(a), Expression::UnaryOp(b)) => {
            lemma_expr_named(s, *a.expression, *b.expression);
        },
        (Expression::IfExpression(a), Expression::IfExpression(b)) => {
            lemma_expr_named(s, *a.condition, *b.condition);
            lemma_after_expr_ready(s, *a.condition);
            let s1 = after_expr(s, *a.condition);
            lemma_expr_named(s1, *a.true_expr, *b.true_expr);
            lemma_after_expr_ready(s1, *a.true_expr);
            lemma_expr_named(after_expr(s1, *a.true_expr), *a.else_expr, *b.else_expr);
        },
        (Expression::FnCall(a), Expression::FnCall(b)) => {
            lemma_lookup_assigned(s.scopes, a.ident.token.text@);
            lemma_exprs_named(s, a.args@, b.args@);
        },
        (Expression::Assignment(a), Expression::Assignment(b)) => {
            lemma_expr_named(s, *a.rvalue, *b.rvalue);
            lemma_after_expr_ready(s, *a.rvalue);
            lemma_lookup_assigned(after_expr(s, *a.rvalue).scopes, a.lvalue.token.text@);
        },
        (Expression::Declaration(a), Expression::Declaration(b)) => {
            lemma_expr_named(s, *a.value, *b.value);
            lemma_after_expr_ready(s, *a.value);
            if let Some(te) = a.type_decl {
                lemma_type_named(s.types, te, b.type_decl->0);
            }
        },
        _ => {},
    }
}

/// As `lemma_expr_named`, for a sequence of expressions.
pub proof fn lemma_exprs_named(s: NameState, olds: Seq<Expression>, news: Seq<Expression>)
    requires
        ready(s),
        exprs_errors(s, olds).len() == 0,
        resolved_exprs(s, olds, news),
    ensures
        exprs_named(news),
    decreases olds,
{
    if olds.len() > 0 {
        lemma_exprs_named(s, olds.drop_last(), news.drop_last());
        lemma_after_exprs_ready(s, olds.drop_last());
        lemma_expr_named(after_exprs(s, olds.drop_last()), olds.last(), news.last());
    }
}

/// As `lemma_expr_named`, for a statement.
pub proof fn lemma_stmt_named(s: NameState, old_s: Statement, new_s: Statement)
    requires
        ready(s),
        stmt_errors(s, old_s).len() == 0,
        resolved_stmt(s, old_s, new_s),
    ensures
        stmt_named(new_s),
    decreases old_s,
{
    match (old_s, new_s) {
        (Statement::Expression(a), Statement::Expression(b)) => {
            lemma_expr_named(s, a, b);
        },
        (Statement::Return(a), Statement::Return(b)) => {
            if let Some(v) = a.value {
                lemma_expr_named(s, *v, *b.value->0);
            }
        },
        (Statement::DoBlock(a), Statement::DoBlock(b)) => {
            lemma_block_named(s, a, b);
        },
        (Statement::IfBlock(a), Statement::IfBlock(b)) => {
            lemma_expr_named(s, a.condition, b.condition);
            lemma_after_expr_ready(s, a.condition);
            let s1 = after_expr(s, a.condition);
            lemma_block_named(s1, a.block, b.block);
            if let Some(eb) = a.else_block {
                lemma_after_block_ready(s1, a.block);
                lemma_block_named(after_block(s1, a.block), eb, b.else_block->0);
            }
        },
        _ => {},
    }
}

/// As `lemma_expr_named`, for a sequence of statements.
pub proof fn lemma_stmts_named(s: NameState, olds: Seq<Statement>, news: Seq<Statement>)
    requires
        ready(s),
        stmts_errors(s, olds).len() == 0,
        resolved_stmts(s, olds, news),
    ensures
        stmts_named(news),
    decreases olds,
{
    if olds.len() > 0 {
        lemma_stmts_named(s, olds.drop_last(), news.drop_last());
        lemma_after_stmts_ready(s, olds.drop_last());
        lemma_stmt_named(after_stmts(s, olds.drop_last()), olds.last(), news.last());
    }
}

/// When the naming pass reports nothing for a block, the block and every
/// name in it are assigned.
pub proof fn lemma_block_named(s: NameState, old_b: Block, new_b: Block)
    requires
        ready(s),
        block_errors(s, old_b).len() == 0,
        resolved_block(s, old_b, new_b),
    ensures
        block_named(new_b),
    decreases old_b,
{
    lemma_entered_ready(s);
    lemma_stmts_named(entered(s), old_b.statements@, new_b.statements@);
}

/// When the naming pass reports nothing for a function whose name and
/// parameters are bound, its body and every name in it are assigned.
pub proof fn lemma_fn_named(v: ScopesView, t: Seq<BindingView>, f: BlockFnDeclaration, g: BlockFnDeclaration)
    requires
        scopes_assigned(v),
        bindings_assigned(t),
        fn_resolvable(f),
        fn_errors(v, t, f).len() == 0,
        fn_named(v, t, f, g),
    ensures
        block_named(g.block),
        g.ident == f.ident,
        g.params == f.params,
{
    let s = fn_entry(v, t, f);
    let fr = s.scopes.frames;
    assert forall|i: int| 0 <= i < fr.len() implies bindings_assigned(#[trigger] fr[i]) by {
        if i < fr.len() - 1 {
            assert(fr[i] == v.frames[i]);
        } else {
            let pf = param_frame(f.params@);
            assert forall|k: int| 0 <= k < pf.len() implies (#[trigger] pf[k]).1.len() > 0 by {
                assert(f.params@[k].ident.id@.len() > 0);
            }
        }
    }
    lemma_block_named(s, f.block, g.block);
}

} // verus!
