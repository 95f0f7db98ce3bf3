//! Second pass: identifiers for blocks and local variables, and resolution
//! of references inside function bodies.
use vstd::prelude::*;
use crate::ast::{Block, BlockFnDeclaration, Expression, Item, Parameter, Statement, Unit};
use crate::errors::ErrorView;
use crate::item_namer::param_name;
use crate::scope::{BindingView, ScopesView};
use crate::errors::{CheckerError, ErrorCollector, ErrorKind};
use crate::expr_spec::{
    after_block, after_expr, after_exprs, after_stmt, after_stmts, block_errors, block_size, block_unresolved,
    entered, expr_errors, expr_size, expr_unresolved, exprs_errors, exprs_size, exprs_unresolved, left,
    resolved_block, resolved_expr, resolved_exprs, resolved_stmt, resolved_stmts, stmt_errors, stmt_size,
    stmt_unresolved, stmts_errors, stmts_size, stmts_unresolved, declared, NameState,
};
use crate::scope::{bindings_assigned, bindings_view, lemma_lookup_assigned, scopes_assigned, Binding, NameScopeBuilder};
use crate::type_namer::resolve_opt_type;
use crate::scoped_id::ScopedId;

verus! {

/// What a visit may assume of the state: a frame to declare into, a cursor
/// with room for `n` more siblings, and assigned bindings.
pub open spec fn fits(s: NameState, n: nat) -> bool {
    &&& s.scopes.frames.len() > 0
    &&& s.cursor.len() > 0
    &&& s.cursor.last() + n <= u64::MAX
    &&& scopes_assigned(s.scopes)
    &&& bindings_assigned(s.types)
}

/// How a visit of a subtree of size `n` may change the state: the cursor
/// moves forward at its level by at most `n`, and only the innermost frame
/// grows.
pub open spec fn stepped(s0: NameState, s1: NameState, n: nat) -> bool {
    &&& s1.cursor.len() == s0.cursor.len()
    &&& s1.cursor.drop_last() == s0.cursor.drop_last()
    &&& s0.cursor.last() <= s1.cursor.last() <= s0.cursor.last() + n
    &&& s1.scopes.frames.len() == s0.scopes.frames.len()
    &&& s1.scopes.frames.drop_last() == s0.scopes.frames.drop_last()
    &&& s1.scopes.globals == s0.scopes.globals
    &&& s1.scopes.qualified == s0.scopes.qualified
    &&& s1.types == s0.types
    &&& scopes_assigned(s1.scopes)
}

proof fn lemma_exprs_prefix(es: Seq<Expression>, i: int)
    requires
        0 <= i < es.len(),
    ensures
        es.take(i + 1).drop_last() == es.take(i),
        es.take(i + 1).last() == es[i],
        exprs_size(es.take(i + 1)) == exprs_size(es.take(i)) + expr_size(es[i]),
        exprs_size(es.take(i + 1)) <= exprs_size(es),
        exprs_unresolved(es) ==> expr_unresolved(es[i]),
    decreases es.len(),
{
    assert(es.take(i + 1).drop_last() =~= es.take(i));
    if i + 1 == es.len() {
        assert(es.take(i + 1) =~= es);
    } else {
        lemma_exprs_prefix(es.drop_last(), i);
        assert(es.drop_last().take(i + 1) =~= es.take(i + 1));
        assert(es.drop_last()[i] == es[i]);
    }
}

proof fn lemma_stmts_prefix(ss: Seq<Statement>, i: int)
    requires
        0 <= i < ss.len(),
    ensures
        ss.take(i + 1).drop_last() == ss.take(i),
        ss.take(i + 1).last() == ss[i],
        stmts_size(ss.take(i + 1)) == stmts_size(ss.take(i)) + stmt_size(ss[i]),
        stmts_size(ss.take(i + 1)) <= stmts_size(ss),
        stmts_unresolved(ss) ==> stmt_unresolved(ss[i]),
    decreases ss.len(),
{
    assert(ss.take(i + 1).drop_last() =~= ss.take(i));
    if i + 1 == ss.len() {
        assert(ss.take(i + 1) =~= ss);
    } else {
        lemma_stmts_prefix(ss.drop_last(), i);
        assert(ss.drop_last().take(i + 1) =~= ss.take(i + 1));
        assert(ss.drop_last()[i] == ss[i]);
    }
}

/// Names blocks and local variables and resolves references in function
/// bodies.
#[derive(Debug)]
pub struct ExpressionVarIdentifier {
    pub errors: ErrorCollector,
    pub builder: NameScopeBuilder,
    pub item_id: ScopedId,
    /// The declared type aliases.
    pub types: Vec<Binding>,
}

impl ExpressionVarIdentifier {
    pub open spec fn state(&self) -> NameState {
        NameState { scopes: self.builder@, cursor: self.item_id@, types: bindings_view(self.types@) }
    }

    /// A pass over the names that `builder` holds, with the type aliases
    /// `types` for annotations.
    pub fn new(errors: ErrorCollector, builder: NameScopeBuilder, types: Vec<Binding>) -> (r: ExpressionVarIdentifier)
        ensures
            r.errors == errors,
            r.builder == builder,
            r.types == types,
            r.item_id@ == Seq::<u64>::empty(),
    {
        ExpressionVarIdentifier { errors, builder, item_id: ScopedId::new(), types }
    }

    /// Resolves the names of an expression reached in the current state.
    pub fn visit_expression(&mut self, e: &mut Expression)
        requires
            fits(old(self).state(), expr_size(*old(e))),
            expr_unresolved(*old(e)),
        ensures
            final(self).state() == after_expr(old(self).state(), *old(e)),
            stepped(old(self).state(), final(self).state(), expr_size(*old(e))),
            final(self).types == old(self).types,
            final(self).errors@ == old(self).errors@ + expr_errors(old(self).state(), *old(e)),
            resolved_expr(old(self).state(), *old(e), *final(e)),
        decreases expr_size(*old(e)), 0nat,
    {
        let ghost s0 = self.state();
        let ghost e0 = self.errors@;
        match e {
            Expression::Literal(_) => {
                proof {
                    assert(self.errors@ =~= e0 + Seq::empty());
                }
            },
            Expression::VariableRef(ident) => {
                proof {
                    lemma_lookup_assigned(s0.scopes, ident.token.text@);
                }
                match self.builder.get(&ident.token.text) {
                    Some(id) => {
                        ident.set_id(id);
                        proof {
                            assert(self.errors@ =~= e0 + Seq::empty());
                        }
                    },
                    None => {
                        let err = CheckerError::new(ErrorKind::UnknownReference, ident.token.clone(), ident.token.text.clone());
                        self.errors.add_error(err);
                    },
                }
            },
            Expression::BinaryOp(b) => {
                self.visit_expression(&mut b.left);
                self.visit_expression(&mut b.right);
                proof {
                    assert(self.errors@ =~= e0 + expr_errors(s0, *old(e)));
                }
            },
            Expression::UnaryOp(u) => {
                self.visit_expression(&mut u.expression);
            },
            Expression::IfExpression(i) => {
                self.visit_expression(&mut i.condition);
                self.visit_expression(&mut i.true_expr);
                self.visit_expression(&mut i.else_expr);
                proof {
                    assert(self.errors@ =~= e0 + expr_errors(s0, *old(e)));
                }
            },
            Expression::FnCall(c) => {
                proof {
                    lemma_lookup_assigned(s0.scopes, c.ident.token.text@);
                }
                match self.builder.get(&c.ident.token.text) {
                    Some(id) => {
                        c.ident.set_id(id);
                        self.visit_args(&mut c.args);
                    },
                    None => {
                        let err = CheckerError::new(ErrorKind::UnknownReference, c.ident.token.clone(), c.ident.token.text.clone());
                        self.errors.add_error(err);
                    },
                }
            },
            Expression::Assignment(a) => {
                self.visit_expression(&mut a.rvalue);
                proof {
                    lemma_lookup_assigned(self.state().scopes, a.lvalue.token.text@);
                }
                match self.builder.get(&a.lvalue.token.text) {
                    Some(id) => {
                        a.lvalue.set_id(id);
                        proof {
                            assert(self.errors@ =~= e0 + expr_errors(s0, *old(e)));
                        }
                    },
                    None => {
                        let err = CheckerError::new(ErrorKind::UnknownReference, a.lvalue.token.clone(), a.lvalue.token.text.clone());
                        self.errors.add_error(err);
                        proof {
                            assert(self.errors@ =~= e0 + expr_errors(s0, *old(e)));
                        }
                    },
                }
            },
            Expression::Declaration(d) => {
                self.visit_expression(&mut d.value);
                resolve_opt_type(&self.types, &mut d.type_decl, &mut self.errors);
                if self.builder.get_local(&d.ident.token.text).is_some() {
                    let err = CheckerError::new(ErrorKind::DuplicateDefinition, d.ident.token.clone(), d.ident.token.text.clone());
                    self.errors.add_error(err);
                    proof {
                        assert(self.errors@ =~= e0 + expr_errors(s0, *old(e)));
                    }
                } else {
                    let ghost s1 = self.state();
                    self.item_id.increment();
                    d.ident.set_id(self.item_id.copy());
                    self.builder.define_local(d.ident.token.text.clone(), self.item_id.copy());
                    proof {
                        assert(self.errors@ =~= e0 + expr_errors(s0, *old(e)));
                        assert(self.state() == declared(s1, d.ident.token.text@));
                        let fr = self.state().scopes.frames;
                        assert(fr.drop_last() =~= s1.scopes.frames.drop_last());
                        assert(bindings_assigned(fr.last()));
                        assert forall|k: int| 0 <= k < fr.len() implies bindings_assigned(#[trigger] fr[k]) by {
                            if k < fr.len() - 1 {
                                assert(fr[k] == fr.drop_last()[k]);
                                assert(s1.scopes.frames.drop_last()[k] == s1.scopes.frames[k]);
                            }
                        }
                        assert(self.state().cursor.drop_last() =~= s1.cursor.drop_last());
                    }
                }
            },
        }
    }

    fn visit_args(&mut self, args: &mut Vec<Expression>)
        requires
            fits(old(self).state(), exprs_size(old(args)@)),
            exprs_unresolved(old(args)@),
        ensures
            final(self).state() == after_exprs(old(self).state(), old(args)@),
            stepped(old(self).state(), final(self).state(), exprs_size(old(args)@)),
            final(self).types == old(self).types,
            final(self).errors@ == old(self).errors@ + exprs_errors(old(self).state(), old(args)@),
            resolved_exprs(old(self).state(), old(args)@, final(args)@),
        decreases exprs_size(old(args)@), 1nat,
    {
        let ghost s0 = self.state();
        let ghost e0 = self.errors@;
        let ghost olds = args@;
        let mut i: usize = 0;
        proof {
            assert(olds.take(0) =~= Seq::<Expression>::empty());
            assert(args@.take(0) =~= Seq::<Expression>::empty());
            assert(self.errors@ =~= e0 + exprs_errors(s0, olds.take(0)));
            assert(self.state().cursor.drop_last() =~= s0.cursor.drop_last());
            assert(self.state().scopes.frames.drop_last() =~= s0.scopes.frames.drop_last());
        }
        while i < args.len()
            invariant
                i <= olds.len(),
                olds == old(args)@,
                self.types == old(self).types,
                args@.len() == olds.len(),
                fits(s0, exprs_size(olds)),
                exprs_unresolved(olds),
                forall|k: int| i <= k < olds.len() ==> #[trigger] args@[k] == olds[k],
                self.state() == after_exprs(s0, olds.take(i as int)),
                stepped(s0, self.state(), exprs_size(olds.take(i as int))),
                self.errors@ == e0 + exprs_errors(s0, olds.take(i as int)),
                resolved_exprs(s0, olds.take(i as int), args@.take(i as int)),
            decreases olds.len() - i,
        {
            proof {
                lemma_exprs_prefix(olds, i as int);
                assert(expr_size(args@[i as int]) <= exprs_size(old(args)@));
            }
            let ghost before = args@;
            self.visit_expression(&mut args[i]);
            i += 1;
            proof {
                assert(args@.take(i as int).drop_last() =~= before.take((i - 1) as int));
                assert(self.errors@ =~= e0 + exprs_errors(s0, olds.take(i as int)));
                assert(self.state().cursor.drop_last() =~= s0.cursor.drop_last());
                assert(self.state().scopes.frames.drop_last() =~= s0.scopes.frames.drop_last());
            }
        }
        proof {
            assert(olds.take(olds.len() as int) =~= olds);
            assert(args@.take(olds.len() as int) =~= args@);
        }
    }
}

impl ExpressionVarIdentifier {
    /// Resolves the names of a statement reached in the current state.
    pub fn visit_statement(&mut self, st: &mut Statement)
        requires
            fits(old(self).state(), stmt_size(*old(st))),
            stmt_unresolved(*old(st)),
        ensures
            final(self).state() == after_stmt(old(self).state(), *old(st)),
            stepped(old(self).state(), final(self).state(), stmt_size(*old(st))),
            final(self).types == old(self).types,
            final(self).errors@ == old(self).errors@ + stmt_errors(old(self).state(), *old(st)),
            resolved_stmt(old(self).state(), *old(st), *final(st)),
        decreases stmt_size(*old(st)), 1nat,
    {
        let ghost s0 = self.state();
        let ghost e0 = self.errors@;
        match st {
            Statement::Expression(e) => {
                self.visit_expression(e);
            },
            Statement::Return(r) => {
                match &mut r.value {
                    Some(v) => {
                        self.visit_expression(v);
                    },
                    None => {
                        proof {
                            assert(self.errors@ =~= e0 + Seq::empty());
                            assert(self.state().cursor.drop_last() =~= s0.cursor.drop_last());
                            assert(self.state().scopes.frames.drop_last() =~= s0.scopes.frames.drop_last());
                        }
                    },
                }
            },
            Statement::DoBlock(b) => {
                self.visit_block(b);
            },
            Statement::IfBlock(i) => {
                self.visit_expression(&mut i.condition);
                self.visit_block(&mut i.block);
                match &mut i.else_block {
                    Some(eb) => {
                        self.visit_block(eb);
                    },
                    None => {},
                }
                proof {
                    assert(self.errors@ =~= e0 + stmt_errors(s0, *old(st)));
                }
            },
        }
    }

    /// Gives the block the next sibling id and names its contents one
    /// level deeper, in a fresh frame.
    pub fn visit_block(&mut self, block: &mut Block)
        requires
            fits(old(self).state(), block_size(*old(block))),
            block_unresolved(*old(block)),
        ensures
            final(self).state() == after_block(old(self).state(), *old(block)),
            stepped(old(self).state(), final(self).state(), block_size(*old(block))),
            final(self).types == old(self).types,
            final(self).errors@ == old(self).errors@ + block_errors(old(self).state(), *old(block)),
            resolved_block(old(self).state(), *old(block), *final(block)),
        decreases block_size(*old(block)), 0nat,
    {
        let ghost s0 = self.state();
        let ghost e0 = self.errors@;
        let ghost olds = block.statements@;
        self.item_id.increment();
        block.set_id(self.item_id.copy());
        self.item_id.push();
        self.builder.new_scope();
        let ghost s1 = self.state();
        let mut i: usize = 0;
        proof {
            assert(s1 == entered(s0));
            let fr = s1.scopes.frames;
            assert forall|k: int| 0 <= k < fr.len() implies bindings_assigned(#[trigger] fr[k]) by {
                if k < fr.len() - 1 {
                    assert(fr[k] == s0.scopes.frames[k]);
                }
            }
            assert(olds.take(0) =~= Seq::<Statement>::empty());
            assert(block.statements@.take(0) =~= Seq::<Statement>::empty());
            assert(self.errors@ =~= e0 + stmts_errors(s1, olds.take(0)));
            assert(self.state().cursor.drop_last() =~= s1.cursor.drop_last());
            assert(self.state().scopes.frames.drop_last() =~= s1.scopes.frames.drop_last());
        }
        while i < block.statements.len()
            invariant
                i <= olds.len(),
                olds == old(block).statements@,
                self.types == old(self).types,
                block.statements@.len() == olds.len(),
                block.scope_id@ == s1.cursor.drop_last(),
                s1 == entered(s0),
                fits(s1, stmts_size(olds)),
                stmts_unresolved(olds),
                forall|k: int| i <= k < olds.len() ==> #[trigger] block.statements@[k] == olds[k],
                self.state() == after_stmts(s1, olds.take(i as int)),
                stepped(s1, self.state(), stmts_size(olds.take(i as int))),
                self.errors@ == e0 + stmts_errors(s1, olds.take(i as int)),
                resolved_stmts(s1, olds.take(i as int), block.statements@.take(i as int)),
            decreases olds.len() - i,
        {
            proof {
                lemma_stmts_prefix(olds, i as int);
                assert(stmt_size(block.statements@[i as int]) < block_size(*old(block)));
            }
            let ghost before = block.statements@;
            self.visit_statement(&mut block.statements[i]);
            i += 1;
            proof {
                assert(block.statements@.take(i as int).drop_last() =~= before.take((i - 1) as int));
                assert(self.errors@ =~= e0 + stmts_errors(s1, olds.take(i as int)));
                assert(self.state().cursor.drop_last() =~= s1.cursor.drop_last());
                assert(self.state().scopes.frames.drop_last() =~= s1.scopes.frames.drop_last());
            }
        }
        proof {
            assert(olds.take(olds.len() as int) =~= olds);
            assert(block.statements@.take(olds.len() as int) =~= block.statements@);
        }
        self.item_id.pop();
        self.builder.pop();
        proof {
            assert(self.state().cursor =~= crate::scoped_id::bumped(s0.cursor));
            assert(self.state().cursor.drop_last() =~= s0.cursor.drop_last());
            assert(self.state().scopes.frames =~= s0.scopes.frames);
        }
    }
}

/// A function is named in the second pass only when it and all of its
/// parameters were bound by the first.
pub open spec fn fn_resolvable(f: BlockFnDeclaration) -> bool {
    &&& f.ident.id@.len() > 0
    &&& forall|k: int| 0 <= k < f.params@.len() ==> (#[trigger] f.params@[k]).ident.id@.len() > 0
}

/// The frame of a function's parameters.
pub open spec fn param_frame(ps: Seq<Parameter>) -> Seq<BindingView> {
    Seq::new(ps.len(), |k: int| (param_name(ps[k]), ps[k].ident.id@))
}

/// The state in which a function body is reached: its parameters in scope,
/// and the cursor two levels below the function's id.
pub open spec fn fn_entry(v: ScopesView, t: Seq<BindingView>, f: BlockFnDeclaration) -> NameState {
    NameState {
        scopes: ScopesView { frames: v.frames.push(param_frame(f.params@)), ..v },
        cursor: f.ident.id@.push(0).push(0),
        types: t,
    }
}

pub open spec fn fn_errors(v: ScopesView, t: Seq<BindingView>, f: BlockFnDeclaration) -> Seq<ErrorView> {
    if fn_resolvable(f) {
        block_errors(fn_entry(v, t, f), f.block)
    } else {
        Seq::empty()
    }
}

/// A function after the second pass: only its body changes.
pub open spec fn fn_named(v: ScopesView, t: Seq<BindingView>, old_f: BlockFnDeclaration, new_f: BlockFnDeclaration) -> bool {
    if fn_resolvable(old_f) {
        &&& new_f.ident == old_f.ident
        &&& new_f.params == old_f.params
        &&& new_f.return_type == old_f.return_type
        &&& resolved_block(fn_entry(v, t, old_f), old_f.block, new_f.block)
    } else {
        new_f == old_f
    }
}

/// What the second pass needs of an item: a function body still unnamed and
/// of a size the id segments can count.
pub open spec fn body_fits(it: Item) -> bool {
    match it {
        Item::BlockFnDecl(f) => block_unresolved(f.block) && block_size(f.block) <= u64::MAX,
        Item::TypeAliasDecl(_) => true,
    }
}

pub open spec fn item_resolved(v: ScopesView, t: Seq<BindingView>, old_it: Item, new_it: Item) -> bool {
    match (old_it, new_it) {
        (Item::BlockFnDecl(f), Item::BlockFnDecl(g)) => fn_named(v, t, f, g),
        (Item::TypeAliasDecl(t), Item::TypeAliasDecl(u)) => t == u,
        _ => false,
    }
}

pub open spec fn unit_errors(v: ScopesView, t: Seq<BindingView>, items: Seq<Item>, n: int) -> Seq<ErrorView>
    decreases n,
{
    if n <= 0 {
        Seq::empty()
    } else {
        unit_errors(v, t, items, n - 1) + match items[n - 1] {
            Item::BlockFnDecl(f) => fn_errors(v, t, f),
            Item::TypeAliasDecl(_) => Seq::empty(),
        }
    }
}

/// Whether the function and all of its parameters are bound.
pub fn is_resolvable(f: &BlockFnDeclaration) -> (r: bool)
    ensures
        r == fn_resolvable(*f),
{
    if f.ident.id.is_default() {
        return false;
    }
    let mut k: usize = 0;
    while k < f.params.len()
        invariant
            k <= f.params@.len(),
            f.ident.id@.len() > 0,
            forall|j: int| 0 <= j < k ==> (#[trigger] f.params@[j]).ident.id@.len() > 0,
        decreases f.params.len() - k,
    {
        if f.params[k].ident.id.is_default() {
            return false;
        }
        k += 1;
    }
    true
}

/// No diagnostic for the unit means none for any of its functions.
pub proof fn lemma_unit_errors_clean(v: ScopesView, t: Seq<BindingView>, items: Seq<Item>, n: int)
    requires
        0 <= n <= items.len(),
        unit_errors(v, t, items, n).len() == 0,
    ensures
        forall|i: int| 0 <= i < n ==> match #[trigger] items[i] {
            Item::BlockFnDecl(f) => fn_errors(v, t, f).len() == 0,
            Item::TypeAliasDecl(_) => true,
        },
    decreases n,
{
    if n > 0 {
        lemma_unit_errors_clean(v, t, items, n - 1);
    }
}

impl ExpressionVarIdentifier {
    /// Names the body of a function whose name and parameters are bound.
    pub fn visit_block_fn_decl(&mut self, block_fn: &mut BlockFnDeclaration)
        requires
            scopes_assigned(old(self).builder@),
            bindings_assigned(bindings_view(old(self).types@)),
            block_unresolved(old(block_fn).block),
            block_size(old(block_fn).block) <= u64::MAX,
        ensures
            final(self).builder@ == old(self).builder@,
            final(self).types == old(self).types,
            final(self).errors@ == old(self).errors@ + fn_errors(old(self).builder@, bindings_view(old(self).types@), *old(block_fn)),
            fn_named(old(self).builder@, bindings_view(old(self).types@), *old(block_fn), *final(block_fn)),
    {
        let ghost v = self.builder@;
        let ghost e0 = self.errors@;
        if block_fn.ident.id.is_default() {
            proof {
                assert(self.errors@ =~= e0 + Seq::empty());
            }
            return;
        }
        let mut k: usize = 0;
        while k < block_fn.params.len()
            invariant
                k <= block_fn.params@.len(),
                *block_fn == *old(block_fn),
                self.errors@ == e0,
                self.builder@ == v,
                self.types == old(self).types,
                forall|j: int| 0 <= j < k ==> (#[trigger] block_fn.params@[j]).ident.id@.len() > 0,
            decreases block_fn.params.len() - k,
        {
            if block_fn.params[k].ident.id.is_default() {
                proof {
                    assert(self.errors@ =~= e0 + Seq::empty());
                }
                return;
            }
            k += 1;
        }
        self.item_id = block_fn.ident.id.copy();
        self.item_id.push();
        self.item_id.push();
        self.builder.new_scope();
        let ghost ps = block_fn.params@;
        let mut k: usize = 0;
        proof {
            assert(Seq::new(0, |j: int| (param_name(ps[j]), ps[j].ident.id@)) =~= Seq::<BindingView>::empty());
        }
        while k < block_fn.params.len()
            invariant
                k <= ps.len(),
                ps == block_fn.params@,
                *block_fn == *old(block_fn),
                self.errors@ == e0,
                self.types == old(self).types,
                self.item_id@ == block_fn.ident.id@.push(0).push(0),
                self.builder@ == (ScopesView {
                    frames: v.frames.push(Seq::new(k as nat, |j: int| (param_name(ps[j]), ps[j].ident.id@))),
                    ..v
                }),
            decreases ps.len() - k,
        {
            let ghost prev = Seq::new(k as nat, |j: int| (param_name(ps[j]), ps[j].ident.id@));
            self.builder.define_local(block_fn.params[k].ident.token.text.clone(), block_fn.params[k].ident.id.copy());
            k += 1;
            proof {
                let cur = Seq::new(k as nat, |j: int| (param_name(ps[j]), ps[j].ident.id@));
                assert(cur =~= prev.push((param_name(ps[k - 1]), ps[k - 1].ident.id@)));
                assert(self.builder@.frames =~= v.frames.push(Seq::new(k as nat, |j: int| (param_name(ps[j]), ps[j].ident.id@))));
            }
        }
        proof {
            assert(self.builder@.frames =~= v.frames.push(param_frame(ps)));
            let fr = self.builder@.frames;
            assert forall|i: int| 0 <= i < fr.len() implies bindings_assigned(#[trigger] fr[i]) by {
                if i < fr.len() - 1 {
                    assert(fr[i] == v.frames[i]);
                }
            }
            assert(self.state() == fn_entry(v, bindings_view(self.types@), *old(block_fn)));
        }
        self.visit_block(&mut block_fn.block);
        self.builder.pop();
        proof {
            assert(self.builder@.frames =~= v.frames);
        }
    }

    /// Names the bodies of all functions of the unit.
    pub fn visit_unit(&mut self, unit: &mut Unit)
        requires
            scopes_assigned(old(self).builder@),
            bindings_assigned(bindings_view(old(self).types@)),
            forall|i: int| 0 <= i < old(unit).items@.len() ==> body_fits(#[trigger] old(unit).items@[i]),
        ensures
            final(self).builder@ == old(self).builder@,
            final(self).types == old(self).types,
            final(unit).items@.len() == old(unit).items@.len(),
            forall|i: int| 0 <= i < old(unit).items@.len() ==>
                item_resolved(old(self).builder@, bindings_view(old(self).types@), old(unit).items@[i], #[trigger] final(unit).items@[i]),
            final(self).errors@ == old(self).errors@ + unit_errors(old(self).builder@, bindings_view(old(self).types@), old(unit).items@, old(unit).items@.len() as int),
    {
        let ghost v = self.builder@;
        let ghost t = bindings_view(self.types@);
        let ghost e0 = self.errors@;
        let ghost items = unit.items@;
        let mut i: usize = 0;
        proof {
            assert(self.errors@ =~= e0 + unit_errors(v, t, items, 0));
        }
        while i < unit.items.len()
            invariant
                i <= items.len(),
                items == old(unit).items@,
                unit.items@.len() == items.len(),
                self.builder@ == v,
                self.types == old(self).types,
                t == bindings_view(self.types@),
                scopes_assigned(v),
                bindings_assigned(t),
                forall|k: int| 0 <= k < items.len() ==> body_fits(#[trigger] items[k]),
                forall|k: int| i <= k < items.len() ==> #[trigger] unit.items@[k] == items[k],
                forall|k: int| 0 <= k < i ==> item_resolved(v, t, items[k], #[trigger] unit.items@[k]),
                self.errors@ == e0 + unit_errors(v, t, items, i as int),
            decreases items.len() - i,
        {
            proof {
                assert(body_fits(items[i as int]));
            }
            match &mut unit.items[i] {
                Item::BlockFnDecl(f) => {
                    self.visit_block_fn_decl(f);
                },
                Item::TypeAliasDecl(_) => {},
            }
            i += 1;
            proof {
                assert(self.errors@ =~= e0 + unit_errors(v, t, items, i as int));
                assert(item_resolved(v, t, items[i - 1], unit.items@[i - 1]));
            }
        }
    }
}

} // verus!
