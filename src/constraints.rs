//! The type relations that the syntax of a resolved tree states.
use vstd::prelude::*;
use crate::ast::{Block, BlockFnDeclaration, Expression, Identifier, Item, Parameter, Statement, TypeExpression, Unit, block_has_value};
use crate::expr_namer::fn_resolvable;
use crate::expr_spec::{block_size, expr_size, exprs_size, stmt_size, stmts_size};
use crate::graph::{rels_view, Term, TermView};
use crate::scoped_id::ScopedId;
use crate::types::{binary_operand_type, binary_result_type, unary_type, ConcreteType};

verus! {

pub type Rel = (TermView, TermView);

/// The type of a name: its identifier's, or free while it is unresolved.
pub open spec fn ident_term(i: Identifier) -> TermView {
    if i.id@.len() == 0 {
        TermView::Free
    } else {
        TermView::Var(i.id@)
    }
}

/// The type an annotation denotes: a primitive, or the alias it names.
pub open spec fn type_term(te: TypeExpression) -> TermView {
    match te {
        TypeExpression::Named(i) => ident_term(i),
        TypeExpression::Primitive(t) => TermView::Fixed(t),
        TypeExpression::Function(_) => TermView::Free,
    }
}

pub open spec fn opt_fixed(t: Option<ConcreteType>) -> TermView {
    match t {
        Some(t) => TermView::Fixed(t),
        None => TermView::Free,
    }
}

/// The type of an expression's value.
pub open spec fn expr_term(e: Expression) -> TermView
    decreases e,
{
    match e {
        Expression::Literal(l) => TermView::Fixed(l.ty),
        Expression::VariableRef(i) => ident_term(i),
        Expression::BinaryOp(b) => opt_fixed(binary_result_type(b.op)),
        Expression::UnaryOp(u) => opt_fixed(unary_type(u.op)),
        Expression::IfExpression(i) => expr_term(*i.true_expr),
        Expression::FnCall(c) => ident_term(c.ident),
        Expression::Assignment(_) | Expression::Declaration(_) => TermView::Fixed(ConcreteType::Unit),
    }
}

/// Relations an expression states, in pre-order.
pub open spec fn expr_rels(e: Expression) -> Seq<Rel>
    decreases e,
{
    match e {
        Expression::Literal(_) | Expression::VariableRef(_) => Seq::empty(),
        Expression::BinaryOp(b) => expr_rels(*b.left) + expr_rels(*b.right) + seq![
            (expr_term(*b.left), opt_fixed(binary_operand_type(b.op))),
            (expr_term(*b.right), opt_fixed(binary_operand_type(b.op))),
        ],
        Expression::UnaryOp(u) => expr_rels(*u.expression) + seq![(expr_term(*u.expression), opt_fixed(unary_type(u.op)))],
        Expression::IfExpression(i) => expr_rels(*i.condition) + expr_rels(*i.true_expr) + expr_rels(*i.else_expr) + seq![
            (expr_term(*i.condition), TermView::Fixed(ConcreteType::Bool)),
            (expr_term(*i.true_expr), expr_term(*i.else_expr)),
        ],
        Expression::FnCall(c) => if c.ident.id@.len() == 0 {
            Seq::empty()
        } else {
            args_rels(c.ident.id@, c.args@)
        },
        Expression::Assignment(a) => expr_rels(*a.rvalue) + seq![(ident_term(a.lvalue), expr_term(*a.rvalue))],
        Expression::Declaration(d) => expr_rels(*d.value) + seq![(ident_term(d.ident), expr_term(*d.value))] + match d.type_decl {
            Some(te) => seq![(ident_term(d.ident), type_term(te))],
            None => Seq::empty(),
        },
    }
}

/// Relations of call arguments: each argument's own, then its type tied to
/// the parameter of the callee at its position.
pub open spec fn args_rels(f: Seq<u64>, args: Seq<Expression>) -> Seq<Rel>
    decreases args,
{
    if args.len() == 0 {
        Seq::empty()
    } else {
        args_rels(f, args.drop_last()) + expr_rels(args.last()) + seq![
            (expr_term(args.last()), TermView::Var(f.push((args.len() - 1) as u64))),
        ]
    }
}

/// The type of a statement's value.
pub open spec fn stmt_term(st: Statement) -> TermView {
    match st {
        Statement::Expression(e) => expr_term(e),
        Statement::Return(_) => TermView::Free,
        Statement::DoBlock(b) => TermView::Var(b.scope_id@),
        Statement::IfBlock(i) => TermView::Var(i.block.scope_id@),
    }
}

/// Relations a statement states inside the function with id `f`.
pub open spec fn stmt_rels(f: Seq<u64>, st: Statement) -> Seq<Rel>
    decreases st,
{
    match st {
        Statement::Expression(e) => expr_rels(e),
        Statement::Return(r) => match r.value {
            Some(v) => expr_rels(*v) + seq![(TermView::Var(f), expr_term(*v))],
            None => seq![(TermView::Var(f), TermView::Fixed(ConcreteType::Unit))],
        },
        Statement::DoBlock(b) => block_rels(f, b),
        Statement::IfBlock(i) => expr_rels(i.condition) + seq![(expr_term(i.condition), TermView::Fixed(ConcreteType::Bool))]
            + block_rels(f, i.block) + match i.else_block {
            Some(eb) => block_rels(f, eb) + seq![(TermView::Var(i.block.scope_id@), TermView::Var(eb.scope_id@))],
            None => Seq::empty(),
        },
    }
}

pub open spec fn stmts_rels(f: Seq<u64>, ss: Seq<Statement>) -> Seq<Rel>
    decreases ss,
{
    if ss.len() == 0 {
        Seq::empty()
    } else {
        stmts_rels(f, ss.drop_last()) + stmt_rels(f, ss.last())
    }
}

/// Relations of a block: its statements', then its value tied to its last
/// statement's when it has one.
pub open spec fn block_rels(f: Seq<u64>, b: Block) -> Seq<Rel>
    decreases b,
{
    stmts_rels(f, b.statements@) + if block_has_value(b) {
        seq![(TermView::Var(b.scope_id@), stmt_term(b.statements@.last()))]
    } else {
        Seq::empty()
    }
}

pub open spec fn params_rels(ps: Seq<Parameter>) -> Seq<Rel>
    decreases ps.len(),
{
    if ps.len() == 0 {
        Seq::empty()
    } else {
        params_rels(ps.drop_last()) + match ps.last().type_expr {
            Some(te) => seq![(ident_term(ps.last().ident), type_term(te))],
            None => Seq::empty(),
        }
    }
}

/// A block whose last statement is a `return`.
pub open spec fn ends_in_return(b: Block) -> bool {
    b.statements@.len() > 0 && b.statements@.last() is Return
}

/// Relations of a function: parameter and return annotations, the body's,
/// and the function's type tied to the body's value, or to unit when the
/// body neither has a value nor ends in `return`.
pub open spec fn fn_rels(f: BlockFnDeclaration) -> Seq<Rel> {
    let fid = f.ident.id@;
    params_rels(f.params@) + match f.return_type {
        Some(te) => seq![(TermView::Var(fid), type_term(te))],
        None => Seq::empty(),
    } + block_rels(fid, f.block) + if block_has_value(f.block) {
        seq![(TermView::Var(fid), TermView::Var(f.block.scope_id@))]
    } else if ends_in_return(f.block) {
        Seq::empty()
    } else {
        seq![(TermView::Var(fid), TermView::Fixed(ConcreteType::Unit))]
    }
}

pub open spec fn item_rels(it: Item) -> Seq<Rel> {
    match it {
        Item::BlockFnDecl(f) => if fn_resolvable(f) {
            fn_rels(f)
        } else {
            Seq::empty()
        },
        Item::TypeAliasDecl(t) => if t.ident.id@.len() > 0 {
            seq![(TermView::Var(t.ident.id@), type_term(t.type_expr))]
        } else {
            Seq::empty()
        },
    }
}

pub open spec fn unit_rels(items: Seq<Item>) -> Seq<Rel>
    decreases items.len(),
{
    if items.len() == 0 {
        Seq::empty()
    } else {
        unit_rels(items.drop_last()) + item_rels(items.last())
    }
}

fn ident_term_of(i: &Identifier) -> (r: Term)
    ensures
        r@ == ident_term(*i),
{
    if i.id.is_default() {
        Term::Free
    } else {
        Term::Var(i.id.copy())
    }
}

fn type_term_of(te: &TypeExpression) -> (r: Term)
    ensures
        r@ == type_term(*te),
{
    match te {
        TypeExpression::Named(i) => ident_term_of(i),
        TypeExpression::Primitive(t) => Term::Fixed(*t),
        TypeExpression::Function(_) => Term::Free,
    }
}

fn fixed_of(t: Option<ConcreteType>) -> (r: Term)
    ensures
        r@ == opt_fixed(t),
{
    match t {
        Some(t) => Term::Fixed(t),
        None => Term::Free,
    }
}

fn push_rel(out: &mut Vec<(Term, Term)>, a: Term, b: Term)
    ensures
        rels_view(final(out)@) == rels_view(old(out)@).push((a@, b@)),
{
    out.push((a, b));
    proof {
        assert(rels_view(final(out)@) =~= rels_view(old(out)@).push((a@, b@)));
    }
}

/// Appends the relations `e` states and returns the type of its value.
pub fn collect_expr(e: &Expression, out: &mut Vec<(Term, Term)>) -> (r: Term)
    ensures
        r@ == expr_term(*e),
        rels_view(final(out)@) == rels_view(old(out)@) + expr_rels(*e),
    decreases expr_size(*e), 0nat,
{
    let ghost o0 = rels_view(out@);
    match e {
        Expression::Literal(l) => {
            proof {
                assert(rels_view(out@) =~= o0 + Seq::empty());
            }
            Term::Fixed(l.ty)
        },
        Expression::VariableRef(i) => {
            proof {
                assert(rels_view(out@) =~= o0 + Seq::empty());
            }
            ident_term_of(i)
        },
        Expression::BinaryOp(b) => {
            let l = collect_expr(&b.left, out);
            let r = collect_expr(&b.right, out);
            push_rel(out, l, fixed_of(b.op.binary_operand()));
            push_rel(out, r, fixed_of(b.op.binary_operand()));
            proof {
                assert(rels_view(out@) =~= o0 + expr_rels(*e));
            }
            fixed_of(b.op.binary_result())
        },
        Expression::UnaryOp(u) => {
            let t = collect_expr(&u.expression, out);
            push_rel(out, t, fixed_of(u.op.unary()));
            proof {
                assert(rels_view(out@) =~= o0 + expr_rels(*e));
            }
            fixed_of(u.op.unary())
        },
        Expression::IfExpression(i) => {
            let c = collect_expr(&i.condition, out);
            let t = collect_expr(&i.true_expr, out);
            let f = collect_expr(&i.else_expr, out);
            let r = t.copy();
            push_rel(out, c, Term::Fixed(ConcreteType::Bool));
            push_rel(out, t, f);
            proof {
                assert(rels_view(out@) =~= o0 + expr_rels(*e));
            }
            r
        },
        Expression::FnCall(c) => {
            if !c.ident.id.is_default() {
                collect_args(&c.ident.id, &c.args, out);
            } else {
                proof {
                    assert(rels_view(out@) =~= o0 + Seq::empty());
                }
            }
            ident_term_of(&c.ident)
        },
        Expression::Assignment(a) => {
            let v = collect_expr(&a.rvalue, out);
            push_rel(out, ident_term_of(&a.lvalue), v);
            proof {
                assert(rels_view(out@) =~= o0 + expr_rels(*e));
            }
            Term::Fixed(ConcreteType::Unit)
        },
        Expression::Declaration(d) => {
            let v = collect_expr(&d.value, out);
            push_rel(out, ident_term_of(&d.ident), v);
            match &d.type_decl {
                Some(te) => {
                    push_rel(out, ident_term_of(&d.ident), type_term_of(te));
                },
                None => {},
            }
            proof {
                assert(rels_view(out@) =~= o0 + expr_rels(*e));
            }
            Term::Fixed(ConcreteType::Unit)
        },
    }
}

fn collect_args(f: &ScopedId, args: &Vec<Expression>, out: &mut Vec<(Term, Term)>)
    ensures
        rels_view(final(out)@) == rels_view(old(out)@) + args_rels(f@, args@),
    decreases exprs_size(args@), 1nat,
{
    let ghost o0 = rels_view(out@);
    let mut i: usize = 0;
    proof {
        assert(args@.take(0) =~= Seq::<Expression>::empty());
        assert(rels_view(out@) =~= o0 + args_rels(f@, args@.take(0)));
    }
    while i < args.len()
        invariant
            i <= args@.len(),
            rels_view(out@) == o0 + args_rels(f@, args@.take(i as int)),
        decreases args.len() - i,
    {
        proof {
            crate::constraints::lemma_exprs_take(args@, i as int);
        }
        let t = collect_expr(&args[i], out);
        push_rel(out, t, Term::Var(f.child(i as u64)));
        i += 1;
        proof {
            let tk = args@.take(i as int);
            assert(tk.drop_last() =~= args@.take(i - 1));
            assert(rels_view(out@) =~= o0 + args_rels(f@, tk));
        }
    }
    proof {
        assert(args@.take(i as int) =~= args@);
    }
}

/// The type of an expression's value.
fn expr_term_of(e: &Expression) -> (r: Term)
    ensures
        r@ == expr_term(*e),
    decreases expr_size(*e),
{
    match e {
        Expression::Literal(l) => Term::Fixed(l.ty),
        Expression::VariableRef(i) => ident_term_of(i),
        Expression::BinaryOp(b) => fixed_of(b.op.binary_result()),
        Expression::UnaryOp(u) => fixed_of(u.op.unary()),
        Expression::IfExpression(i) => expr_term_of(&i.true_expr),
        Expression::FnCall(c) => ident_term_of(&c.ident),
        Expression::Assignment(_) | Expression::Declaration(_) => Term::Fixed(ConcreteType::Unit),
    }
}

fn stmt_term_of(st: &Statement) -> (r: Term)
    ensures
        r@ == stmt_term(*st),
{
    match st {
        Statement::Expression(e) => expr_term_of(e),
        Statement::Return(_) => Term::Free,
        Statement::DoBlock(b) => Term::Var(b.scope_id.copy()),
        Statement::IfBlock(i) => Term::Var(i.block.scope_id.copy()),
    }
}

/// Appends the relations a statement states inside the function `f`.
pub fn collect_stmt(f: &ScopedId, st: &Statement, out: &mut Vec<(Term, Term)>)
    ensures
        rels_view(final(out)@) == rels_view(old(out)@) + stmt_rels(f@, *st),
    decreases stmt_size(*st), 1nat,
{
    let ghost o0 = rels_view(out@);
    match st {
        Statement::Expression(e) => {
            collect_expr(e, out);
        },
        Statement::Return(r) => {
            match &r.value {
                Some(v) => {
                    let t = collect_expr(v, out);
                    push_rel(out, Term::Var(f.copy()), t);
                },
                None => {
                    push_rel(out, Term::Var(f.copy()), Term::Fixed(ConcreteType::Unit));
                },
            }
            proof {
                assert(rels_view(out@) =~= o0 + stmt_rels(f@, *st));
            }
        },
        Statement::DoBlock(b) => {
            collect_block(f, b, out);
        },
        Statement::IfBlock(i) => {
            let c = collect_expr(&i.condition, out);
            push_rel(out, c, Term::Fixed(ConcreteType::Bool));
            collect_block(f, &i.block, out);
            match &i.else_block {
                Some(eb) => {
                    collect_block(f, eb, out);
                    push_rel(out, Term::Var(i.block.scope_id.copy()), Term::Var(eb.scope_id.copy()));
                },
                None => {},
            }
            proof {
                assert(rels_view(out@) =~= o0 + stmt_rels(f@, *st));
            }
        },
    }
}

/// Appends the relations a block states inside the function `f`.
pub fn collect_block(f: &ScopedId, b: &Block, out: &mut Vec<(Term, Term)>)
    ensures
        rels_view(final(out)@) == rels_view(old(out)@) + block_rels(f@, *b),
    decreases block_size(*b), 0nat,
{
    let ghost o0 = rels_view(out@);
    let ss = &b.statements;
    let mut i: usize = 0;
    proof {
        assert(ss@.take(0) =~= Seq::<Statement>::empty());
        assert(rels_view(out@) =~= o0 + stmts_rels(f@, ss@.take(0)));
    }
    while i < ss.len()
        invariant
            i <= ss@.len(),
            ss@ == b.statements@,
            rels_view(out@) == o0 + stmts_rels(f@, ss@.take(i as int)),
        decreases ss.len() - i,
    {
        proof {
            lemma_stmts_take(ss@, i as int);
            assert(stmt_size(ss@[i as int]) < block_size(*b));
        }
        collect_stmt(f, &ss[i], out);
        i += 1;
        proof {
            let tk = ss@.take(i as int);
            assert(tk.drop_last() =~= ss@.take(i - 1));
            assert(rels_view(out@) =~= o0 + stmts_rels(f@, tk));
        }
    }
    proof {
        assert(ss@.take(i as int) =~= ss@);
    }
    if b.has_value() {
        let t = stmt_term_of(&ss[ss.len() - 1]);
        push_rel(out, Term::Var(b.scope_id.copy()), t);
    }
    proof {
        assert(rels_view(out@) =~= o0 + block_rels(f@, *b));
    }
}

proof fn lemma_stmts_take(ss: Seq<Statement>, i: int)
    requires
        0 <= i < ss.len(),
    ensures
        stmt_size(ss[i]) < 1 + stmts_size(ss),
    decreases ss.len(),
{
    if i < ss.len() - 1 {
        lemma_stmts_take(ss.drop_last(), i);
    }
}

/// Appends the relations a function states.
pub fn collect_fn(f: &BlockFnDeclaration, out: &mut Vec<(Term, Term)>)
    ensures
        rels_view(final(out)@) == rels_view(old(out)@) + fn_rels(*f),
{
    let ghost o0 = rels_view(out@);
    let ps = &f.params;
    let mut i: usize = 0;
    proof {
        assert(ps@.take(0) =~= Seq::<Parameter>::empty());
        assert(rels_view(out@) =~= o0 + params_rels(ps@.take(0)));
    }
    while i < ps.len()
        invariant
            i <= ps@.len(),
            rels_view(out@) == o0 + params_rels(ps@.take(i as int)),
        decreases ps.len() - i,
    {
        match &ps[i].type_expr {
            Some(te) => {
                push_rel(out, ident_term_of(&ps[i].ident), type_term_of(te));
            },
            None => {},
        }
        i += 1;
        proof {
            let tk = ps@.take(i as int);
            assert(tk.drop_last() =~= ps@.take(i - 1));
            assert(tk.last() == ps@[i - 1]);
            assert(rels_view(out@) =~= o0 + params_rels(tk));
        }
    }
    proof {
        assert(ps@.take(i as int) =~= ps@);
    }
    match &f.return_type {
        Some(te) => {
            push_rel(out, Term::Var(f.ident.id.copy()), type_term_of(te));
        },
        None => {},
    }
    collect_block(&f.ident.id, &f.block, out);
    let n = f.block.statements.len();
    if f.block.has_value() {
        push_rel(out, Term::Var(f.ident.id.copy()), Term::Var(f.block.scope_id.copy()));
    } else if n > 0 && matches!(f.block.statements[n - 1], Statement::Return(_)) {
    } else {
        push_rel(out, Term::Var(f.ident.id.copy()), Term::Fixed(ConcreteType::Unit));
    }
    proof {
        assert(rels_view(out@) =~= o0 + fn_rels(*f));
    }
}

/// The relations the whole unit states.
pub fn collect_unit(unit: &Unit) -> (r: Vec<(Term, Term)>)
    ensures
        rels_view(r@) == unit_rels(unit.items@),
{
    let mut out: Vec<(Term, Term)> = Vec::new();
    let items = &unit.items;
    let mut i: usize = 0;
    proof {
        assert(items@.take(0) =~= Seq::<Item>::empty());
        assert(rels_view(out@) =~= unit_rels(items@.take(0)));
    }
    while i < items.len()
        invariant
            i <= items@.len(),
            rels_view(out@) == unit_rels(items@.take(i as int)),
        decreases items.len() - i,
    {
        let ghost before = rels_view(out@);
        match &items[i] {
            Item::BlockFnDecl(f) => {
                if crate::expr_namer::is_resolvable(f) {
                    collect_fn(f, &mut out);
                } else {
                    proof {
                        assert(rels_view(out@) =~= before + Seq::empty());
                    }
                }
            },
            Item::TypeAliasDecl(t) => {
                if !t.ident.id.is_default() {
                    push_rel(&mut out, Term::Var(t.ident.id.copy()), type_term_of(&t.type_expr));
                } else {
                    proof {
                        assert(rels_view(out@) =~= before + Seq::empty());
                    }
                }
            },
        }
        i += 1;
        proof {
            let tk = items@.take(i as int);
            assert(tk.drop_last() =~= items@.take(i - 1));
            assert(tk.last() == items@[i - 1]);
            assert(rels_view(out@) =~= unit_rels(tk));
        }
    }
    proof {
        assert(items@.take(i as int) =~= items@);
    }
    out
}

proof fn lemma_exprs_take(es: Seq<Expression>, i: int)
    requires
        0 <= i < es.len(),
    ensures
        expr_size(es[i]) <= exprs_size(es),
    decreases es.len(),
{
    if i < es.len() - 1 {
        lemma_exprs_take(es.drop_last(), i);
    }
}

} // verus!
