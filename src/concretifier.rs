//! Solves the type graph for every identifier whose type is inferred,
//! producing the identifier-to-type mapping.
use vstd::prelude::*;
use crate::ast::{block_has_value, Block, BlockFnDeclaration, Expression, Identifier, Item, Parameter, Statement, Unit};
use crate::errors::{CheckerError, ErrorCollector, ErrorKind, ErrorView};
use crate::expr_namer::{fn_resolvable, is_resolvable};
use crate::expr_spec::{block_size, expr_size, exprs_size, stmt_size, stmts_size};
use crate::graph::{candidate, graph_wf, solved, GraphView, TypeGraph};
use crate::scoped_id::ScopedId;
use crate::token::Token;
use crate::types::ConcreteType;

verus! {

/// An identifier whose type is to be inferred, the token to report it at,
/// and a description of what it is.
#[derive(Debug)]
pub struct Query {
    pub id: ScopedId,
    pub token: Token,
    pub subject: String,
}

pub struct QueryView {
    pub id: Seq<u64>,
    pub token: Token,
}

pub open spec fn query_view(q: Query) -> QueryView {
    QueryView { id: q.id@, token: q.token }
}

pub open spec fn queries_view(qs: Seq<Query>) -> Seq<QueryView> {
    qs.map_values(|q: Query| query_view(q))
}

pub open spec fn ident_queries(i: Identifier) -> Seq<QueryView> {
    if i.id@.len() == 0 {
        Seq::empty()
    } else {
        seq![QueryView { id: i.id@, token: i.token }]
    }
}

/// Identifiers of an expression whose types are inferred, in visiting order:
/// references, callees before their arguments, assigned and declared
/// variables after their values. Unresolved names are skipped.
pub open spec fn expr_queries(e: Expression) -> Seq<QueryView>
    decreases e,
{
    match e {
        Expression::Literal(_) => Seq::empty(),
        Expression::VariableRef(i) => ident_queries(i),
        Expression::BinaryOp(b) => expr_queries(*b.left) + expr_queries(*b.right),
        Expression::UnaryOp(u) => expr_queries(*u.expression),
        Expression::IfExpression(i) => expr_queries(*i.condition) + expr_queries(*i.true_expr) + expr_queries(*i.else_expr),
        Expression::FnCall(c) => ident_queries(c.ident) + args_queries(c.args@),
        Expression::Assignment(a) => expr_queries(*a.rvalue) + ident_queries(a.lvalue),
        Expression::Declaration(d) => expr_queries(*d.value) + ident_queries(d.ident),
    }
}

pub open spec fn args_queries(es: Seq<Expression>) -> Seq<QueryView>
    decreases es,
{
    if es.len() == 0 {
        Seq::empty()
    } else {
        args_queries(es.drop_last()) + expr_queries(es.last())
    }
}

/// Queries of a statement; block values are reported at `tok`, the name of
/// the enclosing function.
pub open spec fn stmt_queries(tok: Token, st: Statement) -> Seq<QueryView>
    decreases st,
{
    match st {
        Statement::Expression(e) => expr_queries(e),
        Statement::Return(r) => match r.value {
            Some(v) => expr_queries(*v),
            None => Seq::empty(),
        },
        Statement::DoBlock(b) => block_queries(tok, b),
        Statement::IfBlock(i) => expr_queries(i.condition) + block_queries(tok, i.block) + match i.else_block {
            Some(eb) => block_queries(tok, eb),
            None => Seq::empty(),
        },
    }
}

pub open spec fn stmts_queries(tok: Token, ss: Seq<Statement>) -> Seq<QueryView>
    decreases ss,
{
    if ss.len() == 0 {
        Seq::empty()
    } else {
        stmts_queries(tok, ss.drop_last()) + stmt_queries(tok, ss.last())
    }
}

/// A block with a value is queried before its statements.
pub open spec fn block_queries(tok: Token, b: Block) -> Seq<QueryView>
    decreases b,
{
    (if block_has_value(b) {
        seq![QueryView { id: b.scope_id@, token: tok }]
    } else {
        Seq::empty()
    }) + stmts_queries(tok, b.statements@)
}

pub open spec fn param_queries(ps: Seq<Parameter>) -> Seq<QueryView> {
    Seq::new(ps.len(), |k: int| QueryView { id: ps[k].ident.id@, token: ps[k].ident.token })
}

/// A function, its parameters, then its body.
pub open spec fn fn_queries(f: BlockFnDeclaration) -> Seq<QueryView> {
    seq![QueryView { id: f.ident.id@, token: f.ident.token }] + param_queries(f.params@) + block_queries(f.ident.token, f.block)
}

pub open spec fn item_queries(it: Item) -> Seq<QueryView> {
    match it {
        Item::BlockFnDecl(f) => if fn_resolvable(f) {
            fn_queries(f)
        } else {
            Seq::empty()
        },
        Item::TypeAliasDecl(_) => Seq::empty(),
    }
}

pub open spec fn unit_queries(items: Seq<Item>) -> Seq<QueryView>
    decreases items.len(),
{
    if items.len() == 0 {
        Seq::empty()
    } else {
        unit_queries(items.drop_last()) + item_queries(items.last())
    }
}

/// The type recorded for `id` in a mapping's entries.
pub open spec fn type_of(entries: Seq<(Seq<u64>, ConcreteType)>, id: Seq<u64>) -> Option<ConcreteType>
    decreases entries.len(),
{
    if entries.len() == 0 {
        None
    } else if entries.last().0 == id {
        Some(entries.last().1)
    } else {
        type_of(entries.drop_last(), id)
    }
}

/// Identifier-to-type mapping, written once per identifier.
#[derive(Debug)]
pub struct TypeMapping {
    entries: Vec<(ScopedId, ConcreteType)>,
}

impl View for TypeMapping {
    type V = Seq<(Seq<u64>, ConcreteType)>;

    closed spec fn view(&self) -> Seq<(Seq<u64>, ConcreteType)> {
        self.entries@.map_values(|e: (ScopedId, ConcreteType)| (e.0@, e.1))
    }
}

impl TypeMapping {
    /// An empty mapping.
    pub fn new() -> (r: TypeMapping)
        ensures
            r@ == Seq::<(Seq<u64>, ConcreteType)>::empty(),
    {
        let r = TypeMapping { entries: Vec::new() };
        proof {
            assert(r@ =~= Seq::<(Seq<u64>, ConcreteType)>::empty());
        }
        r
    }

    /// The type recorded for `id`.
    pub fn get(&self, id: &ScopedId) -> (r: Option<ConcreteType>)
        ensures
            r == type_of(self@, id@),
    {
        let mut i: usize = self.entries.len();
        proof {
            assert(self@.take(i as int) =~= self@);
        }
        while i > 0
            invariant
                i <= self@.len(),
                type_of(self@, id@) == type_of(self@.take(i as int), id@),
            decreases i,
        {
            proof {
                assert(self@.take(i as int).drop_last() =~= self@.take(i - 1));
            }
            if self.entries[i - 1].0.same(id) {
                return Some(self.entries[i - 1].1);
            }
            i -= 1;
        }
        None
    }

    /// How many identifiers have a type.
    pub fn len(&self) -> (r: usize)
        ensures
            r == self@.len(),
    {
        self.entries.len()
    }

    fn insert(&mut self, id: ScopedId, t: ConcreteType)
        ensures
            final(self)@ == old(self)@.push((id@, t)),
    {
        self.entries.push((id, t));
        proof {
            assert(final(self)@ =~= old(self)@.push((id@, t)));
        }
    }
}

/// Mapping, failed identifiers and diagnostics while queries are answered.
pub struct SolveState {
    pub results: Seq<(Seq<u64>, ConcreteType)>,
    pub failed: Seq<Seq<u64>>,
    pub errors: Seq<ErrorView>,
}

/// Answers one query. An identifier already typed, or already reported, is
/// skipped; otherwise its solved type is recorded, or an ambiguity or a lack
/// of information is reported once.
pub open spec fn answer(g: GraphView, st: SolveState, q: QueryView) -> SolveState {
    if type_of(st.results, q.id) is Some || st.failed.contains(q.id) {
        st
    } else if exists|t: ConcreteType| solved(g, q.id, t) {
        SolveState { results: st.results.push((q.id, choose|t: ConcreteType| solved(g, q.id, t))), ..st }
    } else if exists|t: ConcreteType| candidate(g, q.id, t) {
        SolveState {
            failed: st.failed.push(q.id),
            errors: st.errors.push(ErrorView { kind: ErrorKind::AmbiguousType, token: q.token }),
            ..st
        }
    } else {
        SolveState {
            failed: st.failed.push(q.id),
            errors: st.errors.push(ErrorView { kind: ErrorKind::NoTypeInfo, token: q.token }),
            ..st
        }
    }
}

pub open spec fn ids_view(v: Seq<ScopedId>) -> Seq<Seq<u64>> {
    v.map_values(|x: ScopedId| x@)
}

fn contains_id(v: &Vec<ScopedId>, id: &ScopedId) -> (r: bool)
    ensures
        r == ids_view(v@).contains(id@),
{
    let mut i: usize = 0;
    while i < v.len()
        invariant
            i <= v@.len(),
            forall|j: int| 0 <= j < i ==> v@[j]@ != id@,
        decreases v.len() - i,
    {
        if v[i].same(id) {
            proof {
                assert(ids_view(v@)[i as int] == id@);
            }
            return true;
        }
        i += 1;
    }
    proof {
        if ids_view(v@).contains(id@) {
            let k = choose|k: int| 0 <= k < ids_view(v@).len() && ids_view(v@)[k] == id@;
            assert(v@[k]@ == id@);
        }
    }
    false
}

pub open spec fn answer_all(g: GraphView, st: SolveState, qs: Seq<QueryView>) -> SolveState
    decreases qs.len(),
{
    if qs.len() == 0 {
        st
    } else {
        answer(g, answer_all(g, st, qs.drop_last()), qs.last())
    }
}

/// Answering only appends: to the mapping, to the failed identifiers and
/// to the diagnostics, one diagnostic per failure.
pub proof fn lemma_answer_all_extends(g: GraphView, st: SolveState, qs: Seq<QueryView>)
    ensures
        answer_all(g, st, qs).results.len() >= st.results.len(),
        answer_all(g, st, qs).results.take(st.results.len() as int) == st.results,
        answer_all(g, st, qs).errors.len() >= st.errors.len(),
        answer_all(g, st, qs).errors.take(st.errors.len() as int) == st.errors,
        answer_all(g, st, qs).failed.len() >= st.failed.len(),
        answer_all(g, st, qs).failed.take(st.failed.len() as int) == st.failed,
        answer_all(g, st, qs).failed.len() - st.failed.len() == answer_all(g, st, qs).errors.len() - st.errors.len(),
    decreases qs.len(),
{
    if qs.len() == 0 {
        assert(st.results.take(st.results.len() as int) =~= st.results);
        assert(st.errors.take(st.errors.len() as int) =~= st.errors);
        assert(st.failed.take(st.failed.len() as int) =~= st.failed);
    } else {
        lemma_answer_all_extends(g, st, qs.drop_last());
        let mid = answer_all(g, st, qs.drop_last());
        let fin = answer_all(g, st, qs);
        assert(fin.results.take(st.results.len() as int) =~= mid.results.take(st.results.len() as int));
        assert(fin.errors.take(st.errors.len() as int) =~= mid.errors.take(st.errors.len() as int));
        assert(fin.failed.take(st.failed.len() as int) =~= mid.failed.take(st.failed.len() as int));
    }
}

proof fn lemma_type_of_push(r: Seq<(Seq<u64>, ConcreteType)>, p: (Seq<u64>, ConcreteType), id: Seq<u64>)
    ensures
        type_of(r.push(p), id) == if p.0 == id { Some(p.1) } else { type_of(r, id) },
{
    assert(r.push(p).drop_last() =~= r);
}

/// Every queried identifier ends up typed or among the failed ones.
proof fn lemma_answer_all_covers(g: GraphView, st: SolveState, qs: Seq<QueryView>)
    ensures
        forall|k: int| 0 <= k < qs.len() ==> {
            let fin = answer_all(g, st, qs);
            type_of(fin.results, (#[trigger] qs[k]).id) is Some || fin.failed.contains(qs[k].id)
        },
    decreases qs.len(),
{
    if qs.len() > 0 {
        let pre = qs.drop_last();
        lemma_answer_all_covers(g, st, pre);
        let mid = answer_all(g, st, pre);
        let fin = answer_all(g, st, qs);
        let q = qs.last();
        assert forall|k: int| 0 <= k < qs.len() implies
            type_of(fin.results, (#[trigger] qs[k]).id) is Some || fin.failed.contains(qs[k].id) by {
            if k < pre.len() {
                assert(pre[k] == qs[k]);
                if type_of(mid.results, qs[k].id) is Some {
                    if fin.results != mid.results {
                        lemma_type_of_push(mid.results, fin.results.last(), qs[k].id);
                        assert(fin.results == mid.results.push(fin.results.last()));
                    }
                } else {
                    let j = choose|j: int| 0 <= j < mid.failed.len() && mid.failed[j] == qs[k].id;
                    if fin.failed != mid.failed {
                        assert(fin.failed[j] == mid.failed[j]);
                    }
                }
            } else {
                if !(type_of(mid.results, q.id) is Some || mid.failed.contains(q.id)) {
                    if exists|t: ConcreteType| solved(g, q.id, t) {
                        lemma_type_of_push(mid.results, fin.results.last(), q.id);
                    } else {
                        assert(fin.failed.last() == q.id);
                        assert(fin.failed[fin.failed.len() - 1] == q.id);
                    }
                }
            }
        }
    }
}

/// When no diagnostic is added, every queried identifier has a type
/// (unless it had failed before).
pub proof fn lemma_no_errors_all_typed(g: GraphView, st: SolveState, qs: Seq<QueryView>)
    requires
        answer_all(g, st, qs).errors.len() == st.errors.len(),
    ensures
        forall|k: int| 0 <= k < qs.len() ==>
            type_of(answer_all(g, st, qs).results, (#[trigger] qs[k]).id) is Some || st.failed.contains(qs[k].id),
{
    lemma_answer_all_extends(g, st, qs);
    lemma_answer_all_covers(g, st, qs);
    let fin = answer_all(g, st, qs);
    assert(fin.failed =~= st.failed) by {
        assert(fin.failed.take(st.failed.len() as int) == st.failed);
    }
}

/// A type once recorded for an identifier stays the same, whatever is
/// queried afterwards.
pub proof fn lemma_answer_keeps_type(g: GraphView, st: SolveState, qs: Seq<QueryView>, id: Seq<u64>, t: ConcreteType)
    requires
        type_of(st.results, id) == Some(t),
    ensures
        type_of(answer_all(g, st, qs).results, id) == Some(t),
    decreases qs.len(),
{
    if qs.len() > 0 {
        lemma_answer_keeps_type(g, st, qs.drop_last(), id, t);
        let mid = answer_all(g, st, qs.drop_last());
        let fin = answer_all(g, st, qs);
        if fin.results != mid.results {
            lemma_type_of_push(mid.results, fin.results.last(), id);
            assert(fin.results == mid.results.push(fin.results.last()));
        }
    }
}

proof fn lemma_answer_all_noop(g: GraphView, st: SolveState, qs: Seq<QueryView>)
    requires
        forall|k: int| 0 <= k < qs.len() ==> type_of(st.results, (#[trigger] qs[k]).id) is Some || st.failed.contains(qs[k].id),
    ensures
        answer_all(g, st, qs) == st,
    decreases qs.len(),
{
    if qs.len() > 0 {
        assert forall|k: int| 0 <= k < qs.drop_last().len() implies
            type_of(st.results, (#[trigger] qs.drop_last()[k]).id) is Some || st.failed.contains(qs.drop_last()[k].id) by {
            assert(qs.drop_last()[k] == qs[k]);
        }
        lemma_answer_all_noop(g, st, qs.drop_last());
        assert(qs.last() == qs[qs.len() - 1]);
    }
}

/// Answering the same queries a second time changes nothing: each
/// identifier keeps the type it got, and no failure is reported again.
pub proof fn lemma_answer_twice(g: GraphView, st: SolveState, qs: Seq<QueryView>)
    ensures
        answer_all(g, answer_all(g, st, qs), qs) == answer_all(g, st, qs),
{
    lemma_answer_all_covers(g, st, qs);
    lemma_answer_all_noop(g, answer_all(g, st, qs), qs);
}

/// An identifier that no fixed type reaches gets exactly one diagnostic, of
/// missing information rather than ambiguity, and asking again about it
/// adds nothing.
pub proof fn lemma_no_information(g: GraphView, st: SolveState, q: QueryView)
    requires
        type_of(st.results, q.id) is None,
        !st.failed.contains(q.id),
        forall|t: ConcreteType| !candidate(g, q.id, t),
    ensures
        answer(g, st, q).errors == st.errors.push(ErrorView { kind: ErrorKind::NoTypeInfo, token: q.token }),
        answer(g, st, q).results == st.results,
        answer(g, answer(g, st, q), q) == answer(g, st, q),
{
    let a = answer(g, st, q);
    assert(a.failed.last() == q.id);
    assert(a.failed.contains(q.id)) by {
        assert(a.failed[a.failed.len() - 1] == q.id);
    }
}

/// A reference to a name that is not in scope gets exactly one
/// diagnostic, stays unresolved, and is never queried for a type, so no
/// type diagnostic follows for it.
pub proof fn lemma_unknown_reference(s: crate::expr_spec::NameState, y: Identifier, new_e: Expression)
    requires
        crate::scope::lookup(s.scopes, y.token.text@) is None,
        y.id@.len() == 0,
        crate::expr_spec::resolved_expr(s, Expression::VariableRef(y), new_e),
    ensures
        crate::expr_spec::expr_errors(s, Expression::VariableRef(y)) == seq![ErrorView { kind: ErrorKind::UnknownReference, token: y.token }],
        new_e is VariableRef,
        new_e->VariableRef_0.id@.len() == 0,
        expr_queries(new_e) == Seq::<QueryView>::empty(),
{
}

proof fn lemma_solved_unique(g: GraphView, id: Seq<u64>, t: ConcreteType)
    requires
        solved(g, id, t),
    ensures
        (choose|u: ConcreteType| solved(g, id, u)) == t,
{
    let u = choose|u: ConcreteType| solved(g, id, u);
    if u != t {
        assert(!candidate(g, id, u));
    }
}

/// `prefix` followed by `name`.
fn describe(prefix: &str, name: &String) -> (r: String)
    ensures
        r@ == prefix@ + name@,
{
    let mut s = String::new();
    s.append(prefix);
    s.append(name.as_str());
    proof {
        assert(s@ =~= prefix@ + name@);
    }
    s
}

fn push_query(out: &mut Vec<Query>, i: &Identifier, prefix: &str)
    ensures
        queries_view(final(out)@) == queries_view(old(out)@) + ident_queries(*i),
{
    if !i.id.is_default() {
        out.push(Query { id: i.id.copy(), token: i.token.clone(), subject: describe(prefix, &i.token.text) });
    }
    proof {
        assert(queries_view(final(out)@) =~= queries_view(old(out)@) + ident_queries(*i));
    }
}

/// Appends the queries of an expression.
pub fn collect_expr_queries(e: &Expression, out: &mut Vec<Query>)
    ensures
        queries_view(final(out)@) == queries_view(old(out)@) + expr_queries(*e),
    decreases expr_size(*e), 0nat,
{
    let ghost o0 = queries_view(out@);
    match e {
        Expression::Literal(_) => {
            proof {
                assert(queries_view(out@) =~= o0 + Seq::empty());
            }
        },
        Expression::VariableRef(i) => {
            push_query(out, i, "variable ");
        },
        Expression::BinaryOp(b) => {
            collect_expr_queries(&b.left, out);
            collect_expr_queries(&b.right, out);
            proof {
                assert(queries_view(out@) =~= o0 + expr_queries(*e));
            }
        },
        Expression::UnaryOp(u) => {
            collect_expr_queries(&u.expression, out);
        },
        Expression::IfExpression(i) => {
            collect_expr_queries(&i.condition, out);
            collect_expr_queries(&i.true_expr, out);
            collect_expr_queries(&i.else_expr, out);
            proof {
                assert(queries_view(out@) =~= o0 + expr_queries(*e));
            }
        },
        Expression::FnCall(c) => {
            push_query(out, &c.ident, "call to ");
            let mut i: usize = 0;
            let ghost o1 = queries_view(out@);
            proof {
                assert(c.args@.take(0) =~= Seq::<Expression>::empty());
                assert(queries_view(out@) =~= o1 + args_queries(c.args@.take(0)));
            }
            while i < c.args.len()
                invariant
                    i <= c.args@.len(),
                    expr_size(*e) == 1 + exprs_size(c.args@),
                    queries_view(out@) == o1 + args_queries(c.args@.take(i as int)),
                decreases c.args.len() - i,
            {
                proof {
                    lemma_args_size(c.args@, i as int);
                    assert(expr_size(c.args@[i as int]) < expr_size(*e));
                }
                collect_expr_queries(&c.args[i], out);
                i += 1;
                proof {
                    assert(c.args@.take(i as int).drop_last() =~= c.args@.take(i - 1));
                    assert(queries_view(out@) =~= o1 + args_queries(c.args@.take(i as int)));
                }
            }
            proof {
                assert(c.args@.take(i as int) =~= c.args@);
                assert(queries_view(out@) =~= o0 + expr_queries(*e));
            }
        },
        Expression::Assignment(a) => {
            collect_expr_queries(&a.rvalue, out);
            push_query(out, &a.lvalue, "assignment to ");
            proof {
                assert(queries_view(out@) =~= o0 + expr_queries(*e));
            }
        },
        Expression::Declaration(d) => {
            collect_expr_queries(&d.value, out);
            push_query(out, &d.ident, "definition of variable ");
            proof {
                assert(queries_view(out@) =~= o0 + expr_queries(*e));
            }
        },
    }
}

proof fn lemma_args_size(es: Seq<Expression>, i: int)
    requires
        0 <= i < es.len(),
    ensures
        expr_size(es[i]) < 1 + exprs_size(es),
    decreases es.len(),
{
    if i < es.len() - 1 {
        lemma_args_size(es.drop_last(), i);
    }
}

proof fn lemma_stmts_size(ss: Seq<Statement>, i: int)
    requires
        0 <= i < ss.len(),
    ensures
        stmt_size(ss[i]) < 1 + stmts_size(ss),
    decreases ss.len(),
{
    if i < ss.len() - 1 {
        lemma_stmts_size(ss.drop_last(), i);
    }
}

/// Appends the queries of a statement.
pub fn collect_stmt_queries(tok: &Token, st: &Statement, out: &mut Vec<Query>)
    ensures
        queries_view(final(out)@) == queries_view(old(out)@) + stmt_queries(*tok, *st),
    decreases stmt_size(*st), 1nat,
{
    let ghost o0 = queries_view(out@);
    match st {
        Statement::Expression(e) => {
            collect_expr_queries(e, out);
        },
        Statement::Return(r) => {
            match &r.value {
                Some(v) => {
                    collect_expr_queries(v, out);
                },
                None => {
                    proof {
                        assert(queries_view(out@) =~= o0 + Seq::empty());
                    }
                },
            }
        },
        Statement::DoBlock(b) => {
            collect_block_queries(tok, b, out);
        },
        Statement::IfBlock(i) => {
            collect_expr_queries(&i.condition, out);
            collect_block_queries(tok, &i.block, out);
            match &i.else_block {
                Some(eb) => {
                    collect_block_queries(tok, eb, out);
                },
                None => {},
            }
            proof {
                assert(queries_view(out@) =~= o0 + stmt_queries(*tok, *st));
            }
        },
    }
}

/// Appends the queries of a block.
pub fn collect_block_queries(tok: &Token, b: &Block, out: &mut Vec<Query>)
    ensures
        queries_view(final(out)@) == queries_view(old(out)@) + block_queries(*tok, *b),
    decreases block_size(*b), 0nat,
{
    let ghost o0 = queries_view(out@);
    if b.has_value() {
        out.push(Query { id: b.scope_id.copy(), token: tok.clone(), subject: describe("block of ", &tok.text) });
    }
    let ghost o1 = queries_view(out@);
    let mut i: usize = 0;
    proof {
        assert(b.statements@.take(0) =~= Seq::<Statement>::empty());
        assert(queries_view(out@) =~= o1 + stmts_queries(*tok, b.statements@.take(0)));
    }
    while i < b.statements.len()
        invariant
            i <= b.statements@.len(),
            queries_view(out@) == o1 + stmts_queries(*tok, b.statements@.take(i as int)),
        decreases b.statements.len() - i,
    {
        proof {
            lemma_stmts_size(b.statements@, i as int);
        }
        collect_stmt_queries(tok, &b.statements[i], out);
        i += 1;
        proof {
            assert(b.statements@.take(i as int).drop_last() =~= b.statements@.take(i - 1));
            assert(queries_view(out@) =~= o1 + stmts_queries(*tok, b.statements@.take(i as int)));
        }
    }
    proof {
        assert(b.statements@.take(i as int) =~= b.statements@);
        assert(queries_view(out@) =~= o0 + block_queries(*tok, *b));
    }
}

/// Appends the queries of a function.
pub fn collect_fn_queries(f: &BlockFnDeclaration, out: &mut Vec<Query>)
    ensures
        queries_view(final(out)@) == queries_view(old(out)@) + fn_queries(*f),
{
    let ghost o0 = queries_view(out@);
    out.push(Query { id: f.ident.id.copy(), token: f.ident.token.clone(), subject: describe("fn declaration ", &f.ident.token.text) });
    let ghost o1 = queries_view(out@);
    let mut i: usize = 0;
    proof {
        assert(o1 + param_queries(f.params@.take(0)) =~= o1);
    }
    while i < f.params.len()
        invariant
            i <= f.params@.len(),
            queries_view(out@) == o1 + param_queries(f.params@.take(i as int)),
        decreases f.params.len() - i,
    {
        let p = &f.params[i];
        let ghost before = out@;
        let q = Query { id: p.ident.id.copy(), token: p.ident.token.clone(), subject: describe("parameter ", &p.ident.token.text) };
        out.push(q);
        i += 1;
        proof {
            assert(queries_view(out@) =~= queries_view(before).push(query_view(q)));
            assert(query_view(q) == QueryView { id: f.params@[i - 1].ident.id@, token: f.params@[i - 1].ident.token });
            let cur = param_queries(f.params@.take(i as int));
            let prev = param_queries(f.params@.take(i - 1));
            assert(cur.len() == prev.len() + 1);
            assert forall|k: int| 0 <= k < prev.len() implies cur[k] == prev[k] by {
                assert(f.params@.take(i as int)[k] == f.params@.take(i - 1)[k]);
            }
            assert(cur[i - 1] == QueryView { id: f.params@[i - 1].ident.id@, token: f.params@[i - 1].ident.token });
            assert(cur =~= prev.push(QueryView { id: f.params@[i - 1].ident.id@, token: f.params@[i - 1].ident.token }));
            assert(queries_view(out@) =~= o1 + param_queries(f.params@.take(i as int)));
        }
    }
    proof {
        assert(f.params@.take(i as int) =~= f.params@);
    }
    collect_block_queries(&f.ident.token, &f.block, out);
    proof {
        assert(queries_view(out@) =~= o0 + fn_queries(*f));
    }
}

/// The queries of a unit, in order.
pub fn collect_unit_queries(unit: &Unit) -> (r: Vec<Query>)
    ensures
        queries_view(r@) == unit_queries(unit.items@),
{
    let mut out: Vec<Query> = Vec::new();
    let items = &unit.items;
    let mut i: usize = 0;
    proof {
        assert(items@.take(0) =~= Seq::<Item>::empty());
        assert(queries_view(out@) =~= unit_queries(items@.take(0)));
    }
    while i < items.len()
        invariant
            i <= items@.len(),
            queries_view(out@) == unit_queries(items@.take(i as int)),
        decreases items.len() - i,
    {
        let ghost before = queries_view(out@);
        match &items[i] {
            Item::BlockFnDecl(f) => {
                if is_resolvable(f) {
                    collect_fn_queries(f, &mut out);
                } else {
                    proof {
                        assert(queries_view(out@) =~= before + Seq::empty());
                    }
                }
            },
            Item::TypeAliasDecl(_) => {
                proof {
                    assert(queries_view(out@) =~= before + Seq::empty());
                }
            },
        }
        i += 1;
        proof {
            let tk = items@.take(i as int);
            assert(tk.drop_last() =~= items@.take(i - 1));
            assert(tk.last() == items@[i - 1]);
            assert(queries_view(out@) =~= unit_queries(tk));
        }
    }
    proof {
        assert(items@.take(i as int) =~= items@);
    }
    out
}

/// Solves the type graph to produce a `TypeMapping`.
#[derive(Debug)]
pub struct TypeConcretifier {
    pub errors: ErrorCollector,
    pub graph: TypeGraph,
    pub results: TypeMapping,
    /// Identifiers whose inference failed and was reported.
    pub failed: Vec<ScopedId>,
}

impl TypeConcretifier {
    /// A concretifier over `graph` with an empty mapping.
    pub fn new(errors: ErrorCollector, graph: TypeGraph) -> (r: TypeConcretifier)
        ensures
            r.errors == errors,
            r.graph == graph,
            r.results@ == Seq::<(Seq<u64>, ConcreteType)>::empty(),
            r.failed@.len() == 0,
    {
        TypeConcretifier { errors, graph, results: TypeMapping::new(), failed: Vec::new() }
    }

    /// The mapping built so far.
    pub fn into_results(self) -> (r: TypeMapping)
        ensures
            r == self.results,
    {
        self.results
    }

    pub open spec fn solve_state(&self) -> SolveState {
        SolveState { results: self.results@, failed: ids_view(self.failed@), errors: self.errors@ }
    }

    /// Answers one query; true iff the identifier has a type afterwards.
    /// Failures are remembered, so each is reported once.
    pub fn infer_var(&mut self, q: &Query) -> (r: bool)
        requires
            graph_wf(old(self).graph@),
        ensures
            final(self).graph == old(self).graph,
            final(self).solve_state() == answer(old(self).graph@, old(self).solve_state(), query_view(*q)),
            r == (type_of(final(self).results@, q.id@) is Some),
    {
        if self.results.get(&q.id).is_some() {
            return true;
        }
        if contains_id(&self.failed, &q.id) {
            return false;
        }
        match self.graph.infer_type_of_var(&q.id) {
            Ok(t) => {
                proof {
                    lemma_solved_unique(self.graph@, q.id@, t);
                }
                self.results.insert(q.id.copy(), t);
                proof {
                    assert(self.results@.last() == (q.id@, t));
                }
                true
            },
            Err(possibles) => {
                let kind = if possibles.len() > 0 {
                    proof {
                        assert(possibles@.contains(possibles@[0]));
                        assert(candidate(self.graph@, q.id@, possibles@[0]));
                    }
                    ErrorKind::AmbiguousType
                } else {
                    proof {
                        assert forall|t: ConcreteType| !candidate(self.graph@, q.id@, t) by {
                            if candidate(self.graph@, q.id@, t) {
                                assert(possibles@.contains(t));
                            }
                        }
                    }
                    ErrorKind::NoTypeInfo
                };
                let err = CheckerError {
                    kind,
                    token: q.token.clone(),
                    related: Vec::new(),
                    subject: q.subject.clone(),
                    candidates: possibles,
                };
                self.errors.add_error(err);
                let ghost f0 = self.failed@;
                self.failed.push(q.id.copy());
                proof {
                    assert(ids_view(self.failed@) =~= ids_view(f0).push(q.id@));
                }
                false
            },
        }
    }

    /// Answers the queries in order.
    pub fn answer_queries(&mut self, qs: &Vec<Query>)
        requires
            graph_wf(old(self).graph@),
        ensures
            final(self).graph == old(self).graph,
            final(self).solve_state() == answer_all(old(self).graph@, old(self).solve_state(), queries_view(qs@)),
    {
        let ghost s0 = self.solve_state();
        let ghost g = self.graph@;
        let mut i: usize = 0;
        proof {
            assert(queries_view(qs@).take(0) =~= Seq::<QueryView>::empty());
        }
        while i < qs.len()
            invariant
                i <= qs@.len(),
                self.graph == old(self).graph,
                g == self.graph@,
                graph_wf(g),
                self.solve_state() == answer_all(g, s0, queries_view(qs@).take(i as int)),
            decreases qs.len() - i,
        {
            self.infer_var(&qs[i]);
            i += 1;
            proof {
                assert(queries_view(qs@).take(i as int).drop_last() =~= queries_view(qs@).take(i - 1));
            }
        }
        proof {
            assert(queries_view(qs@).take(i as int) =~= queries_view(qs@));
        }
    }

    /// Types every identifier of the unit whose type is inferred.
    pub fn visit_unit(&mut self, unit: &Unit)
        requires
            graph_wf(old(self).graph@),
        ensures
            final(self).graph == old(self).graph,
            final(self).solve_state() == answer_all(old(self).graph@, old(self).solve_state(), unit_queries(unit.items@)),
    {
        let qs = collect_unit_queries(unit);
        self.answer_queries(&qs);
    }
}

} // verus!
