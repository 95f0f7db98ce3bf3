//! The whole analysis: naming passes, then type inference.
use vstd::prelude::*;
use crate::ast::{Item, Unit};
use crate::concretifier::{answer_all, unit_queries, SolveState, TypeConcretifier, TypeMapping};
use crate::constraints::{collect_unit, unit_rels};
use crate::errors::{ErrorCollector, ErrorView};
use crate::expr_namer::{body_fits, item_resolved, unit_errors, ExpressionVarIdentifier};
use crate::graph::{with_relations, GraphView, TypeGraph};
use crate::item_namer::{
    item_bound, item_errors, item_globals, item_id, item_named, item_qualified, item_unresolved, ItemVarIdentifier,
};
use crate::scope::{bindings_assigned, scopes_assigned, NameScopeBuilder, ScopesView};
use crate::scoped_id::ScopedId;
use crate::type_namer::{
    alias_bindings, alias_table, item_types_resolved, item_types_unresolved, unit_type_errors, ExpressionTypeIdentifier,
};

verus! {

/// The outcome of the analysis.
#[derive(Debug)]
pub struct Checked {
    /// The tree with names resolved.
    pub unit: Unit,
    /// Diagnostics of all passes, in discovery order.
    pub errors: ErrorCollector,
    /// Item and qualified parameter names.
    pub builder: NameScopeBuilder,
    /// The type equations the tree states.
    pub graph: TypeGraph,
    /// The inferred type of each identifier that has one.
    pub results: TypeMapping,
}

/// What the analysis needs of its input: a tree whose names are all
/// unassigned, with bodies small enough for the id segments.
pub open spec fn unit_fresh(items: Seq<Item>) -> bool {
    forall|i: int| 0 <= i < items.len() ==> {
        &&& item_unresolved(#[trigger] items[i])
        &&& body_fits(items[i])
        &&& item_types_unresolved(items[i])
    }
}

/// What a run without diagnostics guarantees: every item, parameter and
/// name in a function body is assigned, and every identifier whose type is
/// inferred has one in the mapping.
pub open spec fn clean(items: Seq<Item>, results: Seq<(Seq<u64>, crate::types::ConcreteType)>) -> bool {
    &&& forall|i: int| 0 <= i < items.len() ==> match #[trigger] items[i] {
        Item::BlockFnDecl(g) => {
            &&& g.ident.id@.len() > 0
            &&& forall|k: int| 0 <= k < g.params@.len() ==> (#[trigger] g.params@[k]).ident.id@.len() > 0
            &&& crate::naming::block_named(g.block)
        },
        Item::TypeAliasDecl(a) => a.ident.id@.len() > 0,
    }
    &&& forall|k: int| 0 <= k < unit_queries(items).len() ==>
        crate::concretifier::type_of(results, (#[trigger] unit_queries(items)[k]).id) is Some
}

/// The item pass's names: item names globally, parameters qualified.
pub open spec fn item_scopes(items: Seq<Item>) -> ScopesView {
    ScopesView {
        frames: Seq::empty(),
        globals: item_globals(seq![0u64], Seq::empty(), items, items.len() as int),
        qualified: item_qualified(seq![0u64], Seq::empty(), items, items.len() as int),
    }
}

/// The trees after each naming pass, and the diagnostics of naming: `items1`
/// after the item pass on `items0`, `items2` after resolving item
/// annotations, `items3` after naming the bodies in the scopes `v`.
pub open spec fn named_in_passes(
    items0: Seq<Item>,
    items1: Seq<Item>,
    items2: Seq<Item>,
    items3: Seq<Item>,
    v: ScopesView,
    e: Seq<ErrorView>,
) -> bool {
    let n = items0.len() as int;
    let t = alias_bindings(items1, n);
    &&& items1.len() == n && items2.len() == n && items3.len() == n
    &&& forall|i: int| 0 <= i < n ==> item_named(seq![0u64], Seq::empty(), items0, i, #[trigger] items1[i])
    &&& forall|i: int| 0 <= i < n ==> item_types_resolved(t, items1[i], #[trigger] items2[i])
    &&& forall|i: int| 0 <= i < n ==> item_resolved(v, t, items2[i], #[trigger] items3[i])
    &&& e == item_errors(Seq::empty(), items0, n) + unit_type_errors(t, items1, n) + unit_errors(v, t, items2, n)
}

/// The result of the analysis of `items0`: the resolved tree `items` comes
/// from the naming passes, whose diagnostics are followed by those of
/// answering the tree's queries against `g`, which also give the mapping.
pub open spec fn analyzed(
    items0: Seq<Item>,
    items: Seq<Item>,
    g: GraphView,
    results: Seq<(Seq<u64>, crate::types::ConcreteType)>,
    errors: Seq<ErrorView>,
) -> bool {
    exists|items1: Seq<Item>, items2: Seq<Item>, e: Seq<ErrorView>| {
        &&& #[trigger] named_in_passes(items0, items1, items2, items, item_scopes(items0), e)
        &&& typed_after(g, items, e, results, errors)
    }
}

/// Answering the queries of `items` against `g`, after the diagnostics `e`,
/// gives `results` and `errors`.
pub open spec fn typed_after(
    g: GraphView,
    items: Seq<Item>,
    e: Seq<ErrorView>,
    results: Seq<(Seq<u64>, crate::types::ConcreteType)>,
    errors: Seq<ErrorView>,
) -> bool {
    let st = answer_all(g, SolveState { results: Seq::empty(), failed: Seq::empty(), errors: e }, unit_queries(items));
    st.results == results && st.errors == errors
}

pub open spec fn empty_graph() -> GraphView {
    GraphView { nodes: Seq::empty(), links: Seq::empty(), fixed: Seq::empty() }
}

/// Runs the passes in order: items and parameters, item annotations,
/// function bodies, then type inference over the relations the resolved
/// tree states. The graph holds exactly those relations, and the mapping
/// and the type diagnostics are the answers to the queries of the resolved
/// tree.
pub fn check(unit: Unit) -> (r: Checked)
    requires
        unit_fresh(unit.items@),
    ensures
        r.unit.items@.len() == unit.items@.len(),
        forall|i: int| 0 <= i < unit.items@.len() ==> {
            &&& (#[trigger] r.unit.items@[i]).ident().token == unit.items@[i].ident().token
            &&& r.unit.items@[i].ident().id@ == if item_bound(Seq::empty(), unit.items@, i) {
                item_id(seq![0u64], Seq::empty(), unit.items@, i)
            } else {
                Seq::empty()
            }
        },
        r.errors@.len() >= item_errors(Seq::empty(), unit.items@, unit.items@.len() as int).len(),
        r.errors@.take(item_errors(Seq::empty(), unit.items@, unit.items@.len() as int).len() as int)
            == item_errors(Seq::empty(), unit.items@, unit.items@.len() as int),
        r.builder@ == item_scopes(unit.items@),
        analyzed(unit.items@, r.unit.items@, r.graph@, r.results@, r.errors@),
        r.graph@ == with_relations(empty_graph(), unit_rels(r.unit.items@)),
        r.errors@.len() == 0 ==> clean(r.unit.items@, r.results@),
{
    let mut unit = unit;
    let ghost items0 = unit.items@;
    let mut start = ScopedId::new();
    start.push();
    let mut items = ItemVarIdentifier::new(ErrorCollector::new(), NameScopeBuilder::new(), start);
    let n = unit.items.len();
    proof {
        assert(items.current_id@ =~= seq![0u64]);
        assert(items.builder@.globals =~= Seq::<crate::scope::BindingView>::empty());
        assert(n <= u64::MAX);
    }
    items.visit_unit(&mut unit);
    let ItemVarIdentifier { errors, builder, current_id: _ } = items;
    let ghost items1 = unit.items@;
    let ghost ie = item_errors(Seq::empty(), items0, items0.len() as int);
    proof {
        assert(errors@ =~= ie);
    }
    proof {
        assert(builder@.globals =~= item_globals(seq![0u64], Seq::empty(), items0, items0.len() as int));
        lemma_globals_assigned(seq![0u64], Seq::empty(), items0, items0.len() as int);
        assert forall|i: int| 0 <= i < items1.len() implies {
            &&& body_fits(#[trigger] items1[i])
            &&& item_types_unresolved(items1[i])
        } by {
            assert(item_named(seq![0u64], Seq::empty(), items0, i, items1[i]));
            assert(item_unresolved(items0[i]));
            match (items0[i], items1[i]) {
                (Item::BlockFnDecl(f), Item::BlockFnDecl(g)) => {
                    if crate::item_namer::item_bound(Seq::empty(), items0, i) {
                        assert forall|k: int| 0 <= k < g.params@.len() implies
                            crate::type_namer::opt_type_unresolved((#[trigger] g.params@[k]).type_expr) by {
                            assert(g.params@[k].type_expr == f.params@[k].type_expr);
                        }
                    }
                },
                _ => {},
            }
        }
    }
    let types = alias_table(&unit);
    let mut type_pass = ExpressionTypeIdentifier::new(errors, types);
    type_pass.visit_unit(&mut unit);
    let ExpressionTypeIdentifier { errors, types } = type_pass;
    let ghost items2 = unit.items@;
    proof {
        assert forall|i: int| 0 <= i < items2.len() implies body_fits(#[trigger] items2[i]) by {
            assert(item_types_resolved(crate::scope::bindings_view(types@), items1[i], items2[i]));
            assert(body_fits(items1[i]));
        }
    }
    let ghost e2 = errors@;
    let mut bodies = ExpressionVarIdentifier::new(errors, builder, types);
    let ghost v = builder@;
    proof {
        assert(scopes_assigned(builder@));
    }
    bodies.visit_unit(&mut unit);
    let ExpressionVarIdentifier { errors, builder, item_id: _, types: _ } = bodies;
    let rels = collect_unit(&unit);
    let mut graph = TypeGraph::new();
    proof {
        assert(graph@.nodes =~= empty_graph().nodes);
        assert(graph@.links =~= empty_graph().links);
        assert(graph@.fixed =~= empty_graph().fixed);
    }
    graph.relate_all(&rels);
    let mut tc = TypeConcretifier::new(errors, graph);
    let ghost e3 = tc.errors@;
    let ghost st3 = tc.solve_state();
    tc.visit_unit(&unit);
    proof {
        crate::concretifier::lemma_answer_all_extends(tc.graph@, st3, unit_queries(unit.items@));
        assert(e3.take(ie.len() as int) =~= ie);
        assert(tc.errors@.take(ie.len() as int) =~= tc.errors@.take(e3.len() as int).take(ie.len() as int));
    }
    proof {
        assert(st3.failed =~= Seq::<Seq<u64>>::empty());
        assert(st3.results =~= Seq::<(Seq<u64>, crate::types::ConcreteType)>::empty());
        assert(st3 == SolveState { results: Seq::empty(), failed: Seq::empty(), errors: e3 });
    }
    proof {
        assert(tc.errors@.len() == 0 ==> clean(unit.items@, tc.results@)) by {
        if tc.errors@.len() == 0 {
            let tview = crate::scope::bindings_view(types@);
            let n = items0.len() as int;
            assert(ie.len() == 0);
            crate::item_namer::lemma_items_clean(Seq::empty(), items0, n);
            let ue = crate::expr_namer::unit_errors(v, tview, items2, n);
            assert(e3 == e2 + ue);
            assert(ue.len() == 0);
            crate::expr_namer::lemma_unit_errors_clean(v, tview, items2, n);
            crate::concretifier::lemma_no_errors_all_typed(tc.graph@, st3, unit_queries(unit.items@));
            assert forall|i: int| 0 <= i < n implies match #[trigger] unit.items@[i] {
                Item::BlockFnDecl(g) => {
                    &&& g.ident.id@.len() > 0
                    &&& forall|k: int| 0 <= k < g.params@.len() ==> (#[trigger] g.params@[k]).ident.id@.len() > 0
                    &&& crate::naming::block_named(g.block)
                },
                Item::TypeAliasDecl(a) => a.ident.id@.len() > 0,
            } by {
                assert(item_bound(Seq::empty(), items0, i));
                assert(item_named(seq![0u64], Seq::empty(), items0, i, items1[i]));
                assert(item_types_resolved(tview, items1[i], items2[i]));
                assert(crate::expr_namer::item_resolved(v, tview, items2[i], unit.items@[i]));
                match (items1[i], items2[i], unit.items@[i]) {
                    (Item::BlockFnDecl(f1), Item::BlockFnDecl(f2), Item::BlockFnDecl(g)) => {
                        assert(f1.params@.len() == f2.params@.len());
                        assert forall|k: int| 0 <= k < f2.params@.len() implies (#[trigger] f2.params@[k]).ident.id@.len() > 0 by {
                            assert(f2.params@[k].ident == f1.params@[k].ident);
                            assert(f1.params@[k].ident.id@.len() > 0);
                        }
                        assert(crate::expr_namer::fn_resolvable(f2));
                        crate::naming::lemma_fn_named(v, tview, f2, g);
                    },
                    _ => {},
                }
            }
        }
        }
    }
    let TypeConcretifier { errors, graph, results, failed: _ } = tc;
    proof {
        let st = answer_all(graph@, SolveState { results: Seq::empty(), failed: Seq::empty(), errors: e3 }, unit_queries(unit.items@));
        assert(st.results == results@ && st.errors == errors@);
        let n = items0.len() as int;
        let tv = crate::scope::bindings_view(types@);
        assert(tv == alias_bindings(items1, n));
        assert(builder@.frames =~= Seq::empty());
        assert(builder@ == item_scopes(items0));
        assert(e3 =~= item_errors(Seq::empty(), items0, n) + unit_type_errors(tv, items1, n) + unit_errors(builder@, tv, items2, n));
        assert(named_in_passes(items0, items1, items2, unit.items@, item_scopes(items0), e3));
        assert(typed_after(graph@, unit.items@, e3, results@, errors@));
        assert forall|i: int| 0 <= i < items0.len() implies {
            &&& (#[trigger] unit.items@[i]).ident().token == items0[i].ident().token
            &&& unit.items@[i].ident().id@ == if item_bound(Seq::empty(), items0, i) {
                item_id(seq![0u64], Seq::empty(), items0, i)
            } else {
                Seq::empty()
            }
        } by {
            assert(item_named(seq![0u64], Seq::empty(), items0, i, items1[i]));
            assert(item_unresolved(items0[i]));
            assert(item_types_resolved(crate::scope::bindings_view(types@), items1[i], items2[i]));
            assert(crate::expr_namer::item_resolved(builder@, crate::scope::bindings_view(types@), items2[i], unit.items@[i]));
        }
    }
    Checked { unit, errors, builder, graph, results }
}

proof fn lemma_globals_assigned(start: Seq<u64>, g0: Seq<crate::scope::BindingView>, items: Seq<Item>, n: int)
    requires
        start.len() > 0,
        0 <= n <= items.len(),
    ensures
        bindings_assigned(item_globals(start, g0, items, n)),
    decreases n,
{
    if n > 0 {
        lemma_globals_assigned(start, g0, items, n - 1);
    }
}

} // verus!
