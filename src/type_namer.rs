//! Resolution of type annotations against the declared type aliases.
use vstd::prelude::*;
use crate::ast::{BlockFnDeclaration, Item, Parameter, TypeExpression, Unit};
use crate::errors::{CheckerError, ErrorCollector, ErrorKind, ErrorView};
use crate::scope::{assoc_get, bindings_assigned, bindings_view, lemma_assoc_get_assigned, Binding, BindingView};

verus! {

pub open spec fn type_size(te: TypeExpression) -> nat
    decreases te,
{
    match te {
        TypeExpression::Named(_) | TypeExpression::Primitive(_) => 1,
        TypeExpression::Function(f) => 1 + types_size(f.params@) + type_size(*f.return_type),
    }
}

pub open spec fn types_size(ts: Seq<TypeExpression>) -> nat
    decreases ts,
{
    if ts.len() == 0 {
        0
    } else {
        types_size(ts.drop_last()) + type_size(ts.last())
    }
}

/// Every name in the annotation is unassigned.
pub open spec fn type_unresolved(te: TypeExpression) -> bool
    decreases te,
{
    match te {
        TypeExpression::Named(i) => i.id@.len() == 0,
        TypeExpression::Primitive(_) => true,
        TypeExpression::Function(f) => types_unresolved(f.params@) && type_unresolved(*f.return_type),
    }
}

pub open spec fn types_unresolved(ts: Seq<TypeExpression>) -> bool
    decreases ts,
{
    ts.len() == 0 || (types_unresolved(ts.drop_last()) && type_unresolved(ts.last()))
}

/// The annotation after resolution against the alias table `t`: each name
/// bound to its alias, or left as it was when no alias has that name.
pub open spec fn type_resolved(t: Seq<BindingView>, old_te: TypeExpression, new_te: TypeExpression) -> bool
    decreases old_te,
{
    match (old_te, new_te) {
        (TypeExpression::Named(a), TypeExpression::Named(b)) => {
            &&& b.token == a.token
            &&& b.id@ == match assoc_get(t, a.token.text@) {
                Some(id) => id,
                None => a.id@,
            }
        },
        (TypeExpression::Primitive(a), TypeExpression::Primitive(b)) => a == b,
        (TypeExpression::Function(a), TypeExpression::Function(b)) => {
            &&& types_resolved(t, a.params@, b.params@)
            &&& type_resolved(t, *a.return_type, *b.return_type)
        },
        _ => false,
    }
}

pub open spec fn types_resolved(t: Seq<BindingView>, olds: Seq<TypeExpression>, news: Seq<TypeExpression>) -> bool
    decreases olds,
{
    &&& news.len() == olds.len()
    &&& (olds.len() == 0 || (types_resolved(t, olds.drop_last(), news.drop_last()) && type_resolved(t, olds.last(), news.last())))
}

/// An unknown-type diagnostic for each name that no alias has, in order.
pub open spec fn type_errors(t: Seq<BindingView>, te: TypeExpression) -> Seq<ErrorView>
    decreases te,
{
    match te {
        TypeExpression::Named(i) => if assoc_get(t, i.token.text@) is Some {
            Seq::empty()
        } else {
            seq![ErrorView { kind: ErrorKind::UnknownReference, token: i.token }]
        },
        TypeExpression::Primitive(_) => Seq::empty(),
        TypeExpression::Function(f) => types_errors(t, f.params@) + type_errors(t, *f.return_type),
    }
}

pub open spec fn types_errors(t: Seq<BindingView>, ts: Seq<TypeExpression>) -> Seq<ErrorView>
    decreases ts,
{
    if ts.len() == 0 {
        Seq::empty()
    } else {
        types_errors(t, ts.drop_last()) + type_errors(t, ts.last())
    }
}

pub open spec fn opt_type_resolved(t: Seq<BindingView>, old_te: Option<TypeExpression>, new_te: Option<TypeExpression>) -> bool {
    match (old_te, new_te) {
        (Some(a), Some(b)) => type_resolved(t, a, b),
        (None, None) => true,
        _ => false,
    }
}

pub open spec fn opt_type_errors(t: Seq<BindingView>, te: Option<TypeExpression>) -> Seq<ErrorView> {
    match te {
        Some(a) => type_errors(t, a),
        None => Seq::empty(),
    }
}

pub open spec fn opt_type_unresolved(te: Option<TypeExpression>) -> bool {
    match te {
        Some(a) => type_unresolved(a),
        None => true,
    }
}

/// Resolves every name in an annotation against the alias table `types`.
pub fn resolve_type_expr(types: &Vec<Binding>, te: &mut TypeExpression, errors: &mut ErrorCollector)
    requires
        bindings_assigned(bindings_view(types@)),
        type_unresolved(*old(te)),
    ensures
        type_resolved(bindings_view(types@), *old(te), *final(te)),
        final(errors)@ == old(errors)@ + type_errors(bindings_view(types@), *old(te)),
    decreases type_size(*old(te)), 0nat,
{
    let ghost t = bindings_view(types@);
    let ghost e0 = errors@;
    match te {
        TypeExpression::Named(i) => {
            proof {
                lemma_assoc_get_assigned(t, i.token.text@);
            }
            match find_alias(types, &i.token.text) {
                Some(id) => {
                    i.set_id(id);
                    proof {
                        assert(errors@ =~= e0 + Seq::empty());
                    }
                },
                None => {
                    let err = CheckerError::new(ErrorKind::UnknownReference, i.token.clone(), i.token.text.clone());
                    errors.add_error(err);
                },
            }
        },
        TypeExpression::Primitive(_) => {
            proof {
                assert(errors@ =~= e0 + Seq::empty());
            }
        },
        TypeExpression::Function(f) => {
            let ghost olds = f.params@;
            let mut k: usize = 0;
            proof {
                assert(olds.take(0) =~= Seq::<TypeExpression>::empty());
                assert(f.params@.take(0) =~= Seq::<TypeExpression>::empty());
                assert(errors@ =~= e0 + types_errors(t, olds.take(0)));
            }
            while k < f.params.len()
                invariant
                    k <= olds.len(),
                    f.params@.len() == olds.len(),
                    t == bindings_view(types@),
                    bindings_assigned(t),
                    types_unresolved(olds),
                    type_size(*old(te)) == 1 + types_size(olds) + type_size(*f.return_type),
                    type_unresolved(*f.return_type),
                    *f.return_type == match *old(te) { TypeExpression::Function(g) => *g.return_type, _ => *f.return_type },
                    olds == match *old(te) { TypeExpression::Function(g) => g.params@, _ => olds },
                    forall|j: int| k <= j < olds.len() ==> #[trigger] f.params@[j] == olds[j],
                    types_resolved(t, olds.take(k as int), f.params@.take(k as int)),
                    errors@ == e0 + types_errors(t, olds.take(k as int)),
                decreases olds.len() - k,
            {
                proof {
                    lemma_types_prefix(olds, k as int);
                }
                let ghost before = f.params@;
                resolve_type_expr(types, &mut f.params[k], errors);
                k += 1;
                proof {
                    assert(f.params@.take(k as int).drop_last() =~= before.take(k - 1));
                    assert(errors@ =~= e0 + types_errors(t, olds.take(k as int)));
                }
            }
            proof {
                assert(olds.take(k as int) =~= olds);
                assert(f.params@.take(k as int) =~= f.params@);
            }
            resolve_type_expr(types, &mut f.return_type, errors);
            proof {
                assert(errors@ =~= e0 + type_errors(t, *old(te)));
            }
        },
    }
}

proof fn lemma_types_prefix(ts: Seq<TypeExpression>, i: int)
    requires
        0 <= i < ts.len(),
    ensures
        ts.take(i + 1).drop_last() == ts.take(i),
        ts.take(i + 1).last() == ts[i],
        type_size(ts[i]) <= types_size(ts),
        types_unresolved(ts) ==> type_unresolved(ts[i]),
    decreases ts.len(),
{
    assert(ts.take(i + 1).drop_last() =~= ts.take(i));
    if i + 1 < ts.len() {
        lemma_types_prefix(ts.drop_last(), i);
        assert(ts.drop_last()[i] == ts[i]);
    }
}

/// The alias of the given name in the table.
fn find_alias(types: &Vec<Binding>, name: &String) -> (r: Option<crate::scoped_id::ScopedId>)
    ensures
        crate::scope::opt_id(r) == assoc_get(bindings_view(types@), name@),
{
    let mut i: usize = types.len();
    proof {
        assert(types@.take(i as int) =~= types@);
    }
    while i > 0
        invariant
            i <= types@.len(),
            assoc_get(bindings_view(types@), name@) == assoc_get(bindings_view(types@.take(i as int)), name@),
        decreases i,
    {
        proof {
            assert(bindings_view(types@.take(i as int)).drop_last() =~= bindings_view(types@.take(i - 1)));
        }
        if types[i - 1].name == *name {
            return Some(types[i - 1].id.copy());
        }
        i -= 1;
    }
    proof {
        assert(bindings_view(types@.take(0)) =~= Seq::<BindingView>::empty());
    }
    None
}

/// The bound type aliases of the first `n` items, with their identifiers.
pub open spec fn alias_bindings(items: Seq<Item>, n: int) -> Seq<BindingView>
    decreases n,
{
    if n <= 0 {
        Seq::empty()
    } else {
        alias_bindings(items, n - 1) + match items[n - 1] {
            Item::TypeAliasDecl(t) => if t.ident.id@.len() > 0 {
                seq![(t.ident.token.text@, t.ident.id@)]
            } else {
                Seq::empty()
            },
            Item::BlockFnDecl(_) => Seq::empty(),
        }
    }
}

/// The table of the unit's bound type aliases.
pub fn alias_table(unit: &Unit) -> (r: Vec<Binding>)
    ensures
        bindings_view(r@) == alias_bindings(unit.items@, unit.items@.len() as int),
        bindings_assigned(bindings_view(r@)),
{
    let mut r: Vec<Binding> = Vec::new();
    let mut i: usize = 0;
    proof {
        assert(bindings_view(r@) =~= alias_bindings(unit.items@, 0));
    }
    while i < unit.items.len()
        invariant
            i <= unit.items@.len(),
            bindings_view(r@) == alias_bindings(unit.items@, i as int),
            bindings_assigned(bindings_view(r@)),
        decreases unit.items.len() - i,
    {
        match &unit.items[i] {
            Item::TypeAliasDecl(t) => {
                if !t.ident.id.is_default() {
                    r.push(Binding { name: t.ident.token.text.clone(), id: t.ident.id.copy() });
                }
            },
            Item::BlockFnDecl(_) => {},
        }
        i += 1;
        proof {
            assert(bindings_view(r@) =~= alias_bindings(unit.items@, i as int));
        }
    }
    r
}

pub open spec fn params_type_errors(t: Seq<BindingView>, ps: Seq<Parameter>) -> Seq<ErrorView>
    decreases ps.len(),
{
    if ps.len() == 0 {
        Seq::empty()
    } else {
        params_type_errors(t, ps.drop_last()) + opt_type_errors(t, ps.last().type_expr)
    }
}

/// Diagnostics for the annotations of an item: an alias's definition, a
/// function's parameter types then its return type.
pub open spec fn item_type_errors(t: Seq<BindingView>, it: Item) -> Seq<ErrorView> {
    match it {
        Item::TypeAliasDecl(a) => type_errors(t, a.type_expr),
        Item::BlockFnDecl(f) => params_type_errors(t, f.params@) + opt_type_errors(t, f.return_type),
    }
}

pub open spec fn unit_type_errors(t: Seq<BindingView>, items: Seq<Item>, n: int) -> Seq<ErrorView>
    decreases n,
{
    if n <= 0 {
        Seq::empty()
    } else {
        unit_type_errors(t, items, n - 1) + item_type_errors(t, items[n - 1])
    }
}

pub open spec fn item_types_unresolved(it: Item) -> bool {
    match it {
        Item::TypeAliasDecl(a) => type_unresolved(a.type_expr),
        Item::BlockFnDecl(f) => {
            &&& forall|k: int| 0 <= k < f.params@.len() ==> opt_type_unresolved((#[trigger] f.params@[k]).type_expr)
            &&& opt_type_unresolved(f.return_type)
        },
    }
}

/// An item after its annotations are resolved; nothing else changes.
pub open spec fn item_types_resolved(t: Seq<BindingView>, old_it: Item, new_it: Item) -> bool {
    match (old_it, new_it) {
        (Item::TypeAliasDecl(a), Item::TypeAliasDecl(b)) => b.ident == a.ident && type_resolved(t, a.type_expr, b.type_expr),
        (Item::BlockFnDecl(f), Item::BlockFnDecl(g)) => {
            &&& g.ident == f.ident
            &&& g.block == f.block
            &&& g.params@.len() == f.params@.len()
            &&& forall|k: int| 0 <= k < f.params@.len() ==> {
                &&& (#[trigger] g.params@[k]).ident == f.params@[k].ident
                &&& opt_type_resolved(t, f.params@[k].type_expr, g.params@[k].type_expr)
            }
            &&& opt_type_resolved(t, f.return_type, g.return_type)
        },
        _ => false,
    }
}

/// Resolves an optional annotation.
pub fn resolve_opt_type(types: &Vec<Binding>, te: &mut Option<TypeExpression>, errors: &mut ErrorCollector)
    requires
        bindings_assigned(bindings_view(types@)),
        opt_type_unresolved(*old(te)),
    ensures
        opt_type_resolved(bindings_view(types@), *old(te), *final(te)),
        final(errors)@ == old(errors)@ + opt_type_errors(bindings_view(types@), *old(te)),
{
    match te {
        Some(x) => {
            resolve_type_expr(types, x, errors);
        },
        None => {
            proof {
                assert(errors@ =~= old(errors)@ + Seq::empty());
            }
        },
    }
}

/// Resolves the annotations of items: alias definitions, and parameter and
/// return types of functions.
#[derive(Debug)]
pub struct ExpressionTypeIdentifier {
    pub errors: ErrorCollector,
    pub types: Vec<Binding>,
}

impl ExpressionTypeIdentifier {
    /// A pass resolving against the alias table `types`.
    pub fn new(errors: ErrorCollector, types: Vec<Binding>) -> (r: ExpressionTypeIdentifier)
        ensures
            r.errors == errors,
            r.types == types,
    {
        ExpressionTypeIdentifier { errors, types }
    }

    fn visit_fn_types(&mut self, f: &mut BlockFnDeclaration)
        requires
            bindings_assigned(bindings_view(old(self).types@)),
            item_types_unresolved(Item::BlockFnDecl(*old(f))),
        ensures
            final(self).types == old(self).types,
            item_types_resolved(bindings_view(old(self).types@), Item::BlockFnDecl(*old(f)), Item::BlockFnDecl(*final(f))),
            final(self).errors@ == old(self).errors@ + item_type_errors(bindings_view(old(self).types@), Item::BlockFnDecl(*old(f))),
    {
        let ghost t = bindings_view(self.types@);
        let ghost e0 = self.errors@;
        let ghost olds = f.params@;
        let mut k: usize = 0;
        proof {
            assert(olds.take(0) =~= Seq::<Parameter>::empty());
            assert(self.errors@ =~= e0 + params_type_errors(t, olds.take(0)));
        }
        while k < f.params.len()
            invariant
                k <= olds.len(),
                olds == old(f).params@,
                f.params@.len() == olds.len(),
                f.ident == old(f).ident,
                f.block == old(f).block,
                f.return_type == old(f).return_type,
                self.types == old(self).types,
                t == bindings_view(self.types@),
                bindings_assigned(t),
                forall|j: int| 0 <= j < olds.len() ==> opt_type_unresolved((#[trigger] olds[j]).type_expr),
                forall|j: int| k <= j < olds.len() ==> #[trigger] f.params@[j] == olds[j],
                forall|j: int| 0 <= j < k ==> {
                    &&& (#[trigger] f.params@[j]).ident == olds[j].ident
                    &&& opt_type_resolved(t, olds[j].type_expr, f.params@[j].type_expr)
                },
                self.errors@ == e0 + params_type_errors(t, olds.take(k as int)),
            decreases olds.len() - k,
        {
            resolve_opt_type(&self.types, &mut f.params[k].type_expr, &mut self.errors);
            k += 1;
            proof {
                let tk = olds.take(k as int);
                assert(tk.drop_last() =~= olds.take(k - 1));
                assert(tk.last() == olds[k - 1]);
                assert(self.errors@ =~= e0 + params_type_errors(t, tk));
            }
        }
        proof {
            assert(olds.take(k as int) =~= olds);
        }
        resolve_opt_type(&self.types, &mut f.return_type, &mut self.errors);
        proof {
            assert(self.errors@ =~= e0 + item_type_errors(t, Item::BlockFnDecl(*old(f))));
        }
    }

    /// Resolves the annotations of every item, in source order.
    pub fn visit_unit(&mut self, unit: &mut Unit)
        requires
            bindings_assigned(bindings_view(old(self).types@)),
            forall|i: int| 0 <= i < old(unit).items@.len() ==> item_types_unresolved(#[trigger] old(unit).items@[i]),
        ensures
            final(self).types == old(self).types,
            final(unit).items@.len() == old(unit).items@.len(),
            forall|i: int| 0 <= i < old(unit).items@.len() ==>
                item_types_resolved(bindings_view(old(self).types@), old(unit).items@[i], #[trigger] final(unit).items@[i]),
            final(self).errors@ == old(self).errors@ + unit_type_errors(bindings_view(old(self).types@), old(unit).items@, old(unit).items@.len() as int),
    {
        let ghost t = bindings_view(self.types@);
        let ghost e0 = self.errors@;
        let ghost items = unit.items@;
        let mut i: usize = 0;
        proof {
            assert(self.errors@ =~= e0 + unit_type_errors(t, items, 0));
        }
        while i < unit.items.len()
            invariant
                i <= items.len(),
                items == old(unit).items@,
                unit.items@.len() == items.len(),
                self.types == old(self).types,
                t == bindings_view(self.types@),
                bindings_assigned(t),
                forall|k: int| 0 <= k < items.len() ==> item_types_unresolved(#[trigger] items[k]),
                forall|k: int| i <= k < items.len() ==> #[trigger] unit.items@[k] == items[k],
                forall|k: int| 0 <= k < i ==> item_types_resolved(t, items[k], #[trigger] unit.items@[k]),
                self.errors@ == e0 + unit_type_errors(t, items, i as int),
            decreases items.len() - i,
        {
            proof {
                assert(item_types_unresolved(items[i as int]));
            }
            match &mut unit.items[i] {
                Item::BlockFnDecl(f) => {
                    self.visit_fn_types(f);
                },
                Item::TypeAliasDecl(a) => {
                    resolve_type_expr(&self.types, &mut a.type_expr, &mut self.errors);
                },
            }
            i += 1;
            proof {
                assert(self.errors@ =~= e0 + unit_type_errors(t, items, i as int));
                assert(item_types_resolved(t, items[i - 1], unit.items@[i - 1]));
            }
        }
    }
}

} // verus!
