//! First pass: identifiers for items and their parameters.
use vstd::prelude::*;
use crate::ast::{BlockFnDeclaration, Item, Parameter, TypeAliasDeclaration, Unit};
use crate::errors::{CheckerError, ErrorCollector, ErrorKind, ErrorView};
use crate::scope::{assoc_get, qualified_name, BindingView, NameScopeBuilder, ScopesView};
use crate::scoped_id::ScopedId;

verus! {

pub open spec fn item_name(it: Item) -> Seq<char> {
    it.ident().token.text@
}

pub open spec fn param_name(p: Parameter) -> Seq<char> {
    p.ident.token.text@
}

/// No two parameters share a name.
pub open spec fn params_distinct(ps: Seq<Parameter>) -> bool {
    forall|a: int, b: int| 0 <= a < b < ps.len() ==> param_name(ps[a]) != param_name(ps[b])
}

/// Length of the longest prefix of `ps` whose names are distinct: the
/// parameters before the first repeated name.
pub open spec fn first_dup(ps: Seq<Parameter>) -> nat
    decreases ps.len(),
{
    if ps.len() == 0 || params_distinct(ps) {
        ps.len()
    } else {
        first_dup(ps.drop_last())
    }
}

/// Item `i` is bound iff its name is new: not a global already, and not the
/// name of an earlier item.
pub open spec fn item_bound(g0: Seq<BindingView>, items: Seq<Item>, i: int) -> bool {
    assoc_get(g0, item_name(items[i])) is None
        && forall|j: int| 0 <= j < i ==> item_name(items[j]) != item_name(items[i])
}

/// How many of the first `n` items are bound.
pub open spec fn bound_count(g0: Seq<BindingView>, items: Seq<Item>, n: int) -> nat
    decreases n,
{
    if n <= 0 {
        0
    } else if item_bound(g0, items, n - 1) {
        bound_count(g0, items, n - 1) + 1
    } else {
        bound_count(g0, items, n - 1)
    }
}

/// The identifier item `i` receives when bound: the next sibling of `start`
/// after the bound items before it.
pub open spec fn item_id(start: Seq<u64>, g0: Seq<BindingView>, items: Seq<Item>, i: int) -> Seq<u64> {
    start.update(start.len() - 1, (start.last() + bound_count(g0, items, i)) as u64)
}

/// Global bindings made for the first `n` items.
pub open spec fn item_globals(start: Seq<u64>, g0: Seq<BindingView>, items: Seq<Item>, n: int) -> Seq<BindingView>
    decreases n,
{
    if n <= 0 {
        Seq::empty()
    } else if item_bound(g0, items, n - 1) {
        item_globals(start, g0, items, n - 1).push((item_name(items[n - 1]), item_id(start, g0, items, n - 1)))
    } else {
        item_globals(start, g0, items, n - 1)
    }
}

/// Qualified bindings made for the bound parameters of a function.
pub open spec fn param_bindings(fname: Seq<char>, fid: Seq<u64>, ps: Seq<Parameter>) -> Seq<BindingView> {
    Seq::new(first_dup(ps), |k: int| (qualified_name(fname, param_name(ps[k])), fid.push(k as u64)))
}

/// Qualified bindings made for the first `n` items.
pub open spec fn item_qualified(start: Seq<u64>, g0: Seq<BindingView>, items: Seq<Item>, n: int) -> Seq<BindingView>
    decreases n,
{
    if n <= 0 {
        Seq::empty()
    } else {
        let prev = item_qualified(start, g0, items, n - 1);
        match items[n - 1] {
            Item::BlockFnDecl(f) => if item_bound(g0, items, n - 1) {
                prev + param_bindings(item_name(items[n - 1]), item_id(start, g0, items, n - 1), f.params@)
            } else {
                prev
            },
            Item::TypeAliasDecl(_) => prev,
        }
    }
}

/// Diagnostics for one item: a repeated item name, or else the first
/// repeated parameter name of a function.
pub open spec fn item_error(g0: Seq<BindingView>, items: Seq<Item>, i: int) -> Seq<ErrorView> {
    if !item_bound(g0, items, i) {
        seq![ErrorView { kind: ErrorKind::DuplicateDefinition, token: items[i].ident().token }]
    } else {
        match items[i] {
            Item::BlockFnDecl(f) => if first_dup(f.params@) < f.params@.len() {
                seq![ErrorView {
                    kind: ErrorKind::DuplicateDefinition,
                    token: f.params@[first_dup(f.params@) as int].ident.token,
                }]
            } else {
                Seq::empty()
            },
            Item::TypeAliasDecl(_) => Seq::empty(),
        }
    }
}

/// Diagnostics for the first `n` items, in order.
pub open spec fn item_errors(g0: Seq<BindingView>, items: Seq<Item>, n: int) -> Seq<ErrorView>
    decreases n,
{
    if n <= 0 {
        Seq::empty()
    } else {
        item_errors(g0, items, n - 1) + item_error(g0, items, n - 1)
    }
}

/// All names of the item and its parameters are unassigned.
pub open spec fn item_unresolved(it: Item) -> bool {
    &&& it.ident().id@.len() == 0
    &&& match it {
        Item::BlockFnDecl(f) => forall|k: int| 0 <= k < f.params@.len() ==> (#[trigger] f.params@[k]).ident.id@.len() == 0,
        Item::TypeAliasDecl(_) => true,
    }
}

/// The parameters after the pass: those before the first repeated name carry
/// the function's id extended by their position, the rest are untouched.
pub open spec fn params_named(fid: Seq<u64>, old_ps: Seq<Parameter>, new_ps: Seq<Parameter>) -> bool {
    &&& new_ps.len() == old_ps.len()
    &&& forall|k: int| 0 <= k < old_ps.len() ==> {
        &&& (#[trigger] new_ps[k]).ident.token == old_ps[k].ident.token
        &&& new_ps[k].type_expr == old_ps[k].type_expr
        &&& new_ps[k].ident.id@ == if k < first_dup(old_ps) { fid.push(k as u64) } else { old_ps[k].ident.id@ }
    }
}

/// Item `i` after the pass: a bound item carries its id, and a bound
/// function's parameters are named; anything else is unchanged.
pub open spec fn item_named(start: Seq<u64>, g0: Seq<BindingView>, items: Seq<Item>, i: int, new_item: Item) -> bool {
    if !item_bound(g0, items, i) {
        new_item == items[i]
    } else {
        let id = item_id(start, g0, items, i);
        match (items[i], new_item) {
            (Item::BlockFnDecl(f), Item::BlockFnDecl(g)) => {
                &&& g.ident.token == f.ident.token
                &&& g.ident.id@ == id
                &&& g.return_type == f.return_type
                &&& g.block == f.block
                &&& params_named(id, f.params@, g.params@)
            },
            (Item::TypeAliasDecl(t), Item::TypeAliasDecl(u)) => {
                &&& u.ident.token == t.ident.token
                &&& u.ident.id@ == id
                &&& u.type_expr == t.type_expr
            },
            _ => false,
        }
    }
}

/// A name is bound in an association list iff some entry has it.
pub proof fn lemma_assoc_get_some(f: Seq<BindingView>, name: Seq<char>)
    ensures
        (assoc_get(f, name) is Some) <==> (exists|k: int| 0 <= k < f.len() && (#[trigger] f[k]).0 == name),
    decreases f.len(),
{
    if f.len() > 0 {
        lemma_assoc_get_some(f.drop_last(), name);
        if assoc_get(f.drop_last(), name) is Some {
            let k = choose|k: int| 0 <= k < f.drop_last().len() && (#[trigger] f.drop_last()[k]).0 == name;
            assert(f[k].0 == name);
        }
        if exists|k: int| 0 <= k < f.len() && (#[trigger] f[k]).0 == name {
            let k = choose|k: int| 0 <= k < f.len() && (#[trigger] f[k]).0 == name;
            if k < f.len() - 1 {
                assert(f.drop_last()[k].0 == name);
            }
        }
    }
}

proof fn lemma_first_dup_at(ps: Seq<Parameter>, n: int)
    requires
        0 <= n < ps.len(),
        params_distinct(ps.take(n)),
        !params_distinct(ps.take(n + 1)),
    ensures
        first_dup(ps) == n,
    decreases ps.len(),
{
    assert(!params_distinct(ps)) by {
        let (a, b) = choose|a: int, b: int| 0 <= a < b < n + 1 && param_name(#[trigger] ps.take(n + 1)[a]) == param_name(#[trigger] ps.take(n + 1)[b]);
        assert(param_name(ps[a]) == param_name(ps[b]));
    }
    if n == ps.len() - 1 {
        assert(ps.drop_last() =~= ps.take(n));
        assert(params_distinct(ps.drop_last()));
        assert(first_dup(ps.drop_last()) == n);
        assert(first_dup(ps) == first_dup(ps.drop_last()));
    } else {
        assert(ps.drop_last().take(n) =~= ps.take(n));
        assert(ps.drop_last().take(n + 1) =~= ps.take(n + 1));
        lemma_first_dup_at(ps.drop_last(), n);
    }
}

proof fn lemma_first_dup_le(ps: Seq<Parameter>)
    ensures
        first_dup(ps) <= ps.len(),
        params_distinct(ps.take(first_dup(ps) as int)),
    decreases ps.len(),
{
    if ps.len() == 0 || params_distinct(ps) {
        assert(ps.take(ps.len() as int) =~= ps);
    } else {
        lemma_first_dup_le(ps.drop_last());
        assert(ps.drop_last().take(first_dup(ps) as int) =~= ps.take(first_dup(ps) as int));
    }
}

/// Names items and their parameters, in source order.
#[derive(Debug)]
pub struct ItemVarIdentifier {
    pub errors: ErrorCollector,
    pub builder: NameScopeBuilder,
    pub current_id: ScopedId,
}

impl ItemVarIdentifier {
    /// A pass that hands out identifiers starting at `current_id`.
    pub fn new(errors: ErrorCollector, builder: NameScopeBuilder, current_id: ScopedId) -> (r: ItemVarIdentifier)
        ensures
            r.errors == errors,
            r.builder == builder,
            r.current_id == current_id,
    {
        ItemVarIdentifier { errors, builder, current_id }
    }

    /// The next identifier the pass would hand out.
    pub fn into_last_id(self) -> (r: ScopedId)
        ensures
            r == self.current_id,
    {
        self.current_id
    }

    /// Names a function and its parameters, unless the name is taken.
    pub fn visit_block_fn_decl(&mut self, block_fn: &mut BlockFnDeclaration)
        requires
            old(self).builder@.frames.len() == 0,
            old(self).current_id@.len() > 0,
            old(self).current_id@.last() < u64::MAX,
            old(block_fn).ident.id@.len() == 0,
            forall|k: int| 0 <= k < old(block_fn).params@.len() ==> (#[trigger] old(block_fn).params@[k]).ident.id@.len() == 0,
        ensures
            ({
                let name = old(block_fn).ident.token.text@;
                let id = old(self).current_id@;
                let ps = old(block_fn).params@;
                if lookup_global(old(self).builder@, name) is Some {
                    &&& *final(block_fn) == *old(block_fn)
                    &&& final(self).builder@ == old(self).builder@
                    &&& final(self).current_id@ == id
                    &&& final(self).errors@ == old(self).errors@.push(
                        ErrorView { kind: ErrorKind::DuplicateDefinition, token: old(block_fn).ident.token },
                    )
                } else {
                    &&& final(block_fn).ident.token == old(block_fn).ident.token
                    &&& final(block_fn).ident.id@ == id
                    &&& final(block_fn).return_type == old(block_fn).return_type
                    &&& final(block_fn).block == old(block_fn).block
                    &&& params_named(id, ps, final(block_fn).params@)
                    &&& final(self).builder@ == (ScopesView {
                        globals: old(self).builder@.globals.push((name, id)),
                        qualified: old(self).builder@.qualified + param_bindings(name, id, ps),
                        ..old(self).builder@
                    })
                    &&& final(self).current_id@ == crate::scoped_id::bumped(id)
                    &&& final(self).errors@ == old(self).errors@ + if first_dup(ps) < ps.len() {
                        seq![ErrorView { kind: ErrorKind::DuplicateDefinition, token: ps[first_dup(ps) as int].ident.token }]
                    } else {
                        Seq::empty()
                    }
                }
            }),
    {
        if self.builder.get(&block_fn.ident.token.text).is_some() {
            let err = CheckerError::new(
                ErrorKind::DuplicateDefinition,
                block_fn.ident.token.clone(),
                block_fn.ident.token.text.clone(),
            );
            self.errors.add_error(err);
            return;
        }
        let ghost old_ps = block_fn.params@;
        let ghost b0 = self.builder@;
        let ghost e0 = self.errors@;
        let fn_id = self.current_id.copy();
        self.builder.define_global(block_fn.ident.token.text.clone(), fn_id.copy());
        block_fn.ident.set_id(fn_id.copy());
        let ghost b1 = self.builder@;
        self.current_id.push();
        self.builder.new_scope();
        let mut j: usize = 0;
        let mut dup = false;
        proof {
            assert(b1.frames.len() == 0);
            assert(Seq::new(0, |k: int| (param_name(old_ps[k]), fn_id@.push(k as u64))) =~= Seq::<BindingView>::empty());
            assert(self.builder@.frames =~= seq![Seq::new(0, |k: int| (param_name(old_ps[k]), fn_id@.push(k as u64)))]);
            assert(self.builder@.qualified =~= b1.qualified + Seq::new(0, |k: int| (qualified_name(block_fn.ident.token.text@, param_name(old_ps[k])), fn_id@.push(k as u64))));
            assert(params_distinct(old_ps.take(0)));
        }
        while j < block_fn.params.len()
            invariant_except_break
                !dup,
                self.errors@ == e0,
            invariant
                j <= old_ps.len(),
                forall|k: int| 0 <= k < old_ps.len() ==> (#[trigger] old_ps[k]).ident.id@.len() == 0,
                block_fn.params@.len() == old_ps.len(),
                block_fn.ident.id@ == fn_id@,
                block_fn.ident.token == old(block_fn).ident.token,
                block_fn.return_type == old(block_fn).return_type,
                block_fn.block == old(block_fn).block,
                fn_id@ == old(self).current_id@,
                params_distinct(old_ps.take(j as int)),
                self.current_id@ == fn_id@.push(j as u64),
                forall|k: int| 0 <= k < old_ps.len() ==> {
                    &&& (#[trigger] block_fn.params@[k]).ident.token == old_ps[k].ident.token
                    &&& block_fn.params@[k].type_expr == old_ps[k].type_expr
                    &&& block_fn.params@[k].ident.id@ == if k < j { fn_id@.push(k as u64) } else { old_ps[k].ident.id@ }
                },
                self.builder@ == (ScopesView {
                    frames: seq![Seq::new(j as nat, |k: int| (param_name(old_ps[k]), fn_id@.push(k as u64)))],
                    qualified: b1.qualified + Seq::new(j as nat, |k: int| (qualified_name(block_fn.ident.token.text@, param_name(old_ps[k])), fn_id@.push(k as u64))),
                    ..b1
                }),
            ensures
                !dup ==> j == old_ps.len() && self.errors@ == e0,
                dup ==> j < old_ps.len() && first_dup(old_ps) == j && self.errors@ == e0.push(
                    ErrorView { kind: ErrorKind::DuplicateDefinition, token: old_ps[j as int].ident.token },
                ),
            decreases old_ps.len() - j,
        {
            let ghost frame = Seq::new(j as nat, |k: int| (param_name(old_ps[k]), fn_id@.push(k as u64)));
            proof {
                lemma_assoc_get_some(frame, param_name(old_ps[j as int]));
            }
            if self.builder.get_local(&block_fn.params[j].ident.token.text).is_some() {
                proof {
                    let k = choose|k: int| 0 <= k < frame.len() && (#[trigger] frame[k]).0 == param_name(old_ps[j as int]);
                    assert(old_ps.take(j + 1)[k] == old_ps[k]);
                    assert(old_ps.take(j + 1)[j as int] == old_ps[j as int]);
                    lemma_first_dup_at(old_ps, j as int);
                }
                let err = CheckerError::new(
                    ErrorKind::DuplicateDefinition,
                    block_fn.params[j].ident.token.clone(),
                    block_fn.params[j].ident.token.text.clone(),
                );
                self.errors.add_error(err);
                dup = true;
                break;
            }
            proof {
                assert forall|a: int, b: int| 0 <= a < b < j + 1 implies
                    param_name(#[trigger] old_ps.take(j + 1)[a]) != param_name(#[trigger] old_ps.take(j + 1)[b]) by {
                    if b < j {
                        assert(old_ps.take(j as int)[a] == old_ps[a]);
                        assert(old_ps.take(j as int)[b] == old_ps[b]);
                    } else {
                        assert(frame[a].0 == param_name(old_ps[a]));
                    }
                }
            }
            let name = block_fn.params[j].ident.token.text.clone();
            self.builder.define_local(name, self.current_id.copy());
            self.builder.define_qualified(&block_fn.ident.token.text, &block_fn.params[j].ident.token.text, self.current_id.copy());
            block_fn.params[j].ident.set_id(self.current_id.copy());
            self.current_id.increment();
            j += 1;
            proof {
                let fr = Seq::new(j as nat, |k: int| (param_name(old_ps[k]), fn_id@.push(k as u64)));
                assert(fr =~= frame.push((param_name(old_ps[j - 1]), fn_id@.push((j - 1) as u64))));
                assert(self.builder@.frames =~= seq![fr]);
                let q = Seq::new(j as nat, |k: int| (qualified_name(block_fn.ident.token.text@, param_name(old_ps[k])), fn_id@.push(k as u64)));
                let q0 = Seq::new((j - 1) as nat, |k: int| (qualified_name(block_fn.ident.token.text@, param_name(old_ps[k])), fn_id@.push(k as u64)));
                assert(q =~= q0.push((qualified_name(block_fn.ident.token.text@, param_name(old_ps[j - 1])), fn_id@.push((j - 1) as u64))));
                assert(self.builder@.qualified =~= b1.qualified + q);
                assert(self.current_id@ =~= fn_id@.push(j as u64));
            }
        }
        proof {
            if !dup {
                assert(old_ps.take(j as int) =~= old_ps);
            }
            if !dup {
                assert(first_dup(old_ps) == old_ps.len());
            }
        }
        self.builder.pop();
        self.current_id.pop();
        self.current_id.increment();
        proof {
            let fd = first_dup(old_ps);
            assert(fd == j);
            assert(param_bindings(old(block_fn).ident.token.text@, fn_id@, old_ps) =~=
                Seq::new(j as nat, |k: int| (qualified_name(block_fn.ident.token.text@, param_name(old_ps[k])), fn_id@.push(k as u64))));
            assert(self.builder@.frames =~= b0.frames);
        }
    }
}

impl ItemVarIdentifier {
    /// Names a type alias, unless the name is taken.
    pub fn visit_type_alias_decl(&mut self, typedef: &mut TypeAliasDeclaration)
        requires
            old(self).builder@.frames.len() == 0,
            old(self).current_id@.len() > 0,
            old(self).current_id@.last() < u64::MAX,
            old(typedef).ident.id@.len() == 0,
        ensures
            ({
                let name = old(typedef).ident.token.text@;
                let id = old(self).current_id@;
                if lookup_global(old(self).builder@, name) is Some {
                    &&& *final(typedef) == *old(typedef)
                    &&& final(self).builder@ == old(self).builder@
                    &&& final(self).current_id@ == id
                    &&& final(self).errors@ == old(self).errors@.push(
                        ErrorView { kind: ErrorKind::DuplicateDefinition, token: old(typedef).ident.token },
                    )
                } else {
                    &&& final(typedef).ident.token == old(typedef).ident.token
                    &&& final(typedef).ident.id@ == id
                    &&& final(typedef).type_expr == old(typedef).type_expr
                    &&& final(self).builder@ == (ScopesView {
                        globals: old(self).builder@.globals.push((name, id)),
                        ..old(self).builder@
                    })
                    &&& final(self).current_id@ == crate::scoped_id::bumped(id)
                    &&& final(self).errors@ == old(self).errors@
                }
            }),
    {
        if self.builder.get(&typedef.ident.token.text).is_some() {
            let err = CheckerError::new(
                ErrorKind::DuplicateDefinition,
                typedef.ident.token.clone(),
                typedef.ident.token.text.clone(),
            );
            self.errors.add_error(err);
            return;
        }
        typedef.ident.set_id(self.current_id.copy());
        self.builder.define_global(typedef.ident.token.text.clone(), self.current_id.copy());
        self.current_id.increment();
    }

    /// Names every item of the unit in source order, so that any function
    /// can refer to any other, declared before or after it.
    pub fn visit_unit(&mut self, unit: &mut Unit)
        requires
            old(self).builder@.frames.len() == 0,
            old(self).current_id@.len() > 0,
            old(self).current_id@.last() + old(unit).items@.len() <= u64::MAX,
            forall|i: int| 0 <= i < old(unit).items@.len() ==> item_unresolved(#[trigger] old(unit).items@[i]),
        ensures
            ({
                let items = old(unit).items@;
                let start = old(self).current_id@;
                let g0 = old(self).builder@.globals;
                let n = items.len() as int;
                &&& final(unit).items@.len() == items.len()
                &&& forall|i: int| 0 <= i < n ==> item_named(start, g0, items, i, #[trigger] final(unit).items@[i])
                &&& final(self).builder@ == (ScopesView {
                    globals: g0 + item_globals(start, g0, items, n),
                    qualified: old(self).builder@.qualified + item_qualified(start, g0, items, n),
                    ..old(self).builder@
                })
                &&& final(self).current_id@ == start.update(start.len() - 1, (start.last() + bound_count(g0, items, n)) as u64)
                &&& final(self).errors@ == old(self).errors@ + item_errors(g0, items, n)
            }),
    {
        let ghost items = unit.items@;
        let ghost start = self.current_id@;
        let ghost b0 = self.builder@;
        let ghost g0 = b0.globals;
        let ghost e0 = self.errors@;
        let mut i: usize = 0;
        proof {
            assert(g0 + item_globals(start, g0, items, 0) =~= g0);
            assert(b0.qualified + item_qualified(start, g0, items, 0) =~= b0.qualified);
            assert(e0 + item_errors(g0, items, 0) =~= e0);
            assert(start.update(start.len() - 1, (start.last() + 0) as u64) =~= start);
        }
        while i < unit.items.len()
            invariant
                i <= items.len(),
                unit.items@.len() == items.len(),
                start.len() > 0,
                start.last() + items.len() <= u64::MAX,
                forall|k: int| 0 <= k < items.len() ==> item_unresolved(#[trigger] items[k]),
                forall|k: int| 0 <= k < i ==> item_named(start, g0, items, k, #[trigger] unit.items@[k]),
                forall|k: int| i <= k < items.len() ==> #[trigger] unit.items@[k] == items[k],
                self.builder@ == (ScopesView {
                    globals: g0 + item_globals(start, g0, items, i as int),
                    qualified: b0.qualified + item_qualified(start, g0, items, i as int),
                    ..b0
                }),
                b0.frames.len() == 0,
                self.current_id@ == start.update(start.len() - 1, (start.last() + bound_count(g0, items, i as int)) as u64),
                self.errors@ == e0 + item_errors(g0, items, i as int),
            decreases items.len() - i,
        {
            proof {
                lemma_bound_count_le(g0, items, i as int);
                lemma_bound_iff(start, g0, items, i as int);
            }
            match &mut unit.items[i] {
                Item::BlockFnDecl(f) => {
                    self.visit_block_fn_decl(f);
                },
                Item::TypeAliasDecl(t) => {
                    self.visit_type_alias_decl(t);
                },
            }
            i += 1;
            proof {
                let k = (i - 1) as int;
                assert(item_name(items[k]) == items[k].ident().token.text@);
                if item_bound(g0, items, k) {
                    assert(item_globals(start, g0, items, i as int) == item_globals(start, g0, items, k).push(
                        (item_name(items[k]), item_id(start, g0, items, k))));
                    assert(self.builder@.globals =~= g0 + item_globals(start, g0, items, i as int));
                    assert(self.current_id@ =~= start.update(start.len() - 1, (start.last() + bound_count(g0, items, i as int)) as u64));
                } else {
                    assert(item_error(g0, items, k) =~= seq![ErrorView { kind: ErrorKind::DuplicateDefinition, token: items[k].ident().token }]);
                }
                assert(self.builder@.qualified =~= b0.qualified + item_qualified(start, g0, items, i as int));
                assert(self.errors@ =~= e0 + item_errors(g0, items, i as int));
                assert(item_named(start, g0, items, k, unit.items@[k]));
            }
        }
    }
}

proof fn lemma_bound_count_le(g0: Seq<BindingView>, items: Seq<Item>, n: int)
    ensures
        bound_count(g0, items, n) <= if n < 0 { 0 } else { n },
    decreases n,
{
    if n > 0 {
        lemma_bound_count_le(g0, items, n - 1);
    }
}

proof fn lemma_item_globals_names(start: Seq<u64>, g0: Seq<BindingView>, items: Seq<Item>, n: int, name: Seq<char>)
    requires
        0 <= n <= items.len(),
    ensures
        (exists|k: int| 0 <= k < item_globals(start, g0, items, n).len() && (#[trigger] item_globals(start, g0, items, n)[k]).0 == name)
            <==> (exists|j: int| 0 <= j < n && item_bound(g0, items, j) && #[trigger] item_name(items[j]) == name),
    decreases n,
{
    if n > 0 {
        lemma_item_globals_names(start, g0, items, n - 1, name);
        let prev = item_globals(start, g0, items, n - 1);
        let cur = item_globals(start, g0, items, n);
        if exists|k: int| 0 <= k < cur.len() && (#[trigger] cur[k]).0 == name {
            let k = choose|k: int| 0 <= k < cur.len() && (#[trigger] cur[k]).0 == name;
            if k < prev.len() {
                assert(prev[k] == cur[k]);
            } else {
                assert(item_name(items[n - 1]) == name);
            }
        }
        if exists|j: int| 0 <= j < n && item_bound(g0, items, j) && #[trigger] item_name(items[j]) == name {
            let j = choose|j: int| 0 <= j < n && item_bound(g0, items, j) && #[trigger] item_name(items[j]) == name;
            if j < n - 1 {
                let k = choose|k: int| 0 <= k < prev.len() && (#[trigger] prev[k]).0 == name;
                assert(cur[k] == prev[k]);
            } else {
                assert(cur[prev.len() as int].0 == name);
            }
        }
    }
}

proof fn lemma_earlier_bound(g0: Seq<BindingView>, items: Seq<Item>, j: int, name: Seq<char>)
    requires
        0 <= j < items.len(),
        item_name(items[j]) == name,
        assoc_get(g0, name) is None,
    ensures
        exists|j2: int| 0 <= j2 <= j && item_bound(g0, items, j2) && #[trigger] item_name(items[j2]) == name,
    decreases j,
{
    if !item_bound(g0, items, j) {
        let j1 = choose|j1: int| 0 <= j1 < j && item_name(items[j1]) == name;
        lemma_earlier_bound(g0, items, j1, name);
        let j2 = choose|j2: int| 0 <= j2 <= j1 && item_bound(g0, items, j2) && #[trigger] item_name(items[j2]) == name;
        assert(0 <= j2 <= j);
    }
}

proof fn lemma_bound_iff(start: Seq<u64>, g0: Seq<BindingView>, items: Seq<Item>, i: int)
    requires
        0 <= i < items.len(),
    ensures
        (assoc_get(g0 + item_globals(start, g0, items, i), item_name(items[i])) is None) <==> item_bound(g0, items, i),
{
    let name = item_name(items[i]);
    let ig = item_globals(start, g0, items, i);
    let all = g0 + ig;
    lemma_assoc_get_some(all, name);
    lemma_assoc_get_some(g0, name);
    lemma_item_globals_names(start, g0, items, i, name);
    if assoc_get(all, name) is Some {
        let k = choose|k: int| 0 <= k < all.len() && (#[trigger] all[k]).0 == name;
        if k >= g0.len() {
            assert(ig[k - g0.len()].0 == name);
            let j = choose|j: int| 0 <= j < i && item_bound(g0, items, j) && #[trigger] item_name(items[j]) == name;
        } else {
            assert(g0[k].0 == name);
        }
    } else {
        if assoc_get(g0, name) is Some {
            let k = choose|k: int| 0 <= k < g0.len() && (#[trigger] g0[k]).0 == name;
            assert(all[k].0 == name);
        }
        if !item_bound(g0, items, i) {
            let j1 = choose|j1: int| 0 <= j1 < i && item_name(items[j1]) == name;
            lemma_earlier_bound(g0, items, j1, name);
            let j2 = choose|j2: int| 0 <= j2 <= j1 && item_bound(g0, items, j2) && #[trigger] item_name(items[j2]) == name;
            let k = choose|k: int| 0 <= k < ig.len() && (#[trigger] ig[k]).0 == name;
            assert(all[g0.len() + k].0 == name);
        }
    }
}

proof fn lemma_visible_from(start: Seq<u64>, g0: Seq<BindingView>, items: Seq<Item>, j: int, n: int)
    requires
        0 <= j < n <= items.len(),
        item_bound(g0, items, j),
    ensures
        assoc_get(g0 + item_globals(start, g0, items, n), item_name(items[j])) == Some(item_id(start, g0, items, j)),
    decreases n,
{
    let prev = item_globals(start, g0, items, n - 1);
    if n == j + 1 {
        let all = (g0 + prev).push((item_name(items[j]), item_id(start, g0, items, j)));
        assert(g0 + item_globals(start, g0, items, n) =~= all);
        assert(all.last() == (item_name(items[j]), item_id(start, g0, items, j)));
    } else {
        lemma_visible_from(start, g0, items, j, n - 1);
        if item_bound(g0, items, n - 1) {
            assert(item_name(items[j]) != item_name(items[n - 1]));
            let all = (g0 + prev).push((item_name(items[n - 1]), item_id(start, g0, items, n - 1)));
            assert(g0 + item_globals(start, g0, items, n) =~= all);
            assert(all.drop_last() =~= g0 + prev);
        }
    }
}

/// After the item pass every bound item is visible by its name, whether it
/// is declared before or after the place that refers to it: a function may
/// call one declared later in the unit.
pub proof fn lemma_items_visible(start: Seq<u64>, g0: Seq<BindingView>, items: Seq<Item>, j: int)
    requires
        0 <= j < items.len(),
        item_bound(g0, items, j),
    ensures
        assoc_get(g0 + item_globals(start, g0, items, items.len() as int), item_name(items[j]))
            == Some(item_id(start, g0, items, j)),
{
    lemma_visible_from(start, g0, items, j, items.len() as int);
}

/// A bound function with a repeated parameter name gets exactly one
/// diagnostic, at the first repetition, and its parameters from there on
/// stay unbound.
pub proof fn lemma_duplicate_parameter(start: Seq<u64>, g0: Seq<BindingView>, items: Seq<Item>, i: int, new_item: Item)
    requires
        0 <= i < items.len(),
        item_bound(g0, items, i),
        items[i] is BlockFnDecl,
        !params_distinct(items[i]->BlockFnDecl_0.params@),
        item_unresolved(items[i]),
        item_named(start, g0, items, i, new_item),
    ensures
        ({
            let ps = items[i]->BlockFnDecl_0.params@;
            &&& first_dup(ps) < ps.len()
            &&& item_error(g0, items, i) == seq![ErrorView {
                kind: ErrorKind::DuplicateDefinition,
                token: ps[first_dup(ps) as int].ident.token,
            }]
            &&& new_item is BlockFnDecl
            &&& forall|k: int| first_dup(ps) <= k < ps.len() ==> (#[trigger] new_item->BlockFnDecl_0.params@[k]).ident.id@.len() == 0
        }),
{
    let ps = items[i]->BlockFnDecl_0.params@;
    lemma_first_dup_le(ps);
    if first_dup(ps) == ps.len() {
        assert(ps.take(ps.len() as int) =~= ps);
    }
    let g = new_item->BlockFnDecl_0;
    assert forall|k: int| first_dup(ps) <= k < ps.len() implies (#[trigger] g.params@[k]).ident.id@.len() == 0 by {
        assert(ps[k].ident.id@.len() == 0);
    }
}

/// When the item pass reports nothing, every item is bound, and no
/// function repeats a parameter name, so all parameters are bound too.
pub proof fn lemma_items_clean(g0: Seq<BindingView>, items: Seq<Item>, n: int)
    requires
        0 <= n <= items.len(),
        item_errors(g0, items, n).len() == 0,
    ensures
        forall|i: int| 0 <= i < n ==> #[trigger] item_bound(g0, items, i) && match items[i] {
            Item::BlockFnDecl(f) => first_dup(f.params@) == f.params@.len(),
            Item::TypeAliasDecl(_) => true,
        },
    decreases n,
{
    if n > 0 {
        lemma_items_clean(g0, items, n - 1);
        let i = n - 1;
        assert(item_error(g0, items, i).len() == 0);
        if let Item::BlockFnDecl(f) = items[i] {
            lemma_first_dup_le(f.params@);
        }
    }
}

/// Lookup with no local frames.
pub open spec fn lookup_global(v: ScopesView, name: Seq<char>) -> Option<Seq<u64>> {
    assoc_get(v.globals, name)
}

} // verus!
