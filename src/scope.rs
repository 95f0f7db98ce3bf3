//! Stack of lexical name frames plus the global namespaces.
use vstd::prelude::*;
use crate::scoped_id::ScopedId;

verus! {

/// A name bound to an identifier.
#[derive(Debug)]
pub struct Binding {
    pub name: String,
    pub id: ScopedId,
}

pub type BindingView = (Seq<char>, Seq<u64>);

/// The state of a builder as plain values.
pub struct ScopesView {
    /// Local frames, innermost last.
    pub frames: Seq<Seq<BindingView>>,
    /// Item names.
    pub globals: Seq<BindingView>,
    /// `function::parameter` names.
    pub qualified: Seq<BindingView>,
}

pub open spec fn binding_view(b: Binding) -> BindingView {
    (b.name@, b.id@)
}

pub open spec fn bindings_view(v: Seq<Binding>) -> Seq<BindingView> {
    v.map_values(|b: Binding| binding_view(b))
}

/// The latest binding of `name` in an association list.
pub open spec fn assoc_get(f: Seq<BindingView>, name: Seq<char>) -> Option<Seq<u64>>
    decreases f.len(),
{
    if f.len() == 0 {
        None
    } else if f.last().0 == name {
        Some(f.last().1)
    } else {
        assoc_get(f.drop_last(), name)
    }
}

/// Innermost-first search of the frames.
pub open spec fn frames_get(frames: Seq<Seq<BindingView>>, name: Seq<char>) -> Option<Seq<u64>>
    decreases frames.len(),
{
    if frames.len() == 0 {
        None
    } else {
        match assoc_get(frames.last(), name) {
            Some(id) => Some(id),
            None => frames_get(frames.drop_last(), name),
        }
    }
}

/// Lookup order: frames innermost first, then the global names.
pub open spec fn lookup(v: ScopesView, name: Seq<char>) -> Option<Seq<u64>> {
    match frames_get(v.frames, name) {
        Some(id) => Some(id),
        None => assoc_get(v.globals, name),
    }
}

/// Lookup in the innermost frame alone.
pub open spec fn local_lookup(v: ScopesView, name: Seq<char>) -> Option<Seq<u64>> {
    if v.frames.len() == 0 {
        None
    } else {
        assoc_get(v.frames.last(), name)
    }
}

/// The qualified name `function::parameter`.
pub open spec fn qualified_name(function: Seq<char>, param: Seq<char>) -> Seq<char> {
    function + seq![':', ':'] + param
}

pub open spec fn opt_id(r: Option<ScopedId>) -> Option<Seq<u64>> {
    match r {
        Some(x) => Some(x@),
        None => None,
    }
}

/// Latest binding of `name` in `v`.
fn find_binding(v: &Vec<Binding>, name: &String) -> (r: Option<ScopedId>)
    ensures
        opt_id(r) == assoc_get(bindings_view(v@), name@),
{
    let mut i: usize = v.len();
    proof {
        assert(v@.take(i as int) =~= v@);
    }
    while i > 0
        invariant
            i <= v@.len(),
            assoc_get(bindings_view(v@), name@) == assoc_get(bindings_view(v@.take(i as int)), name@),
        decreases i,
    {
        let ghost pre = bindings_view(v@.take(i as int));
        proof {
            assert(pre.drop_last() =~= bindings_view(v@.take(i - 1)));
        }
        if v[i - 1].name == *name {
            return Some(v[i - 1].id.copy());
        }
        i -= 1;
    }
    proof {
        assert(bindings_view(v@.take(0)) =~= Seq::<BindingView>::empty());
    }
    None
}

/// Stack of name frames plus the global and qualified namespaces.
#[derive(Debug)]
pub struct NameScopeBuilder {
    frames: Vec<Vec<Binding>>,
    globals: Vec<Binding>,
    qualified: Vec<Binding>,
}

impl View for NameScopeBuilder {
    type V = ScopesView;

    closed spec fn view(&self) -> ScopesView {
        ScopesView {
            frames: self.frames@.map_values(|f: Vec<Binding>| bindings_view(f@)),
            globals: bindings_view(self.globals@),
            qualified: bindings_view(self.qualified@),
        }
    }
}

impl NameScopeBuilder {
    /// A builder with no frames and empty namespaces.
    pub fn new() -> (r: NameScopeBuilder)
        ensures
            r@.frames.len() == 0,
            r@.globals.len() == 0,
            r@.qualified.len() == 0,
    {
        NameScopeBuilder { frames: Vec::new(), globals: Vec::new(), qualified: Vec::new() }
    }

    /// Pushes an empty frame.
    pub fn new_scope(&mut self)
        ensures
            final(self)@ == (ScopesView { frames: old(self)@.frames.push(Seq::empty()), ..old(self)@ }),
    {
        self.frames.push(Vec::new());
        proof {
            assert(bindings_view(final(self).frames@.last()@) =~= Seq::<BindingView>::empty());
            assert(final(self)@.frames =~= old(self)@.frames.push(Seq::empty()));
        }
    }

    /// Discards the innermost frame.
    pub fn pop(&mut self)
        requires
            old(self)@.frames.len() > 0,
        ensures
            final(self)@ == (ScopesView { frames: old(self)@.frames.drop_last(), ..old(self)@ }),
    {
        self.frames.pop();
        proof {
            assert(final(self)@.frames =~= old(self)@.frames.drop_last());
        }
    }

    /// Binds `name` in the innermost frame.
    pub fn define_local(&mut self, name: String, id: ScopedId)
        requires
            old(self)@.frames.len() > 0,
        ensures
            final(self)@ == (ScopesView {
                frames: old(self)@.frames.update(
                    old(self)@.frames.len() - 1,
                    old(self)@.frames.last().push((name@, id@)),
                ),
                ..old(self)@
            }),
    {
        let ghost b = Binding { name, id };
        let last = self.frames.len() - 1;
        self.frames[last].push(Binding { name, id });
        proof {
            let f = old(self).frames@[last as int];
            assert(bindings_view(final(self).frames@[last as int]@) =~= bindings_view(f@).push(
                (name@, id@),
            ));
            assert(final(self)@.frames =~= old(self)@.frames.update(
                old(self)@.frames.len() - 1,
                old(self)@.frames.last().push((name@, id@)),
            ));
        }
    }

    /// Binds `name` in the global namespace.
    pub fn define_global(&mut self, name: String, id: ScopedId)
        ensures
            final(self)@ == (ScopesView { globals: old(self)@.globals.push((name@, id@)), ..old(self)@ }),
    {
        self.globals.push(Binding { name, id });
        proof {
            assert(final(self)@.globals =~= old(self)@.globals.push((name@, id@)));
        }
    }

    /// Binds `function::param` in the qualified namespace.
    pub fn define_qualified(&mut self, function: &String, param: &String, id: ScopedId)
        ensures
            final(self)@ == (ScopesView {
                qualified: old(self)@.qualified.push((qualified_name(function@, param@), id@)),
                ..old(self)@
            }),
    {
        let mut name = function.clone();
        name.append("::");
        name.append(param.as_str());
        proof {
            reveal_strlit("::");
            assert(name@ =~= qualified_name(function@, param@));
        }
        self.qualified.push(Binding { name, id });
        proof {
            assert(final(self)@.qualified =~= old(self)@.qualified.push(
                (qualified_name(function@, param@), id@),
            ));
        }
    }

    /// Innermost-first search of the frames, then the global names.
    pub fn get(&self, name: &String) -> (r: Option<ScopedId>)
        ensures
            opt_id(r) == lookup(self@, name@),
    {
        let mut i: usize = self.frames.len();
        proof {
            assert(self@.frames.take(i as int) =~= self@.frames);
        }
        while i > 0
            invariant
                i <= self.frames@.len(),
                frames_get(self@.frames, name@) == frames_get(self@.frames.take(i as int), name@),
            decreases i,
        {
            proof {
                assert(self@.frames.take(i as int).drop_last() =~= self@.frames.take(i - 1));
            }
            let found = find_binding(&self.frames[i - 1], name);
            if found.is_some() {
                return found;
            }
            i -= 1;
        }
        find_binding(&self.globals, name)
    }

    /// Search of the innermost frame alone.
    pub fn get_local(&self, name: &String) -> (r: Option<ScopedId>)
        ensures
            opt_id(r) == local_lookup(self@, name@),
    {
        if self.frames.len() == 0 {
            return None;
        }
        find_binding(&self.frames[self.frames.len() - 1], name)
    }

    /// Search of the qualified namespace for `function::param`.
    pub fn get_qualified(&self, function: &String, param: &String) -> (r: Option<ScopedId>)
        ensures
            opt_id(r) == assoc_get(self@.qualified, qualified_name(function@, param@)),
    {
        let mut name = function.clone();
        name.append("::");
        name.append(param.as_str());
        proof {
            reveal_strlit("::");
            assert(name@ =~= qualified_name(function@, param@));
        }
        find_binding(&self.qualified, &name)
    }
}


/// Every identifier bound in the view is assigned.
pub open spec fn bindings_assigned(f: Seq<BindingView>) -> bool {
    forall|k: int| 0 <= k < f.len() ==> (#[trigger] f[k]).1.len() > 0
}

pub open spec fn scopes_assigned(v: ScopesView) -> bool {
    &&& forall|i: int| 0 <= i < v.frames.len() ==> bindings_assigned(#[trigger] v.frames[i])
    &&& bindings_assigned(v.globals)
}

/// Looking up in assigned bindings yields an assigned identifier.
pub proof fn lemma_assoc_get_assigned(f: Seq<BindingView>, name: Seq<char>)
    requires
        bindings_assigned(f),
    ensures
        assoc_get(f, name) matches Some(id) ==> id.len() > 0,
    decreases f.len(),
{
    if f.len() > 0 {
        assert(bindings_assigned(f.drop_last()));
        lemma_assoc_get_assigned(f.drop_last(), name);
        assert(f[f.len() - 1] == f.last());
    }
}

/// Looking up in assigned frames yields an assigned identifier.
pub proof fn lemma_frames_get_assigned(frames: Seq<Seq<BindingView>>, name: Seq<char>)
    requires
        forall|i: int| 0 <= i < frames.len() ==> bindings_assigned(#[trigger] frames[i]),
    ensures
        frames_get(frames, name) matches Some(id) ==> id.len() > 0,
    decreases frames.len(),
{
    if frames.len() > 0 {
        assert(bindings_assigned(frames[frames.len() - 1]));
        lemma_assoc_get_assigned(frames.last(), name);
        assert forall|i: int| 0 <= i < frames.drop_last().len() implies bindings_assigned(#[trigger] frames.drop_last()[i]) by {
            assert(frames.drop_last()[i] == frames[i]);
        }
        lemma_frames_get_assigned(frames.drop_last(), name);
    }
}

/// A lookup in a view whose identifiers are assigned yields an assigned one.
pub proof fn lemma_lookup_assigned(v: ScopesView, name: Seq<char>)
    requires
        scopes_assigned(v),
    ensures
        lookup(v, name) matches Some(id) ==> id.len() > 0,
        local_lookup(v, name) matches Some(id) ==> id.len() > 0,
{
    lemma_frames_get_assigned(v.frames, name);
    lemma_assoc_get_assigned(v.globals, name);
    if v.frames.len() > 0 {
        assert(bindings_assigned(v.frames[v.frames.len() - 1]));
        lemma_assoc_get_assigned(v.frames.last(), name);
    }
}

} // verus!
