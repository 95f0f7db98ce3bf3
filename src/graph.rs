//! Constraint graph relating identifiers to each other and to fixed types.
use vstd::prelude::*;
use crate::scoped_id::ScopedId;
use crate::types::ConcreteType;
use vstd::set_lib::{lemma_int_range, lemma_len_subset, set_int_range};

verus! {

/// One side of a type relation: the type of an identifier, or a fixed type.
#[derive(Debug)]
pub enum Term {
    Var(ScopedId),
    Fixed(ConcreteType),
    /// A type the syntax says nothing about.
    Free,
}

pub enum TermView {
    Var(Seq<u64>),
    Fixed(ConcreteType),
    Free,
}

impl View for Term {
    type V = TermView;

    open spec fn view(&self) -> TermView {
        match self {
            Term::Var(id) => TermView::Var(id@),
            Term::Fixed(t) => TermView::Fixed(*t),
            Term::Free => TermView::Free,
        }
    }
}

impl Term {
    /// A copy of this term.
    pub fn copy(&self) -> (r: Term)
        ensures
            r@ == self@,
    {
        match self {
            Term::Var(id) => Term::Var(id.copy()),
            Term::Fixed(t) => Term::Fixed(*t),
            Term::Free => Term::Free,
        }
    }
}

/// The graph as plain values: nodes are identifiers, `links` say that two
/// nodes have the same type, `fixed` that a node has a given type.
pub struct GraphView {
    pub nodes: Seq<Seq<u64>>,
    pub links: Seq<(int, int)>,
    pub fixed: Seq<(int, ConcreteType)>,
}

pub open spec fn graph_wf(g: GraphView) -> bool {
    &&& forall|a: int, b: int| 0 <= a < b < g.nodes.len() ==> g.nodes[a] != g.nodes[b]
    &&& forall|k: int| 0 <= k < g.links.len() ==> 0 <= (#[trigger] g.links[k]).0 < g.nodes.len() && 0 <= g.links[k].1 < g.nodes.len()
    &&& forall|k: int| 0 <= k < g.fixed.len() ==> 0 <= (#[trigger] g.fixed[k]).0 < g.nodes.len()
}

/// The node of an identifier, if it has one.
pub open spec fn node_of(g: GraphView, id: Seq<u64>) -> Option<int> {
    if exists|i: int| 0 <= i < g.nodes.len() && g.nodes[i] == id {
        Some(choose|i: int| 0 <= i < g.nodes.len() && g.nodes[i] == id)
    } else {
        None
    }
}

/// Two nodes joined by a link, in either direction.
pub open spec fn linked(g: GraphView, a: int, b: int) -> bool {
    exists|k: int| 0 <= k < g.links.len() && (g.links[k] == (a, b) || g.links[k] == (b, a))
}

/// `b` is reached from `a` by `n` links.
pub open spec fn reach(g: GraphView, a: int, b: int, n: nat) -> bool
    decreases n,
{
    if n == 0 {
        a == b
    } else {
        exists|c: int| reach(g, a, c, (n - 1) as nat) && #[trigger] linked(g, c, b)
    }
}

pub open spec fn connected(g: GraphView, a: int, b: int) -> bool {
    exists|n: nat| reach(g, a, b, n)
}

/// `t` is fixed on some node connected to the node of `id`.
pub open spec fn candidate(g: GraphView, id: Seq<u64>, t: ConcreteType) -> bool {
    match node_of(g, id) {
        Some(s) => exists|k: int| 0 <= k < g.fixed.len() && (#[trigger] g.fixed[k]).1 == t && connected(g, s, g.fixed[k].0),
        None => false,
    }
}

/// Solving for `id` succeeds with `t` iff `t` is its only candidate.
pub open spec fn solved(g: GraphView, id: Seq<u64>, t: ConcreteType) -> bool {
    candidate(g, id, t) && forall|u: ConcreteType| u != t ==> !candidate(g, id, u)
}

/// Equations over identifiers, solved by following links.
#[derive(Debug)]
pub struct TypeGraph {
    nodes: Vec<ScopedId>,
    links: Vec<(usize, usize)>,
    fixed: Vec<(usize, ConcreteType)>,
}

impl View for TypeGraph {
    type V = GraphView;

    closed spec fn view(&self) -> GraphView {
        GraphView {
            nodes: self.nodes@.map_values(|n: ScopedId| n@),
            links: self.links@.map_values(|l: (usize, usize)| (l.0 as int, l.1 as int)),
            fixed: self.fixed@.map_values(|f: (usize, ConcreteType)| (f.0 as int, f.1)),
        }
    }
}

impl TypeGraph {
    /// A graph with no equations.
    pub fn new() -> (r: TypeGraph)
        ensures
            r@.nodes.len() == 0,
            r@.links.len() == 0,
            r@.fixed.len() == 0,
            graph_wf(r@),
    {
        TypeGraph { nodes: Vec::new(), links: Vec::new(), fixed: Vec::new() }
    }

    /// The node of `id`, if the graph has one.
    pub fn find_node(&self, id: &ScopedId) -> (r: Option<usize>)
        requires
            graph_wf(self@),
        ensures
            match r {
                Some(i) => node_of(self@, id@) == Some(i as int),
                None => node_of(self@, id@) is None,
            },
    {
        let mut i: usize = 0;
        while i < self.nodes.len()
            invariant
                i <= self.nodes@.len(),
                graph_wf(self@),
                forall|j: int| 0 <= j < i ==> self@.nodes[j] != id@,
            decreases self.nodes.len() - i,
        {
            if self.nodes[i].same(id) {
                proof {
                    lemma_node_of_at(self@, i as int, id@);
                }
                return Some(i);
            }
            i += 1;
        }
        None
    }

    /// The node of `id`, added if the graph has none.
    fn node(&mut self, id: &ScopedId) -> (r: usize)
        requires
            graph_wf(old(self)@),
        ensures
            graph_wf(final(self)@),
            final(self)@.links == old(self)@.links,
            final(self)@.fixed == old(self)@.fixed,
            node_of(old(self)@, id@) is Some ==> final(self)@.nodes == old(self)@.nodes,
            node_of(old(self)@, id@) is None ==> final(self)@.nodes == old(self)@.nodes.push(id@),
            node_of(final(self)@, id@) == Some(r as int),
            r < final(self)@.nodes.len(),
    {
        match self.find_node(id) {
            Some(i) => i,
            None => {
                let n = self.nodes.len();
                self.nodes.push(id.copy());
                proof {
                    assert(self@.nodes =~= old(self)@.nodes.push(id@));
                    assert(self@.links =~= old(self)@.links);
                    assert(self@.fixed =~= old(self)@.fixed);
                    assert forall|a: int, b: int| 0 <= a < b < self@.nodes.len() implies self@.nodes[a] != self@.nodes[b] by {
                        if b == n {
                            assert(old(self)@.nodes[a] != id@);
                        } else {
                            assert(old(self)@.nodes[a] != old(self)@.nodes[b]);
                        }
                    }
                    lemma_node_of_at(self@, n as int, id@);
                }
                n
            },
        }
    }

    /// Records that `a` and `b` have the same type. A relation between two
    /// fixed types, or with a free one, records nothing.
    pub fn relate(&mut self, a: &Term, b: &Term)
        requires
            graph_wf(old(self)@),
        ensures
            graph_wf(final(self)@),
            final(self)@ == with_relation(old(self)@, a@, b@),
    {
        match (a, b) {
            (Term::Var(x), Term::Var(y)) => {
                let i = self.node(x);
                let ghost mid = self@;
                let j = self.node(y);
                self.links.push((i, j));
                proof {
                    assert(self@.links =~= old(self)@.links.push((i as int, j as int)));
                    assert(graph_wf(self@)) by {
                        assert forall|k: int| 0 <= k < self@.links.len() implies
                            0 <= (#[trigger] self@.links[k]).0 < self@.nodes.len() && 0 <= self@.links[k].1 < self@.nodes.len() by {
                            if k < old(self)@.links.len() {
                                assert(self@.links[k] == old(self)@.links[k]);
                            }
                        }
                    }
                    assert(self@.nodes[i as int] == mid.nodes[i as int]);
                    lemma_node_of_at(self@, i as int, x@);
                    lemma_node_of_at(self@, j as int, y@);
                    assert(self@.links =~= old(self)@.links.push((i as int, j as int)));
                }
            },
            (Term::Var(x), Term::Fixed(t)) => {
                let i = self.node(x);
                self.fixed.push((i, *t));
                proof {
                    assert(self@.fixed =~= old(self)@.fixed.push((i as int, *t)));
                    assert(graph_wf(self@)) by {
                        assert forall|k: int| 0 <= k < self@.fixed.len() implies
                            0 <= (#[trigger] self@.fixed[k]).0 < self@.nodes.len() by {
                            if k < old(self)@.fixed.len() {
                                assert(self@.fixed[k] == old(self)@.fixed[k]);
                            }
                        }
                    }
                    lemma_node_of_at(self@, i as int, x@);
                    assert(self@.fixed =~= old(self)@.fixed.push((i as int, *t)));
                }
            },
            (Term::Fixed(t), Term::Var(x)) => {
                let i = self.node(x);
                self.fixed.push((i, *t));
                proof {
                    assert(self@.fixed =~= old(self)@.fixed.push((i as int, *t)));
                    assert(graph_wf(self@)) by {
                        assert forall|k: int| 0 <= k < self@.fixed.len() implies
                            0 <= (#[trigger] self@.fixed[k]).0 < self@.nodes.len() by {
                            if k < old(self)@.fixed.len() {
                                assert(self@.fixed[k] == old(self)@.fixed[k]);
                            }
                        }
                    }
                    lemma_node_of_at(self@, i as int, x@);
                    assert(self@.fixed =~= old(self)@.fixed.push((i as int, *t)));
                }
            },
            _ => {},
        }
    }
}

/// Nodes are distinct, so the node holding `id` is its node.
pub proof fn lemma_node_of_at(g: GraphView, i: int, id: Seq<u64>)
    requires
        graph_wf(g),
        0 <= i < g.nodes.len(),
        g.nodes[i] == id,
    ensures
        node_of(g, id) == Some(i),
{
    let c = choose|j: int| 0 <= j < g.nodes.len() && g.nodes[j] == id;
    if c < i {
        assert(g.nodes[c] != g.nodes[i]);
    } else if c > i {
        assert(g.nodes[i] != g.nodes[c]);
    }
}

/// Every link at `j` leads to a visited node.
pub open spec fn closed(g: GraphView, vis: Seq<bool>, j: int) -> bool {
    forall|k: int| 0 <= k < g.links.len() ==> {
        &&& (#[trigger] g.links[k]).0 == j ==> vis[g.links[k].1]
        &&& g.links[k].1 == j ==> vis[g.links[k].0]
    }
}

proof fn lemma_closed_mono(g: GraphView, vis0: Seq<bool>, vis1: Seq<bool>, j: int)
    requires
        graph_wf(g),
        vis0.len() == g.nodes.len(),
        vis1.len() == vis0.len(),
        forall|x: int| 0 <= x < vis0.len() && #[trigger] vis0[x] ==> vis1[x],
        closed(g, vis0, j),
    ensures
        closed(g, vis1, j),
{
    assert forall|k: int| 0 <= k < g.links.len() implies {
        &&& (#[trigger] g.links[k]).0 == j ==> vis1[g.links[k].1]
        &&& g.links[k].1 == j ==> vis1[g.links[k].0]
    } by {
        if g.links[k].0 == j {
            assert(vis0[g.links[k].1]);
        }
        if g.links[k].1 == j {
            assert(vis0[g.links[k].0]);
        }
    }
}

proof fn lemma_complete(g: GraphView, vis: Seq<bool>, s: int, j: int, m: nat)
    requires
        graph_wf(g),
        vis.len() == g.nodes.len(),
        0 <= s < g.nodes.len(),
        vis[s],
        forall|x: int| 0 <= x < vis.len() && #[trigger] vis[x] ==> closed(g, vis, x),
        reach(g, s, j, m),
    ensures
        0 <= j < vis.len() && vis[j],
    decreases m,
{
    if m > 0 {
        let c = choose|c: int| reach(g, s, c, (m - 1) as nat) && #[trigger] linked(g, c, j);
        lemma_complete(g, vis, s, c, (m - 1) as nat);
        let k = choose|k: int| 0 <= k < g.links.len() && (g.links[k] == (c, j) || g.links[k] == (j, c));
        assert(closed(g, vis, c));
        assert(g.links[k].0 == c ==> vis[g.links[k].1]);
    }
}

impl TypeGraph {
    /// The nodes connected to `start`.
    fn component(&self, start: usize) -> (visited: Vec<bool>)
        requires
            graph_wf(self@),
            start < self@.nodes.len(),
        ensures
            visited@.len() == self@.nodes.len(),
            forall|j: int| 0 <= j < visited@.len() ==> (visited@[j] <==> connected(self@, start as int, j)),
    {
        let ghost g = self@;
        let n = self.nodes.len();
        let mut visited: Vec<bool> = Vec::new();
        let mut i: usize = 0;
        while i < n
            invariant
                i <= n,
                n == g.nodes.len(),
                visited@.len() == i,
                forall|j: int| 0 <= j < i ==> !visited@[j],
            decreases n - i,
        {
            visited.push(false);
            i += 1;
        }
        visited.set(start, true);
        let mut work: Vec<usize> = Vec::new();
        work.push(start);
        let ghost mut seen: Set<int> = Set::empty().insert(start as int);
        proof {
            assert(work@[0] == start);
            assert(work@.contains(start));
            assert forall|j: int| 0 <= j < n && #[trigger] visited@[j] implies j == start by {}
            assert(reach(g, start as int, start as int, 0));
            lemma_int_range(0, n as int);
        }
        while work.len() > 0
            invariant
                g == self@,
                graph_wf(g),
                n == g.nodes.len(),
                start < n,
                visited@.len() == n,
                visited@[start as int],
                seen.finite(),
                set_int_range(0, n as int).finite(),
                set_int_range(0, n as int).len() == n,
                seen.subset_of(set_int_range(0, n as int)),
                forall|j: int| 0 <= j < n ==> (#[trigger] visited@[j] <==> seen.contains(j)),
                forall|k: int| 0 <= k < work@.len() ==> (#[trigger] work@[k]) < n && visited@[work@[k] as int],
                forall|j: int| 0 <= j < n && #[trigger] visited@[j] ==> connected(g, start as int, j),
                forall|j: int| 0 <= j < n && #[trigger] visited@[j] && !work@.contains(j as usize) ==> closed(g, visited@, j),
            decreases n - seen.len(), work.len(),
        {
            proof {
                lemma_len_subset(seen, set_int_range(0, n as int));
            }
            let ghost seen0 = seen;
            let ghost w0 = work@.len();
            let ghost wk = work@;
            let u = work.pop().unwrap();
            proof {
                assert(wk == work@.push(u));
                assert forall|j: int| 0 <= j < n && #[trigger] visited@[j] && !work@.contains(j as usize) && j != u implies closed(g, visited@, j) by {
                    if wk.contains(j as usize) {
                        let q = choose|q: int| 0 <= q < wk.len() && wk[q] == j as usize;
                        if q < work@.len() {
                            assert(work@[q] == j as usize);
                        }
                    }
                }
            }
            let mut k: usize = 0;
            while k < self.links.len()
                invariant
                    g == self@,
                    graph_wf(g),
                    n == g.nodes.len(),
                    start < n,
                    u < n,
                    visited@.len() == n,
                    visited@[start as int],
                    visited@[u as int],
                    seen.finite(),
                    set_int_range(0, n as int).finite(),
                    set_int_range(0, n as int).len() == n,
                    seen.subset_of(set_int_range(0, n as int)),
                    seen0.subset_of(seen),
                    seen.len() >= seen0.len(),
                    work@.len() + 1 <= w0 + (seen.len() - seen0.len()),
                    k <= g.links.len(),
                    forall|j: int| 0 <= j < n ==> (#[trigger] visited@[j] <==> seen.contains(j)),
                    forall|kk: int| 0 <= kk < work@.len() ==> (#[trigger] work@[kk]) < n && visited@[work@[kk] as int],
                    forall|j: int| 0 <= j < n && #[trigger] visited@[j] ==> connected(g, start as int, j),
                    forall|j: int| 0 <= j < n && #[trigger] visited@[j] && !work@.contains(j as usize) && j != u ==> closed(g, visited@, j),
                    forall|kk: int| 0 <= kk < k ==> {
                        &&& (#[trigger] g.links[kk]).0 == u ==> visited@[g.links[kk].1]
                        &&& g.links[kk].1 == u ==> visited@[g.links[kk].0]
                    },
                decreases g.links.len() - k,
            {
                let (a, b) = self.links[k];
                proof {
                    assert(g.links[k as int] == (a as int, b as int));
                }
                if a == u && !visited[b] {
                    let ghost vis0 = visited@;
                    proof {
                        assert(linked(g, u as int, b as int));
                        let m = choose|m: nat| reach(g, start as int, u as int, m);
                        assert(reach(g, start as int, b as int, m + 1));
                    }
                    let ghost wk0 = work@;
                    visited.set(b, true);
                    work.push(b);
                    proof {
                        seen = seen.insert(b as int);
                        assert(work@[work@.len() - 1] == b);
                        assert(work@.contains(b));
                        assert forall|j: int| 0 <= j < n && #[trigger] visited@[j] && !work@.contains(j as usize) && j != u implies closed(g, visited@, j) by {
                            assert(j != b);
                            assert(vis0[j]);
                            if wk0.contains(j as usize) {
                                let q = choose|q: int| 0 <= q < wk0.len() && wk0[q] == j as usize;
                                assert(work@[q] == j as usize);
                            }
                            assert(closed(g, vis0, j));
                            lemma_closed_mono(g, vis0, visited@, j);
                        }
                    }
                }
                if b == u && !visited[a] {
                    let ghost vis0 = visited@;
                    proof {
                        assert(linked(g, u as int, a as int));
                        let m = choose|m: nat| reach(g, start as int, u as int, m);
                        assert(reach(g, start as int, a as int, m + 1));
                    }
                    let ghost wk0 = work@;
                    visited.set(a, true);
                    work.push(a);
                    proof {
                        seen = seen.insert(a as int);
                        assert(work@[work@.len() - 1] == a);
                        assert(work@.contains(a));
                        assert forall|j: int| 0 <= j < n && #[trigger] visited@[j] && !work@.contains(j as usize) && j != u implies closed(g, visited@, j) by {
                            assert(j != a);
                            assert(vis0[j]);
                            if wk0.contains(j as usize) {
                                let q = choose|q: int| 0 <= q < wk0.len() && wk0[q] == j as usize;
                                assert(work@[q] == j as usize);
                            }
                            assert(closed(g, vis0, j));
                            lemma_closed_mono(g, vis0, visited@, j);
                        }
                    }
                }
                k += 1;
            }
            proof {
                assert(closed(g, visited@, u as int));
                lemma_len_subset(seen, set_int_range(0, n as int));
            }
        }
        proof {
            assert forall|j: int| 0 <= j < visited@.len() implies (visited@[j] <==> connected(self@, start as int, j)) by {
                if connected(g, start as int, j) {
                    let m = choose|m: nat| reach(g, start as int, j, m);
                    lemma_complete(g, visited@, start as int, j, m);
                }
            }
        }
        visited
    }
}

impl TypeGraph {
    /// Solves for the type of `id` by following links from its node. `Ok`
    /// holds its one candidate type; `Err` holds all candidates: none when no
    /// fixed type reaches it, several when fixed types disagree.
    pub fn infer_type_of_var(&self, id: &ScopedId) -> (r: Result<ConcreteType, Vec<ConcreteType>>)
        requires
            graph_wf(self@),
        ensures
            match r {
                Ok(t) => solved(self@, id@, t),
                Err(v) => {
                    &&& forall|t: ConcreteType| v@.contains(t) <==> candidate(self@, id@, t)
                    &&& forall|t: ConcreteType| !solved(self@, id@, t)
                    &&& v@.no_duplicates()
                },
            },
    {
        let ghost g = self@;
        let start = match self.find_node(id) {
            Some(s) => s,
            None => {
                let v: Vec<ConcreteType> = Vec::new();
                proof {
                    assert(v@ =~= Seq::<ConcreteType>::empty());
                }
                return Err(v);
            },
        };
        let visited = self.component(start);
        let mut has_float = false;
        let mut has_bool = false;
        let mut has_unit = false;
        let mut k: usize = 0;
        while k < self.fixed.len()
            invariant
                g == self@,
                graph_wf(g),
                k <= g.fixed.len(),
                visited@.len() == g.nodes.len(),
                forall|j: int| 0 <= j < visited@.len() ==> (visited@[j] <==> connected(g, start as int, j)),
                has_float == exists|kk: int| 0 <= kk < k && (#[trigger] g.fixed[kk]).1 == ConcreteType::Float && connected(g, start as int, g.fixed[kk].0),
                has_bool == exists|kk: int| 0 <= kk < k && (#[trigger] g.fixed[kk]).1 == ConcreteType::Bool && connected(g, start as int, g.fixed[kk].0),
                has_unit == exists|kk: int| 0 <= kk < k && (#[trigger] g.fixed[kk]).1 == ConcreteType::Unit && connected(g, start as int, g.fixed[kk].0),
            decreases g.fixed.len() - k,
        {
            let (j, t) = self.fixed[k];
            proof {
                assert(g.fixed[k as int] == (j as int, t));
            }
            if visited[j] {
                match t {
                    ConcreteType::Float => {
                        has_float = true;
                    },
                    ConcreteType::Bool => {
                        has_bool = true;
                    },
                    ConcreteType::Unit => {
                        has_unit = true;
                    },
                }
            }
            k += 1;
        }
        proof {
            assert(has_float == candidate(g, id@, ConcreteType::Float));
            assert(has_bool == candidate(g, id@, ConcreteType::Bool));
            assert(has_unit == candidate(g, id@, ConcreteType::Unit));
        }
        if has_float && !has_bool && !has_unit {
            return Ok(ConcreteType::Float);
        }
        if !has_float && has_bool && !has_unit {
            return Ok(ConcreteType::Bool);
        }
        if !has_float && !has_bool && has_unit {
            return Ok(ConcreteType::Unit);
        }
        let mut v: Vec<ConcreteType> = Vec::new();
        if has_float {
            v.push(ConcreteType::Float);
        }
        if has_bool {
            v.push(ConcreteType::Bool);
        }
        if has_unit {
            v.push(ConcreteType::Unit);
        }
        proof {
            assert forall|t: ConcreteType| v@.contains(t) <==> candidate(g, id@, t) by {
                match t {
                    ConcreteType::Float => {
                        if has_float {
                            assert(v@[0] == t);
                        }
                    },
                    ConcreteType::Bool => {
                        if has_bool {
                            assert(v@[if has_float { 1int } else { 0int }] == t);
                        }
                    },
                    ConcreteType::Unit => {
                        if has_unit {
                            assert(v@[v@.len() - 1] == t);
                        }
                    },
                }
            }
            assert forall|t: ConcreteType| !solved(g, id@, t) by {
                match t {
                    ConcreteType::Float => {
                        if has_float {
                            if has_bool {
                                assert(!(ConcreteType::Bool != t ==> !candidate(g, id@, ConcreteType::Bool)));
                            } else {
                                assert(!(ConcreteType::Unit != t ==> !candidate(g, id@, ConcreteType::Unit)));
                            }
                        }
                    },
                    ConcreteType::Bool => {
                        if has_bool {
                            if has_float {
                                assert(!(ConcreteType::Float != t ==> !candidate(g, id@, ConcreteType::Float)));
                            } else {
                                assert(!(ConcreteType::Unit != t ==> !candidate(g, id@, ConcreteType::Unit)));
                            }
                        }
                    },
                    ConcreteType::Unit => {
                        if has_unit {
                            if has_float {
                                assert(!(ConcreteType::Float != t ==> !candidate(g, id@, ConcreteType::Float)));
                            } else {
                                assert(!(ConcreteType::Bool != t ==> !candidate(g, id@, ConcreteType::Bool)));
                            }
                        }
                    },
                }
            }
        }
        Err(v)
    }
}

proof fn lemma_reach_prepend(g: GraphView, a: int, b: int, j: int, n: nat)
    requires
        linked(g, a, b),
        reach(g, b, j, n),
    ensures
        reach(g, a, j, n + 1),
    decreases n,
{
    if n == 0 {
        assert(reach(g, a, a, 0));
        assert(reach(g, a, j, 1));
    } else {
        let c = choose|c: int| reach(g, b, c, (n - 1) as nat) && #[trigger] linked(g, c, j);
        lemma_reach_prepend(g, a, b, c, (n - 1) as nat);
        assert(reach(g, a, j, n + 1));
    }
}

proof fn lemma_connected_via_link(g: GraphView, a: int, b: int, j: int)
    requires
        linked(g, a, b),
        connected(g, b, j),
    ensures
        connected(g, a, j),
{
    let n = choose|n: nat| reach(g, b, j, n);
    lemma_reach_prepend(g, a, b, j, n);
}

/// Two identifiers whose types the graph says are the same have the same
/// candidate types: one that no fixed type reaches makes the other so too.
pub proof fn lemma_linked_same_candidates(g: GraphView, x: Seq<u64>, y: Seq<u64>, t: ConcreteType)
    requires
        node_of(g, x) is Some,
        node_of(g, y) is Some,
        linked(g, node_of(g, x)->0, node_of(g, y)->0),
    ensures
        candidate(g, x, t) == candidate(g, y, t),
{
    let a = node_of(g, x)->0;
    let b = node_of(g, y)->0;
    let k0 = choose|k: int| 0 <= k < g.links.len() && (g.links[k] == (a, b) || g.links[k] == (b, a));
    assert(linked(g, b, a)) by {
        assert(g.links[k0] == (b, a) || g.links[k0] == (a, b));
    }
    if candidate(g, y, t) {
        let k = choose|k: int| 0 <= k < g.fixed.len() && (#[trigger] g.fixed[k]).1 == t && connected(g, b, g.fixed[k].0);
        lemma_connected_via_link(g, a, b, g.fixed[k].0);
    }
    if candidate(g, x, t) {
        let k = choose|k: int| 0 <= k < g.fixed.len() && (#[trigger] g.fixed[k]).1 == t && connected(g, a, g.fixed[k].0);
        lemma_connected_via_link(g, b, a, g.fixed[k].0);
    }
}

/// The graph with a node for `x`.
pub open spec fn with_node(g: GraphView, x: Seq<u64>) -> GraphView {
    if node_of(g, x) is Some {
        g
    } else {
        GraphView { nodes: g.nodes.push(x), ..g }
    }
}

/// The graph with a relation between `a` and `b` recorded. A relation
/// between two fixed types, or with a free one, records nothing.
pub open spec fn with_relation(g: GraphView, a: TermView, b: TermView) -> GraphView {
    match (a, b) {
        (TermView::Var(x), TermView::Var(y)) => {
            let g1 = with_node(with_node(g, x), y);
            GraphView { links: g1.links.push((node_of(g1, x)->0, node_of(g1, y)->0)), ..g1 }
        },
        (TermView::Var(x), TermView::Fixed(t)) | (TermView::Fixed(t), TermView::Var(x)) => {
            let g1 = with_node(g, x);
            GraphView { fixed: g1.fixed.push((node_of(g1, x)->0, t)), ..g1 }
        },
        _ => g,
    }
}

/// The graph with each relation of `rels` recorded in order.
pub open spec fn with_relations(g: GraphView, rels: Seq<(TermView, TermView)>) -> GraphView
    decreases rels.len(),
{
    if rels.len() == 0 {
        g
    } else {
        let g1 = with_relations(g, rels.drop_last());
        with_relation(g1, rels.last().0, rels.last().1)
    }
}

pub open spec fn rel_view(r: (Term, Term)) -> (TermView, TermView) {
    (r.0@, r.1@)
}

pub open spec fn rels_view(rs: Seq<(Term, Term)>) -> Seq<(TermView, TermView)> {
    rs.map_values(|r: (Term, Term)| rel_view(r))
}

/// `g1` keeps everything `g0` holds, in place.
pub open spec fn extends(g0: GraphView, g1: GraphView) -> bool {
    &&& g0.nodes.len() <= g1.nodes.len()
    &&& g1.nodes.take(g0.nodes.len() as int) == g0.nodes
    &&& g0.links.len() <= g1.links.len()
    &&& g1.links.take(g0.links.len() as int) == g0.links
    &&& g0.fixed.len() <= g1.fixed.len()
    &&& g1.fixed.take(g0.fixed.len() as int) == g0.fixed
}

proof fn lemma_with_node(g: GraphView, x: Seq<u64>)
    requires
        graph_wf(g),
    ensures
        graph_wf(with_node(g, x)),
        extends(g, with_node(g, x)),
        node_of(with_node(g, x), x) is Some,
        node_of(with_node(g, x), x)->0 < with_node(g, x).nodes.len(),
{
    let g1 = with_node(g, x);
    if node_of(g, x) is Some {
        assert(g.nodes.take(g.nodes.len() as int) =~= g.nodes);
        assert(g.links.take(g.links.len() as int) =~= g.links);
        assert(g.fixed.take(g.fixed.len() as int) =~= g.fixed);
    } else {
        assert forall|a: int, b: int| 0 <= a < b < g1.nodes.len() implies g1.nodes[a] != g1.nodes[b] by {
            if b == g.nodes.len() {
                assert(g.nodes[a] != x);
            }
        }
        lemma_node_of_at(g1, g.nodes.len() as int, x);
        assert(g1.nodes.take(g.nodes.len() as int) =~= g.nodes);
        assert(g.links.take(g.links.len() as int) =~= g.links);
        assert(g.fixed.take(g.fixed.len() as int) =~= g.fixed);
    }
}

proof fn lemma_extends_trans(g0: GraphView, g1: GraphView, g2: GraphView)
    requires
        extends(g0, g1),
        extends(g1, g2),
    ensures
        extends(g0, g2),
{
    assert(g2.nodes.take(g0.nodes.len() as int) =~= g1.nodes.take(g0.nodes.len() as int));
    assert(g2.links.take(g0.links.len() as int) =~= g1.links.take(g0.links.len() as int));
    assert(g2.fixed.take(g0.fixed.len() as int) =~= g1.fixed.take(g0.fixed.len() as int));
}

proof fn lemma_with_relation(g: GraphView, a: TermView, b: TermView)
    requires
        graph_wf(g),
    ensures
        graph_wf(with_relation(g, a, b)),
        extends(g, with_relation(g, a, b)),
        (a, b) matches (TermView::Var(x), TermView::Var(y)) ==> {
            let g1 = with_relation(g, a, b);
            &&& node_of(g1, x) is Some
            &&& node_of(g1, y) is Some
            &&& linked(g1, node_of(g1, x)->0, node_of(g1, y)->0)
        },
{
    let g2 = with_relation(g, a, b);
    match (a, b) {
        (TermView::Var(x), TermView::Var(y)) => {
            let gx = with_node(g, x);
            lemma_with_node(g, x);
            let g1 = with_node(gx, y);
            lemma_with_node(gx, y);
            lemma_extends_trans(g, gx, g1);
            let ix = node_of(gx, x)->0;
            assert(g1.nodes[ix] == gx.nodes[ix]) by {
                assert(g1.nodes.take(gx.nodes.len() as int)[ix] == g1.nodes[ix]);
            }
            assert(gx.nodes[ix] == x);
            lemma_node_of_at(g1, ix, x);
            assert forall|k: int| 0 <= k < g2.links.len() implies
                0 <= (#[trigger] g2.links[k]).0 < g2.nodes.len() && 0 <= g2.links[k].1 < g2.nodes.len() by {
                if k < g1.links.len() {
                    assert(g2.links[k] == g1.links[k]);
                }
            }
            assert(g2.links.take(g1.links.len() as int) =~= g1.links);
            assert(g2.links.take(g.links.len() as int) =~= g.links) by {
                assert(g1.links.take(g.links.len() as int) == g.links);
            }
            assert(g2.links[g1.links.len() as int] == (node_of(g2, x)->0, node_of(g2, y)->0));
        },
        (TermView::Var(x), TermView::Fixed(t)) | (TermView::Fixed(t), TermView::Var(x)) => {
            let g1 = with_node(g, x);
            lemma_with_node(g, x);
            assert forall|k: int| 0 <= k < g2.fixed.len() implies 0 <= (#[trigger] g2.fixed[k]).0 < g2.nodes.len() by {
                if k < g1.fixed.len() {
                    assert(g2.fixed[k] == g1.fixed[k]);
                }
            }
            assert(g2.fixed.take(g.fixed.len() as int) =~= g.fixed) by {
                assert(g1.fixed.take(g.fixed.len() as int) == g.fixed);
            }
        },
        _ => {
            assert(g.nodes.take(g.nodes.len() as int) =~= g.nodes);
            assert(g.links.take(g.links.len() as int) =~= g.links);
            assert(g.fixed.take(g.fixed.len() as int) =~= g.fixed);
        },
    }
}

proof fn lemma_with_relations(g: GraphView, rels: Seq<(TermView, TermView)>)
    requires
        graph_wf(g),
    ensures
        graph_wf(with_relations(g, rels)),
        extends(g, with_relations(g, rels)),
    decreases rels.len(),
{
    if rels.len() == 0 {
        assert(g.nodes.take(g.nodes.len() as int) =~= g.nodes);
        assert(g.links.take(g.links.len() as int) =~= g.links);
        assert(g.fixed.take(g.fixed.len() as int) =~= g.fixed);
    } else {
        lemma_with_relations(g, rels.drop_last());
        let g1 = with_relations(g, rels.drop_last());
        lemma_with_relation(g1, rels.last().0, rels.last().1);
        lemma_extends_trans(g, g1, with_relations(g, rels));
    }
}

proof fn lemma_linked_kept(g0: GraphView, g1: GraphView, x: Seq<u64>, y: Seq<u64>)
    requires
        graph_wf(g0),
        graph_wf(g1),
        extends(g0, g1),
        node_of(g0, x) is Some,
        node_of(g0, y) is Some,
        linked(g0, node_of(g0, x)->0, node_of(g0, y)->0),
    ensures
        node_of(g1, x) == node_of(g0, x),
        node_of(g1, y) == node_of(g0, y),
        linked(g1, node_of(g1, x)->0, node_of(g1, y)->0),
{
    let a = node_of(g0, x)->0;
    let b = node_of(g0, y)->0;
    assert(g1.nodes[a] == g0.nodes[a]) by {
        assert(g1.nodes.take(g0.nodes.len() as int)[a] == g1.nodes[a]);
    }
    assert(g1.nodes[b] == g0.nodes[b]) by {
        assert(g1.nodes.take(g0.nodes.len() as int)[b] == g1.nodes[b]);
    }
    lemma_node_of_at(g1, a, x);
    lemma_node_of_at(g1, b, y);
    let k = choose|k: int| 0 <= k < g0.links.len() && (g0.links[k] == (a, b) || g0.links[k] == (b, a));
    assert(g1.links[k] == g0.links[k]) by {
        assert(g1.links.take(g0.links.len() as int)[k] == g1.links[k]);
    }
}

/// Two identifiers related anywhere in `rels` have the same candidate types
/// in the graph that records `rels`: a declaration tied to an initializer
/// whose type cannot be determined cannot be determined either, and is
/// never ambiguous on that account.
pub proof fn lemma_related_same_candidates(
    g: GraphView,
    rels: Seq<(TermView, TermView)>,
    k: int,
    x: Seq<u64>,
    y: Seq<u64>,
    t: ConcreteType,
)
    requires
        graph_wf(g),
        0 <= k < rels.len(),
        rels[k] == (TermView::Var(x), TermView::Var(y)),
    ensures
        candidate(with_relations(g, rels), x, t) == candidate(with_relations(g, rels), y, t),
    decreases rels.len(),
{
    let gk = with_relations(g, rels.drop_last());
    lemma_with_relations(g, rels.drop_last());
    if k == rels.len() - 1 {
        lemma_with_relation(gk, rels.last().0, rels.last().1);
        lemma_linked_same_candidates(with_relations(g, rels), x, y, t);
    } else {
        lemma_related_linked(g, rels.drop_last(), k, x, y);
        lemma_with_relation(gk, rels.last().0, rels.last().1);
        lemma_linked_kept(gk, with_relations(g, rels), x, y);
        lemma_linked_same_candidates(with_relations(g, rels), x, y, t);
    }
}

proof fn lemma_related_linked(g: GraphView, rels: Seq<(TermView, TermView)>, k: int, x: Seq<u64>, y: Seq<u64>)
    requires
        graph_wf(g),
        0 <= k < rels.len(),
        rels[k] == (TermView::Var(x), TermView::Var(y)),
    ensures
        node_of(with_relations(g, rels), x) is Some,
        node_of(with_relations(g, rels), y) is Some,
        linked(with_relations(g, rels), node_of(with_relations(g, rels), x)->0, node_of(with_relations(g, rels), y)->0),
    decreases rels.len(),
{
    let gk = with_relations(g, rels.drop_last());
    lemma_with_relations(g, rels.drop_last());
    lemma_with_relation(gk, rels.last().0, rels.last().1);
    if k < rels.len() - 1 {
        lemma_related_linked(g, rels.drop_last(), k, x, y);
        lemma_linked_kept(gk, with_relations(g, rels), x, y);
    }
}

impl TypeGraph {
    /// Records each relation of `rels` in order.
    pub fn relate_all(&mut self, rels: &Vec<(Term, Term)>)
        requires
            graph_wf(old(self)@),
        ensures
            graph_wf(final(self)@),
            final(self)@ == with_relations(old(self)@, rels_view(rels@)),
    {
        let ghost g0 = self@;
        let mut i: usize = 0;
        proof {
            assert(rels_view(rels@).take(0) =~= Seq::<(TermView, TermView)>::empty());
        }
        while i < rels.len()
            invariant
                i <= rels@.len(),
                graph_wf(self@),
                self@ == with_relations(g0, rels_view(rels@).take(i as int)),
            decreases rels.len() - i,
        {
            self.relate(&rels[i].0, &rels[i].1);
            i += 1;
            proof {
                assert(rels_view(rels@).take(i as int).drop_last() =~= rels_view(rels@).take(i - 1));
            }
        }
        proof {
            assert(rels_view(rels@).take(i as int) =~= rels_view(rels@));
        }
    }
}

} // verus!
