//! Hierarchical path identifiers for declarations.
use vstd::prelude::*;

verus! {

/// A path of non-negative segments naming a lexical position.
/// The empty path is the "unassigned" sentinel.
#[derive(Debug, Hash)]
pub struct ScopedId {
    indices: Vec<u64>,
}

impl View for ScopedId {
    type V = Seq<u64>;

    closed spec fn view(&self) -> Seq<u64> {
        self.indices@
    }
}

/// The path with its deepest segment bumped by one.
pub open spec fn bumped(p: Seq<u64>) -> Seq<u64>
    recommends
        p.len() > 0,
        p.last() < u64::MAX,
{
    p.update(p.len() - 1, (p.last() + 1) as u64)
}

impl ScopedId {
    /// The unassigned identifier.
    pub fn new() -> (r: ScopedId)
        ensures
            r@ == Seq::<u64>::empty(),
    {
        ScopedId { indices: Vec::new() }
    }

    /// An identifier with the given path.
    pub fn from_indices(indices: Vec<u64>) -> (r: ScopedId)
        ensures
            r@ == indices@,
    {
        ScopedId { indices }
    }

    /// The segments of the path, outermost first.
    pub fn indices(&self) -> (r: &Vec<u64>)
        ensures
            r@ == self@,
    {
        &self.indices
    }

    /// True iff the identifier was never assigned.
    pub fn is_default(&self) -> (r: bool)
        ensures
            r == (self@.len() == 0),
    {
        self.indices.len() == 0
    }

    /// Descends one nesting level.
    pub fn push(&mut self)
        ensures
            final(self)@ == old(self)@.push(0),
    {
        self.indices.push(0);
    }

    /// Ascends one nesting level.
    pub fn pop(&mut self)
        requires
            old(self)@.len() > 0,
        ensures
            final(self)@ == old(self)@.drop_last(),
    {
        self.indices.pop();
    }

    /// Mints the next sibling at the current level.
    pub fn increment(&mut self)
        requires
            old(self)@.len() > 0,
            old(self)@.last() < u64::MAX,
        ensures
            final(self)@ == bumped(old(self)@),
    {
        let last = self.indices.len() - 1;
        self.indices[last] = self.indices[last] + 1;
    }

    /// The identifier one level below this one, at position `k`.
    pub fn child(&self, k: u64) -> (r: ScopedId)
        ensures
            r@ == self@.push(k),
    {
        let mut r = self.copy();
        r.indices.push(k);
        r
    }

    /// A copy of this identifier.
    pub fn copy(&self) -> (r: ScopedId)
        ensures
            r@ == self@,
    {
        let mut v: Vec<u64> = Vec::new();
        let mut i: usize = 0;
        while i < self.indices.len()
            invariant
                i <= self.indices@.len(),
                v@ == self.indices@.take(i as int),
            decreases self.indices.len() - i,
        {
            v.push(self.indices[i]);
            i += 1;
            proof {
                assert(v@ =~= self.indices@.take(i as int));
            }
        }
        proof {
            assert(v@ =~= self.indices@);
        }
        ScopedId { indices: v }
    }

    /// Structural comparison of two paths.
    pub fn same(&self, other: &ScopedId) -> (r: bool)
        ensures
            r == (self@ == other@),
    {
        if self.indices.len() != other.indices.len() {
            return false;
        }
        let mut i: usize = 0;
        while i < self.indices.len()
            invariant
                i <= self.indices@.len(),
                self.indices@.len() == other.indices@.len(),
                forall|j: int| 0 <= j < i ==> self.indices@[j] == other.indices@[j],
            decreases self.indices.len() - i,
        {
            if self.indices[i] != other.indices[i] {
                return false;
            }
            i += 1;
        }
        proof {
            assert(self.indices@ =~= other.indices@);
        }
        true
    }
}

impl Clone for ScopedId {
    fn clone(&self) -> (r: ScopedId)
        ensures
            r@ == self@,
    {
        self.copy()
    }
}

impl PartialEq for ScopedId {
    fn eq(&self, other: &ScopedId) -> (r: bool) {
        self.same(other)
    }
}

impl vstd::std_specs::cmp::PartialEqSpecImpl for ScopedId {
    open spec fn obeys_eq_spec() -> bool {
        true
    }

    open spec fn eq_spec(&self, other: &ScopedId) -> bool {
        self@ == other@
    }
}

impl Eq for ScopedId {
}

} // verus!
