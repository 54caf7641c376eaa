use vstd::prelude::*;

verus! {

/// Hierarchical address of a declaration: a path of sibling indices, one
/// component per level of lexical nesting. `i0.i1...ik` reads "the `ik`-th
/// declaration inside the `i(k-1)`-th declaration inside ... the root".
///
/// The empty path is the distinguished "unset" sentinel; a cursor is always
/// seeded with a non-empty path, so the sentinel is distinct from every
/// value the cursor can emit.
pub struct ScopedId {
    path: Vec<u64>,
}

/// The path with its last component advanced to the next sibling slot.
pub open spec fn id_inc(a: Seq<u64>) -> Seq<u64>
    recommends
        a.len() > 0,
        a.last() < u64::MAX,
{
    a.drop_last().push((a.last() + 1) as u64)
}

/// Strict order on paths in which the cursor emits ids: componentwise, with
/// a proper prefix coming before each of its extensions. Every value the
/// cursor takes after an assignment is above the assigned id in this order,
/// which is what makes all assigned ids of one pass pairwise distinct.
pub open spec fn id_lt(a: Seq<u64>, b: Seq<u64>) -> bool
    decreases a.len(),
{
    if b.len() == 0 {
        false
    } else if a.len() == 0 {
        true
    } else if a.first() < b.first() {
        true
    } else if a.first() == b.first() {
        id_lt(a.drop_first(), b.drop_first())
    } else {
        false
    }
}

/// `id_lt` never relates a path to itself.
pub proof fn lemma_id_lt_irrefl(a: Seq<u64>)
    ensures
        !id_lt(a, a),
    decreases a.len(),
{
    if a.len() > 0 {
        lemma_id_lt_irrefl(a.drop_first());
    }
}

/// `id_lt` is transitive.
pub proof fn lemma_id_lt_trans(a: Seq<u64>, b: Seq<u64>, c: Seq<u64>)
    requires
        id_lt(a, b),
        id_lt(b, c),
    ensures
        id_lt(a, c),
    decreases a.len() + b.len() + c.len(),
{
    if a.len() == 0 {
    } else if a.first() == b.first() && b.first() == c.first() {
        lemma_id_lt_trans(a.drop_first(), b.drop_first(), c.drop_first());
    }
}




/// A proper prefix comes before each of its extensions.
pub proof fn lemma_id_lt_prefix(a: Seq<u64>, b: Seq<u64>)
    requires
        a.len() < b.len(),
        b.take(a.len() as int) == a,
    ensures
        id_lt(a, b),
    decreases a.len(),
{
    if a.len() > 0 {
        assert(b.take(a.len() as int)[0] == b[0]);
        assert(b.drop_first().take(a.len() - 1) =~= b.take(a.len() as int).drop_first());
        lemma_id_lt_prefix(a.drop_first(), b.drop_first());
    }
}

/// Advancing a path's last component moves past the path itself and past
/// every extension of it: the whole subtree addressed under `a` stays below
/// `id_inc(a)`.
pub proof fn lemma_id_lt_inc_above_subtree(a: Seq<u64>, b: Seq<u64>)
    requires
        a.len() > 0,
        a.last() < u64::MAX,
        b.len() >= a.len(),
        b.take(a.len() as int) == a,
    ensures
        id_lt(b, id_inc(a)),
    decreases a.len(),
{
    if a.len() == 1 {
        assert(b.take(1)[0] == b[0]);
        assert(b.first() == a.first());
        assert(id_inc(a) =~= seq![(a.last() + 1) as u64]);
    } else {
        assert(b.take(a.len() as int)[0] == b[0]);
        assert(b.first() == a.first());
        assert(a.drop_first().len() > 0);
        assert(a.drop_first().last() == a.last());
        assert(b.drop_first().take(a.len() - 1) =~= b.take(a.len() as int).drop_first());
        lemma_id_lt_inc_above_subtree(a.drop_first(), b.drop_first());
        assert(id_inc(a).first() == a.first()) by {
            assert(id_inc(a)[0] == a.drop_last().push((a.last() + 1) as u64)[0]);
        }
        assert(id_inc(a).drop_first() =~= id_inc(a.drop_first()));
    }
}

/// A path is below the result of advancing its own last component.
pub proof fn lemma_id_lt_inc(a: Seq<u64>)
    requires
        a.len() > 0,
        a.last() < u64::MAX,
    ensures
        id_lt(a, id_inc(a)),
{
    assert(a.take(a.len() as int) =~= a);
    lemma_id_lt_inc_above_subtree(a, a);
}

impl View for ScopedId {
    type V = Seq<u64>;

    closed spec fn view(&self) -> Seq<u64> {
        self.path@
    }
}

impl ScopedId {
    /// The sentinel: the empty path, marking "not yet visited".
    pub fn unset() -> (r: ScopedId)
        ensures
            r@ == Seq::<u64>::empty(),
    {
        ScopedId { path: Vec::new() }
    }

    /// Whether this id is the sentinel.
    pub fn is_unset(&self) -> (r: bool)
        ensures
            r == (self@.len() == 0),
    {
        self.path.len() == 0
    }

    /// Nesting depth: the number of path components.
    pub fn depth(&self) -> (r: usize)
        ensures
            r == self@.len(),
    {
        self.path.len()
    }

    /// The path components, outermost first.
    pub fn components(&self) -> (r: &Vec<u64>)
        ensures
            r@ == self@,
    {
        &self.path
    }

    /// Enter a nested scope: append a `0` component.
    pub fn push(&mut self)
        ensures
            final(self)@ == old(self)@.push(0u64),
    {
        self.path.push(0);
    }

    /// Leave a nested scope: remove the last component, restoring the
    /// parent's position.
    pub fn pop(&mut self)
        requires
            old(self)@.len() > 0,
        ensures
            final(self)@ == old(self)@.drop_last(),
    {
        let ghost pre = self.path@;
        self.path.pop();
        proof {
            assert(self.path@ =~= pre.drop_last());
        }
    }

    /// Advance the last component to address the next sibling slot.
    pub fn increment(&mut self)
        requires
            old(self)@.len() > 0,
            old(self)@.last() < u64::MAX,
        ensures
            final(self)@ == id_inc(old(self)@),
    {
        let ghost pre = self.path@;
        let depth = self.path.len();
        let last = self.path[depth - 1];
        self.path.set(depth - 1, last + 1);
        proof {
            assert(self.path@ =~= id_inc(pre));
        }
    }

    /// An independent copy, taken before attaching the cursor's current
    /// value to a declaration; later cursor mutation never changes an
    /// already-attached id.
    pub fn snapshot(&self) -> (r: ScopedId)
        ensures
            r@ == self@,
    {
        let mut path: Vec<u64> = Vec::new();
        let mut i: usize = 0;
        while i < self.path.len()
            invariant
                i <= self.path.len(),
                path@ == self.path@.take(i as int),
            decreases self.path.len() - i,
        {
            path.push(self.path[i]);
            proof {
                assert(self.path@.take(i + 1) =~= self.path@.take(i as int).push(
                    self.path@[i as int],
                ));
            }
            i = i + 1;
        }
        proof {
            assert(self.path@.take(self.path@.len() as int) =~= self.path@);
        }
        ScopedId { path }
    }
}

impl PartialEq for ScopedId {
    /// Structural equality on the underlying paths.
    fn eq(&self, other: &ScopedId) -> (r: bool) {
        if self.path.len() != other.path.len() {
            proof {
                assert(self@ != other@);
            }
            return false;
        }
        let mut i: usize = 0;
        while i < self.path.len()
            invariant
                i <= self.path.len(),
                self.path@.len() == other.path@.len(),
                forall|k: int| 0 <= k < i ==> self.path@[k] == other.path@[k],
            decreases self.path.len() - i,
        {
            if self.path[i] != other.path[i] {
                proof {
                    assert(self@ != other@);
                }
                return false;
            }
            i = i + 1;
        }
        proof {
            assert(self@ =~= other@);
        }
        true
    }
}

impl vstd::std_specs::cmp::PartialEqSpecImpl for ScopedId {
    open spec fn obeys_eq_spec() -> bool {
        true
    }

    open spec fn eq_spec(&self, other: &ScopedId) -> bool {
        self@ == other@
    }
}

} // verus!
