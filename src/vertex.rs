use crate::id::{key_of, lemma_key_injective, Id};
use std::collections::HashMap;
use std::sync::Arc;
use vstd::prelude::*;
use vstd::rwlock::{ReadHandle, RwLock, RwLockPredicate};

verus! {

broadcast use vstd::std_specs::hash::group_hash_axioms;

/// An adjacency map is valid for the vertex `id` when each entry is keyed by
/// its neighbor's identifier and no entry leads back to `id` itself.
pub open spec fn valid_adjacency<T>(id: Id, m: Map<u32, Vertex<T>>) -> bool {
    forall|k: u32| #[trigger]
        m.contains_key(k) ==> key_of(m[k].spec_id()@) == k && k != key_of(id@)
}

/// `s` holds the neighbors of `m`, in some order, one for each entry of `m`.
pub open spec fn lists_neighbors<T>(m: Map<u32, Vertex<T>>, s: Seq<Vertex<T>>) -> bool {
    &&& s.to_set() == m.values()
    &&& s.len() == m.dom().len()
}

/// What the lock of a vertex guarantees of the record it guards: the
/// identifier and value it was created with, and a valid adjacency map.
pub struct VertexPred<T> {
    pub id: Id,
    pub value: T,
}

impl<T> RwLockPredicate<Inner<T>> for VertexPred<T> {
    open spec fn inv(self, v: Inner<T>) -> bool {
        &&& v.spec_id() == self.id
        &&& v.spec_value() == self.value
        &&& v.wf()
    }
}

/// Relies on `Arc::clone`: the new pointer shares the same allocation.
#[verifier::external_body]
fn share<X>(a: &Arc<X>) -> (r: Arc<X>)
    ensures
        r == *a,
{
    Arc::clone(a)
}

/// The record behind a vertex: its identifier, its value and its outgoing
/// edges, keyed by the neighbor's identifier.
pub struct Inner<T> {
    id: Id,
    value: T,
    edges: HashMap<u32, Vertex<T>>,
}

impl<T> Inner<T> {
    pub closed spec fn spec_id(&self) -> Id {
        self.id
    }

    pub closed spec fn spec_value(&self) -> T {
        self.value
    }

    /// Outgoing edges, keyed by `key_of` of the neighbor's identifier.
    pub closed spec fn adjacency(&self) -> Map<u32, Vertex<T>> {
        self.edges@
    }

    pub open spec fn wf(&self) -> bool {
        valid_adjacency(self.spec_id(), self.adjacency())
    }

    /// Whether there is an edge to the vertex with identifier `id`.
    pub open spec fn has_edge(&self, id: Id) -> bool {
        self.adjacency().contains_key(key_of(id@))
    }

    /// A record with a fresh identifier, the given value and no edges.
    pub fn new(value: T) -> (r: Inner<T>)
        ensures
            r.spec_value() == value,
            r.adjacency() == Map::<u32, Vertex<T>>::empty(),
            r.wf(),
    {
        Inner { id: Id::new(), value, edges: HashMap::new() }
    }

    pub fn id(&self) -> (r: Id)
        ensures
            r == self.spec_id(),
    {
        self.id
    }

    /// Whether there is an edge to the vertex with identifier `id`.
    pub fn connects_to_id(&self, id: &Id) -> (r: bool)
        ensures
            r == self.has_edge(*id),
    {
        self.edges.contains_key(&id.key())
    }

    /// Adds, or replaces, the edge to `other`, whose identifier is `other_id`.
    pub fn insert_edge(&mut self, other_id: Id, other: Vertex<T>)
        requires
            old(self).wf(),
            other_id == other.spec_id(),
            other_id@ != old(self).spec_id()@,
        ensures
            final(self).spec_id() == old(self).spec_id(),
            final(self).spec_value() == old(self).spec_value(),
            final(self).adjacency() == old(self).adjacency().insert(key_of(other_id@), other),
            final(self).wf(),
    {
        proof {
            lemma_key_injective(other_id, self.id);
        }
        let k = other_id.key();
        self.edges.insert(k, other);
    }

    /// A fresh handle for each outgoing edge.
    pub fn neighbors(&self) -> (r: Vec<Vertex<T>>)
        ensures
            lists_neighbors(self.adjacency(), r@),
    {
        let mut r: Vec<Vertex<T>> = Vec::new();
        for v in it: self.edges.values()
            invariant
                it.seq().len() == self.edges@.dom().len(),
                it.seq().unref().to_set() == self.edges@.values(),
                r@ =~= it.seq().take(it.index() as int).unref(),
                it.index() == it.seq().len() ==> r@ =~= it.seq().unref(),
        {
            r.push(v.clone());
        }
        r
    }
}

/// A shared handle on a vertex. Handles are cheap to duplicate, and every
/// handle, like every edge leading to the vertex, keeps its record alive.
pub struct Vertex<T> {
    inner: Arc<RwLock<Inner<T>, VertexPred<T>>>,
    id: Ghost<Id>,
}

impl<T> Clone for Vertex<T> {
    fn clone(&self) -> (r: Self)
        ensures
            r == *self,
    {
        proof {
            use_type_invariant(self);
        }
        Vertex { inner: share(&self.inner), id: self.id }
    }
}

impl<T> Vertex<T> {
    /// The identifier the vertex was created with; it never changes.
    pub closed spec fn spec_id(&self) -> Id {
        self.id@
    }

    #[verifier::type_invariant]
    spec fn lock_holds_id(&self) -> bool {
        self.inner.pred().id == self.id@
    }

    /// The value the vertex was created with; it never changes.
    pub closed spec fn spec_value(&self) -> T {
        self.inner.pred().value
    }

    fn from_inner(inner: Arc<RwLock<Inner<T>, VertexPred<T>>>) -> (r: Self)
        ensures
            r.inner == inner,
            r.spec_id() == inner.pred().id,
    {
        Vertex { inner, id: Ghost(inner.pred().id) }
    }

    /// A vertex holding `value`, with a fresh identifier and no edges.
    pub fn new(value: T) -> (r: Self)
        ensures
            r.spec_value() == value,
    {
        let inner = Inner::new(value);
        let ghost pred = VertexPred { id: inner.spec_id(), value: inner.spec_value() };
        Self::from_inner(Arc::new(RwLock::new(inner, Ghost(pred))))
    }

    /// The vertex's identifier, read under a shared lock.
    pub fn id(&self) -> (r: Id)
        ensures
            r == self.spec_id(),
    {
        proof {
            use_type_invariant(self);
        }
        let guard = self.inner.acquire_read();
        let r = guard.borrow().id();
        guard.release_read();
        r
    }

    /// A snapshot of the outgoing edges, taken under a shared lock.
    pub fn edges(&self) -> (r: Edges<T>)
        ensures
            exists|m: Map<u32, Vertex<T>>|
                valid_adjacency(self.spec_id(), m) && lists_neighbors(m, #[trigger] r.remaining()),
    {
        proof {
            use_type_invariant(self);
        }
        let guard = self.inner.acquire_read();
        Edges::from_guard(guard)
    }

    /// Adds the edges `self -> other` and `other -> self`, one after the
    /// other: a concurrent reader may see the first without the second.
    pub fn link(&self, other: &Self)
        requires
            self.spec_id()@ != other.spec_id()@,
    {
        self.connect(other);
        other.connect(self);
    }

    /// Adds, or replaces, the edge `self -> other`, under an exclusive lock
    /// on `self` only. Connecting a vertex to itself is not allowed.
    pub fn connect(&self, other: &Self)
        requires
            self.spec_id()@ != other.spec_id()@,
    {
        let other_id = other.id();
        let handle = other.clone();
        proof {
            use_type_invariant(self);
        }
        let (mut inner, guard) = self.inner.acquire_write();
        inner.insert_edge(other_id, handle);
        guard.release_write(inner);
    }

    /// Whether `self` has an edge to `other`, read under a shared lock on
    /// `self`. There is never an edge from a vertex to itself.
    pub fn connects_to(&self, other: &Self) -> (r: bool)
        ensures
            exists|m: Map<u32, Vertex<T>>|
                valid_adjacency(self.spec_id(), m) && r == #[trigger] m.contains_key(
                    key_of(other.spec_id()@),
                ),
            r ==> self.spec_id()@ != other.spec_id()@,
    {
        let other_id = other.id();
        proof {
            use_type_invariant(self);
        }
        let guard = self.inner.acquire_read();
        let r = guard.borrow().connects_to_id(&other_id);
        guard.release_read();
        r
    }

    /// Whether `other` has an edge to `self`.
    pub fn connected_from(&self, other: &Self) -> (r: bool)
        ensures
            exists|m: Map<u32, Vertex<T>>|
                valid_adjacency(other.spec_id(), m) && r == #[trigger] m.contains_key(
                    key_of(self.spec_id()@),
                ),
            r ==> self.spec_id()@ != other.spec_id()@,
    {
        other.connects_to(self)
    }
}

impl<T: Copy> Vertex<T> {
    /// A copy of the vertex's value.
    pub fn copy_inner(&self) -> (r: T)
        ensures
            r == self.spec_value(),
    {
        let guard = self.inner.acquire_read();
        let r = guard.borrow().value;
        guard.release_read();
        r
    }
}

impl<T: Clone> Vertex<T> {
    /// A clone of the vertex's value.
    pub fn clone_inner(&self) -> (r: T)
        ensures
            cloned(self.spec_value(), r),
    {
        let guard = self.inner.acquire_read();
        let r = guard.borrow().value.clone();
        guard.release_read();
        r
    }
}

/// The neighbors of a vertex, as handed out by `Vertex::edges`, in no
/// particular order.
pub struct Edges<T> {
    handles: Vec<Vertex<T>>,
}

impl<T> Edges<T> {
    /// The handles not yet taken.
    pub closed spec fn remaining(&self) -> Seq<Vertex<T>> {
        self.handles@
    }

    /// Copies out the neighbors while the shared lock is held, then releases it.
    fn from_guard(guard: ReadHandle<'_, Inner<T>, VertexPred<T>>) -> (r: Self)
        requires
            guard.rwlock().inv(guard.view()),
        ensures
            valid_adjacency(guard.rwlock().pred().id, guard.view().adjacency()),
            lists_neighbors(guard.view().adjacency(), r.remaining()),
    {
        let handles = guard.borrow().neighbors();
        guard.release_read();
        Edges { handles }
    }

    /// Takes the next neighbor, if any is left.
    pub fn next(&mut self) -> (r: Option<Vertex<T>>)
        ensures
            old(self).remaining().len() == 0 ==> r is None && final(self).remaining() == old(
                self,
            ).remaining(),
            old(self).remaining().len() > 0 ==> r == Some(old(self).remaining().last())
                && final(self).remaining() == old(self).remaining().drop_last(),
    {
        self.handles.pop()
    }

    /// The number of neighbors not yet taken.
    pub fn count(self) -> (n: usize)
        ensures
            n == self.remaining().len(),
    {
        self.handles.len()
    }
}

/// After an edge to `b` is added to `a`'s record, `a` has an edge to `b`,
/// and every other identifier is connected exactly as before. Only `a`'s
/// record changes: `b`'s edges, and so whether `b` connects to `a`, stay as
/// they were, and `b` is now connected from `a`.
pub proof fn lemma_connect_then_connects_to<T>(a: Inner<T>, after: Inner<T>, b: Vertex<T>)
    requires
        after.adjacency() == a.adjacency().insert(key_of(b.spec_id()@), b),
    ensures
        after.has_edge(b.spec_id()),
        forall|x: Id| x@ != b.spec_id()@ ==> #[trigger] after.has_edge(x) == a.has_edge(x),
{
    assert forall|x: Id| x@ != b.spec_id()@ implies #[trigger] after.has_edge(x) == a.has_edge(
        x,
    ) by {
        lemma_key_injective(x, b.spec_id());
    }
}

/// After linking `a` and `b`, that is adding the edge to `b` to `a`'s record
/// and the edge to `a` to `b`'s, each has an edge to the other.
pub proof fn lemma_link_connects_both<T>(
    a: Inner<T>,
    a_after: Inner<T>,
    b: Inner<T>,
    b_after: Inner<T>,
    va: Vertex<T>,
    vb: Vertex<T>,
)
    requires
        va.spec_id() == a.spec_id(),
        vb.spec_id() == b.spec_id(),
        a_after.adjacency() == a.adjacency().insert(key_of(vb.spec_id()@), vb),
        b_after.adjacency() == b.adjacency().insert(key_of(va.spec_id()@), va),
    ensures
        a_after.has_edge(b.spec_id()),
        b_after.has_edge(a.spec_id()),
{
}

/// Adding the edge to the same target twice leaves the same keys as adding
/// it once, and exactly one entry leads to that target.
pub proof fn lemma_connect_twice_one_entry<T>(
    a: Inner<T>,
    once: Inner<T>,
    twice: Inner<T>,
    b: Vertex<T>,
    b_again: Vertex<T>,
)
    requires
        b_again.spec_id() == b.spec_id(),
        once.adjacency() == a.adjacency().insert(key_of(b.spec_id()@), b),
        twice.adjacency() == once.adjacency().insert(key_of(b_again.spec_id()@), b_again),
        twice.wf(),
    ensures
        twice.adjacency().dom() == once.adjacency().dom(),
        forall|k: u32|
            #![trigger twice.adjacency().contains_key(k)]
            (twice.adjacency().contains_key(k) && twice.adjacency()[k].spec_id()@
                == b.spec_id()@) <==> k == key_of(b.spec_id()@),
{
    assert(twice.adjacency().dom() =~= once.adjacency().dom());
}

/// A valid record never holds an edge to its own vertex.
pub proof fn lemma_no_self_edge<T>(r: Inner<T>)
    requires
        r.wf(),
    ensures
        !r.has_edge(r.spec_id()),
{
}

/// The handles that `neighbors` hands out are exactly the record's
/// neighbors: each appears once, and each is the entry stored under its own
/// identifier.
pub proof fn lemma_neighbors_exact<T>(r: Inner<T>, s: Seq<Vertex<T>>)
    requires
        r.wf(),
        lists_neighbors(r.adjacency(), s),
    ensures
        s.no_duplicates(),
        forall|i: int|
            0 <= i < s.len() ==> r.has_edge(#[trigger] s[i].spec_id()) && r.adjacency()[key_of(
                s[i].spec_id()@,
            )] == s[i],
        forall|k: u32| #[trigger]
            r.adjacency().contains_key(k) ==> exists|i: int| 0 <= i < s.len() && s[i] == r.adjacency()[k],
{
    let m = r.adjacency();
    assert forall|i: int| 0 <= i < s.len() implies r.has_edge(#[trigger] s[i].spec_id())
        && m[key_of(s[i].spec_id()@)] == s[i] by {
        assert(s.to_set().contains(s[i]));
        let k = choose|k: u32| #[trigger] m.contains_key(k) && m[k] == s[i];
    }
    assert forall|k: u32| #[trigger] m.contains_key(k) implies exists|i: int|
        0 <= i < s.len() && s[i] == m[k] by {
        assert(m.values().contains(m[k]));
        assert(s.to_set().contains(m[k]));
    }
    assert(m.is_injective());
    m.lemma_injective_values_len();
    s.lemma_no_dup_set_cardinality();
}

} // verus!
