//! Sparse-set component storage: O(1) insert, remove and lookup with dense iteration.

use crate::ecs::archetype::lemma_distinct_below;
use crate::ecs::component::{ComponentStorage, slice_iter_mut};
use vstd::prelude::*;

verus! {

/// Sentinel value indicating an entity has no component in this sparse set
pub const SPARSE_SENTINEL: usize = usize::MAX;

/// The three arrays of a sparse set, with the operations on them.
///
/// - `sparse[entity_id]` stores the index in `dense` where the component lives
/// - `dense[dense_index]` stores the actual component data
/// - `entities[dense_index]` maps back to the entity
#[derive(Debug)]
struct SparseSetData<T> {
    /// Maps entity_id -> dense_index, `SPARSE_SENTINEL` meaning "no component"
    sparse: Vec<usize>,
    /// Dense array of actual component data
    dense: Vec<T>,
    /// Maps dense_index -> entity_id
    entities: Vec<usize>,
}

/// `Vec::capacity`: how many elements fit without reallocating; at least the length.
#[verifier::external_body]
pub(crate) fn vec_capacity<T>(v: &Vec<T>) -> (r: usize)
    ensures
        r >= v@.len(),
{
    v.capacity()
}

impl<T> SparseSetData<T> {
    /// The invariant tying the three arrays together.
    pub closed spec fn wf(&self) -> bool {
        &&& self.dense@.len() == self.entities@.len()
        &&& self.dense@.len() <= usize::MAX
        &&& self.sparse@.len() <= usize::MAX
        &&& forall|d: int|
            0 <= d < self.entities@.len() ==> {
                &&& (#[trigger] self.entities@[d]) < self.sparse@.len()
                &&& self.sparse@[self.entities@[d] as int] == d
            }
        &&& forall|e: int|
            0 <= e < self.sparse@.len() && #[trigger] self.sparse@[e] != SPARSE_SENTINEL ==> {
                &&& self.sparse@[e] < self.entities@.len()
                &&& self.entities@[self.sparse@[e] as int] == e
            }
    }

    /// The entities that hold a component, in dense (iteration) order.
    pub closed spec fn entity_order(&self) -> Seq<usize> {
        self.entities@
    }

    /// The stored components, in dense (iteration) order.
    pub closed spec fn values(&self) -> Seq<T> {
        self.dense@
    }

    /// The length of the sparse array.
    pub closed spec fn sparse_len(&self) -> nat {
        self.sparse@.len()
    }

    /// The stored components keyed by entity.
    pub closed spec fn view(&self) -> Map<usize, T> {
        Map::new(
            |e: usize| e < self.sparse@.len() && self.sparse@[e as int] != SPARSE_SENTINEL,
            |e: usize| self.dense@[self.sparse@[e as int] as int],
        )
    }

    /// The keyed view and the dense sequences describe the same contents:
    /// the keys are exactly the entities in dense order, each entity keys the
    /// component at its dense position, and no entity appears twice.
    pub proof fn lemma_view_matches_dense(&self)
        requires
            self.wf(),
        ensures
            self.entity_order().no_duplicates(),
            self.entity_order().len() == self.values().len(),
            self@.dom() == self.entity_order().to_set(),
            self@.dom().finite(),
            self@.len() == self.entity_order().len(),
            forall|d: int|
                0 <= d < self.entity_order().len() ==> self@[#[trigger] self.entity_order()[d]]
                    == self.values()[d],
    {
        assert forall|i: int, j: int|
            0 <= i < self.entities@.len() && 0 <= j < self.entities@.len() && i != j implies
            self.entities@[i] != self.entities@[j] by {
            assert(self.sparse@[self.entities@[i] as int] == i);
            assert(self.sparse@[self.entities@[j] as int] == j);
        }
        assert forall|e: usize| #[trigger] self@.dom().contains(e) implies self.entities@.to_set().contains(e) by {
            let d = self.sparse@[e as int] as int;
            assert(self.entities@[d] == e);
        }
        assert forall|e: usize| self.entities@.to_set().contains(e) implies #[trigger] self@.dom().contains(e) by {
            assert(self.entities@.contains(e));
            let d = choose|d: int| 0 <= d < self.entities@.len() && self.entities@[d] == e;
            assert(self.sparse@[self.entities@[d] as int] == d);
            assert(self.dense@.len() <= usize::MAX);
            assert(self.sparse@[e as int] != SPARSE_SENTINEL);
        }
        assert(self@.dom() =~= self.entities@.to_set());
        self.entities@.unique_seq_to_set();
        assert forall|d: int| 0 <= d < self.entity_order().len() implies self@[
            #[trigger] self.entity_order()[d]] == self.values()[d] by {
            assert(self.sparse@[self.entities@[d] as int] == d);
        }
    }

    /// Creates a new empty SparseSet
    pub fn new() -> (r: Self)
        ensures
            r.wf(),
            r@ == Map::<usize, T>::empty(),
            r.entity_order() == Seq::<usize>::empty(),
            r.values() == Seq::<T>::empty(),
            r.sparse_len() == 0,
    {
        let r = Self { sparse: Vec::new(), dense: Vec::new(), entities: Vec::new() };
        assert(r@ =~= Map::<usize, T>::empty());
        r
    }

    /// Creates a SparseSet with pre-allocated capacity
    pub fn with_capacity(entity_capacity: usize, component_capacity: usize) -> (r: Self)
        ensures
            r.wf(),
            r@ == Map::<usize, T>::empty(),
            r.entity_order() == Seq::<usize>::empty(),
            r.values() == Seq::<T>::empty(),
            r.sparse_len() == 0,
    {
        let r = Self {
            sparse: Vec::with_capacity(entity_capacity),
            dense: Vec::with_capacity(component_capacity),
            entities: Vec::with_capacity(component_capacity),
        };
        assert(r@ =~= Map::<usize, T>::empty());
        r
    }

    /// Ensures the sparse array can handle the given entity index
    fn ensure_sparse_capacity(&mut self, entity_index: usize)
        requires
            old(self).wf(),
            entity_index < usize::MAX,
        ensures
            final(self).wf(),
            final(self).dense@ == old(self).dense@,
            final(self).entities@ == old(self).entities@,
            final(self)@ == old(self)@,
            entity_index < final(self).sparse@.len(),
            final(self).sparse@.len() == if entity_index < old(self).sparse@.len() {
                old(self).sparse@.len()
            } else {
                (entity_index + 1) as nat
            },
    {
        if entity_index >= self.sparse.len() {
            let new_size = entity_index + 1;
            self.sparse.resize(new_size, SPARSE_SENTINEL);
            assert forall|e: int| old(self).sparse@.len() <= e < self.sparse@.len() implies self.sparse@[e] == SPARSE_SENTINEL by {
                assert(cloned::<usize>(SPARSE_SENTINEL, self.sparse@[e]));
            }
            assert forall|e: int| 0 <= e < old(self).sparse@.len() implies self.sparse@[e] == old(self).sparse@[e] by {
                assert(self.sparse@.subrange(0, old(self).sparse@.len() as int)[e] == self.sparse@[e]);
            }
            assert(self@ =~= old(self)@);
        }
    }

    /// Inserts a component for the given entity
    ///
    /// The entity must not already have a component in this set.
    pub fn insert(&mut self, entity_id: usize, component: T)
        requires
            old(self).wf(),
            !old(self)@.contains_key(entity_id),
            entity_id < usize::MAX,
            old(self).values().len() < usize::MAX,
        ensures
            final(self).wf(),
            final(self)@ == old(self)@.insert(entity_id, component),
            final(self).entity_order() == old(self).entity_order().push(entity_id),
            final(self).values() == old(self).values().push(component),
            final(self).sparse_len() == if entity_id < old(self).sparse_len() {
                old(self).sparse_len()
            } else {
                (entity_id + 1) as nat
            },
    {
        self.ensure_sparse_capacity(entity_id);
        let dense_index = self.dense.len();
        self.sparse.set(entity_id, dense_index);
        self.dense.push(component);
        self.entities.push(entity_id);
        assert(self.wf()) by {
            assert forall|d: int| 0 <= d < self.entities@.len() implies {
                &&& (#[trigger] self.entities@[d]) < self.sparse@.len()
                &&& self.sparse@[self.entities@[d] as int] == d
            } by {
                if d < dense_index {
                    assert(old(self).entities@[d] != entity_id);
                }
            }
        }
        assert(self@ =~= old(self)@.insert(entity_id, component));
    }

    /// Removes a component from the given entity
    ///
    /// Returns `None` if the entity has no component. The last component in
    /// dense order moves into the vacated slot.
    pub fn remove(&mut self, entity_id: usize) -> (r: Option<T>)
        requires
            old(self).wf(),
        ensures
            final(self).wf(),
            final(self)@ == old(self)@.remove(entity_id),
            final(self).sparse_len() == old(self).sparse_len(),
            r == (if old(self)@.contains_key(entity_id) {
                Some(old(self)@[entity_id])
            } else {
                None
            }),
            match r {
                Some(_) => {
                    let d = old(self).entity_order().index_of(entity_id);
                    &&& 0 <= d < old(self).entity_order().len()
                    &&& old(self).entity_order()[d] == entity_id
                    &&& final(self).entity_order() == old(self).entity_order().update(
                        d,
                        old(self).entity_order().last(),
                    ).drop_last()
                    &&& final(self).values() == old(self).values().update(
                        d,
                        old(self).values().last(),
                    ).drop_last()
                },
                None => {
                    &&& final(self).entity_order() == old(self).entity_order()
                    &&& final(self).values() == old(self).values()
                },
            },
    {
        if entity_id >= self.sparse.len() {
            assert(self@ =~= old(self)@.remove(entity_id));
            return None;
        }
        let dense_index = self.sparse[entity_id];
        if dense_index == SPARSE_SENTINEL {
            assert(self@ =~= old(self)@.remove(entity_id));
            return None;
        }
        proof {
            self.lemma_view_matches_dense();
            assert(self.entities@[dense_index as int] == entity_id);
            assert(self.entities@.index_of(entity_id) == dense_index as int);
        }
        let last_dense_index = self.dense.len() - 1;
        let removed_component = self.dense.swap_remove(dense_index);
        self.entities.swap_remove(dense_index);
        if dense_index != last_dense_index {
            let last_entity_id = self.entities[dense_index];
            self.sparse.set(last_entity_id, dense_index);
        }
        self.sparse.set(entity_id, SPARSE_SENTINEL);
        assert(self.wf()) by {
            assert forall|d: int| 0 <= d < self.entities@.len() implies {
                &&& (#[trigger] self.entities@[d]) < self.sparse@.len()
                &&& self.sparse@[self.entities@[d] as int] == d
            } by {
                if d != dense_index {
                    assert(old(self).entities@[d] == self.entities@[d]);
                    assert(old(self).entities@[d] != entity_id);
                }
            }
            assert forall|e: int|
                0 <= e < self.sparse@.len() && #[trigger] self.sparse@[e] != SPARSE_SENTINEL implies {
                &&& self.sparse@[e] < self.entities@.len()
                &&& self.entities@[self.sparse@[e] as int] == e
            } by {
                if e != entity_id && dense_index != last_dense_index && e == old(self).entities@[last_dense_index as int] {
                } else if e != entity_id {
                    assert(old(self).sparse@[e] != dense_index);
                    assert(old(self).sparse@[e] != last_dense_index);
                }
            }
        }
        assert(self@ =~= old(self)@.remove(entity_id)) by {
            assert forall|e: usize| #[trigger] self@.dom().contains(e) implies self@[e] == old(self)@[e] by {
                if dense_index != last_dense_index && e == old(self).entities@[last_dense_index as int] {
                } else {
                    assert(old(self).sparse@[e as int] != last_dense_index);
                }
            }
        }
        Some(removed_component)
    }

    /// Gets a reference to the component for the given entity
    pub fn get(&self, entity_id: usize) -> (r: Option<&T>)
        requires
            self.wf(),
        ensures
            r == (if self@.contains_key(entity_id) {
                Some(&self@[entity_id])
            } else {
                None
            }),
    {
        if entity_id >= self.sparse.len() {
            return None;
        }
        let dense_index = self.sparse[entity_id];
        if dense_index == SPARSE_SENTINEL {
            return None;
        }
        Some(&self.dense[dense_index])
    }

    /// Gets a mutable reference to the component for the given entity
    pub fn get_mut(&mut self, entity_id: usize) -> (r: Option<&mut T>)
        requires
            old(self).wf(),
        ensures
            final(self).wf(),
            final(self).entity_order() == old(self).entity_order(),
            final(self).sparse_len() == old(self).sparse_len(),
            match r {
                Some(c) => {
                    &&& old(self)@.contains_key(entity_id)
                    &&& *c == old(self)@[entity_id]
                    &&& final(self)@ == old(self)@.insert(entity_id, *final(c))
                },
                None => {
                    &&& !old(self)@.contains_key(entity_id)
                    &&& final(self)@ == old(self)@
                    &&& final(self).values() == old(self).values()
                },
            },
        no_unwind
    {
        if entity_id >= self.sparse.len() {
            return None;
        }
        let dense_index = self.sparse[entity_id];
        if dense_index == SPARSE_SENTINEL {
            return None;
        }
        let r = &mut self.dense[dense_index];
        proof {
            assert(forall|e: usize| #[trigger] old(self)@.dom().contains(e) && e != entity_id ==> old(self).sparse@[e as int] != dense_index);
        }
        Some(r)
    }

    /// Returns true if the entity has a component in this set
    pub fn contains(&self, entity_id: usize) -> (r: bool)
        requires
            self.wf(),
        ensures
            r == self@.contains_key(entity_id),
    {
        entity_id < self.sparse.len() && self.sparse[entity_id] != SPARSE_SENTINEL
    }

    /// Returns the number of components stored
    pub fn len(&self) -> (r: usize)
        requires
            self.wf(),
        ensures
            r == self@.len(),
            r == self.values().len(),
    {
        proof {
            self.lemma_view_matches_dense();
        }
        self.dense.len()
    }

    /// Returns true if no components are stored
    pub fn is_empty(&self) -> (r: bool)
        requires
            self.wf(),
        ensures
            r == (self@.len() == 0),
    {
        proof {
            self.lemma_view_matches_dense();
        }
        self.dense.len() == 0
    }

    /// Clears all components; the sparse array keeps its length, every
    /// entry of it marked empty.
    pub fn clear(&mut self)
        requires
            old(self).wf(),
        ensures
            final(self).wf(),
            final(self)@ == Map::<usize, T>::empty(),
            final(self).entity_order() == Seq::<usize>::empty(),
            final(self).values() == Seq::<T>::empty(),
            final(self).sparse_len() == old(self).sparse_len(),
    {
        self.dense.clear();
        self.entities.clear();
        let n = self.sparse.len();
        let mut i: usize = 0;
        while i < n
            invariant
                n == self.sparse@.len(),
                n == old(self).sparse@.len(),
                i <= n,
                self.dense@.len() == 0,
                self.entities@.len() == 0,
                n <= usize::MAX,
                forall|e: int| 0 <= e < i ==> #[trigger] self.sparse@[e] == SPARSE_SENTINEL,
            decreases n - i,
        {
            self.sparse.set(i, SPARSE_SENTINEL);
            i += 1;
        }
        assert(self@ =~= Map::<usize, T>::empty());
    }

    /// The (entity, component) pairs in dense order.
    pub closed spec fn pairs(&self) -> Seq<(usize, T)> {
        Seq::new(self.dense@.len(), |d: int| (self.entities@[d], self.dense@[d]))
    }

    /// The pairs are the entities in dense order with their components: the
    /// `d`-th pair is the `d`-th entity and the component the view keys it
    /// to.
    pub proof fn lemma_pairs(&self)
        requires
            self.wf(),
        ensures
            self.pairs().len() == self.entity_order().len(),
            forall|d: int|
                0 <= d < self.pairs().len() ==> (#[trigger] self.pairs()[d]) == (self.entity_order()[d], self.values()[d])
                    && self@.contains_key(self.pairs()[d].0) && self@[self.pairs()[d].0] == self.pairs()[d].1,
    {
        self.lemma_view_matches_dense();
        assert forall|d: int| 0 <= d < self.pairs().len() implies self@.contains_key(#[trigger] self.pairs()[d].0) by {
            assert(self.entity_order().to_set().contains(self.entity_order()[d]));
        }
    }

    /// Returns an iterator over all components, in dense order
    pub fn iter(&self) -> (r: core::slice::Iter<'_, T>)
        ensures
            vstd::std_specs::slice::into_iter_elts(r) == self.values(),
    {
        self.dense.iter()
    }

    /// Returns a mutable iterator over all components, in dense order
    pub fn iter_mut(&mut self) -> (r: core::slice::IterMut<'_, T>)
        requires
            old(self).wf(),
        ensures
            final(self).wf(),
            final(self).entity_order() == old(self).entity_order(),
            final(self).sparse_len() == old(self).sparse_len(),
            final(self)@.dom() == old(self)@.dom(),
        no_unwind
    {
        slice_iter_mut(&mut self.dense)
    }

    /// Gets the entity ID at the given dense index
    pub fn entity_at(&self, dense_index: usize) -> (r: usize)
        requires
            dense_index < self.entity_order().len(),
        ensures
            r == self.entity_order()[dense_index as int],
    {
        self.entities[dense_index]
    }

    /// Returns the current sparse array length
    pub fn sparse_capacity(&self) -> (r: usize)
        ensures
            r == self.sparse_len(),
    {
        self.sparse.len()
    }

    /// Returns the current dense array capacity
    pub fn dense_capacity(&self) -> (r: usize)
        ensures
            r >= self.values().len(),
    {
        vec_capacity(&self.dense)
    }

    /// An entity index below the largest one that holds no component
    /// leaves room for one more component.
    proof fn lemma_room_for(&self, entity_id: usize)
        requires
            self.wf(),
            !self@.contains_key(entity_id),
            entity_id < usize::MAX,
        ensures
            self.values().len() < usize::MAX,
    {
        self.lemma_view_matches_dense();
        let n = self.sparse@.len();
        if entity_id < n {
            let s = self.entities@.push(entity_id);
            assert(!self.entities@.contains(entity_id)) by {
                if self.entities@.contains(entity_id) {
                    assert(self.entities@.to_set().contains(entity_id));
                }
            }
            assert forall|a: int, b: int| 0 <= a < b < s.len() implies s[a] != s[b] by {
                if b == s.len() - 1 {
                    assert(s[a] == self.entities@[a]);
                } else {
                    assert(s[a] == self.entities@[a] && s[b] == self.entities@[b]);
                }
            }
            assert forall|i: int| 0 <= i < s.len() implies (#[trigger] s[i]) < n by {
                if i < self.entities@.len() {
                    assert(s[i] == self.entities@[i]);
                }
            }
            lemma_distinct_below(s, n);
        } else {
            assert forall|i: int| 0 <= i < self.entities@.len() implies (#[trigger] self.entities@[i]) < n by {}
            lemma_distinct_below(self.entities@, n);
        }
    }
}

/// SparseSet storage for ECS components
///
/// Sparse array for O(1) lookup, dense arrays for cache-friendly
/// iteration. Its model is the map from entity to component; the dense
/// order is the iteration order.
#[derive(Debug)]
pub struct SparseSet<T> {
    data: SparseSetData<T>,
}

impl<T> SparseSet<T> {
    /// The invariant tying the three arrays together; every sparse set keeps it.
    #[verifier::type_invariant]
    pub closed spec fn wf(&self) -> bool {
        self.data.wf()
    }

    /// The entities that hold a component, in dense (iteration) order.
    pub closed spec fn entity_order(&self) -> Seq<usize> {
        self.data.entity_order()
    }

    /// The stored components, in dense (iteration) order.
    pub closed spec fn values(&self) -> Seq<T> {
        self.data.values()
    }

    /// The length of the sparse array.
    pub closed spec fn sparse_len(&self) -> nat {
        self.data.sparse_len()
    }

    /// The stored components keyed by entity.
    pub closed spec fn view(&self) -> Map<usize, T> {
        self.data@
    }

    /// The (entity, component) pairs in dense order.
    pub closed spec fn pairs(&self) -> Seq<(usize, T)> {
        self.data.pairs()
    }

    /// The pairs are the entities in dense order with their components: the
    /// `d`-th pair is the `d`-th entity and the component the view keys it
    /// to; every stored entity appears exactly once.
    pub proof fn lemma_pairs(&self)
        requires
            self.wf(),
        ensures
            self.pairs().len() == self.entity_order().len(),
            self.pairs().len() == self@.len(),
            self.entity_order().no_duplicates(),
            self@.dom() == self.entity_order().to_set(),
            forall|d: int|
                0 <= d < self.pairs().len() ==> (#[trigger] self.pairs()[d]) == (self.entity_order()[d], self.values()[d])
                    && self@.contains_key(self.pairs()[d].0) && self@[self.pairs()[d].0] == self.pairs()[d].1,
    {
        self.data.lemma_pairs();
        self.data.lemma_view_matches_dense();
    }

    /// The keyed view and the dense sequences describe the same contents:
    /// the keys are exactly the entities in dense order, each entity keys the
    /// component at its dense position, and no entity appears twice.
    pub proof fn lemma_view_matches_dense(&self)
        requires
            self.wf(),
        ensures
            self.entity_order().no_duplicates(),
            self.entity_order().len() == self.values().len(),
            self@.dom() == self.entity_order().to_set(),
            self@.dom().finite(),
            self@.len() == self.entity_order().len(),
            forall|d: int|
                0 <= d < self.entity_order().len() ==> self@[#[trigger] self.entity_order()[d]]
                    == self.values()[d],
    {
        self.data.lemma_view_matches_dense();
    }

    /// Creates a new empty SparseSet
    pub fn new() -> (r: Self)
        ensures
            r@ == Map::<usize, T>::empty(),
            r.entity_order() == Seq::<usize>::empty(),
            r.values() == Seq::<T>::empty(),
            r.sparse_len() == 0,
    {
        Self { data: SparseSetData::new() }
    }

    /// Creates a SparseSet with pre-allocated capacity
    pub fn with_capacity(entity_capacity: usize, component_capacity: usize) -> (r: Self)
        ensures
            r@ == Map::<usize, T>::empty(),
            r.entity_order() == Seq::<usize>::empty(),
            r.values() == Seq::<T>::empty(),
            r.sparse_len() == 0,
    {
        Self { data: SparseSetData::with_capacity(entity_capacity, component_capacity) }
    }

    /// Inserts a component for the given entity
    ///
    /// The entity must not already have a component in this set.
    pub fn insert(&mut self, entity_id: usize, component: T)
        requires
            !old(self)@.contains_key(entity_id),
            entity_id < usize::MAX,
            old(self).values().len() < usize::MAX,
        ensures
            final(self)@ == old(self)@.insert(entity_id, component),
            final(self).entity_order() == old(self).entity_order().push(entity_id),
            final(self).values() == old(self).values().push(component),
            final(self).sparse_len() == if entity_id < old(self).sparse_len() {
                old(self).sparse_len()
            } else {
                (entity_id + 1) as nat
            },
    {
        proof {
            use_type_invariant(&*self);
        }
        let mut data = SparseSetData::new();
        core::mem::swap(&mut data, &mut self.data);
        data.insert(entity_id, component);
        self.data = data;
    }

    /// Removes a component from the given entity
    ///
    /// Returns `None` if the entity has no component. The last component in
    /// dense order moves into the vacated slot.
    pub fn remove(&mut self, entity_id: usize) -> (r: Option<T>)
        ensures
            final(self)@ == old(self)@.remove(entity_id),
            final(self).sparse_len() == old(self).sparse_len(),
            r == (if old(self)@.contains_key(entity_id) {
                Some(old(self)@[entity_id])
            } else {
                None
            }),
            match r {
                Some(_) => {
                    let d = old(self).entity_order().index_of(entity_id);
                    &&& 0 <= d < old(self).entity_order().len()
                    &&& old(self).entity_order()[d] == entity_id
                    &&& final(self).entity_order() == old(self).entity_order().update(
                        d,
                        old(self).entity_order().last(),
                    ).drop_last()
                    &&& final(self).values() == old(self).values().update(
                        d,
                        old(self).values().last(),
                    ).drop_last()
                },
                None => {
                    &&& final(self).entity_order() == old(self).entity_order()
                    &&& final(self).values() == old(self).values()
                },
            },
    {
        proof {
            use_type_invariant(&*self);
        }
        let mut data = SparseSetData::new();
        core::mem::swap(&mut data, &mut self.data);
        let r = data.remove(entity_id);
        self.data = data;
        r
    }

    /// Gets a reference to the component for the given entity
    pub fn get(&self, entity_id: usize) -> (r: Option<&T>)
        ensures
            r == (if self@.contains_key(entity_id) {
                Some(&self@[entity_id])
            } else {
                None
            }),
    {
        proof {
            use_type_invariant(self);
        }
        self.data.get(entity_id)
    }

    /// Gets a mutable reference to the component for the given entity
    pub fn get_mut(&mut self, entity_id: usize) -> (r: Option<&mut T>)
        ensures
            final(self).entity_order() == old(self).entity_order(),
            final(self).sparse_len() == old(self).sparse_len(),
            match r {
                Some(c) => {
                    &&& old(self)@.contains_key(entity_id)
                    &&& *c == old(self)@[entity_id]
                    &&& final(self)@ == old(self)@.insert(entity_id, *final(c))
                },
                None => {
                    &&& !old(self)@.contains_key(entity_id)
                    &&& final(self)@ == old(self)@
                    &&& final(self).values() == old(self).values()
                },
            },
    {
        proof {
            use_type_invariant(&*self);
        }
        self.data.get_mut(entity_id)
    }

    /// Returns true if the entity has a component in this set
    pub fn contains(&self, entity_id: usize) -> (r: bool)
        ensures
            r == self@.contains_key(entity_id),
    {
        proof {
            use_type_invariant(self);
        }
        self.data.contains(entity_id)
    }

    /// Returns the number of components stored
    pub fn len(&self) -> (r: usize)
        ensures
            r == self@.len(),
            r == self.values().len(),
    {
        proof {
            use_type_invariant(self);
        }
        self.data.len()
    }

    /// Returns true if no components are stored
    pub fn is_empty(&self) -> (r: bool)
        ensures
            r == (self@.len() == 0),
    {
        proof {
            use_type_invariant(self);
        }
        self.data.is_empty()
    }

    /// Clears all components; the sparse array is not shrunk.
    pub fn clear(&mut self)
        ensures
            final(self)@ == Map::<usize, T>::empty(),
            final(self).entity_order() == Seq::<usize>::empty(),
            final(self).values() == Seq::<T>::empty(),
            final(self).sparse_len() == old(self).sparse_len(),
    {
        proof {
            use_type_invariant(&*self);
        }
        let mut data = SparseSetData::new();
        core::mem::swap(&mut data, &mut self.data);
        data.clear();
        self.data = data;
    }

    /// Returns a cursor over all (entity_id, &component) pairs, in dense order
    pub fn iter_entity(&self) -> (r: IterEntity<'_, T>)
        ensures
            r.valid(),
            r.position() == 0,
            r.remaining_pairs() == self.pairs(),
            self.pairs().len() == self@.len(),
            self@.dom() == self.entity_order().to_set(),
            self.entity_order().no_duplicates(),
            forall|d: int|
                0 <= d < self.pairs().len() ==> (#[trigger] self.pairs()[d]) == (self.entity_order()[d], self.values()[d])
                    && self@.contains_key(self.pairs()[d].0) && self@[self.pairs()[d].0] == self.pairs()[d].1,
    {
        proof {
            use_type_invariant(self);
            self.lemma_pairs();
        }
        IterEntity { sparse_set: self, index: 0 }
    }

    /// Returns an iterator over all components, in dense order
    pub fn iter(&self) -> (r: core::slice::Iter<'_, T>)
        ensures
            vstd::std_specs::slice::into_iter_elts(r) == self.values(),
    {
        self.data.iter()
    }

    /// Returns a mutable iterator over all components, in dense order
    pub fn iter_mut(&mut self) -> (r: core::slice::IterMut<'_, T>)
        ensures
            final(self).entity_order() == old(self).entity_order(),
            final(self).sparse_len() == old(self).sparse_len(),
            final(self)@.dom() == old(self)@.dom(),
    {
        proof {
            use_type_invariant(&*self);
        }
        self.data.iter_mut()
    }

    /// Gets the entity ID at the given dense index
    pub fn entity_at(&self, dense_index: usize) -> (r: usize)
        requires
            dense_index < self.entity_order().len(),
        ensures
            r == self.entity_order()[dense_index as int],
    {
        self.data.entity_at(dense_index)
    }

    /// Returns the current sparse array length
    pub fn sparse_capacity(&self) -> (r: usize)
        ensures
            r == self.sparse_len(),
    {
        self.data.sparse_capacity()
    }

    /// Returns the current dense array capacity
    pub fn dense_capacity(&self) -> (r: usize)
        ensures
            r >= self.values().len(),
    {
        self.data.dense_capacity()
    }
}

impl<T> Default for SparseSet<T> {
    fn default() -> (r: Self)
        ensures
            r@ == Map::<usize, T>::empty(),
    {
        Self::new()
    }
}

impl<T: 'static> ComponentStorage for SparseSet<T> {
    type Item = T;

    closed spec fn items(&self) -> Map<usize, T> {
        self@
    }

    fn empty() -> (s: Self) {
        Self::new()
    }

    /// Inserts the component, replacing the one the entity has, if any.
    fn insert(&mut self, entity_index: usize, component: T) {
        proof {
            use_type_invariant(&*self);
        }
        match self.get_mut(entity_index) {
            Some(slot) => {
                *slot = component;
            },
            None => {
                proof {
                    use_type_invariant(&*self);
                    self.data.lemma_room_for(entity_index);
                }
                SparseSet::insert(self, entity_index, component);
            },
        }
    }

    fn remove(&mut self, entity_index: usize) -> (r: Option<T>) {
        SparseSet::remove(self, entity_index)
    }

    fn get(&self, entity_index: usize) -> (r: Option<&T>) {
        SparseSet::get(self, entity_index)
    }

    fn get_mut(&mut self, entity_index: usize) -> (r: Option<&mut T>) {
        SparseSet::get_mut(self, entity_index)
    }

    fn contains(&self, entity_index: usize) -> (r: bool) {
        SparseSet::contains(self, entity_index)
    }

    fn len(&self) -> (r: usize) {
        SparseSet::len(self)
    }

    fn is_empty(&self) -> (r: bool) {
        SparseSet::is_empty(self)
    }

    fn clear(&mut self) {
        SparseSet::clear(self)
    }
}

/// Cursor over (entity_id, &component) pairs in a SparseSet
#[derive(Debug)]
pub struct IterEntity<'a, T> {
    sparse_set: &'a SparseSet<T>,
    index: usize,
}

impl<'a, T> IterEntity<'a, T> {
    /// Whether the cursor stands within the set.
    pub closed spec fn valid(&self) -> bool {
        &&& self.sparse_set.wf()
        &&& self.index <= self.sparse_set.data.dense@.len()
    }

    /// How many pairs have been handed out.
    pub closed spec fn position(&self) -> nat {
        self.index as nat
    }

    /// The pairs still to come, starting at the cursor.
    pub closed spec fn remaining_pairs(&self) -> Seq<(usize, T)> {
        self.sparse_set.pairs().skip(self.index as int)
    }

    /// Returns the next (entity_id, &component) pair, if any remain
    pub fn next(&mut self) -> (r: Option<(usize, &'a T)>)
        requires
            old(self).valid(),
        ensures
            final(self).valid(),
            old(self).remaining_pairs().len() == 0 ==> r is None && final(self).remaining_pairs()
                == old(self).remaining_pairs(),
            old(self).remaining_pairs().len() > 0 ==> {
                &&& r is Some
                &&& r->Some_0.0 == old(self).remaining_pairs()[0].0
                &&& *r->Some_0.1 == old(self).remaining_pairs()[0].1
                &&& final(self).remaining_pairs() == old(self).remaining_pairs().drop_first()
            },
    {
        if self.index < self.sparse_set.data.dense.len() {
            let dense_index = self.index;
            self.index = self.index + 1;
            let entity_id = self.sparse_set.data.entities[dense_index];
            let component = &self.sparse_set.data.dense[dense_index];
            assert(self.remaining_pairs() =~= old(self).remaining_pairs().drop_first());
            assert(old(self).remaining_pairs()[0] == old(self).sparse_set.pairs()[dense_index as int]);
            Some((entity_id, component))
        } else {
            None
        }
    }

    /// Returns how many pairs remain
    pub fn size_hint(&self) -> (r: (usize, Option<usize>))
        requires
            self.valid(),
        ensures
            r.0 == self.remaining_pairs().len(),
            r.1 == Some(r.0),
    {
        let remaining = self.sparse_set.data.dense.len() - self.index;
        (remaining, Some(remaining))
    }
}

} // verus!
