//! Component identity, the component traits and the dense vector storage.

use core::any::TypeId;
use vstd::prelude::*;

verus! {

#[verifier::external_type_specification]
#[verifier::external_body]
pub struct ExTypeId(TypeId);

/// Whether the first type identifier comes before the second in `TypeId`'s total order.
pub uninterp spec fn type_id_precedes(a: TypeId, b: TypeId) -> bool;

/// Unique identifier for a component type.
///
/// Its model is the `TypeId` it wraps: two identifiers name the same
/// component type exactly when their views are equal.
#[derive(Clone, Copy, Debug, PartialEq, Eq, PartialOrd, Ord, Hash)]
pub struct ComponentId {
    type_id: TypeId,
}

impl View for ComponentId {
    type V = TypeId;

    closed spec fn view(&self) -> TypeId {
        self.type_id
    }
}

impl ComponentId {
    /// Creates a new ComponentId from a TypeId
    pub fn new(type_id: TypeId) -> (r: Self)
        ensures
            r@ == type_id,
    {
        Self { type_id }
    }

    /// Creates a ComponentId for type T
    pub fn of<T: ?Sized + 'static>() -> Self {
        Self::new(type_id_of::<T>())
    }

    /// Returns the internal TypeId
    pub fn type_id(&self) -> (r: TypeId)
        ensures
            r == self@,
    {
        self.type_id
    }

    /// Creates a ComponentId from a type name (for testing/debugging)
    pub fn from_type_name<T: ?Sized + 'static>() -> Self {
        Self::of::<T>()
    }

    /// Whether both identifiers name the same component type.
    pub fn same(&self, other: &Self) -> (r: bool)
        ensures
            r == (self@ == other@),
    {
        type_id_eq(&self.type_id, &other.type_id)
    }

    /// Whether this identifier comes before `other` in the component order,
    /// a strict total order (see `type_id_lt`).
    pub fn precedes(&self, other: &Self) -> (r: bool)
        ensures
            r == type_id_precedes(self@, other@),
            self@ == other@ ==> !r,
            self@ != other@ ==> (r <==> !type_id_precedes(other@, self@)),
            forall|c: TypeId| r && #[trigger] type_id_precedes(other@, c) ==> type_id_precedes(self@, c),
            forall|c: TypeId| r && #[trigger] type_id_precedes(c, self@) ==> type_id_precedes(c, other@),
    {
        type_id_lt(&self.type_id, &other.type_id)
    }
}

/// `core::any::TypeId::of`: the identifier of `T`. Nothing is stated of the value.
#[verifier::external_body]
fn type_id_of<T: ?Sized + 'static>() -> TypeId {
    TypeId::of::<T>()
}

/// `<TypeId as PartialEq>::eq`: true exactly when both identifiers are the same value.
#[verifier::external_body]
fn type_id_eq(a: &TypeId, b: &TypeId) -> (r: bool)
    ensures
        r == (*a == *b),
{
    *a == *b
}

/// `<TypeId as PartialOrd>::lt`, whose answer is named `type_id_precedes`.
/// `TypeId`'s `Ord` is a total order, so `<` is a strict total order: the
/// answer is false on equal identifiers, on distinct ones it is the negation
/// of the reverse comparison, and a true answer chains with the order of a
/// third identifier on either side.
#[verifier::external_body]
fn type_id_lt(a: &TypeId, b: &TypeId) -> (r: bool)
    ensures
        r == type_id_precedes(*a, *b),
        *a == *b ==> !r,
        *a != *b ==> (r <==> !type_id_precedes(*b, *a)),
        forall|c: TypeId| r && #[trigger] type_id_precedes(*b, c) ==> type_id_precedes(*a, c),
        forall|c: TypeId| r && #[trigger] type_id_precedes(c, *a) ==> type_id_precedes(c, *b),
{
    *a < *b
}

/// Marker trait for types that can be used as ECS components
///
/// The associated storage keeps the components of this type, keyed by entity index.
pub trait Component: 'static + Sized {
    /// The storage type used for this component
    type Storage: ComponentStorage<Item = Self>;
}

/// Trait for component storage backends
///
/// A storage is modelled as a finite map from entity index to component.
pub trait ComponentStorage: 'static + Sized {
    /// The type of component being stored
    type Item;

    /// The stored components, keyed by entity index.
    spec fn items(&self) -> Map<usize, Self::Item>;

    /// Creates an empty storage.
    fn empty() -> (s: Self)
        ensures
            s.items() == Map::<usize, Self::Item>::empty(),
    ;

    /// Inserts a component at the given entity index, replacing the one
    /// stored there, if any
    fn insert(&mut self, entity_index: usize, component: Self::Item)
        requires
            entity_index < usize::MAX,
        ensures
            final(self).items() == old(self).items().insert(entity_index, component),
    ;

    /// Removes a component at the given entity index
    fn remove(&mut self, entity_index: usize) -> (r: Option<Self::Item>)
        ensures
            final(self).items() == old(self).items().remove(entity_index),
            r == (if old(self).items().contains_key(entity_index) {
                Some(old(self).items()[entity_index])
            } else {
                None
            }),
    ;

    /// Gets a reference to the component at the given entity index
    fn get(&self, entity_index: usize) -> (r: Option<&Self::Item>)
        ensures
            r == (if self.items().contains_key(entity_index) {
                Some(&self.items()[entity_index])
            } else {
                None
            }),
    ;

    /// Gets a mutable reference to the component at the given entity index
    fn get_mut(&mut self, entity_index: usize) -> (r: Option<&mut Self::Item>)
        ensures
            match r {
                Some(c) => {
                    &&& old(self).items().contains_key(entity_index)
                    &&& *c == old(self).items()[entity_index]
                    &&& final(self).items() == old(self).items().insert(entity_index, *final(c))
                },
                None => {
                    &&& !old(self).items().contains_key(entity_index)
                    &&& final(self).items() == old(self).items()
                },
            },
    ;

    /// Returns true if a component exists for the given entity
    fn contains(&self, entity_index: usize) -> (r: bool)
        ensures
            r == self.items().contains_key(entity_index),
    ;

    /// Returns the number of stored components
    fn len(&self) -> (r: usize)
        ensures
            r == self.items().len(),
    ;

    /// Returns true if no components are stored
    fn is_empty(&self) -> (r: bool)
        ensures
            r == (self.items().len() == 0),
    ;

    /// Clears all components
    fn clear(&mut self)
        ensures
            final(self).items() == Map::<usize, Self::Item>::empty(),
    ;
}

/// For every storage: a component inserted for an entity that had none is
/// what a lookup finds there, the other entities keep theirs, and removing
/// it again gives back the storage's contents as they were.
pub proof fn lemma_storage_insert_then_remove<S: ComponentStorage>(
    s0: S,
    s1: S,
    s2: S,
    entity_index: usize,
    component: S::Item,
)
    requires
        !s0.items().contains_key(entity_index),
        s1.items() == s0.items().insert(entity_index, component),
        s2.items() == s1.items().remove(entity_index),
    ensures
        s1.items().contains_key(entity_index),
        s1.items()[entity_index] == component,
        forall|k: usize| k != entity_index ==> (#[trigger] s1.items().contains_key(k)) == s0.items().contains_key(k)
            && (s0.items().contains_key(k) ==> s1.items()[k] == s0.items()[k]),
        s2.items() == s0.items(),
{
    assert(s2.items() =~= s0.items());
}

/// The entity indices below `n` whose slot holds a component.
pub open spec fn occupied<T>(slots: Seq<Option<T>>, n: int) -> Set<usize> {
    Set::new(|i: usize| i < n && i < slots.len() && slots[i as int] is Some)
}

/// Number of occupied slots among the first `n`.
pub open spec fn count_occupied<T>(slots: Seq<Option<T>>, n: int) -> nat
    decreases n,
{
    if n <= 0 {
        0
    } else if slots[n - 1] is Some {
        count_occupied(slots, n - 1) + 1
    } else {
        count_occupied(slots, n - 1)
    }
}

proof fn lemma_occupied_len<T>(slots: Seq<Option<T>>, n: int)
    requires
        0 <= n <= slots.len(),
        slots.len() <= usize::MAX,
    ensures
        occupied(slots, n).finite(),
        occupied(slots, n).len() == count_occupied(slots, n),
        count_occupied(slots, n) <= n,
    decreases n,
{
    if n == 0 {
        assert(occupied(slots, 0) =~= Set::<usize>::empty());
    } else {
        lemma_occupied_len(slots, n - 1);
        let k = (n - 1) as usize;
        if slots[n - 1] is Some {
            assert(occupied(slots, n) =~= occupied(slots, n - 1).insert(k));
        } else {
            assert(occupied(slots, n) =~= occupied(slots, n - 1));
        }
    }
}

/// Default storage implementation using a simple Vec
///
/// Stores components in a dense vector with optional entries.
/// Simple but memory-inefficient for sparse components.
#[derive(Debug)]
pub struct VecStorage<T> {
    /// Internal storage, using Option to represent missing components
    data: Vec<Option<T>>,
}

impl<T> VecStorage<T> {
    /// The component slots, one per entity index below the current length.
    pub closed spec fn slots(&self) -> Seq<Option<T>> {
        self.data@
    }

    /// Creates a new empty VecStorage
    pub fn new() -> (r: Self)
        ensures
            r.slots() == Seq::<Option<T>>::empty(),
    {
        Self { data: Vec::new() }
    }

    /// Creates a VecStorage with the given capacity
    pub fn with_capacity(capacity: usize) -> (r: Self)
        ensures
            r.slots() == Seq::<Option<T>>::empty(),
    {
        Self { data: Vec::with_capacity(capacity) }
    }

    /// Ensures the internal vector has capacity for the given entity index
    fn ensure_capacity(&mut self, entity_index: usize)
        ensures
            final(self).data@.len() == if entity_index < old(self).data@.len() {
                old(self).data@.len()
            } else {
                (entity_index + 1) as nat
            },
            forall|i: int|
                0 <= i < final(self).data@.len() ==> #[trigger] final(self).data@[i] == if i
                    < old(self).data@.len() {
                    old(self).data@[i]
                } else {
                    None
                },
    {
        while entity_index >= self.data.len()
            invariant
                old(self).data@.len() <= self.data@.len(),
                entity_index >= old(self).data@.len() ==> self.data@.len() <= entity_index + 1,
                entity_index < old(self).data@.len() ==> self.data@.len() == old(self).data@.len(),
                forall|i: int|
                    0 <= i < self.data@.len() ==> #[trigger] self.data@[i] == if i < old(
                        self,
                    ).data@.len() {
                        old(self).data@[i]
                    } else {
                        None
                    },
            decreases entity_index + 1 - self.data@.len(),
        {
            self.data.push(None);
        }
    }

    /// Returns an iterator over all components (including None values)
    pub fn iter(&self) -> (r: core::slice::Iter<'_, Option<T>>)
        ensures
            vstd::std_specs::slice::into_iter_elts(r) == self.slots(),
    {
        self.data.iter()
    }

    /// Returns a mutable iterator over all components (including None values)
    pub fn iter_mut(&mut self) -> (r: core::slice::IterMut<'_, Option<T>>)
        ensures
            final(self).slots().len() == old(self).slots().len(),
    {
        slice_iter_mut(&mut self.data)
    }
}

#[verifier::external_type_specification]
#[verifier::external_body]
#[verifier::reject_recursive_types(T)]
pub struct ExIterMut<'a, T: 'a>(core::slice::IterMut<'a, T>);

/// `<[T]>::iter_mut` on a vector's elements: the elements may be rewritten
/// through the iterator, while the vector keeps its length; the call itself
/// does not panic.
#[verifier::external_body]
pub(crate) fn slice_iter_mut<T>(v: &mut Vec<T>) -> (r: core::slice::IterMut<'_, T>)
    ensures
        final(v)@.len() == old(v)@.len(),
    no_unwind
{
    v.iter_mut()
}

impl<T> Default for VecStorage<T> {
    fn default() -> (r: Self)
        ensures
            r.slots() == Seq::<Option<T>>::empty(),
    {
        Self::new()
    }
}

impl<T: 'static> ComponentStorage for VecStorage<T> {
    type Item = T;

    closed spec fn items(&self) -> Map<usize, T> {
        Map::new(
            |i: usize| i < self.data@.len() && self.data@[i as int] is Some,
            |i: usize| self.data@[i as int]->Some_0,
        )
    }

    fn empty() -> (s: Self) {
        let s = Self::new();
        assert(s.items() =~= Map::<usize, T>::empty());
        s
    }

    fn insert(&mut self, entity_index: usize, component: T) {
        self.ensure_capacity(entity_index);
        self.data.set(entity_index, Some(component));
        assert(self.items() =~= old(self).items().insert(entity_index, component));
    }

    fn remove(&mut self, entity_index: usize) -> (r: Option<T>) {
        if entity_index < self.data.len() {
            self.data.push(None);
            let slot = self.data.swap_remove(entity_index);
            assert(self.items() =~= old(self).items().remove(entity_index));
            slot
        } else {
            assert(self.items() =~= old(self).items().remove(entity_index));
            None
        }
    }

    fn get(&self, entity_index: usize) -> (r: Option<&T>) {
        if entity_index < self.data.len() {
            match &self.data[entity_index] {
                Some(c) => Some(c),
                None => None,
            }
        } else {
            None
        }
    }

    fn get_mut(&mut self, entity_index: usize) -> (r: Option<&mut T>) {
        if entity_index < self.data.len() {
            let slot = &mut self.data[entity_index];
            match slot {
                Some(c) => Some(c),
                None => None,
            }
        } else {
            None
        }
    }

    fn contains(&self, entity_index: usize) -> (r: bool) {
        match self.get(entity_index) {
            Some(_) => true,
            None => false,
        }
    }

    fn len(&self) -> (r: usize) {
        let mut count: usize = 0;
        let mut i: usize = 0;
        while i < self.data.len()
            invariant
                i <= self.data@.len(),
                count == count_occupied(self.data@, i as int),
                count <= i,
            decreases self.data@.len() - i,
        {
            proof {
                lemma_occupied_len(self.data@, i as int + 1);
            }
            if self.data[i].is_some() {
                count = count + 1;
            }
            i = i + 1;
        }
        proof {
            lemma_occupied_len(self.data@, self.data@.len() as int);
            assert(self.items().dom() =~= occupied(self.data@, self.data@.len() as int));
        }
        count
    }

    fn is_empty(&self) -> (r: bool) {
        self.len() == 0
    }

    fn clear(&mut self) {
        self.data.clear();
        assert(self.items() =~= Map::<usize, T>::empty());
    }
}

} // verus!
