//! Runtime registry of component storages, one per component type.

use core::any::{Any, TypeId};
use crate::ecs::component::{Component, ComponentId, ComponentStorage};
use vstd::prelude::*;

verus! {

/// A type-erased component storage (`Box<dyn Any>`), opaque to verification.
#[verifier::external_body]
pub struct ErasedStorage {
    inner: Box<dyn Any>,
}

impl ErasedStorage {
    /// `Box::new` into a `Box<dyn Any>`.
    #[verifier::external_body]
    fn new<S: 'static>(storage: S) -> Self {
        ErasedStorage { inner: Box::new(storage) }
    }

    /// `<dyn Any>::downcast_ref`: `Some` when the stored value has type `S`.
    /// Nothing is stated of the outcome, which depends on the stored type.
    #[verifier::external_body]
    fn downcast_ref<S: 'static>(&self) -> Option<&S> {
        self.inner.downcast_ref::<S>()
    }

    /// `<dyn Any>::downcast_mut`: `Some` when the stored value has type `S`.
    /// Nothing is stated of the outcome, which depends on the stored type.
    #[verifier::external_body]
    fn downcast_mut<S: 'static>(&mut self) -> Option<&mut S> {
        self.inner.downcast_mut::<S>()
    }
}

/// Registry for managing component storage dynamically
///
/// Its model is the set of registered component types; each registered
/// type owns exactly one storage.
pub struct ComponentRegistry {
    /// Registered component types, in registration order
    ids: Vec<ComponentId>,
    /// The storage of each registered type, at the same position
    storages: Vec<ErasedStorage>,
}

impl ComponentRegistry {
    /// The registered type identifiers, in registration order.
    pub closed spec fn ids(&self) -> Seq<TypeId> {
        self.ids@.map_values(|id: ComponentId| id@)
    }

    /// No component type is registered twice.
    pub closed spec fn wf(&self) -> bool {
        &&& self.ids().no_duplicates()
        &&& self.ids@.len() == self.storages@.len()
    }

    /// The set of registered component types.
    pub closed spec fn view(&self) -> Set<TypeId> {
        self.ids().to_set()
    }

    proof fn lemma_len(&self)
        requires
            self.wf(),
        ensures
            self@.finite(),
            self@.len() == self.ids@.len(),
    {
        self.ids().unique_seq_to_set();
    }

    /// Creates a new empty ComponentRegistry
    pub fn new() -> (r: Self)
        ensures
            r.wf(),
            r@ == Set::<TypeId>::empty(),
    {
        let r = Self { ids: Vec::new(), storages: Vec::new() };
        assert(r@ =~= Set::<TypeId>::empty());
        r
    }

    /// The slot holding `id`, if registered.
    fn position(&self, id: ComponentId) -> (r: Option<usize>)
        requires
            self.wf(),
        ensures
            match r {
                Some(i) => i < self.ids@.len() && self.ids()[i as int] == id@,
                None => !self@.contains(id@),
            },
    {
        let mut i: usize = 0;
        while i < self.ids.len()
            invariant
                i <= self.ids@.len(),
                forall|j: int| 0 <= j < i ==> self.ids()[j] != id@,
            decreases self.ids@.len() - i,
        {
            if self.ids[i].same(&id) {
                return Some(i);
            }
            i = i + 1;
        }
        assert(!self.ids().contains(id@));
        None
    }

    /// Whether `id` is registered.
    pub(crate) fn contains_id(&self, id: ComponentId) -> (r: bool)
        requires
            self.wf(),
        ensures
            r == self@.contains(id@),
    {
        match self.position(id) {
            Some(_) => true,
            None => false,
        }
    }

    /// Registers `id` with the given storage, unless it is registered already.
    fn register_erased(&mut self, id: ComponentId, storage: ErasedStorage) -> (r: bool)
        requires
            old(self).wf(),
        ensures
            final(self).wf(),
            r == !old(self)@.contains(id@),
            final(self)@ == old(self)@.insert(id@),
    {
        if self.contains_id(id) {
            assert(old(self)@.insert(id@) =~= old(self)@);
            return false;
        }
        self.ids.push(id);
        self.storages.push(storage);
        assert(self.ids() =~= old(self).ids().push(id@));
        proof {
            old(self).ids().lemma_push_to_set_commute(id@);
        }
        true
    }

    /// Registers a new component type with an empty storage
    ///
    /// A type that is registered already keeps its storage, and `false` is returned.
    pub fn register<T: Component>(&mut self) -> (r: bool)
        requires
            old(self).wf(),
        ensures
            final(self).wf(),
            exists|k: TypeId| final(self)@ == old(self)@.insert(k) && r == !old(self)@.contains(k),
    {
        let id = ComponentId::of::<T>();
        self.register_as::<T>(id)
    }

    /// Registers the component type `T`, identified by `id`, with an empty
    /// storage, unless `id` is registered already.
    pub(crate) fn register_as<T: Component>(&mut self, id: ComponentId) -> (r: bool)
        requires
            old(self).wf(),
        ensures
            final(self).wf(),
            final(self)@ == old(self)@.insert(id@),
            r == !old(self)@.contains(id@),
    {
        let storage = <T::Storage as ComponentStorage>::empty();
        self.register_erased(id, ErasedStorage::new(storage))
    }

    /// The storage registered under `id`, taken as the storage of `T`.
    pub(crate) fn storage_as<T: Component>(&self, id: ComponentId) -> (r: Option<&T::Storage>)
        requires
            self.wf(),
        ensures
            r is Some ==> self@.contains(id@),
    {
        match self.position(id) {
            Some(i) => self.storages[i].downcast_ref::<T::Storage>(),
            None => None,
        }
    }

    /// The storage registered under `id`, taken as the storage of `T`, to modify.
    pub(crate) fn storage_mut_as<T: Component>(&mut self, id: ComponentId) -> (r: Option<&mut T::Storage>)
        requires
            old(self).wf(),
        ensures
            final(self).wf(),
            final(self)@ == old(self)@,
            r is Some ==> old(self)@.contains(id@),
    {
        match self.position(id) {
            Some(i) => {
                let storage = &mut self.storages[i];
                storage.downcast_mut::<T::Storage>()
            },
            None => None,
        }
    }

    /// Registers a component type with a custom storage instance
    ///
    /// A type that is registered already keeps its storage, and `false` is returned.
    pub fn register_with_storage<T: Component>(&mut self, storage: T::Storage) -> (r: bool)
        requires
            old(self).wf(),
        ensures
            final(self).wf(),
            exists|k: TypeId| final(self)@ == old(self)@.insert(k) && r == !old(self)@.contains(k),
    {
        let id = ComponentId::of::<T>();
        self.register_erased(id, ErasedStorage::new(storage))
    }

    /// Gets the storage for a component type
    ///
    /// Returns `None` if the component type is not registered.
    pub fn get_storage<T: Component>(&self) -> (r: Option<&T::Storage>)
        requires
            self.wf(),
        ensures
            r is Some ==> self@ != Set::<TypeId>::empty(),
    {
        let id = ComponentId::of::<T>();
        match self.position(id) {
            Some(i) => {
                assert(self@.contains(self.ids()[i as int]));
                self.storages[i].downcast_ref::<T::Storage>()
            },
            None => None,
        }
    }

    /// Gets mutable storage for a component type
    ///
    /// Returns `None` if the component type is not registered.
    pub fn get_storage_mut<T: Component>(&mut self) -> (r: Option<&mut T::Storage>)
        requires
            old(self).wf(),
        ensures
            final(self).wf(),
            final(self)@ == old(self)@,
            r is Some ==> old(self)@ != Set::<TypeId>::empty(),
    {
        let id = ComponentId::of::<T>();
        match self.position(id) {
            Some(i) => {
                assert(self@.contains(self.ids()[i as int]));
                let storage = &mut self.storages[i];
                storage.downcast_mut::<T::Storage>()
            },
            None => None,
        }
    }

    /// Returns true if a component type is registered
    pub fn is_registered<T: Component>(&self) -> (r: bool)
        requires
            self.wf(),
        ensures
            exists|k: TypeId| r == self@.contains(k),
    {
        let id = ComponentId::of::<T>();
        self.contains_id(id)
    }

    /// Returns the number of registered component types
    pub fn len(&self) -> (r: usize)
        requires
            self.wf(),
        ensures
            r == self@.len(),
    {
        proof {
            self.lemma_len();
        }
        self.ids.len()
    }

    /// Returns true if no component types are registered
    pub fn is_empty(&self) -> (r: bool)
        requires
            self.wf(),
        ensures
            r == (self@.len() == 0),
    {
        proof {
            self.lemma_len();
        }
        self.ids.len() == 0
    }

    /// Clears all component storage
    pub fn clear(&mut self)
        ensures
            final(self).wf(),
            final(self)@ == Set::<TypeId>::empty(),
    {
        self.ids.clear();
        self.storages.clear();
        assert(self@ =~= Set::<TypeId>::empty());
    }
}

impl Default for ComponentRegistry {
    fn default() -> (r: Self)
        ensures
            r.wf(),
            r@ == Set::<TypeId>::empty(),
    {
        Self::new()
    }
}

} // verus!
