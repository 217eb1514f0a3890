//! The ECS world: entity lifecycle and the components of each entity.
//!
//! Entity slots are reused: a destroyed entity's slot goes on a free list,
//! and the next entity created takes the most recently freed slot with its
//! generation advanced, so identifiers of destroyed entities stay dead.

use core::any::TypeId;
use crate::ecs::component::{Component, ComponentId, ComponentStorage};
use crate::ecs::query::{EntityId, Query, QueryMut, QueryParameter};
use crate::ecs::registry::ComponentRegistry;
use vstd::prelude::*;

verus! {

/// Bookkeeping of one entity slot
#[derive(Debug)]
pub(crate) struct EntityMeta {
    /// Generation for detecting stale references
    pub(crate) generation: u32,
    /// Whether this entity slot is alive
    pub(crate) alive: bool,
    /// Which component types this entity has, each once
    pub(crate) components: Vec<ComponentId>,
}

/// The component types listed by identifiers.
pub open spec fn id_types(ids: Seq<ComponentId>) -> Seq<TypeId> {
    ids.map_values(|c: ComponentId| c@)
}

impl EntityMeta {
    /// The component types of the entity.
    pub(crate) closed spec fn types(&self) -> Set<TypeId> {
        id_types(self.components@).to_set()
    }

    /// No component type is listed twice.
    pub(crate) closed spec fn wf(&self) -> bool {
        id_types(self.components@).no_duplicates()
    }
}

impl EntityMeta {
    /// A fresh slot: generation 0, dead, without components.
    fn fresh() -> (r: Self)
        ensures
            r.generation == 0,
            !r.alive,
            r.wf(),
            r.types() == Set::<TypeId>::empty(),
    {
        let r = EntityMeta { generation: 0, alive: false, components: Vec::new() };
        assert(r.types() =~= Set::<TypeId>::empty());
        r
    }
}

/// The generation after `g`, wrapping around.
pub open spec fn next_generation(g: u32) -> u32 {
    if g == u32::MAX {
        0
    } else {
        (g + 1) as u32
    }
}

/// How many of the flags are set.
pub open spec fn count_alive(flags: Seq<bool>) -> nat
    decreases flags.len(),
{
    if flags.len() == 0 {
        0
    } else {
        count_alive(flags.drop_last()) + if flags.last() {
            1nat
        } else {
            0nat
        }
    }
}

/// The indices of the live slots among the first `n` whose entity has
/// component type `k`, ascending.
pub open spec fn slots_having(alive: Seq<bool>, types: Seq<Set<TypeId>>, k: TypeId, n: int) -> Seq<usize>
    decreases n,
{
    if n <= 0 {
        Seq::empty()
    } else {
        let rest = slots_having(alive, types, k, n - 1);
        if alive[n - 1] && types[n - 1].contains(k) {
            rest.push((n - 1) as usize)
        } else {
            rest
        }
    }
}

/// The ECS World - main container for entities and components
///
/// Manages the entities and their components: entity lifecycle, and the
/// component storages, one per registered component type.
pub struct World {
    /// Component registry holding all component storage
    registry: ComponentRegistry,
    /// Entity metadata (generation, alive status, component types)
    entities: Vec<EntityMeta>,
    /// Free list for entity reuse
    free_list: Vec<usize>,
    /// Next entity index to allocate
    next_index: usize,
}

/// `after` is `before` with `e` created: in the most recently freed slot
/// with its generation advanced, or in a new slot of generation 1; alive,
/// without components.
pub open spec fn created(before: World, after: World, e: EntityId) -> bool {
    let n = before.generations().len();
    let free = before.free_slots();
    &&& if free.len() > 0 {
        let i = free.last();
        &&& e.spec_index() == i
        &&& e.spec_generation() == next_generation(before.generations()[i as int])
        &&& after.generations() == before.generations().update(i as int, e.spec_generation())
        &&& after.alive_flags() == before.alive_flags().update(i as int, true)
        &&& after.component_types() == before.component_types().update(i as int, Set::<TypeId>::empty())
        &&& after.free_slots() == free.drop_last()
    } else {
        &&& e.spec_index() == n
        &&& e.spec_generation() == 1
        &&& after.generations() == before.generations().push(1)
        &&& after.alive_flags() == before.alive_flags().push(true)
        &&& after.component_types() == before.component_types().push(Set::<TypeId>::empty())
        &&& after.free_slots() == free
    }
    &&& after.registered() == before.registered()
}

/// `after` is `before` with the live entity `e` destroyed: its slot dead,
/// without components, and on the free list.
pub open spec fn destroyed(before: World, after: World, e: EntityId) -> bool {
    let i = e.spec_index() as int;
    &&& after.generations() == before.generations()
    &&& after.alive_flags() == before.alive_flags().update(i, false)
    &&& after.component_types() == before.component_types().update(i, Set::<TypeId>::empty())
    &&& after.free_slots() == before.free_slots().push(e.spec_index())
    &&& after.registered() == before.registered()
}

/// `after` is `before` with a component added to `e`: nothing changes when
/// `e` is not alive; otherwise its type is registered and listed for `e`.
pub open spec fn component_added(before: World, after: World, e: EntityId) -> bool {
    &&& !before.spec_is_alive(e) ==> after == before
    &&& before.spec_is_alive(e) ==> exists|k: TypeId|
        {
            &&& after.registered() == before.registered().insert(k)
            &&& after.component_types() == before.component_types().update(
                e.spec_index() as int,
                before.component_types()[e.spec_index() as int].insert(k),
            )
        }
    &&& after.generations() == before.generations()
    &&& after.alive_flags() == before.alive_flags()
    &&& after.free_slots() == before.free_slots()
}

impl World {
    /// The generation of each entity slot.
    pub closed spec fn generations(&self) -> Seq<u32> {
        self.entities@.map_values(|m: EntityMeta| m.generation)
    }

    /// Whether each entity slot is alive.
    pub closed spec fn alive_flags(&self) -> Seq<bool> {
        self.entities@.map_values(|m: EntityMeta| m.alive)
    }

    /// The component types of each entity slot.
    pub closed spec fn component_types(&self) -> Seq<Set<TypeId>> {
        self.entities@.map_values(|m: EntityMeta| m.types())
    }

    /// The freed slots, the next to reuse last.
    pub closed spec fn free_slots(&self) -> Seq<usize> {
        self.free_list@
    }

    /// The registered component types.
    pub closed spec fn registered(&self) -> Set<TypeId> {
        self.registry@
    }

    /// Whether `e` names a live entity: its slot is alive and of its generation.
    pub open spec fn spec_is_alive(&self, e: EntityId) -> bool {
        &&& e.spec_index() < self.generations().len()
        &&& self.alive_flags()[e.spec_index() as int]
        &&& self.generations()[e.spec_index() as int] == e.spec_generation()
    }

    /// The world's invariant: the registry lists each type once, every
    /// entity lists each of its component types once, and the free list
    /// holds exactly the dead slots, each once.
    pub closed spec fn wf(&self) -> bool {
        &&& self.registry.wf()
        &&& self.next_index == self.entities@.len()
        &&& forall|i: int| 0 <= i < self.entities@.len() ==> (#[trigger] self.entities@[i]).wf()
        &&& self.free_list@.no_duplicates()
        &&& forall|j: int| 0 <= j < self.free_list@.len() ==> (#[trigger] self.free_list@[j]) < self.entities@.len()
        &&& forall|i: int|
            0 <= i < self.entities@.len() ==> (!(#[trigger] self.entities@[i]).alive <==> self.free_list@.contains(
                i as usize,
            ))
    }

    /// Creates a new empty World
    pub fn new() -> (r: Self)
        ensures
            r.wf(),
            r.generations() == Seq::<u32>::empty(),
            r.alive_flags() == Seq::<bool>::empty(),
            r.component_types() == Seq::<Set<TypeId>>::empty(),
            r.free_slots() == Seq::<usize>::empty(),
            r.registered() == Set::<TypeId>::empty(),
    {
        let r = Self { registry: ComponentRegistry::new(), entities: Vec::new(), free_list: Vec::new(), next_index: 0 };
        assert(r.generations() =~= Seq::<u32>::empty());
        assert(r.alive_flags() =~= Seq::<bool>::empty());
        assert(r.component_types() =~= Seq::<Set<TypeId>>::empty());
        r
    }

    /// Creates a new entity
    ///
    /// Reuses the most recently freed slot, with its generation advanced,
    /// or else takes a new slot, of generation 1.
    pub fn create_entity(&mut self) -> (r: EntityId)
        requires
            old(self).wf(),
            old(self).generations().len() < usize::MAX,
        ensures
            final(self).wf(),
            created(*old(self), *final(self), r),
            final(self).spec_is_alive(r),
    {
        let ghost w0 = *self;
        let index = match self.free_list.pop() {
            Some(index) => index,
            None => {
                let index = self.next_index;
                self.next_index = self.next_index + 1;
                self.entities.push(EntityMeta::fresh());
                proof {
                    assert(!self.free_list@.contains(index)) by {
                        if self.free_list@.contains(index) {
                            let j = choose|j: int| 0 <= j < self.free_list@.len() && self.free_list@[j] == index;
                            assert(self.free_list@[j] < w0.entities@.len());
                        }
                    }
                }
                index
            },
        };
        let ghost w1 = *self;
        let generation = self.entities[index].generation.wrapping_add(1);
        let meta = EntityMeta { generation, alive: true, components: Vec::new() };
        proof {
            assert(meta.types() =~= Set::<TypeId>::empty());
            assert(id_types(meta.components@) =~= Seq::<TypeId>::empty());
        }
        self.entities.set(index, meta);
        proof {
            if w0.free_list@.len() > 0 {
                assert(w0.free_list@ == self.free_list@.push(index));
                assert(!self.free_list@.contains(index)) by {
                    if self.free_list@.contains(index) {
                        let j = choose|j: int| 0 <= j < self.free_list@.len() && self.free_list@[j] == index;
                        assert(w0.free_list@[j] == w0.free_list@[w0.free_list@.len() - 1]);
                    }
                }
            }
            assert forall|i: int| 0 <= i < self.entities@.len() implies (!(#[trigger] self.entities@[i]).alive
                <==> self.free_list@.contains(i as usize)) by {
                if i != index {
                    assert(self.entities@[i] == w1.entities@[i]);
                    if w0.free_list@.len() > 0 {
                        assert(w0.entities@[i] == w1.entities@[i]);
                        assert(w0.free_list@.contains(i as usize) == self.free_list@.contains(i as usize)) by {
                            if w0.free_list@.contains(i as usize) {
                                let j = choose|j: int| 0 <= j < w0.free_list@.len() && w0.free_list@[j] == i as usize;
                                assert(j != w0.free_list@.len() - 1);
                                assert(self.free_list@[j] == i as usize);
                            }
                            if self.free_list@.contains(i as usize) {
                                let j = choose|j: int| 0 <= j < self.free_list@.len() && self.free_list@[j] == i as usize;
                                assert(w0.free_list@[j] == i as usize);
                            }
                        }
                    } else {
                        assert(w0.entities@[i] == w1.entities@[i]);
                    }
                }
            }
            assert forall|i: int| 0 <= i < self.entities@.len() implies (#[trigger] self.entities@[i]).wf() by {
                if i != index {
                    assert(self.entities@[i] == w1.entities@[i]);
                    if i < w0.entities@.len() {
                        assert(w1.entities@[i] == w0.entities@[i]);
                    }
                }
            }
            assert forall|j: int| 0 <= j < self.free_list@.len() implies (#[trigger] self.free_list@[j]) < self.entities@.len() by {
                if w0.free_list@.len() > 0 {
                    assert(self.free_list@[j] == w0.free_list@[j]);
                }
            }
            assert(self.free_list@.no_duplicates()) by {
                if w0.free_list@.len() > 0 {
                    assert forall|a: int, b: int| 0 <= a < b < self.free_list@.len() implies self.free_list@[a]
                        != self.free_list@[b] by {
                        assert(self.free_list@[a] == w0.free_list@[a]);
                        assert(self.free_list@[b] == w0.free_list@[b]);
                    }
                }
            }
            if w0.free_list@.len() > 0 {
                assert(self.generations() =~= w0.generations().update(index as int, generation));
                assert(self.alive_flags() =~= w0.alive_flags().update(index as int, true));
                assert(self.component_types() =~= w0.component_types().update(index as int, Set::<TypeId>::empty()));
            } else {
                assert(self.generations() =~= w0.generations().push(1));
                assert(self.alive_flags() =~= w0.alive_flags().push(true));
                assert(self.component_types() =~= w0.component_types().push(Set::<TypeId>::empty()));
            }
        }
        EntityId::new(index, generation)
    }

    /// Destroys an entity
    ///
    /// Returns `false`, and changes nothing, when the entity is not alive.
    pub fn destroy_entity(&mut self, entity: EntityId) -> (r: bool)
        requires
            old(self).wf(),
        ensures
            final(self).wf(),
            r == old(self).spec_is_alive(entity),
            r ==> destroyed(*old(self), *final(self), entity),
            !r ==> *final(self) == *old(self),
    {
        let index = entity.index();
        if index >= self.entities.len() {
            return false;
        }
        if self.entities[index].generation != entity.generation() {
            return false;
        }
        if !self.entities[index].alive {
            return false;
        }
        let ghost w0 = *self;
        let generation = self.entities[index].generation;
        let meta = EntityMeta { generation, alive: false, components: Vec::new() };
        proof {
            assert(meta.types() =~= Set::<TypeId>::empty());
            assert(id_types(meta.components@) =~= Seq::<TypeId>::empty());
            assert(!w0.free_list@.contains(index));
        }
        self.entities.set(index, meta);
        self.free_list.push(index);
        proof {
            assert forall|i: int| 0 <= i < self.entities@.len() implies (!(#[trigger] self.entities@[i]).alive
                <==> self.free_list@.contains(i as usize)) by {
                if i != index {
                    assert(self.entities@[i] == w0.entities@[i]);
                    if w0.free_list@.contains(i as usize) {
                        let j = choose|j: int| 0 <= j < w0.free_list@.len() && w0.free_list@[j] == i as usize;
                        assert(self.free_list@[j] == i as usize);
                    }
                    if self.free_list@.contains(i as usize) {
                        let j = choose|j: int| 0 <= j < self.free_list@.len() && self.free_list@[j] == i as usize;
                        assert(j < w0.free_list@.len());
                        assert(w0.free_list@[j] == i as usize);
                    }
                } else {
                    assert(self.free_list@[self.free_list@.len() - 1] == index);
                }
            }
            assert forall|i: int| 0 <= i < self.entities@.len() implies (#[trigger] self.entities@[i]).wf() by {
                if i != index {
                    assert(self.entities@[i] == w0.entities@[i]);
                }
            }
            assert forall|j: int| 0 <= j < self.free_list@.len() implies (#[trigger] self.free_list@[j]) < self.entities@.len() by {
                if j < w0.free_list@.len() {
                    assert(self.free_list@[j] == w0.free_list@[j]);
                }
            }
            assert forall|a: int, b: int| 0 <= a < b < self.free_list@.len() implies self.free_list@[a]
                != self.free_list@[b] by {
                assert(self.free_list@[a] == w0.free_list@[a]);
                if b < w0.free_list@.len() {
                    assert(self.free_list@[b] == w0.free_list@[b]);
                } else {
                    assert(w0.free_list@.contains(self.free_list@[a]));
                }
            }
            assert(self.generations() =~= w0.generations());
            assert(self.alive_flags() =~= w0.alive_flags().update(index as int, false));
            assert(self.component_types() =~= w0.component_types().update(index as int, Set::<TypeId>::empty()));
        }
        true
    }

    /// Checks if an entity is alive (not destroyed)
    pub fn is_entity_alive(&self, entity: EntityId) -> (r: bool)
        ensures
            r == self.spec_is_alive(entity),
    {
        let index = entity.index();
        if index >= self.entities.len() {
            return false;
        }
        self.entities[index].alive && self.entities[index].generation == entity.generation()
    }

    /// Lists `id` among the component types of the entity in slot `index`.
    fn add_type(&mut self, index: usize, id: ComponentId)
        requires
            old(self).wf(),
            index < old(self).generations().len(),
        ensures
            final(self).wf(),
            final(self).generations() == old(self).generations(),
            final(self).alive_flags() == old(self).alive_flags(),
            final(self).free_slots() == old(self).free_slots(),
            final(self).registered() == old(self).registered(),
            final(self).component_types() == old(self).component_types().update(
                index as int,
                old(self).component_types()[index as int].insert(id@),
            ),
    {
        let ghost w0 = *self;
        let generation = self.entities[index].generation;
        let alive = self.entities[index].alive;
        let mut comps = copy_ids(&self.entities[index].components);
        let ghost before = id_types(comps@);
        match position_of(&comps, id) {
            Some(j) => {
                proof {
                    assert(before[j as int] == id@);
                    assert(before.to_set().contains(id@));
                    assert(before.to_set().insert(id@) =~= before.to_set());
                }
            },
            None => {
                comps.push(id);
                proof {
                    assert(id_types(comps@) =~= before.push(id@));
                    before.lemma_push_to_set_commute(id@);
                    assert forall|a: int, b: int| 0 <= a < b < id_types(comps@).len() implies id_types(comps@)[a]
                        != id_types(comps@)[b] by {
                        if b == id_types(comps@).len() - 1 {
                            assert(id_types(comps@)[a] == before[a]);
                        } else {
                            assert(id_types(comps@)[a] == before[a] && id_types(comps@)[b] == before[b]);
                        }
                    }
                }
            },
        }
        let meta = EntityMeta { generation, alive, components: comps };
        self.entities.set(index, meta);
        proof {
            assert forall|i: int| 0 <= i < self.entities@.len() implies (#[trigger] self.entities@[i]).wf() by {
                if i != index {
                    assert(self.entities@[i] == w0.entities@[i]);
                }
            }
            assert forall|i: int| 0 <= i < self.entities@.len() implies (!(#[trigger] self.entities@[i]).alive
                <==> self.free_list@.contains(i as usize)) by {
                if i != index {
                    assert(self.entities@[i] == w0.entities@[i]);
                }
            }
            assert(self.generations() =~= w0.generations());
            assert(self.alive_flags() =~= w0.alive_flags());
            assert(self.component_types() =~= w0.component_types().update(
                index as int,
                w0.component_types()[index as int].insert(id@),
            ));
        }
    }

    /// Takes `id` off the component types of the entity in slot `index`.
    fn remove_type(&mut self, index: usize, id: ComponentId)
        requires
            old(self).wf(),
            index < old(self).generations().len(),
        ensures
            final(self).wf(),
            final(self).generations() == old(self).generations(),
            final(self).alive_flags() == old(self).alive_flags(),
            final(self).free_slots() == old(self).free_slots(),
            final(self).registered() == old(self).registered(),
            final(self).component_types() == old(self).component_types().update(
                index as int,
                old(self).component_types()[index as int].remove(id@),
            ),
    {
        let ghost w0 = *self;
        let generation = self.entities[index].generation;
        let alive = self.entities[index].alive;
        let comps = without_id(&self.entities[index].components, id);
        let meta = EntityMeta { generation, alive, components: comps };
        self.entities.set(index, meta);
        proof {
            assert forall|i: int| 0 <= i < self.entities@.len() implies (#[trigger] self.entities@[i]).wf() by {
                if i != index {
                    assert(self.entities@[i] == w0.entities@[i]);
                }
            }
            assert forall|i: int| 0 <= i < self.entities@.len() implies (!(#[trigger] self.entities@[i]).alive
                <==> self.free_list@.contains(i as usize)) by {
                if i != index {
                    assert(self.entities@[i] == w0.entities@[i]);
                }
            }
            assert(self.generations() =~= w0.generations());
            assert(self.alive_flags() =~= w0.alive_flags());
            assert(self.component_types() =~= w0.component_types().update(
                index as int,
                w0.component_types()[index as int].remove(id@),
            ));
        }
    }

    /// Registers a component type with the world
    pub fn register_component<T: Component>(&mut self)
        requires
            old(self).wf(),
        ensures
            final(self).wf(),
            exists|k: TypeId| final(self).registered() == old(self).registered().insert(k),
            final(self).generations() == old(self).generations(),
            final(self).alive_flags() == old(self).alive_flags(),
            final(self).component_types() == old(self).component_types(),
            final(self).free_slots() == old(self).free_slots(),
    {
        let ghost w0 = *self;
        self.registry.register::<T>();
        proof {
            let k = choose|k: TypeId| self.registry@ == w0.registry@.insert(k);
            assert(self.registered() == w0.registered().insert(k));
        }
    }

    /// Adds a component to an entity
    ///
    /// Registers the component type first when needed. Returns `false`,
    /// changing nothing, when the entity is not alive; otherwise the entity
    /// lists the type, and `true` is returned once the component is stored.
    pub fn add_component<T: Component>(&mut self, entity: EntityId, component: T) -> (r: bool)
        requires
            old(self).wf(),
        ensures
            final(self).wf(),
            !old(self).spec_is_alive(entity) ==> !r,
            component_added(*old(self), *final(self), entity),
    {
        if !self.is_entity_alive(entity) {
            return false;
        }
        let id = ComponentId::of::<T>();
        if !self.registry.contains_id(id) {
            self.registry.register_as::<T>(id);
        } else {
            proof {
                assert(self.registry@.insert(id@) =~= self.registry@);
            }
        }
        let index = entity.as_usize();
        self.add_type(index, id);
        let ghost w1 = *self;
        let r = match self.registry.storage_mut_as::<T>(id) {
            Some(storage) => {
                storage.insert(index, component);
                true
            },
            None => false,
        };
        proof {
            assert(self.registered() == w1.registered());
            assert(self.component_types() == w1.component_types());
            assert(self.registered() == old(self).registered().insert(id@));
        }
        r
    }

    /// Removes a component from an entity
    ///
    /// Returns `None`, changing nothing, when the entity is not alive;
    /// otherwise the entity no longer lists the type, and the stored
    /// component, if any, is returned.
    pub fn remove_component<T: Component>(&mut self, entity: EntityId) -> (r: Option<T>)
        requires
            old(self).wf(),
        ensures
            final(self).wf(),
            !old(self).spec_is_alive(entity) ==> r is None && *final(self) == *old(self),
            old(self).spec_is_alive(entity) ==> exists|k: TypeId|
                final(self).component_types() == old(self).component_types().update(
                    entity.spec_index() as int,
                    old(self).component_types()[entity.spec_index() as int].remove(k),
                ),
            final(self).registered() == old(self).registered(),
            final(self).generations() == old(self).generations(),
            final(self).alive_flags() == old(self).alive_flags(),
            final(self).free_slots() == old(self).free_slots(),
    {
        if !self.is_entity_alive(entity) {
            return None;
        }
        let id = ComponentId::of::<T>();
        let index = entity.as_usize();
        self.remove_type(index, id);
        match self.registry.storage_mut_as::<T>(id) {
            Some(storage) => storage.remove(index),
            None => None,
        }
    }

    /// Gets a reference to a component on an entity
    ///
    /// Returns `None` when the entity is not alive.
    pub fn get_component<T: Component>(&self, entity: EntityId) -> (r: Option<&T>)
        requires
            self.wf(),
        ensures
            r is Some ==> self.spec_is_alive(entity),
    {
        if !self.is_entity_alive(entity) {
            return None;
        }
        let id = ComponentId::of::<T>();
        match self.registry.storage_as::<T>(id) {
            Some(storage) => storage.get(entity.as_usize()),
            None => None,
        }
    }

    /// Gets a mutable reference to a component on an entity
    ///
    /// Returns `None` when the entity is not alive.
    pub fn get_component_mut<T: Component>(&mut self, entity: EntityId) -> (r: Option<&mut T>)
        requires
            old(self).wf(),
        ensures
            final(self).wf(),
            r is Some ==> old(self).spec_is_alive(entity),
            final(self).registered() == old(self).registered(),
            final(self).generations() == old(self).generations(),
            final(self).alive_flags() == old(self).alive_flags(),
            final(self).component_types() == old(self).component_types(),
            final(self).free_slots() == old(self).free_slots(),
    {
        if !self.is_entity_alive(entity) {
            return None;
        }
        let id = ComponentId::of::<T>();
        match self.registry.storage_mut_as::<T>(id) {
            Some(storage) => storage.get_mut(entity.as_usize()),
            None => None,
        }
    }

    /// Checks if an entity has a specific component
    ///
    /// `false` when the entity is not alive; otherwise whether it lists the type.
    pub fn has_component<T: Component>(&self, entity: EntityId) -> (r: bool)
        requires
            self.wf(),
        ensures
            r ==> self.spec_is_alive(entity) && exists|k: TypeId|
                self.component_types()[entity.spec_index() as int].contains(k),
            !self.spec_is_alive(entity) ==> !r,
    {
        if !self.is_entity_alive(entity) {
            return false;
        }
        let id = ComponentId::of::<T>();
        let index = entity.as_usize();
        let found = position_of(&self.entities[index].components, id);
        proof {
            if found is Some {
                let j = found->Some_0;
                assert(id_types(self.entities@[index as int].components@)[j as int] == id@);
                assert(self.component_types()[index as int].contains(id@));
            }
        }
        found.is_some()
    }

    /// Returns the live entities that have a component type, by ascending index
    pub fn entities_with_components<T: Component>(&self) -> (r: Vec<EntityId>)
        requires
            self.wf(),
        ensures
            exists|k: TypeId|
                {
                    let slots = #[trigger] slots_having(
                        self.alive_flags(),
                        self.component_types(),
                        k,
                        self.generations().len() as int,
                    );
                    &&& r@.len() == slots.len()
                    &&& forall|j: int|
                        0 <= j < slots.len() ==> (#[trigger] r@[j]).spec_index() == slots[j]
                            && r@[j].spec_generation() == self.generations()[slots[j] as int]
                },
    {
        let id = ComponentId::of::<T>();
        let mut out: Vec<EntityId> = Vec::new();
        let mut i: usize = 0;
        while i < self.entities.len()
            invariant
                i <= self.entities@.len(),
                ({
                    let slots = slots_having(self.alive_flags(), self.component_types(), id@, i as int);
                    &&& out@.len() == slots.len()
                    &&& forall|j: int|
                        0 <= j < slots.len() ==> (#[trigger] out@[j]).spec_index() == slots[j]
                            && out@[j].spec_generation() == self.generations()[slots[j] as int]
                }),
            decreases self.entities@.len() - i,
        {
            let ghost prev = out@;
            if self.entities[i].alive {
                let found = position_of(&self.entities[i].components, id);
                proof {
                    if found is Some {
                        let j = found->Some_0;
                        assert(id_types(self.entities@[i as int].components@)[j as int] == id@);
                    }
                    assert(self.component_types()[i as int] == self.entities@[i as int].types());
                }
                if found.is_some() {
                    out.push(EntityId::new(i, self.entities[i].generation));
                }
            }
            proof {
                assert(self.alive_flags()[i as int] == self.entities@[i as int].alive);
            }
            i = i + 1;
        }
        proof {
            assert(i as int == self.generations().len() as int);
            let slots = slots_having(self.alive_flags(), self.component_types(), id@, self.generations().len() as int);
            assert(out@.len() == slots.len());
        }
        out
    }

    /// Number of entity slots, live or not.
    pub(crate) fn slot_count(&self) -> (r: usize)
        ensures
            r == self.generations().len(),
            r == self.alive_flags().len(),
            r == self.component_types().len(),
    {
        self.entities.len()
    }

    /// Whether the slot at `index` holds a live entity.
    pub(crate) fn alive_at(&self, index: usize) -> (r: bool)
        requires
            index < self.generations().len(),
        ensures
            r == self.alive_flags()[index as int],
    {
        self.entities[index].alive
    }

    /// Whether the entity in the slot at `index` has the component type of `id`.
    pub(crate) fn slot_has(&self, index: usize, id: ComponentId) -> (r: bool)
        requires
            index < self.generations().len(),
        ensures
            r == self.component_types()[index as int].contains(id@),
    {
        let found = position_of(&self.entities[index].components, id);
        proof {
            if found is Some {
                let j = found->Some_0;
                assert(id_types(self.entities@[index as int].components@)[j as int] == id@);
            }
        }
        found.is_some()
    }

    /// The storage of component type `T`, if registered.
    pub(crate) fn storage_of<T: Component>(&self) -> (r: Option<&T::Storage>)
        requires
            self.wf(),
        ensures
            r is Some ==> exists|k: TypeId| self.registered().contains(k),
    {
        let id = ComponentId::of::<T>();
        let r = self.registry.storage_as::<T>(id);
        assert(r is Some ==> self.registered().contains(id@));
        r
    }

    /// The storage of component type `T`, if registered, to modify; the
    /// entities and their component types stay as they are.
    pub(crate) fn storage_mut_of<T: Component>(&mut self) -> (r: Option<&mut T::Storage>)
        requires
            old(self).wf(),
        ensures
            final(self).wf(),
            final(self).generations() == old(self).generations(),
            final(self).alive_flags() == old(self).alive_flags(),
            final(self).component_types() == old(self).component_types(),
            final(self).free_slots() == old(self).free_slots(),
            final(self).registered() == old(self).registered(),
            r is Some ==> exists|k: TypeId| old(self).registered().contains(k),
    {
        let id = ComponentId::of::<T>();
        let r = self.registry.storage_mut_as::<T>(id);
        assert(r is Some ==> old(self).registered().contains(id@));
        r
    }

    /// Creates a query over components (immutable)
    pub fn query<'w, Q: QueryParameter<'w>>(&'w self) -> (r: Query<'w, Q>)
        ensures
            r.spec_world() == *self,
    {
        Query::new(self)
    }

    /// Creates a mutable query over components
    pub fn query_mut<'w, Q: QueryParameter<'w>>(&'w mut self) -> (r: QueryMut<'w, Q>)
        ensures
            r.spec_world() == *old(self),
    {
        QueryMut::new(self)
    }

    /// Returns the number of alive entities
    pub fn entity_count(&self) -> (r: usize)
        ensures
            r == count_alive(self.alive_flags()),
    {
        let mut count: usize = 0;
        let mut i: usize = 0;
        while i < self.entities.len()
            invariant
                i <= self.entities@.len(),
                count == count_alive(self.alive_flags().subrange(0, i as int)),
                count <= i,
            decreases self.entities@.len() - i,
        {
            proof {
                let flags = self.alive_flags().subrange(0, i as int + 1);
                assert(flags.drop_last() =~= self.alive_flags().subrange(0, i as int));
            }
            if self.entities[i].alive {
                count = count + 1;
            }
            i = i + 1;
        }
        assert(self.alive_flags().subrange(0, self.entities@.len() as int) =~= self.alive_flags());
        count
    }

    /// Returns the total number of registered component types
    pub fn component_type_count(&self) -> (r: usize)
        requires
            self.wf(),
        ensures
            r == self.registered().len(),
    {
        self.registry.len()
    }

    /// Clears all entities and components
    pub fn clear(&mut self)
        ensures
            final(self).wf(),
            final(self).generations() == Seq::<u32>::empty(),
            final(self).alive_flags() == Seq::<bool>::empty(),
            final(self).component_types() == Seq::<Set<TypeId>>::empty(),
            final(self).free_slots() == Seq::<usize>::empty(),
            final(self).registered() == Set::<TypeId>::empty(),
    {
        self.entities.clear();
        self.free_list.clear();
        self.next_index = 0;
        self.registry.clear();
        assert(self.generations() =~= Seq::<u32>::empty());
        assert(self.alive_flags() =~= Seq::<bool>::empty());
        assert(self.component_types() =~= Seq::<Set<TypeId>>::empty());
    }
}

/// A copy of the listed identifiers.
fn copy_ids(ids: &Vec<ComponentId>) -> (r: Vec<ComponentId>)
    ensures
        r@ == ids@,
{
    let mut out: Vec<ComponentId> = Vec::new();
    let mut i: usize = 0;
    while i < ids.len()
        invariant
            i <= ids@.len(),
            out@ == ids@.subrange(0, i as int),
        decreases ids@.len() - i,
    {
        out.push(ids[i]);
        i = i + 1;
    }
    assert(ids@.subrange(0, ids@.len() as int) =~= ids@);
    out
}

/// Where `ids` lists the type of `id`, if it does.
fn position_of(ids: &Vec<ComponentId>, id: ComponentId) -> (r: Option<usize>)
    ensures
        match r {
            Some(j) => j < ids@.len() && ids@[j as int]@ == id@,
            None => !id_types(ids@).contains(id@),
        },
{
    let mut j: usize = 0;
    while j < ids.len()
        invariant
            j <= ids@.len(),
            forall|q: int| 0 <= q < j ==> ids@[q]@ != id@,
        decreases ids@.len() - j,
    {
        if ids[j].same(&id) {
            return Some(j);
        }
        j = j + 1;
    }
    proof {
        if id_types(ids@).contains(id@) {
            let q = choose|q: int| 0 <= q < id_types(ids@).len() && id_types(ids@)[q] == id@;
            assert(ids@[q]@ == id@);
        }
    }
    None
}

/// The identifiers without the one of the type of `id`, when they list
/// each type once.
fn without_id(ids: &Vec<ComponentId>, id: ComponentId) -> (r: Vec<ComponentId>)
    requires
        id_types(ids@).no_duplicates(),
    ensures
        id_types(r@).no_duplicates(),
        id_types(r@).to_set() == id_types(ids@).to_set().remove(id@),
{
    let mut out: Vec<ComponentId> = Vec::new();
    let mut i: usize = 0;
    while i < ids.len()
        invariant
            i <= ids@.len(),
            id_types(ids@).no_duplicates(),
            id_types(out@).no_duplicates(),
            forall|q: int| 0 <= q < out@.len() ==> (#[trigger] out@[q])@ != id@,
            id_types(out@).to_set() == id_types(ids@.subrange(0, i as int)).to_set().remove(id@),
        decreases ids@.len() - i,
    {
        let ghost prev = out@;
        let ghost pre = ids@.subrange(0, i as int);
        let ghost next = ids@.subrange(0, i as int + 1);
        proof {
            assert(id_types(next) =~= id_types(pre).push(ids@[i as int]@));
            id_types(pre).lemma_push_to_set_commute(ids@[i as int]@);
        }
        if !ids[i].same(&id) {
            out.push(ids[i]);
            proof {
                assert(id_types(out@) =~= id_types(prev).push(ids@[i as int]@));
                id_types(prev).lemma_push_to_set_commute(ids@[i as int]@);
                assert(!id_types(prev).contains(ids@[i as int]@)) by {
                    if id_types(prev).contains(ids@[i as int]@) {
                        assert(id_types(prev).to_set().contains(ids@[i as int]@));
                        assert(id_types(pre).to_set().contains(ids@[i as int]@));
                        let q = choose|q: int| 0 <= q < id_types(pre).len() && id_types(pre)[q] == ids@[i as int]@;
                        assert(id_types(ids@)[q] == id_types(ids@)[i as int]);
                    }
                }
                assert forall|a: int, b: int| 0 <= a < b < id_types(out@).len() implies id_types(out@)[a]
                    != id_types(out@)[b] by {
                    if b == id_types(out@).len() - 1 {
                        assert(id_types(out@)[a] == id_types(prev)[a]);
                    } else {
                        assert(id_types(out@)[a] == id_types(prev)[a] && id_types(out@)[b] == id_types(prev)[b]);
                    }
                }
                assert(id_types(out@).to_set() =~= id_types(next).to_set().remove(id@));
            }
        } else {
            proof {
                assert(id_types(out@).to_set() =~= id_types(next).to_set().remove(id@));
            }
        }
        i = i + 1;
    }
    assert(ids@.subrange(0, ids@.len() as int) =~= ids@);
    out
}

/// An identifier of a destroyed entity stays dead: the next entity created
/// takes its slot under another generation, and only the new identifier is
/// alive.
pub proof fn lemma_stale_id_stays_dead(w0: World, w1: World, w2: World, e: EntityId, e2: EntityId)
    requires
        w0.spec_is_alive(e),
        destroyed(w0, w1, e),
        created(w1, w2, e2),
    ensures
        !w1.spec_is_alive(e),
        e2.spec_index() == e.spec_index(),
        e2.spec_generation() != e.spec_generation(),
        !w2.spec_is_alive(e),
        w2.spec_is_alive(e2),
{
    let i = e.spec_index() as int;
    assert(w1.free_slots().last() == e.spec_index());
    assert(w1.generations()[i] == e.spec_generation());
}

/// The dead slots among the first `n`.
pub open spec fn dead_slots(alive: Seq<bool>, n: int) -> Set<usize> {
    Set::new(|i: usize| i < n && i < alive.len() && !alive[i as int])
}

proof fn lemma_dead_slots_len(alive: Seq<bool>, n: int)
    requires
        0 <= n <= alive.len(),
        alive.len() <= usize::MAX,
    ensures
        dead_slots(alive, n).finite(),
        dead_slots(alive, n).len() + count_alive(alive.subrange(0, n)) == n,
    decreases n,
{
    if n == 0 {
        assert(dead_slots(alive, 0) =~= Set::<usize>::empty());
        assert(alive.subrange(0, 0) =~= Seq::<bool>::empty());
    } else {
        lemma_dead_slots_len(alive, n - 1);
        assert(alive.subrange(0, n).drop_last() =~= alive.subrange(0, n - 1));
        let k = (n - 1) as usize;
        if alive[n - 1] {
            assert(dead_slots(alive, n) =~= dead_slots(alive, n - 1));
        } else {
            assert(dead_slots(alive, n) =~= dead_slots(alive, n - 1).insert(k));
        }
    }
}

/// The generations, liveness flags and component types describe the same
/// slots.
pub proof fn lemma_slot_lengths(w: World)
    ensures
        w.alive_flags().len() == w.generations().len(),
        w.component_types().len() == w.generations().len(),
{
}

/// Every slot is either alive or free: the live entities number the slots
/// less the free ones.
pub proof fn lemma_alive_count(w: World)
    requires
        w.wf(),
    ensures
        count_alive(w.alive_flags()) + w.free_slots().len() == w.generations().len(),
{
    let n = w.generations().len() as int;
    let alive = w.alive_flags();
    lemma_dead_slots_len(alive, n);
    assert(alive.subrange(0, n) =~= alive);
    assert forall|i: usize| #[trigger] w.free_slots().to_set().contains(i) <==> dead_slots(alive, n).contains(i) by {
        if w.free_slots().to_set().contains(i) {
            let j = choose|j: int| 0 <= j < w.free_slots().len() && w.free_slots()[j] == i;
            assert(w.free_list@[j] < w.entities@.len());
            assert(w.entities@[i as int].alive == alive[i as int]);
        }
        if dead_slots(alive, n).contains(i) {
            assert(alive[i as int] == w.entities@[i as int].alive);
        }
    }
    assert(w.free_slots().to_set() =~= dead_slots(alive, n));
    w.free_slots().unique_seq_to_set();
}

/// Creating an entity adds one to the live count.
pub proof fn lemma_create_counts(w0: World, w1: World, e: EntityId)
    requires
        w0.wf(),
        w1.wf(),
        created(w0, w1, e),
    ensures
        count_alive(w1.alive_flags()) == count_alive(w0.alive_flags()) + 1,
{
    lemma_alive_count(w0);
    lemma_alive_count(w1);
}

/// Destroying a live entity takes one off the live count.
pub proof fn lemma_destroy_counts(w0: World, w1: World, e: EntityId)
    requires
        w0.wf(),
        w1.wf(),
        w0.spec_is_alive(e),
        destroyed(w0, w1, e),
    ensures
        count_alive(w1.alive_flags()) + 1 == count_alive(w0.alive_flags()),
{
    lemma_alive_count(w0);
    lemma_alive_count(w1);
}

impl Default for World {
    fn default() -> (r: Self)
        ensures
            r.wf(),
            r.generations() == Seq::<u32>::empty(),
            r.alive_flags() == Seq::<bool>::empty(),
            r.free_slots() == Seq::<usize>::empty(),
            r.registered() == Set::<TypeId>::empty(),
    {
        Self::new()
    }
}

} // verus!
