//! Entity identifiers, query parameter markers and query filters.

use core::marker::PhantomData;
use core::any::TypeId;
use crate::ecs::component::{Component, ComponentId, ComponentStorage};
use crate::ecs::world::{count_alive, id_types, World};
use vstd::prelude::*;

verus! {

/// Marker trait for valid query parameters.
///
/// Types that implement this trait can be used in queries to specify
/// which components to retrieve: single components, tuples of two to four
/// components, and optional components.
pub trait QueryParameter<'a> {
    /// The item type yielded by this query parameter
    type Item;
}

impl<'a, T: Component> QueryParameter<'a> for &'a T {
    type Item = &'a T;
}

impl<'a, T: Component> QueryParameter<'a> for &'a mut T {
    type Item = &'a mut T;
}

impl<'a, T1: Component, T2: Component> QueryParameter<'a> for (&'a T1, &'a T2) {
    type Item = (&'a T1, &'a T2);
}

impl<'a, T1: Component, T2: Component> QueryParameter<'a> for (&'a mut T1, &'a T2) {
    type Item = (&'a mut T1, &'a T2);
}

impl<'a, T1: Component, T2: Component> QueryParameter<'a> for (&'a T1, &'a mut T2) {
    type Item = (&'a T1, &'a mut T2);
}

impl<'a, T1: Component, T2: Component> QueryParameter<'a> for (&'a mut T1, &'a mut T2) {
    type Item = (&'a mut T1, &'a mut T2);
}

impl<'a, T1: Component, T2: Component, T3: Component> QueryParameter<'a> for (&'a T1, &'a T2, &'a T3) {
    type Item = (&'a T1, &'a T2, &'a T3);
}

impl<'a, T1: Component, T2: Component, T3: Component> QueryParameter<'a> for (
    &'a mut T1,
    &'a mut T2,
    &'a mut T3,
) {
    type Item = (&'a mut T1, &'a mut T2, &'a mut T3);
}

impl<'a, T1: Component, T2: Component, T3: Component, T4: Component> QueryParameter<'a> for (
    &'a T1,
    &'a T2,
    &'a T3,
    &'a T4,
) {
    type Item = (&'a T1, &'a T2, &'a T3, &'a T4);
}

impl<'a, T1: Component, T2: Component, T3: Component, T4: Component> QueryParameter<'a> for (
    &'a mut T1,
    &'a mut T2,
    &'a mut T3,
    &'a mut T4,
) {
    type Item = (&'a mut T1, &'a mut T2, &'a mut T3, &'a mut T4);
}

impl<'a, T: Component> QueryParameter<'a> for Option<&'a T> {
    type Item = Option<&'a T>;
}

impl<'a, T: Component> QueryParameter<'a> for Option<&'a mut T> {
    type Item = Option<&'a mut T>;
}

/// A typed query over components in the world (immutable access).
pub struct Query<'w, Q> {
    world: &'w World,
    _marker: PhantomData<Q>,
}

impl<'w, Q> Query<'w, Q> where Q: QueryParameter<'w> {
    /// The queried world.
    pub closed spec fn spec_world(&self) -> World {
        *self.world
    }

    /// Creates a new query for the given world.
    pub fn new(world: &'w World) -> (r: Self)
        ensures
            r.spec_world() == *world,
    {
        Self { world, _marker: PhantomData }
    }
}

/// Mutable query for components requiring exclusive access.
pub struct QueryMut<'w, Q> {
    /// The world the query reads and writes.
    pub world: &'w mut World,
    /// The query's shape.
    pub _marker: PhantomData<Q>,
}

impl<'w, Q> QueryMut<'w, Q> where Q: QueryParameter<'w> {
    /// The queried world.
    pub closed spec fn spec_world(&self) -> World {
        *self.world
    }

    /// Creates a new mutable query.
    pub fn new(world: &'w mut World) -> (r: Self)
        ensures
            r.spec_world() == *old(world),
    {
        Self { world, _marker: PhantomData }
    }
}

impl<'w, T: Component> Query<'w, &'w T> {
    /// Executes the query for each live entity with component T (immutable),
    /// by ascending slot.
    pub fn each<F>(self, mut f: F)
        where
            F: FnMut(&T),
        requires
            self.spec_world().wf(),
            forall|c: &T| f.requires((c,)),
    {
        match self.world.storage_of::<T>() {
            Some(storage) => {
                let n = self.world.slot_count();
                let mut idx: usize = 0;
                while idx < n
                    invariant
                        n == self.world.generations().len(),
                        idx <= n,
                        forall|c: &T| f.requires((c,)),
                    decreases n - idx,
                {
                    if self.world.alive_at(idx) {
                        match storage.get(idx) {
                            Some(c) => f(c),
                            None => {},
                        }
                    }
                    idx = idx + 1;
                }
            },
            None => {},
        }
    }

    /// Returns the number of live entities with component T.
    pub fn len(&self) -> (r: usize)
        requires
            self.spec_world().wf(),
        ensures
            r <= count_alive(self.spec_world().alive_flags()),
    {
        match self.world.storage_of::<T>() {
            Some(storage) => {
                let n = self.world.slot_count();
                let mut count: usize = 0;
                let mut idx: usize = 0;
                while idx < n
                    invariant
                        n == self.world.generations().len(),
                        n == self.world.alive_flags().len(),
                        idx <= n,
                        count <= count_alive(self.world.alive_flags().subrange(0, idx as int)),
                        count <= idx,
                    decreases n - idx,
                {
                    proof {
                        let flags = self.world.alive_flags().subrange(0, idx as int + 1);
                        assert(flags.drop_last() =~= self.world.alive_flags().subrange(0, idx as int));
                    }
                    if self.world.alive_at(idx) && storage.get(idx).is_some() {
                        count = count + 1;
                    }
                    idx = idx + 1;
                }
                assert(self.world.alive_flags().subrange(0, n as int) =~= self.world.alive_flags());
                count
            },
            None => 0,
        }
    }

    /// Returns true if no live entity has component T.
    pub fn is_empty(&self) -> (r: bool)
        requires
            self.spec_world().wf(),
        ensures
            count_alive(self.spec_world().alive_flags()) == 0 ==> r,
    {
        self.len() == 0
    }
}

impl<'w, T: Component + Clone> QueryMut<'w, &'w mut T> {
    /// Executes the query for each live entity with component T (mutable),
    /// by ascending slot; each changed component is stored back.
    pub fn each<F>(self, mut f: F)
        where
            F: FnMut(&mut T),
        requires
            self.spec_world().wf(),
            forall|c: &mut T| f.requires((c,)),
        ensures
            final(self.world).wf(),
            final(self.world).generations() == self.spec_world().generations(),
            final(self.world).alive_flags() == self.spec_world().alive_flags(),
            final(self.world).component_types() == self.spec_world().component_types(),
            final(self.world).free_slots() == self.spec_world().free_slots(),
            final(self.world).registered() == self.spec_world().registered(),
    {
        let mut updates: Vec<(usize, T)> = Vec::new();
        match self.world.storage_of::<T>() {
            Some(storage) => {
                let n = self.world.slot_count();
                let mut idx: usize = n;
                while idx > 0
                    invariant
                        n == self.world.generations().len(),
                        idx <= n,
                        forall|j: int| 0 <= j < updates@.len() ==> (#[trigger] updates@[j]).0 < n,
                    decreases idx,
                {
                    idx = idx - 1;
                    if self.world.alive_at(idx) {
                        match storage.get(idx) {
                            Some(c) => updates.push((idx, c.clone())),
                            None => {},
                        }
                    }
                }
            },
            None => {},
        }
        let world = self.world;
        if let Some(storage) = world.storage_mut_of::<T>() {
            while updates.len() > 0
                invariant
                    forall|j: int| 0 <= j < updates@.len() ==> (#[trigger] updates@[j]).0 < usize::MAX,
                    forall|c: &mut T| f.requires((c,)),
                decreases updates@.len(),
            {
                let (idx, mut comp) = updates.pop().unwrap();
                f(&mut comp);
                storage.insert(idx, comp);
            }
        }
    }

    /// Returns the number of alive entities.
    pub fn len(&self) -> (r: usize)
        ensures
            r == count_alive(self.spec_world().alive_flags()),
    {
        self.world.entity_count()
    }

    /// Returns true if no entities exist.
    pub fn is_empty(&self) -> (r: bool)
        ensures
            r == (count_alive(self.spec_world().alive_flags()) == 0),
    {
        self.world.entity_count() == 0
    }
}

impl<'w, T1: Component, T2: Component> Query<'w, (&'w T1, &'w T2)> {
    /// Executes the query for each live entity with both components (immutable),
    /// by ascending slot.
    pub fn each<F>(self, mut f: F)
        where
            F: FnMut((&T1, &T2)),
        requires
            self.spec_world().wf(),
            forall|c: (&T1, &T2)| f.requires((c,)),
    {
        let s1 = self.world.storage_of::<T1>();
        let s2 = self.world.storage_of::<T2>();
        match (s1, s2) {
            (Some(storage1), Some(storage2)) => {
                let n = self.world.slot_count();
                let mut idx: usize = 0;
                while idx < n
                    invariant
                        n == self.world.generations().len(),
                        idx <= n,
                        forall|c: (&T1, &T2)| f.requires((c,)),
                    decreases n - idx,
                {
                    if self.world.alive_at(idx) {
                        match (storage1.get(idx), storage2.get(idx)) {
                            (Some(c1), Some(c2)) => f((c1, c2)),
                            _ => {},
                        }
                    }
                    idx = idx + 1;
                }
            },
            _ => {},
        }
    }

    /// Returns the number of live entities with both components.
    pub fn len(&self) -> (r: usize)
        requires
            self.spec_world().wf(),
        ensures
            r <= count_alive(self.spec_world().alive_flags()),
    {
        let s1 = self.world.storage_of::<T1>();
        let s2 = self.world.storage_of::<T2>();
        match (s1, s2) {
            (Some(storage1), Some(storage2)) => {
                let n = self.world.slot_count();
                let mut count: usize = 0;
                let mut idx: usize = 0;
                while idx < n
                    invariant
                        n == self.world.generations().len(),
                        n == self.world.alive_flags().len(),
                        idx <= n,
                        count <= count_alive(self.world.alive_flags().subrange(0, idx as int)),
                        count <= idx,
                    decreases n - idx,
                {
                    proof {
                        let flags = self.world.alive_flags().subrange(0, idx as int + 1);
                        assert(flags.drop_last() =~= self.world.alive_flags().subrange(0, idx as int));
                    }
                    if self.world.alive_at(idx) && storage1.get(idx).is_some() && storage2.get(idx).is_some() {
                        count = count + 1;
                    }
                    idx = idx + 1;
                }
                assert(self.world.alive_flags().subrange(0, n as int) =~= self.world.alive_flags());
                count
            },
            _ => 0,
        }
    }

    /// Returns true if no live entity has both components.
    pub fn is_empty(&self) -> (r: bool)
        requires
            self.spec_world().wf(),
        ensures
            count_alive(self.spec_world().alive_flags()) == 0 ==> r,
    {
        self.len() == 0
    }
}

impl<'w, T1: Component, T2: Component, T3: Component> Query<'w, (&'w T1, &'w T2, &'w T3)> {
    /// Executes the query for each live entity with all three components (immutable),
    /// by ascending slot.
    pub fn each<F>(self, mut f: F)
        where
            F: FnMut((&T1, &T2, &T3)),
        requires
            self.spec_world().wf(),
            forall|c: (&T1, &T2, &T3)| f.requires((c,)),
    {
        let s1 = self.world.storage_of::<T1>();
        let s2 = self.world.storage_of::<T2>();
        let s3 = self.world.storage_of::<T3>();
        match (s1, s2, s3) {
            (Some(storage1), Some(storage2), Some(storage3)) => {
                let n = self.world.slot_count();
                let mut idx: usize = 0;
                while idx < n
                    invariant
                        n == self.world.generations().len(),
                        idx <= n,
                        forall|c: (&T1, &T2, &T3)| f.requires((c,)),
                    decreases n - idx,
                {
                    if self.world.alive_at(idx) {
                        match (storage1.get(idx), storage2.get(idx), storage3.get(idx)) {
                            (Some(c1), Some(c2), Some(c3)) => f((c1, c2, c3)),
                            _ => {},
                        }
                    }
                    idx = idx + 1;
                }
            },
            _ => {},
        }
    }

    /// Returns the number of live entities with all three components.
    pub fn len(&self) -> (r: usize)
        requires
            self.spec_world().wf(),
        ensures
            r <= count_alive(self.spec_world().alive_flags()),
    {
        let s1 = self.world.storage_of::<T1>();
        let s2 = self.world.storage_of::<T2>();
        let s3 = self.world.storage_of::<T3>();
        match (s1, s2, s3) {
            (Some(storage1), Some(storage2), Some(storage3)) => {
                let n = self.world.slot_count();
                let mut count: usize = 0;
                let mut idx: usize = 0;
                while idx < n
                    invariant
                        n == self.world.generations().len(),
                        n == self.world.alive_flags().len(),
                        idx <= n,
                        count <= count_alive(self.world.alive_flags().subrange(0, idx as int)),
                        count <= idx,
                    decreases n - idx,
                {
                    proof {
                        let flags = self.world.alive_flags().subrange(0, idx as int + 1);
                        assert(flags.drop_last() =~= self.world.alive_flags().subrange(0, idx as int));
                    }
                    if self.world.alive_at(idx) && storage1.get(idx).is_some() && storage2.get(idx).is_some() && storage3.get(idx).is_some() {
                        count = count + 1;
                    }
                    idx = idx + 1;
                }
                assert(self.world.alive_flags().subrange(0, n as int) =~= self.world.alive_flags());
                count
            },
            _ => 0,
        }
    }

    /// Returns true if no live entity has all three components.
    pub fn is_empty(&self) -> (r: bool)
        requires
            self.spec_world().wf(),
        ensures
            count_alive(self.spec_world().alive_flags()) == 0 ==> r,
    {
        self.len() == 0
    }
}

impl<'w, T1: Component, T2: Component, T3: Component, T4: Component> Query<'w, (&'w T1, &'w T2, &'w T3, &'w T4)> {
    /// Executes the query for each live entity with all four components (immutable),
    /// by ascending slot.
    pub fn each<F>(self, mut f: F)
        where
            F: FnMut((&T1, &T2, &T3, &T4)),
        requires
            self.spec_world().wf(),
            forall|c: (&T1, &T2, &T3, &T4)| f.requires((c,)),
    {
        let s1 = self.world.storage_of::<T1>();
        let s2 = self.world.storage_of::<T2>();
        let s3 = self.world.storage_of::<T3>();
        let s4 = self.world.storage_of::<T4>();
        match (s1, s2, s3, s4) {
            (Some(storage1), Some(storage2), Some(storage3), Some(storage4)) => {
                let n = self.world.slot_count();
                let mut idx: usize = 0;
                while idx < n
                    invariant
                        n == self.world.generations().len(),
                        idx <= n,
                        forall|c: (&T1, &T2, &T3, &T4)| f.requires((c,)),
                    decreases n - idx,
                {
                    if self.world.alive_at(idx) {
                        match (storage1.get(idx), storage2.get(idx), storage3.get(idx), storage4.get(idx)) {
                            (Some(c1), Some(c2), Some(c3), Some(c4)) => f((c1, c2, c3, c4)),
                            _ => {},
                        }
                    }
                    idx = idx + 1;
                }
            },
            _ => {},
        }
    }

    /// Returns the number of live entities with all four components.
    pub fn len(&self) -> (r: usize)
        requires
            self.spec_world().wf(),
        ensures
            r <= count_alive(self.spec_world().alive_flags()),
    {
        let s1 = self.world.storage_of::<T1>();
        let s2 = self.world.storage_of::<T2>();
        let s3 = self.world.storage_of::<T3>();
        let s4 = self.world.storage_of::<T4>();
        match (s1, s2, s3, s4) {
            (Some(storage1), Some(storage2), Some(storage3), Some(storage4)) => {
                let n = self.world.slot_count();
                let mut count: usize = 0;
                let mut idx: usize = 0;
                while idx < n
                    invariant
                        n == self.world.generations().len(),
                        n == self.world.alive_flags().len(),
                        idx <= n,
                        count <= count_alive(self.world.alive_flags().subrange(0, idx as int)),
                        count <= idx,
                    decreases n - idx,
                {
                    proof {
                        let flags = self.world.alive_flags().subrange(0, idx as int + 1);
                        assert(flags.drop_last() =~= self.world.alive_flags().subrange(0, idx as int));
                    }
                    if self.world.alive_at(idx) && storage1.get(idx).is_some() && storage2.get(idx).is_some() && storage3.get(idx).is_some() && storage4.get(idx).is_some() {
                        count = count + 1;
                    }
                    idx = idx + 1;
                }
                assert(self.world.alive_flags().subrange(0, n as int) =~= self.world.alive_flags());
                count
            },
            _ => 0,
        }
    }

    /// Returns true if no live entity has all four components.
    pub fn is_empty(&self) -> (r: bool)
        requires
            self.spec_world().wf(),
        ensures
            count_alive(self.spec_world().alive_flags()) == 0 ==> r,
    {
        self.len() == 0
    }
}

impl<'w, T: Component> Query<'w, Option<&'w T>> {
    /// Executes the query for each live entity, with its component T if it
    /// has one, by ascending slot.
    pub fn each<F>(self, mut f: F)
        where
            F: FnMut(Option<&T>),
        requires
            self.spec_world().wf(),
            forall|c: Option<&T>| f.requires((c,)),
    {
        let n = self.world.slot_count();
        let storage = self.world.storage_of::<T>();
        let mut idx: usize = 0;
        while idx < n
            invariant
                n == self.world.generations().len(),
                idx <= n,
                forall|c: Option<&T>| f.requires((c,)),
            decreases n - idx,
        {
            if self.world.alive_at(idx) {
                match storage {
                    Some(s) => f(s.get(idx)),
                    None => f(None),
                }
            }
            idx = idx + 1;
        }
    }

    /// Returns the number of alive entities (an optional component always matches).
    pub fn len(&self) -> (r: usize)
        ensures
            r == count_alive(self.spec_world().alive_flags()),
    {
        self.world.entity_count()
    }

    /// Returns true if no entities exist.
    pub fn is_empty(&self) -> (r: bool)
        ensures
            r == (count_alive(self.spec_world().alive_flags()) == 0),
    {
        self.world.entity_count() == 0
    }
}

impl<'w, T1: Component + Clone, T2: Component + Clone> QueryMut<'w, (&'w mut T1, &'w T2)> {
    /// Executes the query for each live entity with mutable T1 and read-only T2, by ascending
    /// slot; each mutable component is stored back after the call.
    pub fn each<F>(self, mut f: F)
        where
            F: FnMut((&mut T1, &T2)),
        requires
            self.spec_world().wf(),
            forall|c: (&mut T1, &T2)| f.requires((c,)),
        ensures
            final(self.world).wf(),
            final(self.world).generations() == self.spec_world().generations(),
            final(self.world).alive_flags() == self.spec_world().alive_flags(),
            final(self.world).component_types() == self.spec_world().component_types(),
            final(self.world).free_slots() == self.spec_world().free_slots(),
            final(self.world).registered() == self.spec_world().registered(),
    {
        let mut updates: Vec<(usize, T1, T2)> = Vec::new();
        let s1 = self.world.storage_of::<T1>();
        let s2 = self.world.storage_of::<T2>();
        match (s1, s2) {
            (Some(storage1), Some(storage2)) => {
                let n = self.world.slot_count();
                let mut idx: usize = n;
                while idx > 0
                    invariant
                        n == self.world.generations().len(),
                        idx <= n,
                        forall|j: int| 0 <= j < updates@.len() ==> (#[trigger] updates@[j]).0 < n,
                    decreases idx,
                {
                    idx = idx - 1;
                    if self.world.alive_at(idx) {
                        match (storage1.get(idx), storage2.get(idx)) {
                            (Some(c1), Some(c2)) => updates.push((idx, c1.clone(), c2.clone())),
                            _ => {},
                        }
                    }
                }
            },
            _ => {},
        }
        let ghost start = *self.world;
        let world = self.world;
        while updates.len() > 0
            invariant
                world.wf(),
                world.generations() == start.generations(),
                world.alive_flags() == start.alive_flags(),
                world.component_types() == start.component_types(),
                world.free_slots() == start.free_slots(),
                world.registered() == start.registered(),
                forall|j: int| 0 <= j < updates@.len() ==> (#[trigger] updates@[j]).0 < usize::MAX,
                forall|c: (&mut T1, &T2)| f.requires((c,)),
            decreases updates@.len(),
        {
            let (idx, mut c1, mut c2) = updates.pop().unwrap();
            f((&mut c1, &c2));
                if let Some(storage) = world.storage_mut_of::<T1>() {
                    storage.insert(idx, c1);
                }
        }
    }

    /// Returns the number of alive entities.
    pub fn len(&self) -> (r: usize)
        ensures
            r == count_alive(self.spec_world().alive_flags()),
    {
        self.world.entity_count()
    }

    /// Returns true if no entities exist.
    pub fn is_empty(&self) -> (r: bool)
        ensures
            r == (count_alive(self.spec_world().alive_flags()) == 0),
    {
        self.world.entity_count() == 0
    }
}

impl<'w, T1: Component + Clone, T2: Component + Clone> QueryMut<'w, (&'w T1, &'w mut T2)> {
    /// Executes the query for each live entity with read-only T1 and mutable T2, by ascending
    /// slot; each mutable component is stored back after the call.
    pub fn each<F>(self, mut f: F)
        where
            F: FnMut((&T1, &mut T2)),
        requires
            self.spec_world().wf(),
            forall|c: (&T1, &mut T2)| f.requires((c,)),
        ensures
            final(self.world).wf(),
            final(self.world).generations() == self.spec_world().generations(),
            final(self.world).alive_flags() == self.spec_world().alive_flags(),
            final(self.world).component_types() == self.spec_world().component_types(),
            final(self.world).free_slots() == self.spec_world().free_slots(),
            final(self.world).registered() == self.spec_world().registered(),
    {
        let mut updates: Vec<(usize, T1, T2)> = Vec::new();
        let s1 = self.world.storage_of::<T1>();
        let s2 = self.world.storage_of::<T2>();
        match (s1, s2) {
            (Some(storage1), Some(storage2)) => {
                let n = self.world.slot_count();
                let mut idx: usize = n;
                while idx > 0
                    invariant
                        n == self.world.generations().len(),
                        idx <= n,
                        forall|j: int| 0 <= j < updates@.len() ==> (#[trigger] updates@[j]).0 < n,
                    decreases idx,
                {
                    idx = idx - 1;
                    if self.world.alive_at(idx) {
                        match (storage1.get(idx), storage2.get(idx)) {
                            (Some(c1), Some(c2)) => updates.push((idx, c1.clone(), c2.clone())),
                            _ => {},
                        }
                    }
                }
            },
            _ => {},
        }
        let ghost start = *self.world;
        let world = self.world;
        while updates.len() > 0
            invariant
                world.wf(),
                world.generations() == start.generations(),
                world.alive_flags() == start.alive_flags(),
                world.component_types() == start.component_types(),
                world.free_slots() == start.free_slots(),
                world.registered() == start.registered(),
                forall|j: int| 0 <= j < updates@.len() ==> (#[trigger] updates@[j]).0 < usize::MAX,
                forall|c: (&T1, &mut T2)| f.requires((c,)),
            decreases updates@.len(),
        {
            let (idx, mut c1, mut c2) = updates.pop().unwrap();
            f((&c1, &mut c2));
                if let Some(storage) = world.storage_mut_of::<T2>() {
                    storage.insert(idx, c2);
                }
        }
    }

    /// Returns the number of alive entities.
    pub fn len(&self) -> (r: usize)
        ensures
            r == count_alive(self.spec_world().alive_flags()),
    {
        self.world.entity_count()
    }

    /// Returns true if no entities exist.
    pub fn is_empty(&self) -> (r: bool)
        ensures
            r == (count_alive(self.spec_world().alive_flags()) == 0),
    {
        self.world.entity_count() == 0
    }
}

impl<'w, T1: Component + Clone, T2: Component + Clone> QueryMut<'w, (&'w mut T1, &'w mut T2)> {
    /// Executes the query for each live entity with mutable T1 and mutable T2, by ascending
    /// slot; each mutable component is stored back after the call.
    pub fn each<F>(self, mut f: F)
        where
            F: FnMut((&mut T1, &mut T2)),
        requires
            self.spec_world().wf(),
            forall|c: (&mut T1, &mut T2)| f.requires((c,)),
        ensures
            final(self.world).wf(),
            final(self.world).generations() == self.spec_world().generations(),
            final(self.world).alive_flags() == self.spec_world().alive_flags(),
            final(self.world).component_types() == self.spec_world().component_types(),
            final(self.world).free_slots() == self.spec_world().free_slots(),
            final(self.world).registered() == self.spec_world().registered(),
    {
        let mut updates: Vec<(usize, T1, T2)> = Vec::new();
        let s1 = self.world.storage_of::<T1>();
        let s2 = self.world.storage_of::<T2>();
        match (s1, s2) {
            (Some(storage1), Some(storage2)) => {
                let n = self.world.slot_count();
                let mut idx: usize = n;
                while idx > 0
                    invariant
                        n == self.world.generations().len(),
                        idx <= n,
                        forall|j: int| 0 <= j < updates@.len() ==> (#[trigger] updates@[j]).0 < n,
                    decreases idx,
                {
                    idx = idx - 1;
                    if self.world.alive_at(idx) {
                        match (storage1.get(idx), storage2.get(idx)) {
                            (Some(c1), Some(c2)) => updates.push((idx, c1.clone(), c2.clone())),
                            _ => {},
                        }
                    }
                }
            },
            _ => {},
        }
        let ghost start = *self.world;
        let world = self.world;
        while updates.len() > 0
            invariant
                world.wf(),
                world.generations() == start.generations(),
                world.alive_flags() == start.alive_flags(),
                world.component_types() == start.component_types(),
                world.free_slots() == start.free_slots(),
                world.registered() == start.registered(),
                forall|j: int| 0 <= j < updates@.len() ==> (#[trigger] updates@[j]).0 < usize::MAX,
                forall|c: (&mut T1, &mut T2)| f.requires((c,)),
            decreases updates@.len(),
        {
            let (idx, mut c1, mut c2) = updates.pop().unwrap();
            f((&mut c1, &mut c2));
                if let Some(storage) = world.storage_mut_of::<T1>() {
                    storage.insert(idx, c1);
                }
                if let Some(storage) = world.storage_mut_of::<T2>() {
                    storage.insert(idx, c2);
                }
        }
    }

    /// Returns the number of alive entities.
    pub fn len(&self) -> (r: usize)
        ensures
            r == count_alive(self.spec_world().alive_flags()),
    {
        self.world.entity_count()
    }

    /// Returns true if no entities exist.
    pub fn is_empty(&self) -> (r: bool)
        ensures
            r == (count_alive(self.spec_world().alive_flags()) == 0),
    {
        self.world.entity_count() == 0
    }
}

impl<'w, T1: Component + Clone, T2: Component + Clone, T3: Component + Clone> QueryMut<'w, (&'w mut T1, &'w mut T2, &'w mut T3)> {
    /// Executes the query for each live entity with mutable T1 and mutable T2 and mutable T3, by ascending
    /// slot; each mutable component is stored back after the call.
    pub fn each<F>(self, mut f: F)
        where
            F: FnMut((&mut T1, &mut T2, &mut T3)),
        requires
            self.spec_world().wf(),
            forall|c: (&mut T1, &mut T2, &mut T3)| f.requires((c,)),
        ensures
            final(self.world).wf(),
            final(self.world).generations() == self.spec_world().generations(),
            final(self.world).alive_flags() == self.spec_world().alive_flags(),
            final(self.world).component_types() == self.spec_world().component_types(),
            final(self.world).free_slots() == self.spec_world().free_slots(),
            final(self.world).registered() == self.spec_world().registered(),
    {
        let mut updates: Vec<(usize, T1, T2, T3)> = Vec::new();
        let s1 = self.world.storage_of::<T1>();
        let s2 = self.world.storage_of::<T2>();
        let s3 = self.world.storage_of::<T3>();
        match (s1, s2, s3) {
            (Some(storage1), Some(storage2), Some(storage3)) => {
                let n = self.world.slot_count();
                let mut idx: usize = n;
                while idx > 0
                    invariant
                        n == self.world.generations().len(),
                        idx <= n,
                        forall|j: int| 0 <= j < updates@.len() ==> (#[trigger] updates@[j]).0 < n,
                    decreases idx,
                {
                    idx = idx - 1;
                    if self.world.alive_at(idx) {
                        match (storage1.get(idx), storage2.get(idx), storage3.get(idx)) {
                            (Some(c1), Some(c2), Some(c3)) => updates.push((idx, c1.clone(), c2.clone(), c3.clone())),
                            _ => {},
                        }
                    }
                }
            },
            _ => {},
        }
        let ghost start = *self.world;
        let world = self.world;
        while updates.len() > 0
            invariant
                world.wf(),
                world.generations() == start.generations(),
                world.alive_flags() == start.alive_flags(),
                world.component_types() == start.component_types(),
                world.free_slots() == start.free_slots(),
                world.registered() == start.registered(),
                forall|j: int| 0 <= j < updates@.len() ==> (#[trigger] updates@[j]).0 < usize::MAX,
                forall|c: (&mut T1, &mut T2, &mut T3)| f.requires((c,)),
            decreases updates@.len(),
        {
            let (idx, mut c1, mut c2, mut c3) = updates.pop().unwrap();
            f((&mut c1, &mut c2, &mut c3));
                if let Some(storage) = world.storage_mut_of::<T1>() {
                    storage.insert(idx, c1);
                }
                if let Some(storage) = world.storage_mut_of::<T2>() {
                    storage.insert(idx, c2);
                }
                if let Some(storage) = world.storage_mut_of::<T3>() {
                    storage.insert(idx, c3);
                }
        }
    }

    /// Returns the number of alive entities.
    pub fn len(&self) -> (r: usize)
        ensures
            r == count_alive(self.spec_world().alive_flags()),
    {
        self.world.entity_count()
    }

    /// Returns true if no entities exist.
    pub fn is_empty(&self) -> (r: bool)
        ensures
            r == (count_alive(self.spec_world().alive_flags()) == 0),
    {
        self.world.entity_count() == 0
    }
}

impl<'w, T1: Component + Clone, T2: Component + Clone, T3: Component + Clone, T4: Component + Clone> QueryMut<'w, (&'w mut T1, &'w mut T2, &'w mut T3, &'w mut T4)> {
    /// Executes the query for each live entity with mutable T1 and mutable T2 and mutable T3 and mutable T4, by ascending
    /// slot; each mutable component is stored back after the call.
    pub fn each<F>(self, mut f: F)
        where
            F: FnMut((&mut T1, &mut T2, &mut T3, &mut T4)),
        requires
            self.spec_world().wf(),
            forall|c: (&mut T1, &mut T2, &mut T3, &mut T4)| f.requires((c,)),
        ensures
            final(self.world).wf(),
            final(self.world).generations() == self.spec_world().generations(),
            final(self.world).alive_flags() == self.spec_world().alive_flags(),
            final(self.world).component_types() == self.spec_world().component_types(),
            final(self.world).free_slots() == self.spec_world().free_slots(),
            final(self.world).registered() == self.spec_world().registered(),
    {
        let mut updates: Vec<(usize, T1, T2, T3, T4)> = Vec::new();
        let s1 = self.world.storage_of::<T1>();
        let s2 = self.world.storage_of::<T2>();
        let s3 = self.world.storage_of::<T3>();
        let s4 = self.world.storage_of::<T4>();
        match (s1, s2, s3, s4) {
            (Some(storage1), Some(storage2), Some(storage3), Some(storage4)) => {
                let n = self.world.slot_count();
                let mut idx: usize = n;
                while idx > 0
                    invariant
                        n == self.world.generations().len(),
                        idx <= n,
                        forall|j: int| 0 <= j < updates@.len() ==> (#[trigger] updates@[j]).0 < n,
                    decreases idx,
                {
                    idx = idx - 1;
                    if self.world.alive_at(idx) {
                        match (storage1.get(idx), storage2.get(idx), storage3.get(idx), storage4.get(idx)) {
                            (Some(c1), Some(c2), Some(c3), Some(c4)) => updates.push((idx, c1.clone(), c2.clone(), c3.clone(), c4.clone())),
                            _ => {},
                        }
                    }
                }
            },
            _ => {},
        }
        let ghost start = *self.world;
        let world = self.world;
        while updates.len() > 0
            invariant
                world.wf(),
                world.generations() == start.generations(),
                world.alive_flags() == start.alive_flags(),
                world.component_types() == start.component_types(),
                world.free_slots() == start.free_slots(),
                world.registered() == start.registered(),
                forall|j: int| 0 <= j < updates@.len() ==> (#[trigger] updates@[j]).0 < usize::MAX,
                forall|c: (&mut T1, &mut T2, &mut T3, &mut T4)| f.requires((c,)),
            decreases updates@.len(),
        {
            let (idx, mut c1, mut c2, mut c3, mut c4) = updates.pop().unwrap();
            f((&mut c1, &mut c2, &mut c3, &mut c4));
                if let Some(storage) = world.storage_mut_of::<T1>() {
                    storage.insert(idx, c1);
                }
                if let Some(storage) = world.storage_mut_of::<T2>() {
                    storage.insert(idx, c2);
                }
                if let Some(storage) = world.storage_mut_of::<T3>() {
                    storage.insert(idx, c3);
                }
                if let Some(storage) = world.storage_mut_of::<T4>() {
                    storage.insert(idx, c4);
                }
        }
    }

    /// Returns the number of alive entities.
    pub fn len(&self) -> (r: usize)
        ensures
            r == count_alive(self.spec_world().alive_flags()),
    {
        self.world.entity_count()
    }

    /// Returns true if no entities exist.
    pub fn is_empty(&self) -> (r: bool)
        ensures
            r == (count_alive(self.spec_world().alive_flags()) == 0),
    {
        self.world.entity_count() == 0
    }
}

impl<'w, T: Component + Clone> QueryMut<'w, Option<&'w mut T>> {
    /// Executes the query for each live entity, with its component T if it
    /// has one (mutable), by ascending slot, when T is registered; each
    /// component is stored back after the call.
    pub fn each<F>(self, mut f: F)
        where
            F: FnMut(Option<&mut T>),
        requires
            self.spec_world().wf(),
            forall|c: Option<&mut T>| f.requires((c,)),
        ensures
            final(self.world).wf(),
            final(self.world).generations() == self.spec_world().generations(),
            final(self.world).alive_flags() == self.spec_world().alive_flags(),
            final(self.world).component_types() == self.spec_world().component_types(),
            final(self.world).free_slots() == self.spec_world().free_slots(),
            final(self.world).registered() == self.spec_world().registered(),
    {
        let mut updates: Vec<(usize, Option<T>)> = Vec::new();
        match self.world.storage_of::<T>() {
            Some(storage) => {
                let n = self.world.slot_count();
                let mut idx: usize = n;
                while idx > 0
                    invariant
                        n == self.world.generations().len(),
                        idx <= n,
                        forall|j: int| 0 <= j < updates@.len() ==> (#[trigger] updates@[j]).0 < n,
                    decreases idx,
                {
                    idx = idx - 1;
                    if self.world.alive_at(idx) {
                        let comp = match storage.get(idx) {
                            Some(c) => Some(c.clone()),
                            None => None,
                        };
                        updates.push((idx, comp));
                    }
                }
            },
            None => {},
        }
        let ghost start = *self.world;
        let world = self.world;
        while updates.len() > 0
            invariant
                world.wf(),
                world.generations() == start.generations(),
                world.alive_flags() == start.alive_flags(),
                world.component_types() == start.component_types(),
                world.free_slots() == start.free_slots(),
                world.registered() == start.registered(),
                forall|j: int| 0 <= j < updates@.len() ==> (#[trigger] updates@[j]).0 < usize::MAX,
                forall|c: Option<&mut T>| f.requires((c,)),
            decreases updates@.len(),
        {
            let (idx, comp) = updates.pop().unwrap();
            match comp {
                Some(mut c) => {
                    f(Some(&mut c));
                    if let Some(storage) = world.storage_mut_of::<T>() {
                        storage.insert(idx, c);
                    }
                },
                None => {
                    f(None);
                },
            }
        }
    }

    /// Returns the number of alive entities.
    pub fn len(&self) -> (r: usize)
        ensures
            r == count_alive(self.spec_world().alive_flags()),
    {
        self.world.entity_count()
    }

    /// Returns true if no entities exist.
    pub fn is_empty(&self) -> (r: bool)
        ensures
            r == (count_alive(self.spec_world().alive_flags()) == 0),
    {
        self.world.entity_count() == 0
    }
}

/// The indices of the live slots among the first `n`, ascending.
pub open spec fn live_slots(alive: Seq<bool>, n: int) -> Seq<usize>
    decreases n,
{
    if n <= 0 {
        Seq::empty()
    } else if alive[n - 1] {
        live_slots(alive, n - 1).push((n - 1) as usize)
    } else {
        live_slots(alive, n - 1)
    }
}

/// An iterator over immutable query results, by ascending slot of the
/// entities that were live when it was made.
pub struct QueryIter<'w, Q> {
    /// World reference for iteration
    world: &'w World,
    /// Indices of the live entities when the iterator was made
    indices: Vec<usize>,
    /// How many indices have been taken
    position: usize,
    /// Marker for the query type
    _marker: PhantomData<Q>,
}

impl<'w, Q> QueryIter<'w, Q> {
    /// The slots still to visit.
    pub closed spec fn remaining(&self) -> Seq<usize> {
        self.indices@.skip(self.position as int)
    }

    /// The iterated world.
    pub closed spec fn spec_world(&self) -> World {
        *self.world
    }

    /// The cursor stands within the slots, and the slots within the world.
    pub closed spec fn valid(&self) -> bool {
        &&& self.position <= self.indices@.len()
        &&& self.world.wf()
        &&& forall|j: int| 0 <= j < self.indices@.len() ==> (#[trigger] self.indices@[j]) < self.world.generations().len()
    }

    /// Creates a new query iterator for the given world.
    pub fn new(world: &'w World) -> (r: Self)
        requires
            world.wf(),
        ensures
            r.valid(),
            r.spec_world() == *world,
            r.remaining() == live_slots(world.alive_flags(), world.generations().len() as int),
    {
        let n = world.slot_count();
        let mut indices: Vec<usize> = Vec::new();
        let mut i: usize = 0;
        while i < n
            invariant
                n == world.generations().len(),
                n == world.alive_flags().len(),
                i <= n,
                indices@ == live_slots(world.alive_flags(), i as int),
                forall|j: int| 0 <= j < indices@.len() ==> (#[trigger] indices@[j]) < i,
            decreases n - i,
        {
            if world.alive_at(i) {
                indices.push(i);
            }
            i = i + 1;
        }
        let r = Self { world, indices, position: 0, _marker: PhantomData };
        assert(r.indices@.skip(0) =~= r.indices@);
        r
    }

    /// Returns the number of entities this iterator has yet to visit.
    pub fn len(&self) -> (r: usize)
        requires
            self.valid(),
        ensures
            r == self.remaining().len(),
    {
        self.indices.len() - self.position
    }

    /// Returns true if this iterator has no entity left to visit.
    pub fn is_empty(&self) -> (r: bool)
        requires
            self.valid(),
        ensures
            r == (self.remaining().len() == 0),
    {
        self.len() == 0
    }

    /// Takes the next slot to visit.
    fn take_index(&mut self) -> (r: Option<usize>)
        requires
            old(self).valid(),
        ensures
            final(self).valid(),
            final(self).spec_world() == old(self).spec_world(),
            old(self).remaining().len() == 0 ==> r is None && final(self).remaining() == old(self).remaining(),
            old(self).remaining().len() > 0 ==> r == Some(old(self).remaining()[0]) && final(self).remaining()
                == old(self).remaining().drop_first(),
            r matches Some(i) ==> i < final(self).spec_world().generations().len(),
    {
        if self.position < self.indices.len() {
            let i = self.indices[self.position];
            self.position = self.position + 1;
            assert(self.remaining() =~= old(self).remaining().drop_first());
            Some(i)
        } else {
            None
        }
    }
}

impl<'w, T: Component> QueryIter<'w, &'w T> {
    /// The component of the next visited entity that has one, if any.
    pub fn next(&mut self) -> (r: Option<&'w T>)
        requires
            old(self).valid(),
        ensures
            final(self).valid(),
            final(self).spec_world() == old(self).spec_world(),
            old(self).remaining().len() > 0 ==> exists|k: int|
                #![trigger old(self).remaining().skip(k)]
                0 < k <= old(self).remaining().len() && final(self).remaining() == old(self).remaining().skip(k),
            r is None ==> final(self).remaining().len() == 0,
    {
        let ghost mut taken: int = 0;
        assert(old(self).remaining().skip(0) =~= old(self).remaining());
        loop
            invariant
                self.valid(),
                self.spec_world() == old(self).spec_world(),
                0 <= taken <= old(self).remaining().len(),
                self.remaining() == old(self).remaining().skip(taken),
            decreases self.remaining().len(),
        {
            match self.take_index() {
                Some(idx) => {
                    proof {
                        assert(old(self).remaining().skip(taken).drop_first() =~= old(self).remaining().skip(taken + 1));
                        taken = taken + 1;
                    }
                    match self.world.storage_of::<T>() {
                        Some(storage) => match storage.get(idx) {
                            Some(c) => {
                                return Some(c);
                            },
                            None => {},
                        },
                        None => {},
                    }
                },
                None => {
                    return None;
                },
            }
        }
    }
}

impl<'w, T1: Component, T2: Component> QueryIter<'w, (&'w T1, &'w T2)> {
    /// The components of the next visited entity that has them all, if
    /// any; `None` once the slots run out, or as soon as one of the types is
    /// not registered.
    pub fn next(&mut self) -> (r: Option<(&'w T1, &'w T2)>)
        requires
            old(self).valid(),
        ensures
            final(self).valid(),
            final(self).spec_world() == old(self).spec_world(),
            old(self).remaining().len() > 0 ==> exists|k: int|
                #![trigger old(self).remaining().skip(k)]
                0 < k <= old(self).remaining().len() && final(self).remaining() == old(self).remaining().skip(k),
            old(self).remaining().len() == 0 ==> r is None,
    {
        let ghost mut taken: int = 0;
        assert(old(self).remaining().skip(0) =~= old(self).remaining());
        loop
            invariant
                self.valid(),
                self.spec_world() == old(self).spec_world(),
                0 <= taken <= old(self).remaining().len(),
                self.remaining() == old(self).remaining().skip(taken),
                old(self).remaining().len() == 0 ==> self.remaining().len() == 0,
            decreases self.remaining().len(),
        {
            match self.take_index() {
                Some(idx) => {
                    proof {
                        assert(old(self).remaining().skip(taken).drop_first() =~= old(self).remaining().skip(taken + 1));
                        taken = taken + 1;
                    }
                    let s1 = match self.world.storage_of::<T1>() {
                        Some(s) => s,
                        None => {
                            return None;
                        },
                    };
                    let s2 = match self.world.storage_of::<T2>() {
                        Some(s) => s,
                        None => {
                            return None;
                        },
                    };
                    match (s1.get(idx), s2.get(idx)) {
                        (Some(c1), Some(c2)) => {
                            return Some((c1, c2));
                        },
                        _ => {},
                    }
                },
                None => {
                    return None;
                },
            }
        }
    }
}

impl<'w, T1: Component, T2: Component, T3: Component> QueryIter<'w, (&'w T1, &'w T2, &'w T3)> {
    /// The components of the next visited entity that has them all, if
    /// any; `None` once the slots run out, or as soon as one of the types is
    /// not registered.
    pub fn next(&mut self) -> (r: Option<(&'w T1, &'w T2, &'w T3)>)
        requires
            old(self).valid(),
        ensures
            final(self).valid(),
            final(self).spec_world() == old(self).spec_world(),
            old(self).remaining().len() > 0 ==> exists|k: int|
                #![trigger old(self).remaining().skip(k)]
                0 < k <= old(self).remaining().len() && final(self).remaining() == old(self).remaining().skip(k),
            old(self).remaining().len() == 0 ==> r is None,
    {
        let ghost mut taken: int = 0;
        assert(old(self).remaining().skip(0) =~= old(self).remaining());
        loop
            invariant
                self.valid(),
                self.spec_world() == old(self).spec_world(),
                0 <= taken <= old(self).remaining().len(),
                self.remaining() == old(self).remaining().skip(taken),
                old(self).remaining().len() == 0 ==> self.remaining().len() == 0,
            decreases self.remaining().len(),
        {
            match self.take_index() {
                Some(idx) => {
                    proof {
                        assert(old(self).remaining().skip(taken).drop_first() =~= old(self).remaining().skip(taken + 1));
                        taken = taken + 1;
                    }
                    let s1 = match self.world.storage_of::<T1>() {
                        Some(s) => s,
                        None => {
                            return None;
                        },
                    };
                    let s2 = match self.world.storage_of::<T2>() {
                        Some(s) => s,
                        None => {
                            return None;
                        },
                    };
                    let s3 = match self.world.storage_of::<T3>() {
                        Some(s) => s,
                        None => {
                            return None;
                        },
                    };
                    match (s1.get(idx), s2.get(idx), s3.get(idx)) {
                        (Some(c1), Some(c2), Some(c3)) => {
                            return Some((c1, c2, c3));
                        },
                        _ => {},
                    }
                },
                None => {
                    return None;
                },
            }
        }
    }
}

impl<'w, T1: Component, T2: Component, T3: Component, T4: Component> QueryIter<'w, (&'w T1, &'w T2, &'w T3, &'w T4)> {
    /// The components of the next visited entity that has them all, if
    /// any; `None` once the slots run out, or as soon as one of the types is
    /// not registered.
    pub fn next(&mut self) -> (r: Option<(&'w T1, &'w T2, &'w T3, &'w T4)>)
        requires
            old(self).valid(),
        ensures
            final(self).valid(),
            final(self).spec_world() == old(self).spec_world(),
            old(self).remaining().len() > 0 ==> exists|k: int|
                #![trigger old(self).remaining().skip(k)]
                0 < k <= old(self).remaining().len() && final(self).remaining() == old(self).remaining().skip(k),
            old(self).remaining().len() == 0 ==> r is None,
    {
        let ghost mut taken: int = 0;
        assert(old(self).remaining().skip(0) =~= old(self).remaining());
        loop
            invariant
                self.valid(),
                self.spec_world() == old(self).spec_world(),
                0 <= taken <= old(self).remaining().len(),
                self.remaining() == old(self).remaining().skip(taken),
                old(self).remaining().len() == 0 ==> self.remaining().len() == 0,
            decreases self.remaining().len(),
        {
            match self.take_index() {
                Some(idx) => {
                    proof {
                        assert(old(self).remaining().skip(taken).drop_first() =~= old(self).remaining().skip(taken + 1));
                        taken = taken + 1;
                    }
                    let s1 = match self.world.storage_of::<T1>() {
                        Some(s) => s,
                        None => {
                            return None;
                        },
                    };
                    let s2 = match self.world.storage_of::<T2>() {
                        Some(s) => s,
                        None => {
                            return None;
                        },
                    };
                    let s3 = match self.world.storage_of::<T3>() {
                        Some(s) => s,
                        None => {
                            return None;
                        },
                    };
                    let s4 = match self.world.storage_of::<T4>() {
                        Some(s) => s,
                        None => {
                            return None;
                        },
                    };
                    match (s1.get(idx), s2.get(idx), s3.get(idx), s4.get(idx)) {
                        (Some(c1), Some(c2), Some(c3), Some(c4)) => {
                            return Some((c1, c2, c3, c4));
                        },
                        _ => {},
                    }
                },
                None => {
                    return None;
                },
            }
        }
    }
}

impl<'w, T: Component> QueryIter<'w, Option<&'w T>> {
    /// The next visited entity's component T, if it has one; `None` once
    /// the slots run out.
    pub fn next(&mut self) -> (r: Option<Option<&'w T>>)
        requires
            old(self).valid(),
        ensures
            final(self).valid(),
            final(self).spec_world() == old(self).spec_world(),
            old(self).remaining().len() == 0 ==> r is None && final(self).remaining() == old(self).remaining(),
            old(self).remaining().len() > 0 ==> r is Some && final(self).remaining() == old(self).remaining().drop_first(),
    {
        match self.take_index() {
            Some(idx) => {
                let component = match self.world.storage_of::<T>() {
                    Some(s) => s.get(idx),
                    None => None,
                };
                Some(component)
            },
            None => None,
        }
    }
}

impl<'w, Q> QueryIter<'w, Q> {
    /// Bounds on the number of entities left to visit: at most the
    /// remaining slots.
    pub fn size_hint(&self) -> (r: (usize, Option<usize>))
        requires
            self.valid(),
        ensures
            r.0 == self.remaining().len(),
            r.1 == Some(r.0),
    {
        let n = self.len();
        (n, Some(n))
    }
}

/// Extension trait providing iteration over queries.
pub trait QueryIterExt<'w, Q: QueryParameter<'w>> {
    /// Whether iteration can start.
    spec fn can_iterate(&self) -> bool;

    /// Returns an iterator over matching entities.
    fn iter(&'w self) -> (r: QueryIter<'w, Q>)
        requires
            self.can_iterate(),
        ensures
            r.valid(),
    ;
}

impl<'w, Q> QueryIterExt<'w, Q> for Query<'w, Q> where Q: QueryParameter<'w> {
    open spec fn can_iterate(&self) -> bool {
        self.spec_world().wf()
    }

    fn iter(&'w self) -> (r: QueryIter<'w, Q>) {
        QueryIter::new(self.world)
    }
}

/// Unique identifier for an entity in the ECS: an index and a generation.
#[derive(Clone, Copy, Debug, PartialEq, Eq, Structural, PartialOrd, Ord, Hash)]
pub struct EntityId {
    index: usize,
    generation: u32,
}

impl EntityId {
    /// The index component.
    pub closed spec fn spec_index(&self) -> usize {
        self.index
    }

    /// The generation component.
    pub closed spec fn spec_generation(&self) -> u32 {
        self.generation
    }

    /// Creates a new EntityId.
    pub fn new(index: usize, generation: u32) -> (r: Self)
        ensures
            r.spec_index() == index,
            r.spec_generation() == generation,
    {
        Self { index, generation }
    }

    /// Returns the index component of this EntityId.
    pub fn index(&self) -> (r: usize)
        ensures
            r == self.spec_index(),
    {
        self.index
    }

    /// Returns the generation component of this EntityId.
    pub fn generation(&self) -> (r: u32)
        ensures
            r == self.spec_generation(),
    {
        self.generation
    }

    /// Returns the index as usize.
    pub fn as_usize(&self) -> (r: usize)
        ensures
            r == self.spec_index(),
    {
        self.index
    }

    /// Creates an EntityId from a usize (generation 0).
    pub fn from_usize(index: usize) -> (r: Self)
        ensures
            r.spec_index() == index,
            r.spec_generation() == 0,
    {
        Self::new(index, 0)
    }
}

/// Two identifiers are equal exactly when their indices and generations are.
pub proof fn lemma_entity_id_eq(a: EntityId, b: EntityId)
    ensures
        (a == b) <==> (a.spec_index() == b.spec_index() && a.spec_generation() == b.spec_generation()),
{
}

/// Query filter that requires an entity to have a specific component.
#[derive(Debug, PartialEq, Eq)]
pub struct With<T: Component> {
    _marker: PhantomData<T>,
}

impl<T: Component> With<T> {
    /// Creates a new `With` filter.
    pub fn new() -> Self {
        Self { _marker: PhantomData }
    }
}

impl<T: Component> Default for With<T> {
    fn default() -> Self {
        Self::new()
    }
}

/// Query filter that requires an entity to NOT have a specific component.
#[derive(Debug, PartialEq, Eq)]
pub struct Without<T: Component> {
    _marker: PhantomData<T>,
}

impl<T: Component> Without<T> {
    /// Creates a new `Without` filter.
    pub fn new() -> Self {
        Self { _marker: PhantomData }
    }
}

impl<T: Component> Default for Without<T> {
    fn default() -> Self {
        Self::new()
    }
}


/// Whether the slot at `i` holds a live entity that has every type of
/// `required` and none of `forbidden`.
pub open spec fn slot_matches(
    alive: Seq<bool>,
    types: Seq<Set<TypeId>>,
    required: Seq<TypeId>,
    forbidden: Seq<TypeId>,
    i: int,
) -> bool {
    &&& alive[i]
    &&& forall|j: int| 0 <= j < required.len() ==> types[i].contains(#[trigger] required[j])
    &&& forall|j: int| 0 <= j < forbidden.len() ==> !types[i].contains(#[trigger] forbidden[j])
}

/// How many of the first `n` slots match (see `slot_matches`).
pub open spec fn count_matching(
    alive: Seq<bool>,
    types: Seq<Set<TypeId>>,
    required: Seq<TypeId>,
    forbidden: Seq<TypeId>,
    n: int,
) -> nat
    decreases n,
{
    if n <= 0 {
        0
    } else {
        count_matching(alive, types, required, forbidden, n - 1) + if slot_matches(
            alive,
            types,
            required,
            forbidden,
            n - 1,
        ) {
            1nat
        } else {
            0nat
        }
    }
}

/// A slot matches exactly when it holds a live entity whose component types
/// include all the required types and none of the forbidden ones.
pub proof fn lemma_slot_matches(
    alive: Seq<bool>,
    types: Seq<Set<TypeId>>,
    required: Seq<TypeId>,
    forbidden: Seq<TypeId>,
    i: int,
)
    ensures
        slot_matches(alive, types, required, forbidden, i) <==> (alive[i] && required.to_set().subset_of(types[i])
            && types[i].disjoint(forbidden.to_set())),
{
    if alive[i] && required.to_set().subset_of(types[i]) && types[i].disjoint(forbidden.to_set()) {
        assert forall|j: int| 0 <= j < required.len() implies types[i].contains(#[trigger] required[j]) by {
            assert(required.to_set().contains(required[j]));
        }
        assert forall|j: int| 0 <= j < forbidden.len() implies !types[i].contains(#[trigger] forbidden[j]) by {
            assert(forbidden.to_set().contains(forbidden[j]));
        }
    }
    if slot_matches(alive, types, required, forbidden, i) {
        assert forall|k: TypeId| required.to_set().contains(k) implies types[i].contains(k) by {
            let j = choose|j: int| 0 <= j < required.len() && required[j] == k;
        }
        assert forall|k: TypeId| types[i].contains(k) implies !forbidden.to_set().contains(k) by {
            if forbidden.to_set().contains(k) {
                let j = choose|j: int| 0 <= j < forbidden.len() && forbidden[j] == k;
                assert(!types[i].contains(forbidden[j]));
            }
        }
    }
}

/// The number of matching slots among the first `n` is the size of the set
/// of slots below `n` holding a live entity with all the required types and
/// none of the forbidden ones.
pub proof fn lemma_count_matching_counts_slots(
    alive: Seq<bool>,
    types: Seq<Set<TypeId>>,
    required: Seq<TypeId>,
    forbidden: Seq<TypeId>,
    n: int,
)
    ensures
        Set::new(
            |i: int|
                0 <= i < n && alive[i] && required.to_set().subset_of(types[i]) && types[i].disjoint(
                    forbidden.to_set(),
                ),
        ).finite(),
        count_matching(alive, types, required, forbidden, n) == Set::new(
            |i: int|
                0 <= i < n && alive[i] && required.to_set().subset_of(types[i]) && types[i].disjoint(
                    forbidden.to_set(),
                ),
        ).len(),
    decreases n,
{
    let s = Set::new(
        |i: int|
            0 <= i < n && alive[i] && required.to_set().subset_of(types[i]) && types[i].disjoint(forbidden.to_set()),
    );
    if n <= 0 {
        assert(s =~= Set::<int>::empty());
    } else {
        let prev = Set::new(
            |i: int|
                0 <= i < n - 1 && alive[i] && required.to_set().subset_of(types[i]) && types[i].disjoint(
                    forbidden.to_set(),
                ),
        );
        lemma_count_matching_counts_slots(alive, types, required, forbidden, n - 1);
        lemma_slot_matches(alive, types, required, forbidden, n - 1);
        if slot_matches(alive, types, required, forbidden, n - 1) {
            assert(s =~= prev.insert(n - 1));
            assert(!prev.contains(n - 1));
        } else {
            assert(s =~= prev);
        }
    }
}

/// Builder for queries filtered by component types that entities must have
/// (`with`) and must not have (`without`).
pub struct QueryBuilder<'w, Q> {
    world: &'w World,
    required: Vec<ComponentId>,
    forbidden: Vec<ComponentId>,
    _marker: PhantomData<Q>,
}

/// Whether the entity in slot `index` has every type listed in `ids`.
fn slot_has_all(world: &World, index: usize, ids: &Vec<ComponentId>) -> (r: bool)
    requires
        index < world.generations().len(),
    ensures
        r == forall|j: int| 0 <= j < ids@.len() ==> world.component_types()[index as int].contains(#[trigger] id_types(ids@)[j]),
{
    let mut j: usize = 0;
    while j < ids.len()
        invariant
            index < world.generations().len(),
            j <= ids@.len(),
            forall|q: int| 0 <= q < j ==> world.component_types()[index as int].contains(#[trigger] id_types(ids@)[q]),
        decreases ids@.len() - j,
    {
        if !world.slot_has(index, ids[j]) {
            assert(id_types(ids@)[j as int] == ids@[j as int]@);
            return false;
        }
        j = j + 1;
    }
    true
}

/// Whether the entity in slot `index` has some type listed in `ids`.
fn slot_has_any(world: &World, index: usize, ids: &Vec<ComponentId>) -> (r: bool)
    requires
        index < world.generations().len(),
    ensures
        r == exists|j: int| 0 <= j < ids@.len() && world.component_types()[index as int].contains(#[trigger] id_types(ids@)[j]),
{
    let mut j: usize = 0;
    while j < ids.len()
        invariant
            index < world.generations().len(),
            j <= ids@.len(),
            forall|q: int| 0 <= q < j ==> !world.component_types()[index as int].contains(#[trigger] id_types(ids@)[q]),
        decreases ids@.len() - j,
    {
        if world.slot_has(index, ids[j]) {
            assert(id_types(ids@)[j as int] == ids@[j as int]@);
            return true;
        }
        j = j + 1;
    }
    false
}

impl<'w, Q> QueryBuilder<'w, Q> where Q: QueryParameter<'w> {
    /// The queried world.
    pub closed spec fn spec_world(&self) -> World {
        *self.world
    }

    /// The component types an entity must have, in the order they were added.
    pub closed spec fn required(&self) -> Seq<TypeId> {
        id_types(self.required@)
    }

    /// The component types an entity must not have, in the order they were added.
    pub closed spec fn forbidden(&self) -> Seq<TypeId> {
        id_types(self.forbidden@)
    }

    /// Creates a new query builder, without filters.
    pub fn new(world: &'w World) -> (r: Self)
        ensures
            r.spec_world() == *world,
            r.required() == Seq::<TypeId>::empty(),
            r.forbidden() == Seq::<TypeId>::empty(),
    {
        let r = Self { world, required: Vec::new(), forbidden: Vec::new(), _marker: PhantomData };
        assert(r.required() =~= Seq::<TypeId>::empty());
        assert(r.forbidden() =~= Seq::<TypeId>::empty());
        r
    }

    /// Adds a `With` filter: entities must have component type `T`.
    pub fn with<T: Component>(self) -> (r: Self)
        ensures
            r.spec_world() == self.spec_world(),
            r.forbidden() == self.forbidden(),
            exists|k: TypeId| r.required() == self.required().push(k),
    {
        let mut built = self;
        let id = ComponentId::of::<T>();
        built.required.push(id);
        assert(id_types(built.required@) =~= self.required().push(id@));
        built
    }

    /// Adds a `Without` filter: entities must not have component type `T`.
    pub fn without<T: Component>(self) -> (r: Self)
        ensures
            r.spec_world() == self.spec_world(),
            r.required() == self.required(),
            exists|k: TypeId| r.forbidden() == self.forbidden().push(k),
    {
        let mut built = self;
        let id = ComponentId::of::<T>();
        built.forbidden.push(id);
        assert(id_types(built.forbidden@) =~= self.forbidden().push(id@));
        built
    }

    /// Returns the number of live entities that pass the filters.
    pub fn len(&self) -> (r: usize)
        ensures
            r == count_matching(
                self.spec_world().alive_flags(),
                self.spec_world().component_types(),
                self.required(),
                self.forbidden(),
                self.spec_world().generations().len() as int,
            ),
    {
        let n = self.world.slot_count();
        let mut count: usize = 0;
        let mut idx: usize = 0;
        while idx < n
            invariant
                n == self.world.generations().len(),
                n == self.world.alive_flags().len(),
                n == self.world.component_types().len(),
                idx <= n,
                count <= idx,
                count == count_matching(
                    self.world.alive_flags(),
                    self.world.component_types(),
                    self.required(),
                    self.forbidden(),
                    idx as int,
                ),
            decreases n - idx,
        {
            let matches = self.world.alive_at(idx) && slot_has_all(self.world, idx, &self.required)
                && !slot_has_any(self.world, idx, &self.forbidden);
            proof {
                let alive = self.world.alive_flags();
                let types = self.world.component_types();
                let req = self.required();
                let forb = self.forbidden();
                assert(req.len() == self.required@.len());
                assert(forb.len() == self.forbidden@.len());
                assert(matches == slot_matches(alive, types, req, forb, idx as int));
            }
            if matches {
                count = count + 1;
            }
            idx = idx + 1;
        }
        count
    }

    /// Returns true if no live entity passes the filters.
    pub fn is_empty(&self) -> (r: bool)
        ensures
            r == (count_matching(
                self.spec_world().alive_flags(),
                self.spec_world().component_types(),
                self.required(),
                self.forbidden(),
                self.spec_world().generations().len() as int,
            ) == 0),
    {
        self.len() == 0
    }
}

/// Extension trait for building filtered queries.
pub trait QueryBuilderExt<'w> {
    /// Creates a query builder for the query parameter `Q`.
    fn query_builder<Q: QueryParameter<'w>>(&'w self) -> QueryBuilder<'w, Q>;
}

impl<'w> QueryBuilderExt<'w> for World {
    fn query_builder<Q: QueryParameter<'w>>(&'w self) -> (r: QueryBuilder<'w, Q>)
        ensures
            r.spec_world() == *self,
            r.required() == Seq::<TypeId>::empty(),
            r.forbidden() == Seq::<TypeId>::empty(),
    {
        QueryBuilder::new(self)
    }
}

} // verus!
