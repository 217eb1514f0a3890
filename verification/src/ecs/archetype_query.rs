//! Queries across archetypes: the archetypes that hold all required
//! component types and none of the forbidden ones, visited in identifier
//! order.

use crate::ecs::archetype::{entities_of, type_ids, Archetype, ArchetypeId, ArchetypeStorage};
use core::any::TypeId;
use crate::ecs::component::{Component, ComponentId};
use vstd::prelude::*;

verus! {

/// Whether an archetype holds every required type and no forbidden one.
pub open spec fn archetype_matches(required: Seq<ComponentId>, forbidden: Seq<ComponentId>, a: Archetype) -> bool {
    &&& forall|i: int| 0 <= i < required.len() ==> type_ids(a.type_list()).contains(#[trigger] required[i]@)
    &&& forall|i: int| 0 <= i < forbidden.len() ==> !type_ids(a.type_list()).contains(#[trigger] forbidden[i]@)
}

/// An archetype matches exactly when its types include all the required
/// types and none of the forbidden ones.
pub proof fn lemma_archetype_matches(required: Seq<ComponentId>, forbidden: Seq<ComponentId>, a: Archetype)
    ensures
        archetype_matches(required, forbidden, a) <==> (type_ids(required).to_set().subset_of(
            type_ids(a.type_list()).to_set(),
        ) && type_ids(a.type_list()).to_set().disjoint(type_ids(forbidden).to_set())),
{
    let have = type_ids(a.type_list());
    let req = type_ids(required);
    let forb = type_ids(forbidden);
    if req.to_set().subset_of(have.to_set()) && have.to_set().disjoint(forb.to_set()) {
        assert forall|i: int| 0 <= i < required.len() implies have.contains(#[trigger] required[i]@) by {
            assert(req[i] == required[i]@);
            assert(req.to_set().contains(req[i]));
        }
        assert forall|i: int| 0 <= i < forbidden.len() implies !have.contains(#[trigger] forbidden[i]@) by {
            assert(forb[i] == forbidden[i]@);
            assert(forb.to_set().contains(forb[i]));
        }
    }
    if archetype_matches(required, forbidden, a) {
        assert forall|k: TypeId| req.to_set().contains(k) implies have.to_set().contains(k) by {
            let i = choose|i: int| 0 <= i < req.len() && req[i] == k;
            assert(have.contains(required[i]@));
        }
        assert forall|k: TypeId| have.to_set().contains(k) implies !forb.to_set().contains(k) by {
            if forb.to_set().contains(k) {
                let i = choose|i: int| 0 <= i < forb.len() && forb[i] == k;
                assert(!have.contains(forbidden[i]@));
            }
        }
    }
}

/// A listed identifier is selected exactly when its archetype's types
/// include all the required types and none of the forbidden ones.
pub proof fn lemma_select_matching_selects(
    ids: Seq<ArchetypeId>,
    map: Map<ArchetypeId, Archetype>,
    required: Seq<ComponentId>,
    forbidden: Seq<ComponentId>,
    id: ArchetypeId,
)
    ensures
        select_matching(ids, map, required, forbidden).contains(id) <==> (ids.contains(id) && type_ids(
            required,
        ).to_set().subset_of(type_ids(map[id].type_list()).to_set()) && type_ids(map[id].type_list()).to_set().disjoint(
            type_ids(forbidden).to_set(),
        )),
    decreases ids.len(),
{
    if ids.len() > 0 {
        let rest = ids.drop_last();
        lemma_select_matching_selects(rest, map, required, forbidden, id);
        lemma_archetype_matches(required, forbidden, map[id]);
        let sel = select_matching(rest, map, required, forbidden);
        assert(ids == rest.push(ids.last()));
        assert(ids.contains(id) <==> (rest.contains(id) || ids.last() == id)) by {
            if ids.contains(id) {
                let j = choose|j: int| 0 <= j < ids.len() && ids[j] == id;
                if j < ids.len() - 1 {
                    assert(rest[j] == id);
                }
            }
            if rest.contains(id) {
                let j = choose|j: int| 0 <= j < rest.len() && rest[j] == id;
                assert(ids[j] == id);
            }
            assert(ids[ids.len() - 1] == ids.last());
        }
        if archetype_matches(required, forbidden, map[ids.last()]) {
            assert(sel.push(ids.last()).contains(id) <==> (sel.contains(id) || ids.last() == id)) by {
                if sel.push(ids.last()).contains(id) {
                    let j = choose|j: int| 0 <= j < sel.len() + 1 && sel.push(ids.last())[j] == id;
                    if j < sel.len() {
                        assert(sel[j] == id);
                    }
                }
                if sel.contains(id) {
                    let j = choose|j: int| 0 <= j < sel.len() && sel[j] == id;
                    assert(sel.push(ids.last())[j] == id);
                }
                assert(sel.push(ids.last())[sel.len() as int] == ids.last());
            }
        }
    }
}

/// The listed identifiers whose archetypes match, in order.
pub open spec fn select_matching(
    ids: Seq<ArchetypeId>,
    map: Map<ArchetypeId, Archetype>,
    required: Seq<ComponentId>,
    forbidden: Seq<ComponentId>,
) -> Seq<ArchetypeId>
    decreases ids.len(),
{
    if ids.len() == 0 {
        Seq::empty()
    } else {
        let rest = select_matching(ids.drop_last(), map, required, forbidden);
        if archetype_matches(required, forbidden, map[ids.last()]) {
            rest.push(ids.last())
        } else {
            rest
        }
    }
}

proof fn lemma_select_matching(
    ids: Seq<ArchetypeId>,
    map: Map<ArchetypeId, Archetype>,
    required: Seq<ComponentId>,
    forbidden: Seq<ComponentId>,
)
    requires
        ids.no_duplicates(),
    ensures
        select_matching(ids, map, required, forbidden).no_duplicates(),
        forall|j: int|
            0 <= j < select_matching(ids, map, required, forbidden).len() ==> ids.contains(
                #[trigger] select_matching(ids, map, required, forbidden)[j],
            ),
    decreases ids.len(),
{
    if ids.len() > 0 {
        let pre = ids.drop_last();
        assert forall|a: int, b: int| 0 <= a < pre.len() && 0 <= b < pre.len() && a != b implies pre[a] != pre[b] by {
            assert(pre[a] == ids[a] && pre[b] == ids[b]);
        }
        lemma_select_matching(pre, map, required, forbidden);
        let rest = select_matching(pre, map, required, forbidden);
        let sel = select_matching(ids, map, required, forbidden);
        assert forall|j: int| 0 <= j < rest.len() implies ids.contains(#[trigger] rest[j]) by {
            let k = choose|k: int| 0 <= k < pre.len() && pre[k] == rest[j];
            assert(ids[k] == pre[k]);
        }
        assert(!pre.contains(ids.last())) by {
            if pre.contains(ids.last()) {
                let k = choose|k: int| 0 <= k < pre.len() && pre[k] == ids.last();
                assert(ids[k] == ids[ids.len() - 1]);
            }
        }
        if archetype_matches(required, forbidden, map[ids.last()]) {
            assert forall|a: int, b: int| 0 <= a < sel.len() && 0 <= b < sel.len() && a != b implies sel[a] != sel[b] by {
                if a == rest.len() as int {
                    assert(pre.contains(rest[b]));
                } else if b == rest.len() as int {
                    assert(pre.contains(rest[a]));
                }
            }
            assert forall|j: int| 0 <= j < sel.len() implies ids.contains(#[trigger] sel[j]) by {
                if j < rest.len() {
                    assert(sel[j] == rest[j]);
                } else {
                    assert(ids[ids.len() - 1] == sel[j]);
                }
            }
        }
    }
}

/// Builder for archetype-based queries
///
/// Filters the archetypes of a storage by component presence and absence.
pub struct ArchetypeQuery<'w> {
    /// Reference to the archetype storage
    archetype_storage: &'w ArchetypeStorage,
    /// Required component type IDs
    required: Vec<ComponentId>,
    /// Forbidden component type IDs (entities must NOT have these)
    forbidden: Vec<ComponentId>,
}

impl<'w> ArchetypeQuery<'w> {
    /// The storage queried.
    pub closed spec fn storage(&self) -> ArchetypeStorage {
        *self.archetype_storage
    }

    /// The required component types.
    pub closed spec fn required(&self) -> Seq<ComponentId> {
        self.required@
    }

    /// The forbidden component types.
    pub closed spec fn forbidden(&self) -> Seq<ComponentId> {
        self.forbidden@
    }

    /// The identifiers of the matching archetypes, in identifier order.
    pub open spec fn matching_ids(&self) -> Seq<ArchetypeId> {
        select_matching(self.storage().id_order(), self.storage().archetype_map(), self.required(), self.forbidden())
    }

    /// Creates a new archetype query requiring the components named by `Q`
    pub fn new<Q: QueryParam>(storage: &'w ArchetypeStorage) -> (r: Self)
        ensures
            r.storage() == *storage,
            r.required().len() == Q::arity(),
            r.forbidden() == Seq::<ComponentId>::empty(),
    {
        let component_ids = Q::component_ids();
        Self { archetype_storage: storage, required: component_ids, forbidden: Vec::new() }
    }

    /// Adds a required component (entity must have this)
    pub fn with<T: Component>(self) -> (r: Self)
        ensures
            r.storage() == self.storage(),
            r.required().len() == self.required().len() + 1,
            r.required().drop_last() == self.required(),
            r.forbidden() == self.forbidden(),
    {
        let mut s = self;
        s.required.push(ComponentId::of::<T>());
        proof {
            assert(s.required@.drop_last() =~= self.required@);
        }
        s
    }

    /// Adds a forbidden component (entity must NOT have this)
    pub fn without<T: Component>(self) -> (r: Self)
        ensures
            r.storage() == self.storage(),
            r.required() == self.required(),
            r.forbidden().len() == self.forbidden().len() + 1,
            r.forbidden().drop_last() == self.forbidden(),
    {
        let mut s = self;
        s.forbidden.push(ComponentId::of::<T>());
        proof {
            assert(s.forbidden@.drop_last() =~= self.forbidden@);
        }
        s
    }

    /// Checks if an archetype matches the query requirements
    fn archetype_matches(&self, archetype: &Archetype) -> (r: bool)
        ensures
            r == archetype_matches(self.required(), self.forbidden(), *archetype),
    {
        let mut i: usize = 0;
        while i < self.required.len()
            invariant
                i <= self.required@.len(),
                forall|j: int| 0 <= j < i ==> type_ids(archetype.type_list()).contains(#[trigger] self.required@[j]@),
            decreases self.required@.len() - i,
        {
            if !archetype.has_component(self.required[i]) {
                return false;
            }
            i = i + 1;
        }
        let mut k: usize = 0;
        while k < self.forbidden.len()
            invariant
                k <= self.forbidden@.len(),
                forall|j: int| 0 <= j < k ==> !type_ids(archetype.type_list()).contains(#[trigger] self.forbidden@[j]@),
            decreases self.forbidden@.len() - k,
        {
            if archetype.has_component(self.forbidden[k]) {
                return false;
            }
            k = k + 1;
        }
        true
    }

    /// The matching archetypes with their identifiers, in identifier order.
    fn matching_archetypes(&self) -> (r: Vec<(&'w ArchetypeId, &'w Archetype)>)
        requires
            self.storage().wf(),
        ensures
            r@.len() == self.matching_ids().len(),
            forall|i: int|
                0 <= i < r@.len() ==> *(#[trigger] r@[i]).0 == self.matching_ids()[i] && *r@[i].1
                    == self.storage().archetype_map()[self.matching_ids()[i]],
    {
        let storage: &'w ArchetypeStorage = self.archetype_storage;
        let all = storage.iter_archetypes();
        let ghost ids = self.storage().id_order();
        let ghost map = self.storage().archetype_map();
        proof {
            self.storage().lemma_consistent();
        }
        let mut out: Vec<(&'w ArchetypeId, &'w Archetype)> = Vec::new();
        let mut i: usize = 0;
        while i < all.len()
            invariant
                all@.len() == ids.len(),
                forall|j: int| 0 <= j < all@.len() ==> *(#[trigger] all@[j]).0 == ids[j] && *all@[j].1 == map[ids[j]],
                i <= all@.len(),
                ids == self.storage().id_order(),
                map == self.storage().archetype_map(),
                out@.len() == select_matching(ids.subrange(0, i as int), map, self.required(), self.forbidden()).len(),
                forall|j: int|
                    0 <= j < out@.len() ==> *(#[trigger] out@[j]).0 == select_matching(
                        ids.subrange(0, i as int),
                        map,
                        self.required(),
                        self.forbidden(),
                    )[j] && *out@[j].1 == map[*out@[j].0],
            decreases all@.len() - i,
        {
            let (id, arch) = all[i];
            proof {
                let pre = ids.subrange(0, i as int + 1);
                assert(pre.drop_last() =~= ids.subrange(0, i as int));
                assert(pre.last() == ids[i as int]);
            }
            if self.archetype_matches(arch) {
                out.push((id, arch));
            }
            i = i + 1;
        }
        proof {
            assert(ids.subrange(0, ids.len() as int) =~= ids);
        }
        out
    }

    /// Returns the number of matching archetypes
    pub fn len(&self) -> (r: usize)
        requires
            self.storage().wf(),
        ensures
            r == self.matching_ids().len(),
    {
        self.matching_archetypes().len()
    }

    /// Returns true if no archetypes match
    pub fn is_empty(&self) -> (r: bool)
        requires
            self.storage().wf(),
        ensures
            r == (self.matching_ids().len() == 0),
    {
        self.len() == 0
    }

    /// Returns an iterator over matching archetypes
    pub fn archetypes(&self) -> (r: ArchetypeIter<'w>)
        requires
            self.storage().wf(),
        ensures
            r.position() == 0,
            r.items().len() == self.matching_ids().len(),
            forall|i: int|
                0 <= i < r.items().len() ==> *(#[trigger] r.items()[i]).0 == self.matching_ids()[i]
                    && *r.items()[i].1 == self.storage().archetype_map()[self.matching_ids()[i]],
    {
        ArchetypeIter { archetypes: self.matching_archetypes(), index: 0 }
    }

    /// Returns the matching archetype IDs, in identifier order
    pub fn matching_archetype_ids(&self) -> (r: Vec<ArchetypeId>)
        requires
            self.storage().wf(),
        ensures
            r@ == self.matching_ids(),
    {
        let m = self.matching_archetypes();
        let mut out: Vec<ArchetypeId> = Vec::new();
        let mut i: usize = 0;
        while i < m.len()
            invariant
                i <= m@.len(),
                out@.len() == i,
                forall|j: int| 0 <= j < i ==> out@[j] == *m@[j].0,
            decreases m@.len() - i,
        {
            out.push(*m[i].0);
            i = i + 1;
        }
        assert(out@ =~= self.matching_ids());
        out
    }

    /// The matching archetypes with their entity counts, in identifier order
    pub fn archetype_counts(&self) -> (r: Vec<(ArchetypeId, usize)>)
        requires
            self.storage().wf(),
        ensures
            r@.len() == self.matching_ids().len(),
            forall|i: int|
                0 <= i < r@.len() ==> (#[trigger] r@[i]).0 == self.matching_ids()[i] && r@[i].1
                    == self.storage().archetype_map()[self.matching_ids()[i]].entities().len(),
    {
        let m = self.matching_archetypes();
        let mut out: Vec<(ArchetypeId, usize)> = Vec::new();
        let mut i: usize = 0;
        while i < m.len()
            invariant
                i <= m@.len(),
                out@.len() == i,
                forall|j: int| 0 <= j < i ==> (#[trigger] out@[j]).0 == *m@[j].0 && out@[j].1 == m@[j].1.entities().len(),
            decreases m@.len() - i,
        {
            out.push((*m[i].0, m[i].1.len()));
            i = i + 1;
        }
        out
    }

    /// Returns total entity count across all matching archetypes
    pub fn entity_count(&self) -> (r: usize)
        requires
            self.storage().wf(),
        ensures
            r == entities_of(self.matching_ids(), self.storage().archetype_map()).len(),
    {
        let m = self.matching_archetypes();
        let ghost ids = self.matching_ids();
        let ghost map = self.storage().archetype_map();
        proof {
            self.storage().lemma_consistent();
            self.storage().id_order().unique_seq_to_set();
            lemma_select_matching(self.storage().id_order(), map, self.required(), self.forbidden());
        }
        let mut total: usize = 0;
        let mut i: usize = 0;
        while i < m.len()
            invariant
                self.storage().wf(),
                ids == self.matching_ids(),
                map == self.storage().archetype_map(),
                ids.no_duplicates(),
                forall|j: int| 0 <= j < ids.len() ==> map.contains_key(#[trigger] ids[j]),
                m@.len() == ids.len(),
                forall|j: int| 0 <= j < m@.len() ==> *(#[trigger] m@[j]).0 == ids[j] && *m@[j].1 == map[ids[j]],
                i <= m@.len(),
                total == entities_of(ids.subrange(0, i as int), map).len(),
            decreases m@.len() - i,
        {
            let ghost pre = ids.subrange(0, i as int + 1);
            proof {
                assert(pre.drop_last() =~= ids.subrange(0, i as int));
                assert(pre.last() == ids[i as int]);
                assert forall|a: int, b: int| 0 <= a < pre.len() && 0 <= b < pre.len() && a != b implies pre[a] != pre[b] by {
                    assert(pre[a] == ids[a] && pre[b] == ids[b]);
                }
                assert forall|k: int| 0 <= k < pre.len() implies map.contains_key(#[trigger] pre[k]) by {
                    assert(pre[k] == ids[k]);
                }
                self.storage().lemma_entity_total(pre);
            }
            total = total + m[i].1.len();
            i = i + 1;
        }
        assert(ids.subrange(0, ids.len() as int) =~= ids);
        total
    }

    /// Returns an iterator over archetypes with batched access
    pub fn each_archetype_batch(&self) -> (r: ArchetypeBatchIter<'w>)
        requires
            self.storage().wf(),
        ensures
            r.inner().position() == 0,
            r.inner().items().len() == self.matching_ids().len(),
            forall|i: int|
                0 <= i < r.inner().items().len() ==> *(#[trigger] r.inner().items()[i]).0
                    == self.matching_ids()[i] && *r.inner().items()[i].1 == self.storage().archetype_map()[self.matching_ids()[i]],
    {
        ArchetypeBatchIter { archetype_iter: self.archetypes() }
    }
}

/// Iterator over matching archetypes
pub struct ArchetypeIter<'a> {
    /// All matching archetype references
    archetypes: Vec<(&'a ArchetypeId, &'a Archetype)>,
    /// Current index during iteration
    index: usize,
}

impl<'a> ArchetypeIter<'a> {
    /// The archetypes to visit, in order.
    pub closed spec fn items(&self) -> Seq<(&'a ArchetypeId, &'a Archetype)> {
        self.archetypes@
    }

    /// How many have been visited.
    pub closed spec fn position(&self) -> nat {
        self.index as nat
    }

    /// The next archetype, if any is left.
    pub fn next(&mut self) -> (r: Option<(&'a ArchetypeId, &'a Archetype)>)
        ensures
            final(self).items() == old(self).items(),
            old(self).position() < old(self).items().len() ==> r == Some(old(self).items()[old(self).position() as int])
                && final(self).position() == old(self).position() + 1,
            old(self).position() >= old(self).items().len() ==> r is None && final(self).position() == old(self).position(),
    {
        if self.index < self.archetypes.len() {
            let result = self.archetypes[self.index];
            self.index = self.index + 1;
            Some(result)
        } else {
            None
        }
    }

    /// How many archetypes are left, exactly.
    pub fn size_hint(&self) -> (r: (usize, Option<usize>))
        requires
            self.position() <= self.items().len(),
        ensures
            r.0 == self.items().len() - self.position(),
            r.1 == Some(r.0),
    {
        let remaining = self.archetypes.len() - self.index;
        (remaining, Some(remaining))
    }
}

/// Access to one archetype's entities for batch processing.
pub struct ArchetypeBatch<'a> {
    /// Reference to the archetype
    archetype: &'a Archetype,
    /// Archetype ID
    id: &'a ArchetypeId,
}

impl<'a> ArchetypeBatch<'a> {
    /// The archetype.
    pub closed spec fn spec_archetype(&self) -> Archetype {
        *self.archetype
    }

    /// Its identifier.
    pub closed spec fn spec_id(&self) -> ArchetypeId {
        *self.id
    }

    /// Returns the archetype ID
    pub fn id(&self) -> (r: &ArchetypeId)
        ensures
            *r == self.spec_id(),
    {
        self.id
    }

    /// Returns the number of entities in this archetype
    pub fn len(&self) -> (r: usize)
        ensures
            r == self.spec_archetype().entities().len(),
    {
        self.archetype.len()
    }

    /// Returns true if the archetype is empty
    pub fn is_empty(&self) -> (r: bool)
        ensures
            r == (self.spec_archetype().entities().len() == 0),
    {
        self.archetype.is_empty()
    }

    /// Returns an iterator over entity IDs
    pub fn entities(&self) -> (r: core::slice::Iter<'a, usize>)
        ensures
            vstd::std_specs::slice::into_iter_elts(r) == self.spec_archetype().entities(),
    {
        self.archetype.iter_entities()
    }
}

/// Iterator over matching archetypes, one batch accessor each.
pub struct ArchetypeBatchIter<'a> {
    /// Iterator over matching archetypes
    archetype_iter: ArchetypeIter<'a>,
}

impl<'a> ArchetypeBatchIter<'a> {
    /// The underlying archetype iterator.
    pub closed spec fn inner(&self) -> ArchetypeIter<'a> {
        self.archetype_iter
    }

    /// The next archetype's batch accessor, if any is left.
    pub fn next(&mut self) -> (r: Option<ArchetypeBatch<'a>>)
        ensures
            final(self).inner().items() == old(self).inner().items(),
            old(self).inner().position() < old(self).inner().items().len() ==> {
                let item = old(self).inner().items()[old(self).inner().position() as int];
                &&& r is Some
                &&& r.unwrap().spec_id() == *item.0
                &&& r.unwrap().spec_archetype() == *item.1
                &&& final(self).inner().position() == old(self).inner().position() + 1
            },
            old(self).inner().position() >= old(self).inner().items().len() ==> r is None,
    {
        match self.archetype_iter.next() {
            Some((id, archetype)) => Some(ArchetypeBatch { id, archetype }),
            None => None,
        }
    }

    /// How many batches are left, exactly.
    pub fn size_hint(&self) -> (r: (usize, Option<usize>))
        requires
            self.inner().position() <= self.inner().items().len(),
        ensures
            r.0 == self.inner().items().len() - self.inner().position(),
            r.1 == Some(r.0),
    {
        self.archetype_iter.size_hint()
    }
}

/// Component types named by a query parameter.
pub trait QueryParam {
    /// How many component types the parameter names.
    spec fn arity() -> nat;

    /// Returns the component type IDs for this query parameter
    fn component_ids() -> (r: Vec<ComponentId>)
        ensures
            r@.len() == Self::arity(),
    ;
}

impl<'a, T: Component> QueryParam for (&'a T,) {
    open spec fn arity() -> nat {
        1
    }

    fn component_ids() -> (r: Vec<ComponentId>) {
        vec![ComponentId::of::<T>()]
    }
}

impl<'a, 'b, T1: Component, T2: Component> QueryParam for (&'a T1, &'b T2) {
    open spec fn arity() -> nat {
        2
    }

    fn component_ids() -> (r: Vec<ComponentId>) {
        vec![ComponentId::of::<T1>(), ComponentId::of::<T2>()]
    }
}

impl<'a, 'b, 'c, T1: Component, T2: Component, T3: Component> QueryParam for (&'a T1, &'b T2, &'c T3) {
    open spec fn arity() -> nat {
        3
    }

    fn component_ids() -> (r: Vec<ComponentId>) {
        vec![ComponentId::of::<T1>(), ComponentId::of::<T2>(), ComponentId::of::<T3>()]
    }
}

impl<'a, 'b, 'c, 'd, T1: Component, T2: Component, T3: Component, T4: Component> QueryParam for (
    &'a T1,
    &'b T2,
    &'c T3,
    &'d T4,
) {
    open spec fn arity() -> nat {
        4
    }

    fn component_ids() -> (r: Vec<ComponentId>) {
        vec![ComponentId::of::<T1>(), ComponentId::of::<T2>(), ComponentId::of::<T3>(), ComponentId::of::<T4>()]
    }
}

} // verus!
