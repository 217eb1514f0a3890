//! Memory pool for reusable component column buffers, one pool per component type.

use core::any::TypeId;
use crate::ecs::component::ComponentId;
use crate::ecs::sparse_set::vec_capacity;
use vstd::prelude::*;

verus! {

/// The most buffers a type pool retains.
pub const MAX_POOLED_COLUMNS: usize = 16;

/// The first position whose capacity is at least `required`, if any.
pub open spec fn first_fit(caps: Seq<usize>, required: usize) -> Option<int>
    decreases caps.len(),
{
    if caps.len() == 0 {
        None
    } else if caps[0] >= required {
        Some(0)
    } else {
        match first_fit(caps.drop_first(), required) {
            Some(i) => Some(i + 1),
            None => None,
        }
    }
}

/// `first_fit` picks a fitting position after only positions that do not
/// fit; `None` means no position fits.
pub proof fn lemma_first_fit(caps: Seq<usize>, required: usize)
    ensures
        match first_fit(caps, required) {
            Some(k) => 0 <= k < caps.len() && caps[k] >= required && forall|j: int| 0 <= j < k ==> #[trigger] caps[j] < required,
            None => forall|j: int| 0 <= j < caps.len() ==> #[trigger] caps[j] < required,
        },
    decreases caps.len(),
{
    if caps.len() > 0 && caps[0] < required {
        lemma_first_fit(caps.drop_first(), required);
        assert forall|j: int| 0 < j < caps.len() implies caps[j] == caps.drop_first()[j - 1] by {}
    }
}

/// Taking the first-fitting buffer, for buffers of the given capacities
/// (each at least the buffer's length): the buffer taken, if any, and the
/// buffers left.
pub open spec fn popped_first_fit(
    before: Seq<Vec<u8>>,
    caps: Seq<usize>,
    required: usize,
    taken: Option<Vec<u8>>,
    after: Seq<Vec<u8>>,
) -> bool {
    &&& caps.len() == before.len()
    &&& forall|i: int| 0 <= i < caps.len() ==> caps[i] >= (#[trigger] before[i])@.len()
    &&& match first_fit(caps, required) {
        Some(k) => taken == Some(before[k]) && after == before.remove(k),
        None => taken is None && after == before,
    }
}

/// The first position of `capacities` whose capacity is at least `required`.
pub fn first_fitting(capacities: &Vec<usize>, required: usize) -> (r: Option<usize>)
    ensures
        match r {
            Some(k) => first_fit(capacities@, required) == Some(k as int),
            None => first_fit(capacities@, required) is None,
        },
{
    let mut i: usize = 0;
    assert(capacities@.subrange(0, capacities@.len() as int) =~= capacities@);
    while i < capacities.len()
        invariant
            i <= capacities@.len(),
            first_fit(capacities@, required) == match first_fit(capacities@.subrange(i as int, capacities@.len() as int), required) {
                Some(k) => Some(k + i),
                None => None,
            },
        decreases capacities@.len() - i,
    {
        let ghost rest = capacities@.subrange(i as int, capacities@.len() as int);
        assert(rest.drop_first() =~= capacities@.subrange(i + 1, capacities@.len() as int));
        if capacities[i] >= required {
            return Some(i);
        }
        i = i + 1;
    }
    None
}

/// Pool of buffers for a single component type
#[derive(Debug, Default)]
pub struct TypePool {
    /// Stack of available buffers
    columns: Vec<Vec<u8>>,
    /// Maximum buffers to retain (prevents unbounded growth)
    max_columns: usize,
}

impl TypePool {
    /// The retained buffers, oldest first.
    pub closed spec fn buffers(&self) -> Seq<Vec<u8>> {
        self.columns@
    }

    /// The most buffers this pool retains.
    pub closed spec fn limit(&self) -> usize {
        self.max_columns
    }

    /// Creates a new empty type pool
    pub fn new() -> (r: Self)
        ensures
            r.buffers() == Seq::<Vec<u8>>::empty(),
            r.limit() == MAX_POOLED_COLUMNS,
    {
        Self { columns: Vec::new(), max_columns: MAX_POOLED_COLUMNS }
    }

    /// Takes out the first retained buffer whose capacity is at least
    /// `min_capacity` (see `first_fit`, over the capacities `Vec::capacity`
    /// reports); the order of the remaining buffers is kept.
    pub fn try_pop(&mut self, min_capacity: usize) -> (r: Option<Vec<u8>>)
        ensures
            final(self).limit() == old(self).limit(),
            exists|caps: Seq<usize>| #[trigger] popped_first_fit(old(self).buffers(), caps, min_capacity, r, final(self).buffers()),
    {
        let mut caps: Vec<usize> = Vec::new();
        let mut i: usize = 0;
        while i < self.columns.len()
            invariant
                i <= self.columns@.len(),
                self.columns@ == old(self).columns@,
                self.max_columns == old(self).max_columns,
                caps@.len() == i,
                forall|j: int| 0 <= j < i ==> caps@[j] >= (#[trigger] self.columns@[j])@.len(),
            decreases self.columns@.len() - i,
        {
            caps.push(vec_capacity(&self.columns[i]));
            i = i + 1;
        }
        let ghost before = self.columns@;
        match first_fitting(&caps, min_capacity) {
            Some(k) => {
                proof {
                    lemma_first_fit(caps@, min_capacity);
                }
                let column = self.columns.remove(k);
                assert(popped_first_fit(old(self).buffers(), caps@, min_capacity, Some(column), self.buffers()));
                Some(column)
            },
            None => {
                assert(popped_first_fit(old(self).buffers(), caps@, min_capacity, None, self.buffers()));
                None
            },
        }
    }

    /// Pushes a buffer back into the pool
    ///
    /// If the pool is full, the buffer is dropped.
    pub fn push(&mut self, column: Vec<u8>)
        ensures
            final(self).limit() == old(self).limit(),
            final(self).buffers() == if old(self).buffers().len() >= old(self).limit() {
                old(self).buffers()
            } else {
                old(self).buffers().push(column)
            },
    {
        if self.columns.len() >= self.max_columns {
            return;
        }
        self.columns.push(column);
    }

    /// Returns the number of buffers in the pool
    pub fn len(&self) -> (r: usize)
        ensures
            r == self.buffers().len(),
    {
        self.columns.len()
    }
}

/// Memory pool for reusable component column allocations
///
/// Its model maps each component type that has a pool to the buffers it
/// retains, and counts new allocations and releases.
#[derive(Debug, Default)]
pub struct ColumnPool {
    /// Component types that have a pool, in creation order
    pool_ids: Vec<ComponentId>,
    /// The pool of each type, at the same position
    pools: Vec<TypePool>,
    /// Total allocations made (for monitoring)
    allocations: usize,
    /// Total releases made (for monitoring)
    releases: usize,
}

impl ColumnPool {
    /// The component types that have a pool, in creation order.
    pub closed spec fn ids(&self) -> Seq<TypeId> {
        self.pool_ids@.map_values(|id: ComponentId| id@)
    }

    /// Each type has at most one pool.
    pub closed spec fn wf(&self) -> bool {
        &&& self.ids().no_duplicates()
        &&& self.pool_ids@.len() == self.pools@.len()
    }

    /// The buffers retained for each component type that has a pool.
    pub closed spec fn view(&self) -> Map<TypeId, Seq<Vec<u8>>> {
        Map::new(
            |k: TypeId| self.ids().contains(k),
            |k: TypeId| self.pools@[self.ids().index_of(k)].buffers(),
        )
    }

    /// The buffers retained for a component type; none when it has no pool.
    pub open spec fn pooled(&self, k: TypeId) -> Seq<Vec<u8>> {
        if self@.contains_key(k) {
            self@[k]
        } else {
            Seq::empty()
        }
    }

    /// The retention limit of each component type that has a pool.
    pub closed spec fn limits(&self) -> Map<TypeId, usize> {
        Map::new(
            |k: TypeId| self.ids().contains(k),
            |k: TypeId| self.pools@[self.ids().index_of(k)].limit(),
        )
    }

    /// Number of new buffers allocated.
    pub closed spec fn allocation_count(&self) -> nat {
        self.allocations as nat
    }

    /// Number of buffers released back.
    pub closed spec fn release_count(&self) -> nat {
        self.releases as nat
    }

    /// Replacing the pool at position `i` changes only that type's entry.
    proof fn lemma_update_pool(old_pool: Self, new_pool: Self, i: int)
        requires
            old_pool.wf(),
            old_pool.pool_ids@ == new_pool.pool_ids@,
            new_pool.pools@.len() == old_pool.pools@.len(),
            0 <= i < old_pool.pools@.len(),
            forall|j: int| 0 <= j < old_pool.pools@.len() && j != i ==> new_pool.pools@[j] == old_pool.pools@[j],
        ensures
            new_pool.wf(),
            new_pool@ == old_pool@.insert(old_pool.ids()[i], new_pool.pools@[i].buffers()),
            new_pool.limits() == old_pool.limits().insert(old_pool.ids()[i], new_pool.pools@[i].limit()),
    {
        assert(new_pool.ids() =~= old_pool.ids());
        lemma_index_of_unique(old_pool.ids(), i);
        assert forall|k: TypeId| old_pool.ids().contains(k) && k != old_pool.ids()[i] implies old_pool.ids().index_of(k) != i by {
            let j = old_pool.ids().index_of(k);
            assert(old_pool.ids()[j] == k);
        }
        assert(old_pool.ids().contains(old_pool.ids()[i]));
        assert(new_pool@ =~= old_pool@.insert(old_pool.ids()[i], new_pool.pools@[i].buffers()));
        assert(new_pool.limits() =~= old_pool.limits().insert(old_pool.ids()[i], new_pool.pools@[i].limit()));
    }

    proof fn lemma_finite(&self)
        requires
            self.wf(),
        ensures
            self@.dom().finite(),
            self@.dom().len() == self.pools@.len(),
    {
        self.ids().unique_seq_to_set();
        assert(self@.dom() =~= self.ids().to_set());
    }

    /// Creates a new empty column pool
    pub fn new() -> (r: Self)
        ensures
            r.wf(),
            r@ == Map::<TypeId, Seq<Vec<u8>>>::empty(),
            r.allocation_count() == 0,
            r.release_count() == 0,
    {
        let r = Self { pool_ids: Vec::new(), pools: Vec::new(), allocations: 0, releases: 0 };
        assert(r@ =~= Map::<TypeId, Seq<Vec<u8>>>::empty());
        r
    }

    /// The position of the pool for `id`, if it has one.
    fn position(&self, id: ComponentId) -> (r: Option<usize>)
        requires
            self.wf(),
        ensures
            match r {
                Some(i) => i < self.pools@.len() && self.ids()[i as int] == id@
                    && self.ids().index_of(id@) == i,
                None => !self@.contains_key(id@),
            },
    {
        let mut i: usize = 0;
        while i < self.pool_ids.len()
            invariant
                self.wf(),
                i <= self.pool_ids@.len(),
                forall|j: int| 0 <= j < i ==> self.ids()[j] != id@,
            decreases self.pool_ids@.len() - i,
        {
            if self.pool_ids[i].same(&id) {
                proof {
                    assert(self.ids()[i as int] == id@);
                    lemma_index_of_unique(self.ids(), i as int);
                }
                return Some(i);
            }
            i = i + 1;
        }
        None
    }

    /// The position of the pool for `id`, creating an empty pool when it has none.
    fn pool_position(&mut self, id: ComponentId) -> (r: usize)
        requires
            old(self).wf(),
        ensures
            final(self).wf(),
            r < final(self).pools@.len(),
            final(self).ids()[r as int] == id@,
            final(self).ids().index_of(id@) == r,
            final(self)@ == if old(self)@.contains_key(id@) {
                old(self)@
            } else {
                old(self)@.insert(id@, Seq::empty())
            },
            final(self).limits() == if old(self)@.contains_key(id@) {
                old(self).limits()
            } else {
                old(self).limits().insert(id@, MAX_POOLED_COLUMNS)
            },
            final(self).allocations == old(self).allocations,
            final(self).releases == old(self).releases,
    {
        match self.position(id) {
            Some(i) => i,
            None => {
                let i = self.pools.len();
                self.pool_ids.push(id);
                self.pools.push(TypePool::new());
                proof {
                    assert(self.ids() =~= old(self).ids().push(id@));
                    assert(!old(self).ids().contains(id@));
                    assert(self.wf()) by {
                        assert forall|a: int, b: int|
                            0 <= a < self.ids().len() && 0 <= b < self.ids().len() && a != b implies
                            self.ids()[a] != self.ids()[b] by {
                            if a == i || b == i {
                                assert(old(self).ids().contains(self.ids()[if a == i { b } else { a }]));
                            }
                        }
                    }
                    assert(self.ids()[i as int] == id@);
                    lemma_index_of_unique(self.ids(), i as int);
                    assert forall|k: TypeId| old(self).ids().contains(k) implies self.ids().index_of(
                        k,
                    ) == old(self).ids().index_of(k) by {
                        let j = old(self).ids().index_of(k);
                        lemma_index_of_unique(old(self).ids(), j);
                        assert(self.ids()[j] == k);
                        lemma_index_of_unique(self.ids(), j);
                    }
                    assert forall|k: TypeId| #[trigger] self.ids().contains(k) <==> (old(self).ids().contains(k) || k == id@) by {
                        broadcast use vstd::seq_lib::group_seq_properties;
                    }
                    assert(self.pools@[i as int].buffers() == Seq::<Vec<u8>>::empty());
                    assert(self@ =~= old(self)@.insert(id@, Seq::empty()));
                    assert(self.limits() =~= old(self).limits().insert(id@, MAX_POOLED_COLUMNS));
                }
                i
            },
        }
    }

    /// Acquires a column buffer from the pool or allocates new memory
    ///
    /// The first retained buffer with room for `capacity * stride` bytes is
    /// handed out when there is one (see `first_fit`, over the capacities
    /// `Vec::capacity` reports); otherwise a new, empty buffer is allocated
    /// and counted. Either way the type has a pool afterwards.
    pub fn acquire(&mut self, component_id: ComponentId, stride: usize, capacity: usize) -> (r: Vec<u8>)
        requires
            old(self).wf(),
            capacity * stride <= usize::MAX,
            old(self).allocation_count() < usize::MAX,
        ensures
            final(self).wf(),
            final(self).release_count() == old(self).release_count(),
            final(self)@ == old(self)@.insert(component_id@, final(self)@[component_id@]),
            final(self).limits() == if old(self)@.contains_key(component_id@) {
                old(self).limits()
            } else {
                old(self).limits().insert(component_id@, MAX_POOLED_COLUMNS)
            },
            exists|caps: Seq<usize>|
                #![trigger first_fit(caps, (capacity * stride) as usize)]
                {
                    &&& popped_first_fit(
                        old(self).pooled(component_id@),
                        caps,
                        (capacity * stride) as usize,
                        if first_fit(caps, (capacity * stride) as usize) is Some {
                            Some(r)
                        } else {
                            None
                        },
                        final(self)@[component_id@],
                    )
                    &&& first_fit(caps, (capacity * stride) as usize) is Some ==> final(self).allocation_count()
                        == old(self).allocation_count()
                    &&& first_fit(caps, (capacity * stride) as usize) is None ==> r@.len() == 0
                        && final(self).allocation_count() == old(self).allocation_count() + 1
                },
    {
        let required_capacity = capacity * stride;
        let i = self.pool_position(component_id);
        let ghost mid = *self;
        let popped = self.pools[i].try_pop(required_capacity);
        proof {
            Self::lemma_update_pool(mid, *self, i as int);
            assert(mid@[component_id@] == mid.pools@[i as int].buffers());
            assert(mid@[component_id@] == old(self).pooled(component_id@));
            assert(mid.limits()[component_id@] == mid.pools@[i as int].limit());
            assert(mid.limits().insert(component_id@, mid.pools@[i as int].limit()) =~= mid.limits());
        }
        let ghost caps = choose|caps: Seq<usize>| popped_first_fit(mid@[component_id@], caps, required_capacity, popped, self@[component_id@]);
        match popped {
            Some(column) => {
                assert(popped_first_fit(old(self).pooled(component_id@), caps, required_capacity, Some(column), self@[component_id@]));
                column
            },
            None => {
                self.allocations = self.allocations + 1;
                let r: Vec<u8> = Vec::with_capacity(required_capacity);
                assert(popped_first_fit(old(self).pooled(component_id@), caps, required_capacity, None, self@[component_id@]));
                r
            },
        }
    }

    /// Releases a column buffer back to the pool for future reuse
    ///
    /// The type's pool keeps the buffer unless it is full; the release is counted.
    pub fn release(&mut self, component_id: ComponentId, column: Vec<u8>)
        requires
            old(self).wf(),
            old(self).release_count() < usize::MAX,
        ensures
            final(self).wf(),
            final(self).allocation_count() == old(self).allocation_count(),
            final(self).release_count() == old(self).release_count() + 1,
            final(self).limits() == if old(self)@.contains_key(component_id@) {
                old(self).limits()
            } else {
                old(self).limits().insert(component_id@, MAX_POOLED_COLUMNS)
            },
            ({
                let before = old(self).pooled(component_id@);
                let limit = final(self).limits()[component_id@];
                final(self)@ == old(self)@.insert(
                    component_id@,
                    if before.len() >= limit {
                        before
                    } else {
                        before.push(column)
                    },
                )
            }),
    {
        let i = self.pool_position(component_id);
        let ghost mid = *self;
        self.pools[i].push(column);
        proof {
            Self::lemma_update_pool(mid, *self, i as int);
            assert(mid@[component_id@] == mid.pools@[i as int].buffers());
            assert(mid.limits()[component_id@] == mid.pools@[i as int].limit());
            assert(mid.limits().insert(component_id@, mid.pools@[i as int].limit()) =~= mid.limits());
            assert(self@ =~= old(self)@.insert(component_id@, self.pools@[i as int].buffers()));
        }
        self.releases = self.releases + 1;
    }

    /// Returns the total number of allocations made
    pub fn total_allocations(&self) -> (r: usize)
        ensures
            r == self.allocation_count(),
    {
        self.allocations
    }

    /// Returns the total number of releases made
    pub fn total_releases(&self) -> (r: usize)
        ensures
            r == self.release_count(),
    {
        self.releases
    }

    /// Tries to acquire a column from the pool
    ///
    /// Unlike `acquire`, this returns `None` when the type has no pool or no
    /// retained buffer is large enough, rather than allocating new memory. A
    /// reused buffer is not counted as an allocation.
    pub fn try_acquire(&mut self, component_id: ComponentId, stride: usize, capacity: usize) -> (r:
        Option<Vec<u8>>)
        requires
            old(self).wf(),
            capacity * stride <= usize::MAX,
        ensures
            final(self).wf(),
            final(self).release_count() == old(self).release_count(),
            final(self).allocation_count() == old(self).allocation_count(),
            final(self).limits() == old(self).limits(),
            !old(self)@.contains_key(component_id@) ==> r is None && final(self)@ == old(self)@,
            old(self)@.contains_key(component_id@) ==> final(self)@ == old(self)@.insert(
                component_id@,
                final(self)@[component_id@],
            ) && exists|caps: Seq<usize>|
                #[trigger] popped_first_fit(
                    old(self)@[component_id@],
                    caps,
                    (capacity * stride) as usize,
                    r,
                    final(self)@[component_id@],
                ),
    {
        let required_capacity = capacity * stride;
        match self.position(component_id) {
            Some(i) => {
                let ghost mid = *self;
                let popped = self.pools[i].try_pop(required_capacity);
                proof {
                    Self::lemma_update_pool(mid, *self, i as int);
                    assert(mid@[component_id@] == mid.pools@[i as int].buffers());
                    assert(mid.limits()[component_id@] == mid.pools@[i as int].limit());
                    assert(mid.limits().insert(component_id@, mid.pools@[i as int].limit()) =~= mid.limits());
                    let caps = choose|caps: Seq<usize>| popped_first_fit(mid@[component_id@], caps, required_capacity, popped, self@[component_id@]);
                    assert(popped_first_fit(old(self)@[component_id@], caps, required_capacity, popped, self@[component_id@]));
                }
                popped
            },
            None => None,
        }
    }

    /// Returns the number of active type pools
    pub fn pool_count(&self) -> (r: usize)
        requires
            self.wf(),
        ensures
            r == self@.dom().len(),
    {
        proof {
            self.lemma_finite();
        }
        self.pools.len()
    }

    /// Clears all pools and deallocates retained memory
    pub fn clear(&mut self)
        ensures
            final(self).wf(),
            final(self)@ == Map::<TypeId, Seq<Vec<u8>>>::empty(),
            final(self).allocation_count() == 0,
            final(self).release_count() == 0,
    {
        self.pool_ids.clear();
        self.pools.clear();
        self.allocations = 0;
        self.releases = 0;
        assert(self@ =~= Map::<TypeId, Seq<Vec<u8>>>::empty());
    }
}

/// Counters for monitoring pool use.
///
/// The hit rate is derived from these counters by the caller.
#[derive(Debug, Default, Clone, Copy, PartialEq, Eq)]
pub struct PoolStats {
    /// Total allocations made
    pub allocations: usize,
    /// Total releases made
    pub releases: usize,
    /// Number of active pools
    pub pool_count: usize,
}

impl PoolStats {
    /// Creates stats from a pool
    pub fn from_pool(pool: &ColumnPool) -> (r: Self)
        requires
            pool.wf(),
        ensures
            r.allocations == pool.allocation_count(),
            r.releases == pool.release_count(),
            r.pool_count == pool@.dom().len(),
    {
        Self {
            allocations: pool.total_allocations(),
            releases: pool.total_releases(),
            pool_count: pool.pool_count(),
        }
    }
}

/// In a sequence without duplicates, the position of an element is where it stands.
pub proof fn lemma_index_of_unique<A>(s: Seq<A>, i: int)
    requires
        s.no_duplicates(),
        0 <= i < s.len(),
    ensures
        s.contains(s[i]),
        s.index_of(s[i]) == i,
{
    assert(s.contains(s[i]));
    let j = s.index_of(s[i]);
    assert(s[j] == s[i]);
}

} // verus!
