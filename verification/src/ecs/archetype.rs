//! Archetype storage: entities with identical component types share column-oriented storage.

use core::any::TypeId;
use core::hash::{Hash, Hasher};
use crate::ecs::component::{ComponentId, type_id_precedes};
use crate::ecs::pool::{lemma_index_of_unique, ColumnPool, PoolStats};
use vstd::prelude::*;

verus! {

/// FNV-1a offset basis.
pub const FNV_OFFSET_BASIS: u64 = 0xcbf29ce484222325;

/// FNV-1a prime.
pub const FNV_PRIME: u64 = 0x100000001b3;

/// One FNV-1a step: xor in the byte, then multiply by the prime modulo 2^64.
pub open spec fn fnv_step(state: u64, byte: u8) -> u64 {
    (((state ^ (byte as u64)) as int * FNV_PRIME as int) % 0x1_0000_0000_0000_0000) as u64
}

/// FNV-1a over a byte sequence, starting from `state`.
pub open spec fn fnv1a(state: u64, bytes: Seq<u8>) -> u64
    decreases bytes.len(),
{
    if bytes.len() == 0 {
        state
    } else {
        fnv_step(fnv1a(state, bytes.drop_last()), bytes.last())
    }
}

/// The state of an FNV-1a hasher after `<TypeId as Hash>::hash` feeds it
/// the identifier `t`, from `state`.
pub uninterp spec fn type_id_absorbed(state: u64, t: TypeId) -> u64;

/// FNV-1a hasher, stable across runs.
pub struct FnvHasher {
    state: u64,
}

impl FnvHasher {
    /// The current hash state.
    pub closed spec fn state(&self) -> u64 {
        self.state
    }

    /// A hasher at the FNV-1a offset basis.
    pub fn new() -> (r: Self)
        ensures
            r.state() == FNV_OFFSET_BASIS,
    {
        FnvHasher { state: FNV_OFFSET_BASIS }
    }

    /// Absorbs `bytes`.
    pub fn absorb(&mut self, bytes: &[u8])
        ensures
            final(self).state() == fnv1a(old(self).state(), bytes@),
    {
        let mut i: usize = 0;
        while i < bytes.len()
            invariant
                i <= bytes@.len(),
                self.state == fnv1a(old(self).state, bytes@.subrange(0, i as int)),
            decreases bytes@.len() - i,
        {
            let x = self.state ^ (bytes[i] as u64);
            let next = x.wrapping_mul(FNV_PRIME);
            proof {
                let pre = bytes@.subrange(0, i as int + 1);
                assert(pre.drop_last() =~= bytes@.subrange(0, i as int));
                assert(pre.last() == bytes@[i as int]);
            }
            self.state = next;
            i = i + 1;
        }
        assert(bytes@.subrange(0, bytes@.len() as int) =~= bytes@);
    }
}

impl Hasher for FnvHasher {
    fn finish(&self) -> u64 {
        self.state
    }

    fn write(&mut self, bytes: &[u8]) {
        self.absorb(bytes)
    }
}

/// `<TypeId as Hash>::hash` into an FNV-1a hasher: the state after is named
/// `type_id_absorbed`, a function of the state before and the identifier
/// alone (which bytes std writes is not stated).
#[verifier::external_body]
fn absorb_type_id(hasher: &mut FnvHasher, t: &TypeId)
    ensures
        final(hasher).state() == type_id_absorbed(old(hasher).state(), *t),
{
    t.hash(hasher)
}

/// The hash state after absorbing each type in order, from `state`.
pub open spec fn hash_types(state: u64, types: Seq<TypeId>) -> u64
    decreases types.len(),
{
    if types.len() == 0 {
        state
    } else {
        type_id_absorbed(hash_types(state, types.drop_last()), types.last())
    }
}

/// The archetype identifier of an ordered list of component types.
pub open spec fn archetype_hash(types: Seq<TypeId>) -> u64 {
    hash_types(FNV_OFFSET_BASIS, types)
}

/// The type identifiers of a list of component identifiers.
pub open spec fn type_ids(ids: Seq<ComponentId>) -> Seq<TypeId> {
    ids.map_values(|c: ComponentId| c@)
}

/// Unique identifier for an archetype
///
/// Computed as a stable FNV-1a hash of the ordered component type IDs that
/// define the archetype.
#[derive(Clone, Copy, Debug, PartialEq, Eq, PartialOrd, Ord, Hash)]
pub struct ArchetypeId(u64);

impl ArchetypeId {
    /// The raw hash value.
    pub closed spec fn spec_value(&self) -> u64 {
        self.0
    }

    /// Creates an ArchetypeId from an ordered slice of component type IDs
    pub fn from_types(types: &[ComponentId]) -> (r: Self)
        ensures
            r.spec_value() == archetype_hash(type_ids(types@)),
    {
        let mut hasher = FnvHasher::new();
        let mut i: usize = 0;
        while i < types.len()
            invariant
                i <= types@.len(),
                hasher.state() == hash_types(FNV_OFFSET_BASIS, type_ids(types@.subrange(0, i as int))),
            decreases types@.len() - i,
        {
            let t = types[i].type_id();
            absorb_type_id(&mut hasher, &t);
            proof {
                let pre = type_ids(types@.subrange(0, i as int + 1));
                assert(pre.drop_last() =~= type_ids(types@.subrange(0, i as int)));
                assert(pre.last() == types@[i as int]@);
            }
            i = i + 1;
        }
        assert(types@.subrange(0, types@.len() as int) =~= types@);
        ArchetypeId(hasher.state)
    }

    /// Returns the raw hash value
    pub fn value(&self) -> (r: u64)
        ensures
            r == self.spec_value(),
    {
        self.0
    }

    /// Whether two identifiers are equal.
    pub fn same(&self, other: &Self) -> (r: bool)
        ensures
            r == (self.spec_value() == other.spec_value()),
            r == (*self == *other),
    {
        self.0 == other.0
    }
}

/// Column-oriented storage for component data
///
/// Stores components of a single type contiguously as raw bytes: component
/// `i` occupies bytes `i * stride .. (i + 1) * stride`.
pub struct ComponentColumn {
    /// Raw byte storage for component data
    data: Vec<u8>,
    /// Size of each component in bytes
    stride: usize,
    /// Number of components stored
    len: usize,
}

/// The bytes with the blocks of `n` bytes at offsets `a` and `b` exchanged.
pub open spec fn swap_blocks(bytes: Seq<u8>, a: int, b: int, n: int) -> Seq<u8> {
    Seq::new(
        bytes.len(),
        |k: int|
            if a <= k < a + n {
                bytes[b + (k - a)]
            } else if b <= k < b + n {
                bytes[a + (k - b)]
            } else {
                bytes[k]
            },
    )
}

proof fn lemma_block_in_bounds(i: int, len: int, stride: int)
    requires
        0 <= i < len,
        0 <= stride,
    ensures
        0 <= i * stride,
        i * stride + stride <= len * stride,
{
    assert(i * stride + stride == (i + 1) * stride) by (nonlinear_arith);
    assert((i + 1) * stride <= len * stride) by (nonlinear_arith)
        requires
            i + 1 <= len,
            0 <= stride,
    ;
    assert(0 <= i * stride) by (nonlinear_arith)
        requires
            0 <= i,
            0 <= stride,
    ;
}

proof fn lemma_blocks_disjoint(a: int, b: int, stride: int)
    requires
        0 <= a < b,
        0 <= stride,
    ensures
        a * stride + stride <= b * stride,
{
    assert(a * stride + stride <= b * stride) by (nonlinear_arith)
        requires
            a + 1 <= b,
            0 <= stride,
    ;
}

/// Exchanging two disjoint blocks of bytes twice gives back the bytes.
proof fn lemma_swap_blocks_involutive(bytes: Seq<u8>, a: int, b: int, n: int)
    requires
        0 <= n,
        0 <= a,
        0 <= b,
        a + n <= bytes.len(),
        b + n <= bytes.len(),
        a + n <= b || b + n <= a,
    ensures
        swap_blocks(swap_blocks(bytes, a, b, n), a, b, n) == bytes,
{
    let once = swap_blocks(bytes, a, b, n);
    assert(swap_blocks(once, a, b, n) =~= bytes);
}

/// Swapping the same two components of a column twice leaves its bytes as
/// they were.
pub proof fn lemma_column_swap_twice(column: ComponentColumn, a: int, b: int)
    requires
        column.wf(),
        0 <= a < column.count(),
        0 <= b < column.count(),
        a != b,
    ensures
        ({
            let s = column.spec_stride() as int;
            swap_blocks(swap_blocks(column.bytes(), a * s, b * s, s), a * s, b * s, s) == column.bytes()
        }),
{
    let s = column.spec_stride() as int;
    lemma_block_in_bounds(a, column.count() as int, s);
    lemma_block_in_bounds(b, column.count() as int, s);
    if a < b {
        lemma_blocks_disjoint(a, b, s);
    } else {
        lemma_blocks_disjoint(b, a, s);
    }
    lemma_swap_blocks_involutive(column.bytes(), a * s, b * s, s);
}

impl ComponentColumn {
    /// The raw bytes.
    pub closed spec fn bytes(&self) -> Seq<u8> {
        self.data@
    }

    /// Size of each component in bytes.
    pub closed spec fn spec_stride(&self) -> usize {
        self.stride
    }

    /// Number of components stored.
    pub closed spec fn count(&self) -> usize {
        self.len
    }

    /// The bytes are exactly those of the counted components: element `k`
    /// is the `k`-th block of `stride` bytes.
    pub open spec fn wf(&self) -> bool {
        self.count() * self.spec_stride() == self.bytes().len()
    }

    /// Creates a new empty ComponentColumn for components of size `stride`
    pub fn new(stride: usize) -> (r: Self)
        ensures
            r.bytes() == Seq::<u8>::empty(),
            r.spec_stride() == stride,
            r.count() == 0,
    {
        Self { data: Vec::new(), stride, len: 0 }
    }

    /// Creates a ComponentColumn with capacity for `capacity` components
    pub fn with_capacity(stride: usize, capacity: usize) -> (r: Self)
        requires
            capacity * stride <= usize::MAX,
        ensures
            r.bytes() == Seq::<u8>::empty(),
            r.spec_stride() == stride,
            r.count() == 0,
    {
        Self { data: Vec::with_capacity(capacity * stride), stride, len: 0 }
    }

    /// Returns the number of components stored
    pub fn len(&self) -> (r: usize)
        ensures
            r == self.count(),
    {
        self.len
    }

    /// Returns true if no components are stored
    pub fn is_empty(&self) -> (r: bool)
        ensures
            r == (self.count() == 0),
    {
        self.len == 0
    }

    /// Creates an empty ComponentColumn from a pooled buffer: the buffer's
    /// old bytes are cleared, its capacity is kept.
    pub fn from_pool(data: Vec<u8>, stride: usize) -> (r: Self)
        ensures
            r.bytes() == Seq::<u8>::empty(),
            r.spec_stride() == stride,
            r.count() == 0,
    {
        let mut data = data;
        data.clear();
        Self { data, stride, len: 0 }
    }

    /// Returns the stride (size of each component in bytes)
    pub fn stride(&self) -> (r: usize)
        ensures
            r == self.spec_stride(),
    {
        self.stride
    }

    /// How many bytes the column holds without reallocating, at least its length
    pub fn byte_capacity(&self) -> (r: usize)
        ensures
            r >= self.bytes().len(),
    {
        crate::ecs::sparse_set::vec_capacity(&self.data)
    }

    /// Appends one component's bytes to the end of the column
    pub fn push_bytes(&mut self, bytes: &[u8])
        requires
            old(self).count() < usize::MAX,
        ensures
            final(self).bytes() == old(self).bytes() + bytes@,
            final(self).spec_stride() == old(self).spec_stride(),
            final(self).count() == old(self).count() + 1,
            old(self).wf() && bytes@.len() == old(self).spec_stride() ==> final(self).wf(),
    {
        self.data.extend_from_slice(bytes);
        proof {
            if self.len * self.stride <= old(self).data@.len() && bytes@.len() == self.stride {
                assert((self.len + 1) * self.stride == self.len * self.stride + self.stride) by (nonlinear_arith);
            }
        }
        self.len = self.len + 1;
    }

    /// The bytes of the component at `index`, if it is stored
    pub fn get_bytes(&self, index: usize) -> (r: Option<&[u8]>)
        requires
            self.wf(),
        ensures
            r is Some <==> index < self.count(),
            index < self.count() ==> r.unwrap()@ == self.bytes().subrange(
                index * self.spec_stride(),
                index * self.spec_stride() + self.spec_stride(),
            ),
    {
        if index >= self.len {
            return None;
        }
        let total = self.data.len();
        proof {
            lemma_block_in_bounds(index as int, self.len as int, self.stride as int);
        }
        let offset = index * self.stride;
        Some(vstd::slice::slice_subrange(self.data.as_slice(), offset, offset + self.stride))
    }

    /// Overwrites the component at `index` with `bytes`
    pub fn set_bytes(&mut self, index: usize, bytes: &[u8])
        requires
            old(self).wf(),
            index < old(self).count(),
            bytes@.len() == old(self).spec_stride(),
        ensures
            final(self).wf(),
            final(self).spec_stride() == old(self).spec_stride(),
            final(self).count() == old(self).count(),
            final(self).bytes() == old(self).bytes().subrange(0, index * old(self).spec_stride()) + bytes@
                + old(self).bytes().subrange(
                index * old(self).spec_stride() + old(self).spec_stride(),
                old(self).bytes().len() as int,
            ),
    {
        let total = self.data.len();
        proof {
            lemma_block_in_bounds(index as int, self.len as int, self.stride as int);
        }
        let offset = index * self.stride;
        let ghost orig = self.data@;
        let mut i: usize = 0;
        while i < self.stride
            invariant
                orig.len() <= usize::MAX,
                self.stride == old(self).stride,
                self.len == old(self).len,
                orig == old(self).data@,
                self.data@.len() == orig.len(),
                bytes@.len() == self.stride,
                i <= self.stride,
                offset == index * self.stride,
                offset + self.stride <= orig.len(),
                forall|k: int|
                    0 <= k < orig.len() ==> #[trigger] self.data@[k] == if offset <= k < offset + i {
                        bytes@[k - offset]
                    } else {
                        orig[k]
                    },
            decreases self.stride - i,
        {
            self.data.set(offset + i, bytes[i]);
            i = i + 1;
        }
        assert(self.data@ =~= orig.subrange(0, offset as int) + bytes@ + orig.subrange(
            offset + self.stride,
            orig.len() as int,
        ));
    }

    /// Removes the component at `index`, shifting later components down;
    /// returns its bytes.
    pub fn remove_bytes(&mut self, index: usize) -> (r: Vec<u8>)
        requires
            old(self).wf(),
            index < old(self).count(),
        ensures
            final(self).wf(),
            final(self).spec_stride() == old(self).spec_stride(),
            final(self).count() == old(self).count() - 1,
            r@ == old(self).bytes().subrange(
                index * old(self).spec_stride(),
                index * old(self).spec_stride() + old(self).spec_stride(),
            ),
            final(self).bytes() == old(self).bytes().subrange(0, index * old(self).spec_stride())
                + old(self).bytes().subrange(
                index * old(self).spec_stride() + old(self).spec_stride(),
                old(self).count() * old(self).spec_stride(),
            ),
    {
        let total = self.data.len();
        proof {
            lemma_block_in_bounds(index as int, self.len as int, self.stride as int);
            lemma_block_in_bounds((self.len - 1) as int, self.len as int, self.stride as int);
        }
        let stride = self.stride;
        let offset = index * stride;
        let end = self.len * stride;
        let ghost orig = self.data@;
        let mut removed: Vec<u8> = Vec::new();
        let mut i: usize = 0;
        while i < stride
            invariant
                orig.len() <= usize::MAX,
                stride == self.stride,
                self.data@ == orig,
                offset + stride <= orig.len(),
                i <= stride,
                removed@ == orig.subrange(offset as int, offset + i),
            decreases stride - i,
        {
            removed.push(self.data[offset + i]);
            proof {
                assert(orig.subrange(offset as int, offset + i + 1) =~= orig.subrange(offset as int, offset + i).push(orig[offset + i]));
            }
            i = i + 1;
        }
        let mut k: usize = offset;
        while k + stride < end
            invariant
                stride == self.stride,
                self.len == old(self).len,
                orig == old(self).data@,
                self.data@.len() == orig.len(),
                offset <= k,
                offset + stride <= end,
                end <= orig.len(),
                k + stride <= end,
                forall|q: int|
                    0 <= q < orig.len() ==> #[trigger] self.data@[q] == if offset <= q < k {
                        orig[q + stride]
                    } else {
                        orig[q]
                    },
            decreases end - k,
        {
            let v = self.data[k + stride];
            self.data.set(k, v);
            k = k + 1;
        }
        proof {
            assert((self.len - 1) * stride == end - stride) by (nonlinear_arith)
                requires
                    end == self.len * stride,
                    self.len >= 1,
            ;
        }
        self.data.truncate(end - stride);
        self.len = self.len - 1;
        proof {
            assert(self.data@ =~= orig.subrange(0, offset as int) + orig.subrange(offset + stride, end as int));
        }
        removed
    }

    /// Returns a cursor over the components in batches of up to `batch_size`
    pub fn iter_batch(&self, batch_size: usize) -> (r: BatchIter<'_>)
        ensures
            r.spec_column() == *self,
            r.spec_batch_size() == batch_size,
            r.spec_current() == 0,
    {
        BatchIter { column: self, batch_size, current: 0 }
    }

    /// Drops the last component: its bytes are cut off and the count goes
    /// down by one.
    pub(crate) fn drop_last(&mut self)
        requires
            old(self).wf(),
            old(self).count() > 0,
        ensures
            final(self).bytes() == old(self).bytes().subrange(0, (old(self).count() - 1) * old(self).spec_stride()),
            final(self).spec_stride() == old(self).spec_stride(),
            final(self).count() == old(self).count() - 1,
            final(self).wf(),
    {
        let total = self.data.len();
        assert(self.len * self.stride == total);
        proof {
            assert((self.len - 1) * self.stride <= self.len * self.stride) by (nonlinear_arith)
                requires self.len >= 1;
        }
        let keep = (self.len - 1) * self.stride;
        self.data.truncate(keep);
        self.len = self.len - 1;
    }

    /// Swaps components at `a` and `b`
    pub fn swap(&mut self, a: usize, b: usize)
        requires
            old(self).wf(),
            a < old(self).count(),
            b < old(self).count(),
        ensures
            final(self).spec_stride() == old(self).spec_stride(),
            final(self).count() == old(self).count(),
            final(self).wf(),
            a == b ==> final(self).bytes() == old(self).bytes(),
            a != b ==> final(self).bytes() == swap_blocks(
                old(self).bytes(),
                a * old(self).spec_stride(),
                b * old(self).spec_stride(),
                old(self).spec_stride() as int,
            ),
    {
        if a == b {
            return;
        }
        let total = self.data.len();
        proof {
            lemma_block_in_bounds(a as int, self.len as int, self.stride as int);
            lemma_block_in_bounds(b as int, self.len as int, self.stride as int);
            if a < b {
                lemma_blocks_disjoint(a as int, b as int, self.stride as int);
            } else {
                lemma_blocks_disjoint(b as int, a as int, self.stride as int);
            }
        }
        let offset_a = a * self.stride;
        let offset_b = b * self.stride;
        let ghost orig = self.data@;
        let mut i: usize = 0;
        while i < self.stride
            invariant
                orig.len() <= usize::MAX,
                self.stride == old(self).stride,
                self.len == old(self).len,
                orig == old(self).data@,
                self.data@.len() == orig.len(),
                i <= self.stride,
                offset_a == a * self.stride,
                offset_b == b * self.stride,
                offset_a + self.stride <= orig.len(),
                offset_b + self.stride <= orig.len(),
                offset_a + self.stride <= offset_b || offset_b + self.stride <= offset_a,
                forall|k: int|
                    0 <= k < orig.len() ==> #[trigger] self.data@[k] == if offset_a <= k < offset_a + i {
                        orig[offset_b + (k - offset_a)]
                    } else if offset_b <= k < offset_b + i {
                        orig[offset_a + (k - offset_b)]
                    } else {
                        orig[k]
                    },
            decreases self.stride - i,
        {
            let x = self.data[offset_a + i];
            let y = self.data[offset_b + i];
            self.data.set(offset_a + i, y);
            self.data.set(offset_b + i, x);
            i = i + 1;
        }
        assert(self.data@ =~= swap_blocks(orig, offset_a as int, offset_b as int, self.stride as int));
    }

    /// Clears all components from the column
    pub fn clear(&mut self)
        ensures
            final(self).bytes() == Seq::<u8>::empty(),
            final(self).spec_stride() == old(self).spec_stride(),
            final(self).count() == 0,
    {
        self.data.clear();
        self.len = 0;
    }

    /// Reserves capacity for at least `additional` more components
    pub fn reserve(&mut self, additional: usize)
        requires
            additional * old(self).spec_stride() <= usize::MAX,
        ensures
            final(self).bytes() == old(self).bytes(),
            final(self).spec_stride() == old(self).spec_stride(),
            final(self).count() == old(self).count(),
    {
        self.data.reserve(additional * self.stride);
    }
}

/// Cursor over a column's components in batches: each batch holds the
/// bytes of up to the batch size of consecutive components.
pub struct BatchIter<'a> {
    column: &'a ComponentColumn,
    batch_size: usize,
    current: usize,
}

impl<'a> BatchIter<'a> {
    pub closed spec fn spec_column(&self) -> ComponentColumn {
        *self.column
    }

    pub closed spec fn spec_batch_size(&self) -> usize {
        self.batch_size
    }

    /// How many components have been handed out.
    pub closed spec fn spec_current(&self) -> usize {
        self.current
    }

    /// The next batch: the bytes of the following components, at most the batch size of them.
    pub fn next(&mut self) -> (r: Option<&'a [u8]>)
        requires
            old(self).spec_column().wf(),
        ensures
            final(self).spec_column() == old(self).spec_column(),
            final(self).spec_batch_size() == old(self).spec_batch_size(),
            ({
                let col = old(self).spec_column();
                let cur = old(self).spec_current() as int;
                let n = col.count() as int;
                let s = col.spec_stride() as int;
                if cur >= n {
                    r is None && final(self).spec_current() == old(self).spec_current()
                } else {
                    let size = if (old(self).spec_batch_size() as int) < n - cur {
                        old(self).spec_batch_size() as int
                    } else {
                        n - cur
                    };
                    &&& r is Some
                    &&& r.unwrap()@ == col.bytes().subrange(cur * s, (cur + size) * s)
                    &&& final(self).spec_current() == cur + size
                }
            }),
    {
        if self.current >= self.column.len {
            return None;
        }
        let total = self.column.data.len();
        let remaining = self.column.len - self.current;
        let batch = if self.batch_size < remaining {
            self.batch_size
        } else {
            remaining
        };
        proof {
            let s = self.column.stride as int;
            let n = self.column.len as int;
            let c = self.current as int;
            let b = batch as int;
            assert((c + b) * s <= n * s) by (nonlinear_arith)
                requires
                    c + b <= n,
                    0 <= s,
            ;
            assert(c * s <= (c + b) * s) by (nonlinear_arith)
                requires
                    0 <= b,
                    0 <= s,
            ;
            assert(0 <= c * s) by (nonlinear_arith)
                requires
                    0 <= c,
                    0 <= s,
            ;
        }
        let start = self.current * self.column.stride;
        let stop = (self.current + batch) * self.column.stride;
        let slice = vstd::slice::slice_subrange(self.column.data.as_slice(), start, stop);
        self.current = self.current + batch;
        Some(slice)
    }
}

/// The bytes given for component type `k`, if `data` names it.
pub open spec fn data_for(data: Seq<(ComponentId, Vec<u8>)>, k: TypeId) -> Option<Seq<u8>>
    decreases data.len(),
{
    if data.len() == 0 {
        None
    } else if data.last().0@ == k {
        Some(data.last().1@)
    } else {
        data_for(data.drop_last(), k)
    }
}

/// The component type identifiers named by component data.
pub open spec fn data_keys(data: Seq<(ComponentId, Vec<u8>)>) -> Seq<TypeId> {
    data.map_values(|e: (ComponentId, Vec<u8>)| e.0@)
}

/// Data that does not name `k` gives no bytes for it.
proof fn lemma_data_for_absent(data: Seq<(ComponentId, Vec<u8>)>, k: TypeId)
    requires
        forall|w: int| 0 <= w < data.len() ==> data[w].0@ != k,
    ensures
        data_for(data, k) is None,
    decreases data.len(),
{
    if data.len() > 0 {
        let rest = data.drop_last();
        assert forall|w: int| 0 <= w < rest.len() implies rest[w].0@ != k by {
            assert(rest[w] == data[w]);
        }
        lemma_data_for_absent(rest, k);
    }
}

/// Archetype: Groups entities with identical component types
///
/// `entity_ids[i]` owns the `i`-th component of every column.
pub struct Archetype {
    /// Entity IDs stored in this archetype
    entity_ids: Vec<usize>,
    /// Component types that have a column, in the order columns were added
    column_ids: Vec<ComponentId>,
    /// The column of each type in `column_ids`, at the same position
    columns: Vec<ComponentColumn>,
    /// Sorted list of component type IDs for this archetype
    types: Vec<ComponentId>,
}

impl Archetype {
    /// The entities, in storage order.
    pub closed spec fn entities(&self) -> Seq<usize> {
        self.entity_ids@
    }

    /// The component types that define this archetype.
    pub closed spec fn type_list(&self) -> Seq<ComponentId> {
        self.types@
    }

    /// The component types that have a column, in the order the columns were added.
    pub closed spec fn column_keys(&self) -> Seq<TypeId> {
        type_ids(self.column_ids@)
    }

    /// The column of each component type that has one.
    pub closed spec fn columns(&self) -> Map<TypeId, ComponentColumn> {
        Map::new(
            |k: TypeId| self.column_keys().contains(k),
            |k: TypeId| self.columns@[self.column_keys().index_of(k)],
        )
    }

    /// One column per type, and every column holds the bytes it counts.
    pub closed spec fn wf(&self) -> bool {
        &&& self.column_keys().no_duplicates()
        &&& self.column_ids@.len() == self.columns@.len()
        &&& forall|i: int| 0 <= i < self.columns@.len() ==> (#[trigger] self.columns@[i]).wf()
    }

    /// Every column holds exactly one component per entity.
    pub open spec fn full(&self) -> bool {
        forall|k: TypeId| #[trigger] self.columns().contains_key(k) ==> self.columns()[k].count()
            == self.entities().len()
    }

    /// Replacing the column at position `i` changes only that type's entry.
    proof fn lemma_update_column(a: Self, b: Self, i: int)
        requires
            a.wf(),
            a.column_ids@ == b.column_ids@,
            a.columns@.len() == b.columns@.len(),
            0 <= i < a.columns@.len(),
            forall|j: int| 0 <= j < a.columns@.len() && j != i ==> b.columns@[j] == a.columns@[j],
            b.columns@[i].wf(),
        ensures
            b.wf(),
            b.column_keys() == a.column_keys(),
            b.columns() == a.columns().insert(a.column_keys()[i], b.columns@[i]),
    {
        assert(b.column_keys() =~= a.column_keys());
        lemma_index_of_unique(a.column_keys(), i);
        assert forall|k: TypeId| a.column_keys().contains(k) && k != a.column_keys()[i] implies a.column_keys().index_of(k) != i by {
            let j = a.column_keys().index_of(k);
            assert(a.column_keys()[j] == k);
        }
        assert(b.columns() =~= a.columns().insert(a.column_keys()[i], b.columns@[i]));
    }

    /// Creates a new empty archetype with the given component types
    pub fn new(types: Vec<ComponentId>) -> (r: Self)
        ensures
            r.wf(),
            r.entities() == Seq::<usize>::empty(),
            r.type_list() == types@,
            r.column_keys() == Seq::<TypeId>::empty(),
            r.columns() == Map::<TypeId, ComponentColumn>::empty(),
    {
        let r = Self { entity_ids: Vec::new(), column_ids: Vec::new(), columns: Vec::new(), types };
        assert(r.columns() =~= Map::<TypeId, ComponentColumn>::empty());
        assert(r.column_keys() =~= Seq::<TypeId>::empty());
        r
    }

    /// Returns the archetype ID (hash of component types)
    pub fn id(&self) -> (r: ArchetypeId)
        ensures
            r.spec_value() == archetype_hash(type_ids(self.type_list())),
    {
        ArchetypeId::from_types(self.types.as_slice())
    }

    /// Returns the number of entities in this archetype
    pub fn len(&self) -> (r: usize)
        ensures
            r == self.entities().len(),
    {
        self.entity_ids.len()
    }

    /// Returns true if this archetype contains no entities
    pub fn is_empty(&self) -> (r: bool)
        ensures
            r == (self.entities().len() == 0),
    {
        self.entity_ids.len() == 0
    }

    /// Returns the component types that define this archetype
    pub fn types(&self) -> (r: &[ComponentId])
        ensures
            r@ == self.type_list(),
    {
        self.types.as_slice()
    }

    /// Returns true if this archetype contains the given component type
    pub fn has_component(&self, component_id: ComponentId) -> (r: bool)
        ensures
            r == type_ids(self.type_list()).contains(component_id@),
    {
        let mut i: usize = 0;
        while i < self.types.len()
            invariant
                i <= self.types@.len(),
                forall|j: int| 0 <= j < i ==> self.types@[j]@ != component_id@,
            decreases self.types@.len() - i,
        {
            if self.types[i].same(&component_id) {
                assert(type_ids(self.types@)[i as int] == component_id@);
                return true;
            }
            i = i + 1;
        }
        assert(!type_ids(self.types@).contains(component_id@)) by {
            if type_ids(self.types@).contains(component_id@) {
                let j = choose|j: int| 0 <= j < self.types@.len() && type_ids(self.types@)[j] == component_id@;
                assert(self.types@[j]@ == component_id@);
            }
        }
        false
    }

    /// The position of the column for `id`, if there is one.
    fn column_position(&self, id: ComponentId) -> (r: Option<usize>)
        requires
            self.wf(),
        ensures
            match r {
                Some(i) => i < self.columns@.len() && self.column_keys()[i as int] == id@
                    && self.column_keys().index_of(id@) == i,
                None => !self.columns().contains_key(id@),
            },
    {
        let mut i: usize = 0;
        while i < self.column_ids.len()
            invariant
                self.wf(),
                i <= self.column_ids@.len(),
                forall|j: int| 0 <= j < i ==> self.column_keys()[j] != id@,
            decreases self.column_ids@.len() - i,
        {
            if self.column_ids[i].same(&id) {
                proof {
                    assert(self.column_keys()[i as int] == id@);
                    lemma_index_of_unique(self.column_keys(), i as int);
                }
                return Some(i);
            }
            i = i + 1;
        }
        None
    }

    /// Adds an entity to this archetype
    ///
    /// The bytes given for each component type that has a column are appended
    /// to that column; data for other types is skipped. Returns the index of
    /// the entity within the archetype.
    pub fn add_entity(&mut self, entity_id: usize, component_data: Vec<(ComponentId, Vec<u8>)>) -> (r: usize)
        requires
            old(self).wf(),
            data_keys(component_data@).no_duplicates(),
            forall|k: TypeId| #[trigger] old(self).columns().contains_key(k) ==> old(self).columns()[k].count() < usize::MAX,
            forall|j: int| 0 <= j < component_data@.len() && old(self).columns().contains_key(component_data@[j].0@)
                ==> (#[trigger] component_data@[j]).1@.len() == old(self).columns()[component_data@[j].0@].spec_stride(),
        ensures
            final(self).wf(),
            r == old(self).entities().len(),
            final(self).entities() == old(self).entities().push(entity_id),
            final(self).type_list() == old(self).type_list(),
            final(self).column_keys() == old(self).column_keys(),
            final(self).columns().dom() == old(self).columns().dom(),
            forall|k: TypeId| #[trigger] final(self).columns().contains_key(k) ==> {
                let before = old(self).columns()[k];
                let after = final(self).columns()[k];
                &&& after.spec_stride() == before.spec_stride()
                &&& match data_for(component_data@, k) {
                    Some(b) => after.bytes() == before.bytes() + b && after.count() == before.count() + 1,
                    None => after == before,
                }
            },
    {
        let index = self.entity_ids.len();
        self.entity_ids.push(entity_id);
        let ghost start = *self;
        assert(start.columns() =~= old(self).columns());
        let mut j: usize = 0;
        while j < component_data.len()
            invariant
                start.wf(),
                self.wf(),
                j <= component_data@.len(),
                data_keys(component_data@).no_duplicates(),
                self.entity_ids@ == start.entity_ids@,
                self.types@ == start.types@,
                self.column_ids@ == start.column_ids@,
                start.columns() == old(self).columns(),
                self.columns().dom() == start.columns().dom(),
                forall|k: TypeId| #[trigger] start.columns().contains_key(k) ==> start.columns()[k].count() < usize::MAX,
                forall|i: int| 0 <= i < component_data@.len() && start.columns().contains_key(component_data@[i].0@)
                    ==> (#[trigger] component_data@[i]).1@.len() == start.columns()[component_data@[i].0@].spec_stride(),
                forall|k: TypeId| #[trigger] self.columns().contains_key(k) ==> {
                    let before = start.columns()[k];
                    let after = self.columns()[k];
                    &&& after.spec_stride() == before.spec_stride()
                    &&& match data_for(component_data@.subrange(0, j as int), k) {
                        Some(b) => after.bytes() == before.bytes() + b && after.count() == before.count() + 1,
                        None => after == before,
                    }
                },
            decreases component_data@.len() - j,
        {
            let entry = &component_data[j];
            let ghost pre = component_data@.subrange(0, j as int);
            let ghost next = component_data@.subrange(0, j as int + 1);
            proof {
                assert(next.drop_last() =~= pre);
                assert(next.last() == component_data@[j as int]);
            }
            match self.column_position(entry.0) {
                Some(ci) => {
                    let ghost mid = *self;
                    let ghost k = entry.0@;
                    proof {
                        assert(mid.column_keys().contains(k));
                        assert(mid.columns().contains_key(k));
                        assert(mid.columns()[k] == mid.columns@[ci as int]);
                        assert forall|w: int| 0 <= w < pre.len() implies pre[w].0@ != k by {
                            assert(data_keys(component_data@)[w] != data_keys(component_data@)[j as int]);
                        }
                        lemma_data_for_absent(pre, k);
                        assert(mid.columns()[k] == start.columns()[k]);
                    }
                    self.columns[ci].push_bytes(entry.1.as_slice());
                    proof {
                        Self::lemma_update_column(mid, *self, ci as int);
                    }
                },
                None => {},
            }
            j = j + 1;
        }
        assert(component_data@.subrange(0, component_data@.len() as int) =~= component_data@);
        index
    }

    /// Removes the entity at `index`, moving the last entity into its place
    ///
    /// Returns the entity ID now at `index` when a swap happened, which is
    /// the former last entity; when the removed entity was last, its own ID.
    pub fn remove_entity(&mut self, index: usize) -> (r: usize)
        requires
            old(self).wf(),
            old(self).full(),
            index < old(self).entities().len(),
        ensures
            final(self).wf(),
            final(self).full(),
            r == old(self).entities().last(),
            final(self).entities() == old(self).entities().update(index as int, old(self).entities().last()).drop_last(),
            final(self).type_list() == old(self).type_list(),
            final(self).column_keys() == old(self).column_keys(),
            final(self).columns().dom() == old(self).columns().dom(),
            forall|k: TypeId| #[trigger] final(self).columns().contains_key(k) ==> column_after_removal(
                old(self).columns()[k],
                final(self).columns()[k],
                index as int,
                old(self).entities().len() - 1,
            ),
    {
        let last = self.entity_ids.len() - 1;
        if index != last {
            let moved = self.entity_ids[last];
            self.entity_ids.set(index, moved);
        }
        let entity_id = self.entity_ids[index];
        self.entity_ids.pop();
        let ghost start = *old(self);
        let ghost ents = self.entity_ids@;
        proof {
            assert(ents =~= start.entities().update(index as int, start.entities().last()).drop_last());
        }
        proof {
            assert forall|p: int| 0 <= p < start.columns@.len() implies (#[trigger] start.columns@[p]).count() == start.entities().len() by {
                let k = start.column_keys()[p];
                lemma_index_of_unique(start.column_keys(), p);
                assert(start.columns().contains_key(k));
            }
        }
        let mut ci: usize = 0;
        while ci < self.columns.len()
            invariant
                start.wf(),
                ci <= self.columns@.len(),
                index < start.entities().len(),
                last == start.entities().len() - 1,
                self.entity_ids@ == ents,
                ents.len() == last,
                self.types@ == start.types@,
                self.column_ids@ == start.column_ids@,
                self.columns@.len() == start.columns@.len(),
                forall|p: int| 0 <= p < start.columns@.len() ==> (#[trigger] start.columns@[p]).count() == start.entities().len(),
                forall|p: int| 0 <= p < ci ==> column_after_removal(start.columns@[p], #[trigger] self.columns@[p], index as int, last as int),
                forall|p: int| ci <= p < self.columns@.len() ==> #[trigger] self.columns@[p] == start.columns@[p],
            decreases self.columns@.len() - ci,
        {
            assert(start.columns@[ci as int].wf());
            if index != last {
                self.columns[ci].swap(index, last);
            }
            self.columns[ci].drop_last();
            ci = ci + 1;
        }
        proof {
            assert(self.column_keys() =~= start.column_keys());
            assert forall|k: TypeId| #[trigger] self.columns().contains_key(k) implies column_after_removal(
                start.columns()[k], self.columns()[k], index as int, last as int) by {
                let p = self.column_keys().index_of(k);
                assert(self.column_keys().contains(k));
                assert(self.column_keys()[p] == k);
            }
            assert(self.wf()) by {
                assert forall|p: int| 0 <= p < self.columns@.len() implies (#[trigger] self.columns@[p]).wf() by {
                    assert(column_after_removal(start.columns@[p], self.columns@[p], index as int, last as int));
                }
            }
            assert forall|k: TypeId| #[trigger] self.columns().contains_key(k) implies self.columns()[k].count() == self.entities().len() by {
                let p = self.column_keys().index_of(k);
                assert(self.column_keys().contains(k));
                assert(self.column_keys()[p] == k);
                assert(column_after_removal(start.columns@[p], self.columns@[p], index as int, last as int));
            }
        }
        entity_id
    }

    /// Gets the entity ID at the given index
    pub fn get_entity_id(&self, index: usize) -> (r: Option<usize>)
        ensures
            r == (if index < self.entities().len() {
                Some(self.entities()[index as int])
            } else {
                None
            }),
    {
        if index < self.entity_ids.len() {
            Some(self.entity_ids[index])
        } else {
            None
        }
    }

    /// Gets a reference to the component column for a specific component type
    pub fn get_column(&self, component_id: ComponentId) -> (r: Option<&ComponentColumn>)
        requires
            self.wf(),
        ensures
            r == (if self.columns().contains_key(component_id@) {
                Some(&self.columns()[component_id@])
            } else {
                None
            }),
    {
        match self.column_position(component_id) {
            Some(i) => Some(&self.columns[i]),
            None => None,
        }
    }

    /// Gets a mutable reference to the component column for a specific component type
    pub fn get_column_mut(&mut self, component_id: ComponentId) -> (r: Option<&mut ComponentColumn>)
        requires
            old(self).wf(),
        ensures
            final(self).entities() == old(self).entities(),
            final(self).type_list() == old(self).type_list(),
            final(self).column_keys() == old(self).column_keys(),
            match r {
                Some(c) => {
                    &&& old(self).columns().contains_key(component_id@)
                    &&& *c == old(self).columns()[component_id@]
                    &&& final(self).columns() == old(self).columns().insert(component_id@, *final(c))
                    &&& final(c).wf() ==> final(self).wf()
                },
                None => {
                    &&& !old(self).columns().contains_key(component_id@)
                    &&& *final(self) == *old(self)
                },
            },
    {
        match self.column_position(component_id) {
            Some(i) => {
                proof {
                    assert(self.column_keys().contains(component_id@));
                    assert forall|k: TypeId| self.column_keys().contains(k) && k != component_id@ implies self.column_keys().index_of(k) != i by {
                        let j = self.column_keys().index_of(k);
                        assert(self.column_keys()[j] == k);
                    }
                }
                Some(&mut self.columns[i])
            },
            None => None,
        }
    }

    /// Adds a new, empty component column to this archetype
    ///
    /// The archetype must not have a column for this component type yet.
    pub fn add_column(&mut self, component_id: ComponentId, stride: usize)
        requires
            old(self).wf(),
            !old(self).columns().contains_key(component_id@),
            16 * stride <= usize::MAX,
        ensures
            final(self).wf(),
            final(self).entities() == old(self).entities(),
            final(self).type_list() == old(self).type_list(),
            final(self).column_keys() == old(self).column_keys().push(component_id@),
            final(self).columns().dom() == old(self).columns().dom().insert(component_id@),
            forall|k: TypeId| #[trigger] old(self).columns().contains_key(k) ==> final(self).columns()[k] == old(self).columns()[k],
            final(self).columns()[component_id@].bytes() == Seq::<u8>::empty(),
            final(self).columns()[component_id@].spec_stride() == stride,
            final(self).columns()[component_id@].count() == 0,
    {
        let column = ComponentColumn::with_capacity(stride, 16);
        self.push_column(component_id, column);
    }

    /// Adds a pre-allocated component column to this archetype
    ///
    /// The archetype must not have a column for this component type yet.
    pub fn add_column_with_data(&mut self, component_id: ComponentId, column: ComponentColumn)
        requires
            old(self).wf(),
            !old(self).columns().contains_key(component_id@),
            column.wf(),
        ensures
            final(self).wf(),
            final(self).entities() == old(self).entities(),
            final(self).type_list() == old(self).type_list(),
            final(self).column_keys() == old(self).column_keys().push(component_id@),
            final(self).columns() == old(self).columns().insert(component_id@, column),
    {
        self.push_column(component_id, column);
    }

    fn push_column(&mut self, component_id: ComponentId, column: ComponentColumn)
        requires
            old(self).wf(),
            !old(self).columns().contains_key(component_id@),
            column.wf(),
        ensures
            final(self).wf(),
            final(self).entities() == old(self).entities(),
            final(self).type_list() == old(self).type_list(),
            final(self).column_keys() == old(self).column_keys().push(component_id@),
            final(self).columns() == old(self).columns().insert(component_id@, column),
    {
        let ghost i = self.columns@.len() as int;
        self.column_ids.push(component_id);
        self.columns.push(column);
        proof {
            assert(self.column_keys() =~= old(self).column_keys().push(component_id@));
            assert(!old(self).column_keys().contains(component_id@));
            assert(self.wf()) by {
                assert forall|a: int, b: int|
                    0 <= a < self.column_keys().len() && 0 <= b < self.column_keys().len() && a != b implies
                    self.column_keys()[a] != self.column_keys()[b] by {
                    if a == i || b == i {
                        assert(old(self).column_keys().contains(self.column_keys()[if a == i { b } else { a }]));
                    }
                }
            }
            assert(self.column_keys()[i] == component_id@);
            lemma_index_of_unique(self.column_keys(), i);
            assert forall|k: TypeId| #[trigger] self.column_keys().contains(k) <==> (old(self).column_keys().contains(k) || k == component_id@) by {
                broadcast use vstd::seq_lib::group_seq_properties;
            }
            assert forall|k: TypeId| old(self).column_keys().contains(k) implies self.column_keys().index_of(k) == old(self).column_keys().index_of(k) by {
                let j = old(self).column_keys().index_of(k);
                lemma_index_of_unique(old(self).column_keys(), j);
                assert(self.column_keys()[j] == k);
                lemma_index_of_unique(self.column_keys(), j);
            }
            assert(self.columns() =~= old(self).columns().insert(component_id@, column));
        }
    }

    /// Returns an iterator over entity IDs in this archetype
    pub fn iter_entities(&self) -> (r: core::slice::Iter<'_, usize>)
        ensures
            vstd::std_specs::slice::into_iter_elts(r) == self.entities(),
    {
        self.entity_ids.iter()
    }

    /// Clears all entities from this archetype
    pub fn clear(&mut self)
        requires
            old(self).wf(),
        ensures
            final(self).wf(),
            final(self).full(),
            final(self).entities() == Seq::<usize>::empty(),
            final(self).type_list() == old(self).type_list(),
            final(self).column_keys() == old(self).column_keys(),
            final(self).columns().dom() == old(self).columns().dom(),
            forall|k: TypeId| #[trigger] final(self).columns().contains_key(k) ==> {
                &&& final(self).columns()[k].bytes() == Seq::<u8>::empty()
                &&& final(self).columns()[k].count() == 0
                &&& final(self).columns()[k].spec_stride() == old(self).columns()[k].spec_stride()
            },
    {
        self.entity_ids.clear();
        let ghost start = *old(self);
        let mut ci: usize = 0;
        while ci < self.columns.len()
            invariant
                ci <= self.columns@.len(),
                self.entity_ids@ == Seq::<usize>::empty(),
                self.types@ == start.types@,
                self.column_ids@ == start.column_ids@,
                self.columns@.len() == start.columns@.len(),
                forall|p: int| 0 <= p < ci ==> {
                    &&& (#[trigger] self.columns@[p]).bytes() == Seq::<u8>::empty()
                    &&& self.columns@[p].count() == 0
                    &&& self.columns@[p].spec_stride() == start.columns@[p].spec_stride()
                },
                forall|p: int| ci <= p < self.columns@.len() ==> #[trigger] self.columns@[p] == start.columns@[p],
            decreases self.columns@.len() - ci,
        {
            self.columns[ci].clear();
            ci = ci + 1;
        }
        proof {
            assert(self.column_keys() =~= start.column_keys());
            assert forall|k: TypeId| #[trigger] self.columns().contains_key(k) implies {
                &&& self.columns()[k].bytes() == Seq::<u8>::empty()
                &&& self.columns()[k].count() == 0
                &&& self.columns()[k].spec_stride() == start.columns()[k].spec_stride()
            } by {
                let p = self.column_keys().index_of(k);
                assert(self.column_keys().contains(k));
                assert(self.column_keys()[p] == k);
            }
            assert(self.wf()) by {
                assert forall|p: int| 0 <= p < self.columns@.len() implies (#[trigger] self.columns@[p]).wf() by {
                    assert(self.columns@[p].count() == 0);
                }
            }
            assert forall|k: TypeId| #[trigger] self.columns().contains_key(k) implies self.columns()[k].count() == self.entities().len() by {
                let p = self.column_keys().index_of(k);
                assert(self.column_keys().contains(k));
                assert(self.column_keys()[p] == k);
            }
        }
    }
}

/// What removing the entity at `index` does to a column holding one
/// component per entity, `last` being the former last position: the last
/// block moves into the removed block, the bytes are cut to the count before
/// removal, and the count goes down by one.
pub open spec fn column_after_removal(before: ComponentColumn, after: ComponentColumn, index: int, last: int) -> bool {
    let s = before.spec_stride() as int;
    let moved = if index != last {
        swap_blocks(before.bytes(), index * s, last * s, s)
    } else {
        before.bytes()
    };
    &&& after.spec_stride() == before.spec_stride()
    &&& after.count() == before.count() - 1
    &&& after.bytes() == moved.subrange(0, (before.count() - 1) * s)
    &&& after.wf()
}


/// The component types named by a list of (component, stride) pairs.
pub open spec fn pair_keys(pairs: Seq<(ComponentId, usize)>) -> Seq<TypeId> {
    pairs.map_values(|p: (ComponentId, usize)| p.0@)
}

/// Where a pair with component type `k` goes among `pairs`, scanning from
/// `from`: before the first pair whose type `k` precedes, else at the end.
pub open spec fn insertion_point(pairs: Seq<(ComponentId, usize)>, k: TypeId, from: int) -> int
    decreases pairs.len() - from,
{
    if from >= pairs.len() {
        pairs.len() as int
    } else if type_id_precedes(k, pairs[from].0@) {
        from
    } else {
        insertion_point(pairs, k, from + 1)
    }
}

/// `pairs` with `x` inserted before the first pair whose type it precedes.
pub open spec fn insert_by_type(pairs: Seq<(ComponentId, usize)>, x: (ComponentId, usize)) -> Seq<(ComponentId, usize)> {
    pairs.insert(insertion_point(pairs, x.0@, 0), x)
}

/// The pairs ordered by component type: each pair in turn is inserted before
/// the first already-placed pair whose type it precedes in `TypeId`'s order.
pub open spec fn sorted_by_type(pairs: Seq<(ComponentId, usize)>) -> Seq<(ComponentId, usize)>
    decreases pairs.len(),
{
    if pairs.len() == 0 {
        pairs
    } else {
        insert_by_type(sorted_by_type(pairs.drop_last()), pairs.last())
    }
}

proof fn lemma_insertion_point_bounds(pairs: Seq<(ComponentId, usize)>, k: TypeId, from: int)
    requires
        0 <= from <= pairs.len(),
    ensures
        from <= insertion_point(pairs, k, from) <= pairs.len(),
    decreases pairs.len() - from,
{
    if from < pairs.len() && !type_id_precedes(k, pairs[from].0@) {
        lemma_insertion_point_bounds(pairs, k, from + 1);
    }
}

/// Inserting a new value into a sequence without duplicates keeps it without duplicates.
proof fn lemma_insert_no_duplicates<A>(s: Seq<A>, p: int, v: A)
    requires
        s.no_duplicates(),
        !s.contains(v),
        0 <= p <= s.len(),
    ensures
        s.insert(p, v).no_duplicates(),
{
    s.insert_ensures(p, v);
    let r = s.insert(p, v);
    assert forall|a: int, b: int| 0 <= a < r.len() && 0 <= b < r.len() && a != b implies r[a] != r[b] by {
        if a != p && b != p {
            let ia = if a < p { a } else { a - 1 };
            let ib = if b < p { b } else { b - 1 };
            assert(r[a] == s[ia]);
            assert(r[b] == s[ib]);
        } else if a == p {
            let ib = if b < p { b } else { b - 1 };
            assert(r[b] == s[ib]);
        } else {
            let ia = if a < p { a } else { a - 1 };
            assert(r[a] == s[ia]);
        }
    }
}

/// Inserting keeps the other pairs and adds `x`; the types stay distinct
/// when `x`'s type is new.
proof fn lemma_insert_by_type(pairs: Seq<(ComponentId, usize)>, x: (ComponentId, usize))
    ensures
        insert_by_type(pairs, x).len() == pairs.len() + 1,
        insert_by_type(pairs, x).to_multiset() == pairs.to_multiset().insert(x),
        pair_keys(pairs).no_duplicates() && !pair_keys(pairs).contains(x.0@) ==> pair_keys(
            insert_by_type(pairs, x),
        ).no_duplicates(),
{
    let p = insertion_point(pairs, x.0@, 0);
    lemma_insertion_point_bounds(pairs, x.0@, 0);
    pairs.insert_ensures(p, x);
    vstd::seq_lib::to_multiset_insert(pairs, p, x);
    let r = insert_by_type(pairs, x);
    pair_keys(pairs).insert_ensures(p, x.0@);
    assert(pair_keys(r) =~= pair_keys(pairs).insert(p, x.0@));
    if pair_keys(pairs).no_duplicates() && !pair_keys(pairs).contains(x.0@) {
        lemma_insert_no_duplicates(pair_keys(pairs), p, x.0@);
    }
}

/// Ordering by type rearranges the pairs; distinct types stay distinct.
pub proof fn lemma_sorted_by_type(pairs: Seq<(ComponentId, usize)>)
    ensures
        sorted_by_type(pairs).len() == pairs.len(),
        sorted_by_type(pairs).to_multiset() == pairs.to_multiset(),
        pair_keys(pairs).no_duplicates() ==> pair_keys(sorted_by_type(pairs)).no_duplicates(),
    decreases pairs.len(),
{
    broadcast use vstd::seq_lib::group_to_multiset_ensures;

    if pairs.len() > 0 {
        let rest = pairs.drop_last();
        lemma_sorted_by_type(rest);
        lemma_insert_by_type(sorted_by_type(rest), pairs.last());
        assert(pairs == rest.push(pairs.last()));
        if pair_keys(pairs).no_duplicates() {
            assert(pair_keys(rest) =~= pair_keys(pairs).drop_last());
            assert forall|a: int, b: int|
                0 <= a < pair_keys(rest).len() && 0 <= b < pair_keys(rest).len() && a != b implies
                pair_keys(rest)[a] != pair_keys(rest)[b] by {
                assert(pair_keys(rest)[a] == pair_keys(pairs)[a]);
                assert(pair_keys(rest)[b] == pair_keys(pairs)[b]);
            }
            let sr = sorted_by_type(rest);
            if pair_keys(sr).contains(pairs.last().0@) {
                let j = choose|j: int| 0 <= j < pair_keys(sr).len() && pair_keys(sr)[j] == pairs.last().0@;
                assert(sr.to_multiset().count(sr[j]) > 0);
                assert(rest.to_multiset().count(sr[j]) > 0);
                assert(rest.contains(sr[j]));
                let i = choose|i: int| 0 <= i < rest.len() && rest[i] == sr[j];
                assert(pair_keys(pairs)[i] == pair_keys(pairs)[pairs.len() - 1]);
            }
        }
    }
}

/// The types are listed in strictly increasing `TypeId` order: each comes
/// before every later one, and no later one comes before it.
pub open spec fn ordered_types(s: Seq<TypeId>) -> bool {
    forall|i: int, j: int|
        #![trigger s[i], s[j]]
        0 <= i < j < s.len() ==> type_id_precedes(s[i], s[j]) && !type_id_precedes(s[j], s[i])
}

/// The set of types listed in increasing `TypeId` order.
pub open spec fn canonical_order(types: Set<TypeId>) -> Seq<TypeId> {
    choose|s: Seq<TypeId>| ordered_types(s) && s.to_set() == types
}

/// A set of types has only one listing in increasing order.
pub proof fn lemma_ordered_types_unique(s1: Seq<TypeId>, s2: Seq<TypeId>)
    requires
        ordered_types(s1),
        ordered_types(s2),
        s1.to_set() == s2.to_set(),
    ensures
        s1 == s2,
    decreases s1.len(),
{
    if s1.len() == 0 {
        if s2.len() > 0 {
            assert(s2.to_set().contains(s2[0]));
        }
        assert(s1 =~= s2);
    } else {
        assert(s1.to_set().contains(s1[0]));
        assert(s2.len() > 0);
        assert(s2.to_set().contains(s2[0]));
        if s1[0] != s2[0] {
            let j = choose|j: int| 0 <= j < s2.len() && s2[j] == s1[0];
            let i = choose|i: int| 0 <= i < s1.len() && s1[i] == s2[0];
            assert(j > 0 && i > 0);
            assert(type_id_precedes(s2[0], s2[j]));
            assert(type_id_precedes(s1[0], s1[i]) && !type_id_precedes(s1[i], s1[0]));
        }
        let t1 = s1.drop_first();
        let t2 = s2.drop_first();
        assert(ordered_types(t1)) by {
            assert forall|i: int, j: int| 0 <= i < j < t1.len() implies type_id_precedes(t1[i], t1[j])
                && !type_id_precedes(t1[j], t1[i]) by {
                assert(t1[i] == s1[i + 1] && t1[j] == s1[j + 1]);
            }
        }
        assert(ordered_types(t2)) by {
            assert forall|i: int, j: int| 0 <= i < j < t2.len() implies type_id_precedes(t2[i], t2[j])
                && !type_id_precedes(t2[j], t2[i]) by {
                assert(t2[i] == s2[i + 1] && t2[j] == s2[j + 1]);
            }
        }
        assert forall|x: TypeId| t1.to_set().contains(x) <==> t2.to_set().contains(x) by {
            if t1.to_set().contains(x) {
                let i = choose|i: int| 0 <= i < t1.len() && t1[i] == x;
                assert(s1[i + 1] == x);
                assert(s1.to_set().contains(x));
                let j = choose|j: int| 0 <= j < s2.len() && s2[j] == x;
                if j == 0 {
                    assert(type_id_precedes(s1[0], s1[i + 1]) && !type_id_precedes(s1[i + 1], s1[0]));
                }
                assert(t2[j - 1] == x);
            }
            if t2.to_set().contains(x) {
                let j = choose|j: int| 0 <= j < t2.len() && t2[j] == x;
                assert(s2[j + 1] == x);
                assert(s2.to_set().contains(x));
                let i = choose|i: int| 0 <= i < s1.len() && s1[i] == x;
                if i == 0 {
                    assert(type_id_precedes(s2[0], s2[j + 1]) && !type_id_precedes(s2[j + 1], s2[0]));
                }
                assert(t1[i - 1] == x);
            }
        }
        assert(t1.to_set() =~= t2.to_set());
        lemma_ordered_types_unique(t1, t2);
        assert(s1 =~= s2) by {
            assert forall|k: int| 0 <= k < s1.len() implies s1[k] == s2[k] by {
                if k > 0 {
                    assert(s1[k] == t1[k - 1] && s2[k] == t2[k - 1]);
                }
            }
        }
    }
}

/// An increasing listing of a set is the set's canonical order.
proof fn lemma_canonical_order(s: Seq<TypeId>)
    requires
        ordered_types(s),
    ensures
        canonical_order(s.to_set()) == s,
{
    let c = canonical_order(s.to_set());
    assert(ordered_types(c) && c.to_set() == s.to_set());
    lemma_ordered_types_unique(c, s);
}

/// Inserting a type that comes after those before the position and before
/// those from it keeps a listing increasing.
proof fn lemma_insert_ordered(s: Seq<TypeId>, p: int, x: TypeId)
    requires
        ordered_types(s),
        0 <= p <= s.len(),
        forall|q: int| 0 <= q < p ==> type_id_precedes(#[trigger] s[q], x) && !type_id_precedes(x, s[q]),
        forall|k: int| p <= k < s.len() ==> type_id_precedes(x, #[trigger] s[k]) && !type_id_precedes(s[k], x),
    ensures
        ordered_types(s.insert(p, x)),
{
    let r = s.insert(p, x);
    s.insert_ensures(p, x);
    assert forall|i: int, j: int| 0 <= i < j < r.len() implies type_id_precedes(r[i], r[j])
        && !type_id_precedes(r[j], r[i]) by {
        if i < p && j < p {
            assert(r[i] == s[i] && r[j] == s[j]);
        } else if i < p && j == p {
            assert(r[i] == s[i]);
        } else if i < p {
            assert(r[i] == s[i] && r[j] == s[j - 1]);
        } else if i == p {
            assert(r[j] == s[j - 1]);
        } else {
            assert(r[i] == s[i - 1] && r[j] == s[j - 1]);
        }
    }
}

/// Among pairs with distinct types, the type of the `i`-th is not among the
/// types of the earlier pairs once they are ordered.
proof fn lemma_key_not_in_prefix(pairs: Seq<(ComponentId, usize)>, i: int)
    requires
        pair_keys(pairs).no_duplicates(),
        0 <= i < pairs.len(),
    ensures
        !pair_keys(sorted_by_type(pairs.subrange(0, i))).contains(pairs[i].0@),
{
    broadcast use vstd::seq_lib::group_to_multiset_ensures;

    let pre = pairs.subrange(0, i);
    lemma_sorted_by_type(pre);
    let sr = sorted_by_type(pre);
    if pair_keys(sr).contains(pairs[i].0@) {
        let j = choose|j: int| 0 <= j < pair_keys(sr).len() && pair_keys(sr)[j] == pairs[i].0@;
        assert(sr.to_multiset().count(sr[j]) > 0);
        assert(pre.to_multiset().count(sr[j]) > 0);
        assert(pre.contains(sr[j]));
        let k = choose|k: int| 0 <= k < pre.len() && pre[k] == sr[j];
        assert(pair_keys(pairs)[k] == pair_keys(pairs)[i]);
    }
}

/// Ordering by type keeps the set of types.
proof fn lemma_sorted_keys_set(pairs: Seq<(ComponentId, usize)>)
    ensures
        pair_keys(sorted_by_type(pairs)).to_set() == pair_keys(pairs).to_set(),
{
    broadcast use vstd::seq_lib::group_to_multiset_ensures;

    lemma_sorted_by_type(pairs);
    let sr = sorted_by_type(pairs);
    assert forall|k: TypeId| pair_keys(sr).to_set().contains(k) <==> pair_keys(pairs).to_set().contains(k) by {
        if pair_keys(sr).to_set().contains(k) {
            let j = choose|j: int| 0 <= j < sr.len() && pair_keys(sr)[j] == k;
            assert(sr.to_multiset().count(sr[j]) > 0);
            assert(pairs.contains(sr[j]));
            let i = choose|i: int| 0 <= i < pairs.len() && pairs[i] == sr[j];
            assert(pair_keys(pairs)[i] == k);
        }
        if pair_keys(pairs).to_set().contains(k) {
            let i = choose|i: int| 0 <= i < pairs.len() && pair_keys(pairs)[i] == k;
            assert(pairs.to_multiset().count(pairs[i]) > 0);
            assert(sr.contains(pairs[i]));
            let j = choose|j: int| 0 <= j < sr.len() && sr[j] == pairs[i];
            assert(pair_keys(sr)[j] == k);
        }
    }
    assert(pair_keys(sr).to_set() =~= pair_keys(pairs).to_set());
}

/// Orders (component, stride) pairs by component type.
fn sort_by_type(pairs: &Vec<(ComponentId, usize)>) -> (r: Vec<(ComponentId, usize)>)
    requires
        pair_keys(pairs@).no_duplicates(),
    ensures
        r@ == sorted_by_type(pairs@),
        ordered_types(pair_keys(r@)),
{
    let mut out: Vec<(ComponentId, usize)> = Vec::new();
    let mut i: usize = 0;
    while i < pairs.len()
        invariant
            i <= pairs@.len(),
            pair_keys(pairs@).no_duplicates(),
            out@ == sorted_by_type(pairs@.subrange(0, i as int)),
            ordered_types(pair_keys(out@)),
        decreases pairs@.len() - i,
    {
        let x = pairs[i];
        let mut p: usize = 0;
        proof {
            lemma_sorted_by_type(pairs@.subrange(0, i as int));
            lemma_key_not_in_prefix(pairs@, i as int);
        }
        let ghost keys = pair_keys(out@);
        let mut found = false;
        while p < out.len() && !found
            invariant
                p <= out@.len(),
                keys == pair_keys(out@),
                !keys.contains(x.0@),
                insertion_point(out@, x.0@, p as int) == insertion_point(out@, x.0@, 0),
                found ==> p < out@.len() && type_id_precedes(x.0@, keys[p as int]) && !type_id_precedes(keys[p as int], x.0@),
                found ==> forall|c: TypeId| #[trigger] type_id_precedes(keys[p as int], c) ==> type_id_precedes(x.0@, c),
                found ==> forall|c: TypeId| #[trigger] type_id_precedes(c, x.0@) ==> type_id_precedes(c, keys[p as int]),
                forall|q: int| 0 <= q < p ==> type_id_precedes(#[trigger] keys[q], x.0@) && !type_id_precedes(x.0@, keys[q]),
            decreases (if found { 0int } else { 1int }) + out@.len() - p,
        {
            assert(keys[p as int] == out@[p as int].0@);
            if x.0.precedes(&out[p].0) {
                found = true;
            } else {
                p = p + 1;
            }
        }
        proof {
            let pre = pairs@.subrange(0, i as int + 1);
            assert(pre.drop_last() =~= pairs@.subrange(0, i as int));
            assert(pre.last() == x);
            if found {
                assert(insertion_point(out@, x.0@, p as int) == p);
                assert forall|k: int| p <= k < keys.len() implies type_id_precedes(x.0@, #[trigger] keys[k])
                    && !type_id_precedes(keys[k], x.0@) by {
                    if k > p {
                        assert(type_id_precedes(keys[p as int], keys[k]) && !type_id_precedes(keys[k], keys[p as int]));
                    } else {
                        assert(keys[p as int] != x.0@);
                    }
                }
            }
            lemma_insert_ordered(keys, p as int, x.0@);
            assert(pair_keys(out@.insert(p as int, x)) =~= keys.insert(p as int, x.0@));
        }
        out.insert(p, x);
        i = i + 1;
    }
    assert(pairs@.subrange(0, pairs@.len() as int) =~= pairs@);
    out
}


/// How an archetype stands in a storage under identifier `id`: its columns
/// are well formed and hold one component per entity, it is not empty, its
/// identifier is the hash of its type list, and it has one column per type,
/// added in type-list order.
#[verifier::opaque]
pub open spec fn archetype_ok(id: ArchetypeId, a: Archetype) -> bool {
    &&& a.wf()
    &&& a.full()
    &&& 0 < a.entities().len() <= usize::MAX
    &&& id.spec_value() == archetype_hash(type_ids(a.type_list()))
    &&& a.column_keys() == type_ids(a.type_list())
}

/// The archetypes and the entity locations agree: every archetype stands
/// under its identifier, every located entity is found at its location, and
/// every stored entity is located where it is stored.
pub open spec fn consistent(
    archetypes: Map<ArchetypeId, Archetype>,
    locations: Map<usize, (ArchetypeId, usize)>,
) -> bool {
    &&& forall|id: ArchetypeId| #[trigger] archetypes.contains_key(id) ==> archetype_ok(id, archetypes[id])
    &&& forall|e: usize| #[trigger] locations.contains_key(e) ==> {
        let loc = locations[e];
        &&& archetypes.contains_key(loc.0)
        &&& loc.1 < archetypes[loc.0].entities().len()
        &&& archetypes[loc.0].entities()[loc.1 as int] == e
    }
    &&& forall|id: ArchetypeId, idx: int|
        archetypes.contains_key(id) && 0 <= idx < archetypes[id].entities().len() ==> {
            let e = #[trigger] archetypes[id].entities()[idx];
            &&& locations.contains_key(e)
            &&& locations[e] == (id, idx as usize)
        }
}

/// `n` zero bytes.
pub open spec fn zeros(n: nat) -> Seq<u8> {
    Seq::new(n, |i: int| 0u8)
}

/// `after` is `before` (an archetype, or none yet) with `entity` appended,
/// one column per listed type, and a zeroed component of the listed stride
/// appended to each column.
pub open spec fn archetype_after_add(
    before: Option<Archetype>,
    after: Archetype,
    entity: usize,
    sorted: Seq<(ComponentId, usize)>,
) -> bool {
    let old_entities = match before {
        Some(a) => a.entities(),
        None => Seq::<usize>::empty(),
    };
    &&& after.entities() == old_entities.push(entity)
    &&& type_ids(after.type_list()) == pair_keys(sorted)
    &&& after.columns().dom() == pair_keys(sorted).to_set()
    &&& forall|j: int|
        0 <= j < sorted.len() ==> {
            let col = after.columns()[(#[trigger] sorted[j]).0@];
            let old_bytes = match before {
                Some(a) => a.columns()[sorted[j].0@].bytes(),
                None => Seq::<u8>::empty(),
            };
            &&& col.spec_stride() == sorted[j].1
            &&& col.bytes() == old_bytes + zeros(sorted[j].1 as nat)
            &&& col.count() == old_entities.len() + 1
        }
}

/// `after` is `before` with the entity at `index` removed: the last entity
/// and the last component of each column move into its place.
pub open spec fn archetype_after_remove(before: Archetype, after: Archetype, index: int) -> bool {
    &&& after.entities() == before.entities().update(index, before.entities().last()).drop_last()
    &&& after.type_list() == before.type_list()
    &&& after.column_keys() == before.column_keys()
    &&& after.columns().dom() == before.columns().dom()
    &&& forall|k: TypeId| #[trigger] after.columns().contains_key(k) ==> column_after_removal(
        before.columns()[k],
        after.columns()[k],
        index,
        before.entities().len() - 1,
    )
}

proof fn lemma_archetype_ok_len(id: ArchetypeId, a: Archetype)
    requires
        archetype_ok(id, a),
    ensures
        0 < a.entities().len() <= usize::MAX,
{
    reveal(archetype_ok);
}

/// Adding an unlocated entity at the end of an archetype keeps the model consistent.
proof fn lemma_consistent_add(
    map: Map<ArchetypeId, Archetype>,
    locs: Map<usize, (ArchetypeId, usize)>,
    id: ArchetypeId,
    a2: Archetype,
    entity: usize,
    n: usize,
)
    requires
        consistent(map, locs),
        !locs.contains_key(entity),
        archetype_ok(id, a2),
        n == a2.entities().len() - 1,
        map.contains_key(id) ==> a2.entities() == map[id].entities().push(entity),
        !map.contains_key(id) ==> a2.entities() == seq![entity],
    ensures
        consistent(map.insert(id, a2), locs.insert(entity, (id, n))),
{
    let m2 = map.insert(id, a2);
    let l2 = locs.insert(entity, (id, n));
    assert forall|e: usize| #[trigger] l2.contains_key(e) implies {
        let loc = l2[e];
        &&& m2.contains_key(loc.0)
        &&& loc.1 < m2[loc.0].entities().len()
        &&& m2[loc.0].entities()[loc.1 as int] == e
    } by {
        if e != entity {
            let loc = locs[e];
            assert(map.contains_key(loc.0));
            if loc.0 == id {
                assert(a2.entities()[loc.1 as int] == map[id].entities()[loc.1 as int]);
            }
        }
    }
    assert forall|id2: ArchetypeId, idx: int|
        m2.contains_key(id2) && 0 <= idx < m2[id2].entities().len() implies {
            let e = #[trigger] m2[id2].entities()[idx];
            &&& l2.contains_key(e)
            &&& l2[e] == (id2, idx as usize)
        } by {
        let e = m2[id2].entities()[idx];
        if id2 == id {
            if idx != n {
                assert(map.contains_key(id));
                assert(a2.entities()[idx] == map[id].entities()[idx]);
                assert(locs.contains_key(map[id].entities()[idx]));
            }
        } else {
            assert(map[id2].entities()[idx] == e);
            assert(locs.contains_key(e));
        }
    }
}

/// Removing a located entity from its archetype keeps the model consistent:
/// the archetype's last entity takes its index, and an archetype left empty goes.
proof fn lemma_consistent_remove(
    map: Map<ArchetypeId, Archetype>,
    locs: Map<usize, (ArchetypeId, usize)>,
    e: usize,
    a2: Archetype,
)
    requires
        consistent(map, locs),
        locs.contains_key(e),
        map[locs[e].0].entities().len() > 1 ==> archetype_ok(locs[e].0, a2),
        a2.entities() == map[locs[e].0].entities().update(
            locs[e].1 as int,
            map[locs[e].0].entities().last(),
        ).drop_last(),
    ensures
        ({
            let loc = locs[e];
            let a = map[loc.0];
            let last = a.entities().last();
            &&& last == e <==> loc.1 == a.entities().len() - 1
            &&& a.entities().len() == 1 ==> last == e
            &&& consistent(
                if a.entities().len() == 1 {
                    map.remove(loc.0)
                } else {
                    map.insert(loc.0, a2)
                },
                if last == e {
                    locs.remove(e)
                } else {
                    locs.remove(e).insert(last, loc)
                },
            )
        }),
{
    let loc = locs[e];
    let id = loc.0;
    let idx = loc.1 as int;
    let a = map[id];
    let len = a.entities().len() as int;
    lemma_archetype_ok_len(id, a);
    let last = a.entities().last();
    assert(a.entities()[len - 1] == last);
    assert(locs[last] == (id, (len - 1) as usize));
    let m2 = if len == 1 {
        map.remove(id)
    } else {
        map.insert(id, a2)
    };
    let l2 = if last == e {
        locs.remove(e)
    } else {
        locs.remove(e).insert(last, loc)
    };
    assert forall|e2: usize| #[trigger] l2.contains_key(e2) implies {
        let loc2 = l2[e2];
        &&& m2.contains_key(loc2.0)
        &&& loc2.1 < m2[loc2.0].entities().len()
        &&& m2[loc2.0].entities()[loc2.1 as int] == e2
    } by {
        if e2 == last && last != e {
            assert(idx != len - 1);
            assert(a2.entities()[idx] == last);
        } else {
            let loc2 = locs[e2];
            assert(map.contains_key(loc2.0));
            if loc2.0 == id {
                assert(loc2.1 != idx);
                assert(loc2.1 != len - 1);
                assert(a2.entities()[loc2.1 as int] == a.entities()[loc2.1 as int]);
            }
        }
    }
    assert forall|id2: ArchetypeId, j: int|
        m2.contains_key(id2) && 0 <= j < m2[id2].entities().len() implies {
            let e2 = #[trigger] m2[id2].entities()[j];
            &&& l2.contains_key(e2)
            &&& l2[e2] == (id2, j as usize)
        } by {
        if id2 == id {
            if j == idx {
                assert(a2.entities()[j] == last);
            } else {
                assert(a2.entities()[j] == a.entities()[j]);
                assert(locs[a.entities()[j]] == (id, j as usize));
            }
        } else {
            assert(map[id2].entities()[j] == m2[id2].entities()[j]);
            assert(locs.contains_key(map[id2].entities()[j]));
        }
    }
}

/// An archetype holds fewer entities than any bound above every located
/// entity and above one more entity that is not located.
proof fn lemma_archetype_len_bound(
    map: Map<ArchetypeId, Archetype>,
    locs: Map<usize, (ArchetypeId, usize)>,
    id: ArchetypeId,
    entity: usize,
    bound: nat,
)
    requires
        consistent(map, locs),
        map.contains_key(id),
        !locs.contains_key(entity),
        entity < bound,
        forall|e: usize| #[trigger] locs.contains_key(e) ==> e < bound,
    ensures
        map[id].entities().len() < bound,
{
    let ents = map[id].entities();
    lemma_archetype_ok_len(id, map[id]);
    let s = ents.map_values(|x: usize| x as int).push(entity as int);
    assert forall|a: int, b: int| 0 <= a < s.len() && 0 <= b < s.len() && a != b implies s[a] != s[b] by {
        if a < ents.len() {
            assert(s[a] == ents[a] as int);
        }
        if b < ents.len() {
            assert(s[b] == ents[b] as int);
        }
        if a < ents.len() && b < ents.len() {
            assert(locs[ents[a]] == (id, a as usize));
            assert(locs[ents[b]] == (id, b as usize));
        } else if a < ents.len() {
            assert(locs.contains_key(ents[a]));
        } else {
            assert(locs.contains_key(ents[b]));
        }
    }
    s.unique_seq_to_set();
    vstd::set_lib::lemma_int_range(0, bound as int);
    assert forall|x: int| s.to_set().contains(x) implies vstd::set_lib::set_int_range(0, bound as int).contains(x) by {
        let i = choose|i: int| 0 <= i < s.len() && s[i] == x;
        if i < ents.len() {
            assert(locs.contains_key(ents[i]));
        }
    }
    vstd::set_lib::lemma_len_subset(s.to_set(), vstd::set_lib::set_int_range(0, bound as int));
}

/// Data without duplicate types gives each listed type its bytes.
proof fn lemma_data_for_present(data: Seq<(ComponentId, Vec<u8>)>, j: int)
    requires
        data_keys(data).no_duplicates(),
        0 <= j < data.len(),
    ensures
        data_for(data, data[j].0@) == Some(data[j].1@),
    decreases data.len(),
{
    if j < data.len() - 1 {
        let rest = data.drop_last();
        assert(data_keys(data)[j] != data_keys(data)[data.len() - 1]);
        assert(data_keys(rest) =~= data_keys(data).drop_last());
        assert(rest[j] == data[j]);
        lemma_data_for_present(rest, j);
    }
}

/// Zeroed component data for each (component, stride) pair, in order.
fn zero_component_data(pairs: &Vec<(ComponentId, usize)>) -> (r: Vec<(ComponentId, Vec<u8>)>)
    ensures
        r@.len() == pairs@.len(),
        data_keys(r@) == pair_keys(pairs@),
        forall|j: int|
            0 <= j < pairs@.len() ==> (#[trigger] r@[j]).0 == pairs@[j].0 && r@[j].1@ == zeros(
                pairs@[j].1 as nat,
            ),
{
    let mut out: Vec<(ComponentId, Vec<u8>)> = Vec::new();
    let mut j: usize = 0;
    while j < pairs.len()
        invariant
            j <= pairs@.len(),
            out@.len() == j,
            forall|i: int|
                0 <= i < j ==> (#[trigger] out@[i]).0 == pairs@[i].0 && out@[i].1@ == zeros(
                    pairs@[i].1 as nat,
                ),
        decreases pairs@.len() - j,
    {
        let (id, stride) = pairs[j];
        let bytes: Vec<u8> = vec![0u8; stride];
        assert(bytes@ =~= zeros(stride as nat));
        out.push((id, bytes));
        j = j + 1;
    }
    assert(data_keys(out@) =~= pair_keys(pairs@));
    out
}

/// The component identifiers of the pairs, in order.
fn pair_ids(pairs: &Vec<(ComponentId, usize)>) -> (r: Vec<ComponentId>)
    ensures
        r@.len() == pairs@.len(),
        type_ids(r@) == pair_keys(pairs@),
        forall|j: int| 0 <= j < pairs@.len() ==> #[trigger] r@[j] == pairs@[j].0,
{
    let mut out: Vec<ComponentId> = Vec::new();
    let mut j: usize = 0;
    while j < pairs.len()
        invariant
            j <= pairs@.len(),
            out@.len() == j,
            forall|i: int| 0 <= i < j ==> #[trigger] out@[i] == pairs@[i].0,
        decreases pairs@.len() - j,
    {
        out.push(pairs[j].0);
        j = j + 1;
    }
    assert(type_ids(out@) =~= pair_keys(pairs@));
    out
}

/// A new empty archetype with the given types and one empty column per
/// (component, stride) pair, in order; a column is taken from the pool when
/// it has one for the type.
fn new_archetype(pool: &mut ColumnPool, types: Vec<ComponentId>, pairs: &Vec<(ComponentId, usize)>) -> (a: Archetype)
    requires
        old(pool).wf(),
        old(pool)@ == Map::<TypeId, Seq<Vec<u8>>>::empty(),
        old(pool).allocation_count() == 0,
        pair_keys(pairs@).no_duplicates(),
        forall|j: int| 0 <= j < pairs@.len() ==> 16 * (#[trigger] pairs@[j]).1 <= usize::MAX,
    ensures
        final(pool).wf(),
        final(pool)@ == old(pool)@,
        final(pool).allocation_count() == old(pool).allocation_count(),
        final(pool).release_count() == old(pool).release_count(),
        a.wf(),
        a.full(),
        a.entities() == Seq::<usize>::empty(),
        a.type_list() == types@,
        a.column_keys() == pair_keys(pairs@),
        forall|j: int|
            0 <= j < pairs@.len() ==> {
                let col = a.columns()[(#[trigger] pairs@[j]).0@];
                &&& col.bytes() == Seq::<u8>::empty()
                &&& col.spec_stride() == pairs@[j].1
                &&& col.count() == 0
            },
{
    let mut arch = Archetype::new(types);
    let mut j: usize = 0;
    while j < pairs.len()
        invariant
            j <= pairs@.len(),
            pool.wf(),
            pool@ == Map::<TypeId, Seq<Vec<u8>>>::empty(),
            pool.allocation_count() == old(pool).allocation_count(),
            pool.release_count() == old(pool).release_count(),
            pool.allocation_count() == 0,
            pair_keys(pairs@).no_duplicates(),
            forall|i: int| 0 <= i < pairs@.len() ==> 16 * (#[trigger] pairs@[i]).1 <= usize::MAX,
            arch.wf(),
            arch.entities() == Seq::<usize>::empty(),
            arch.type_list() == types@,
            arch.column_keys() == pair_keys(pairs@.subrange(0, j as int)),
            forall|i: int|
                0 <= i < j ==> {
                    let col = arch.columns()[(#[trigger] pairs@[i]).0@];
                    &&& col.bytes() == Seq::<u8>::empty()
                    &&& col.spec_stride() == pairs@[i].1
                    &&& col.count() == 0
                },
        decreases pairs@.len() - j,
    {
        let (id, stride) = pairs[j];
        proof {
            assert(pair_keys(pairs@.subrange(0, j as int + 1)) =~= pair_keys(pairs@.subrange(0, j as int)).push(id@));
            assert(!arch.columns().contains_key(id@)) by {
                if pair_keys(pairs@.subrange(0, j as int)).contains(id@) {
                    let i = choose|i: int| 0 <= i < j && pair_keys(pairs@.subrange(0, j as int))[i] == id@;
                    assert(pair_keys(pairs@)[i] == pair_keys(pairs@)[j as int]);
                }
            }
            assert forall|i: int| 0 <= i < j implies pairs@[i].0@ != id@ by {
                assert(pair_keys(pairs@)[i] != pair_keys(pairs@)[j as int]);
            }
        }
        let ghost before = arch;
        proof {
            assert forall|i: int| 0 <= i < j implies before.columns().contains_key(#[trigger] pairs@[i].0@) by {
                assert(pair_keys(pairs@.subrange(0, j as int))[i] == pairs@[i].0@);
            }
        }
        match pool.try_acquire(id, stride, 16) {
            Some(column) => {
                arch.add_column_with_data(id, ComponentColumn::from_pool(column, stride));
            },
            None => {
                arch.add_column(id, stride);
            },
        }
        proof {
            assert forall|i: int| 0 <= i < j + 1 implies {
                let col = arch.columns()[(#[trigger] pairs@[i]).0@];
                &&& col.bytes() == Seq::<u8>::empty()
                &&& col.spec_stride() == pairs@[i].1
                &&& col.count() == 0
            } by {
                if i < j {
                    assert(before.columns().contains_key(pairs@[i].0@));
                    assert(arch.columns()[pairs@[i].0@] == before.columns()[pairs@[i].0@]);
                }
            }
        }
        j = j + 1;
    }
    assert(pairs@.subrange(0, pairs@.len() as int) =~= pairs@);
    assert forall|k: TypeId| #[trigger] arch.columns().contains_key(k) implies arch.columns()[k].count() == arch.entities().len() by {
        let i = pair_keys(pairs@).index_of(k);
        assert(arch.column_keys().contains(k));
        assert(pair_keys(pairs@)[i] == k);
        assert(pairs@[i].0@ == k);
    }
    arch
}

/// Appending a zeroed component of each listed type to a stored archetype
/// that has exactly those types keeps it standing under its identifier.
proof fn lemma_add_to_existing(
    id: ArchetypeId,
    a: Archetype,
    a2: Archetype,
    entity: usize,
    sorted: Seq<(ComponentId, usize)>,
    data: Seq<(ComponentId, Vec<u8>)>,
)
    requires
        archetype_ok(id, a),
        a.entities().len() < usize::MAX,
        type_ids(a.type_list()) == pair_keys(sorted),
        forall|j: int| 0 <= j < sorted.len() ==> a.columns()[(#[trigger] sorted[j]).0@].spec_stride() == sorted[j].1,
        data.len() == sorted.len(),
        data_keys(data) == pair_keys(sorted),
        data_keys(data).no_duplicates(),
        forall|j: int| 0 <= j < sorted.len() ==> (#[trigger] data[j]).0 == sorted[j].0 && data[j].1@ == zeros(sorted[j].1 as nat),
        a2.wf(),
        a2.entities() == a.entities().push(entity),
        a2.type_list() == a.type_list(),
        a2.column_keys() == a.column_keys(),
        a2.columns().dom() == a.columns().dom(),
        forall|k: TypeId| #[trigger] a2.columns().contains_key(k) ==> {
            let before = a.columns()[k];
            let after = a2.columns()[k];
            &&& after.spec_stride() == before.spec_stride()
            &&& match data_for(data, k) {
                Some(b) => after.bytes() == before.bytes() + b && after.count() == before.count() + 1,
                None => after == before,
            }
        },
    ensures
        archetype_ok(id, a2),
        archetype_after_add(Some(a), a2, entity, sorted),
{
    reveal(archetype_ok);
    assert forall|j: int| 0 <= j < sorted.len() implies data_for(data, (#[trigger] sorted[j]).0@) == Some(zeros(sorted[j].1 as nat)) by {
        lemma_data_for_present(data, j);
        assert(data[j].0@ == sorted[j].0@);
    }
    assert forall|k: TypeId| #[trigger] a2.columns().contains_key(k) implies a2.columns()[k].count() == a2.entities().len() by {
        assert(a.column_keys().contains(k));
        let j = pair_keys(sorted).index_of(k);
        assert(pair_keys(sorted)[j] == k);
        assert(sorted[j].0@ == k);
        assert(a.columns().contains_key(k));
    }
    assert forall|j: int| 0 <= j < sorted.len() implies a2.columns().contains_key((#[trigger] sorted[j]).0@) by {
        assert(pair_keys(sorted)[j] == sorted[j].0@);
        assert(a.column_keys().contains(sorted[j].0@));
    }
    assert forall|j: int| 0 <= j < sorted.len() implies a.columns().contains_key((#[trigger] sorted[j]).0@) by {
        assert(pair_keys(sorted)[j] == sorted[j].0@);
        assert(a.column_keys().contains(sorted[j].0@));
    }
    assert(a2.columns().dom() =~= pair_keys(sorted).to_set()) by {
        assert forall|k: TypeId| a2.columns().dom().contains(k) <==> pair_keys(sorted).to_set().contains(k) by {
            if a2.columns().dom().contains(k) {
                assert(a.column_keys().contains(k));
            }
            if pair_keys(sorted).contains(k) {
                assert(a.column_keys().contains(k));
            }
        }
    }
}

/// Appending a zeroed component of each listed type to a new archetype with
/// one empty column per type makes it stand under the identifier of its types.
proof fn lemma_add_to_new(
    id: ArchetypeId,
    a: Archetype,
    a2: Archetype,
    entity: usize,
    sorted: Seq<(ComponentId, usize)>,
    data: Seq<(ComponentId, Vec<u8>)>,
)
    requires
        a.wf(),
        a.entities() == Seq::<usize>::empty(),
        id.spec_value() == archetype_hash(type_ids(a.type_list())),
        type_ids(a.type_list()) == pair_keys(sorted),
        a.column_keys() == pair_keys(sorted),
        forall|j: int|
            0 <= j < sorted.len() ==> {
                let col = a.columns()[(#[trigger] sorted[j]).0@];
                &&& col.bytes() == Seq::<u8>::empty()
                &&& col.spec_stride() == sorted[j].1
                &&& col.count() == 0
            },
        data.len() == sorted.len(),
        data_keys(data) == pair_keys(sorted),
        data_keys(data).no_duplicates(),
        forall|j: int| 0 <= j < sorted.len() ==> (#[trigger] data[j]).0 == sorted[j].0 && data[j].1@ == zeros(sorted[j].1 as nat),
        a2.wf(),
        a2.entities() == a.entities().push(entity),
        a2.type_list() == a.type_list(),
        a2.column_keys() == a.column_keys(),
        a2.columns().dom() == a.columns().dom(),
        forall|k: TypeId| #[trigger] a2.columns().contains_key(k) ==> {
            let before = a.columns()[k];
            let after = a2.columns()[k];
            &&& after.spec_stride() == before.spec_stride()
            &&& match data_for(data, k) {
                Some(b) => after.bytes() == before.bytes() + b && after.count() == before.count() + 1,
                None => after == before,
            }
        },
    ensures
        archetype_ok(id, a2),
        archetype_after_add(None, a2, entity, sorted),
{
    reveal(archetype_ok);
    assert forall|j: int| 0 <= j < sorted.len() implies data_for(data, (#[trigger] sorted[j]).0@) == Some(zeros(sorted[j].1 as nat)) by {
        lemma_data_for_present(data, j);
        assert(data[j].0@ == sorted[j].0@);
    }
    assert forall|j: int| 0 <= j < sorted.len() implies a2.columns().contains_key((#[trigger] sorted[j]).0@) by {
        assert(pair_keys(sorted)[j] == sorted[j].0@);
        assert(a.column_keys().contains(sorted[j].0@));
    }
    assert forall|k: TypeId| #[trigger] a2.columns().contains_key(k) implies a2.columns()[k].count() == a2.entities().len() by {
        assert(a.column_keys().contains(k));
        let j = pair_keys(sorted).index_of(k);
        assert(pair_keys(sorted)[j] == k);
        assert(sorted[j].0@ == k);
    }
    assert(a2.columns().dom() =~= pair_keys(sorted).to_set()) by {
        assert forall|k: TypeId| a2.columns().dom().contains(k) <==> pair_keys(sorted).to_set().contains(k) by {
            if a2.columns().dom().contains(k) {
                assert(a.column_keys().contains(k));
            }
        }
    }
    assert(Seq::<u8>::empty() + zeros(0) =~= zeros(0));
    assert forall|j: int| 0 <= j < sorted.len() implies (#[trigger] a2.columns()[sorted[j].0@]).bytes() == Seq::<u8>::empty() + zeros(sorted[j].1 as nat) by {
        assert(Seq::<u8>::empty() + zeros(sorted[j].1 as nat) =~= zeros(sorted[j].1 as nat));
    }
}

/// `after` is the storage `before` with `entity` added under identifier
/// `id` with these (component, stride) pairs: `id` is the hash of the types
/// in increasing `TypeId` order (the order depends only on the set of
/// types, see `canonical_order`), only the archetype `id` changed, gaining the entity and a zeroed
/// component per type, and the entity is located at its end.
pub open spec fn entity_added(
    before: ArchetypeStorage,
    after: ArchetypeStorage,
    entity: usize,
    strides: Seq<(ComponentId, usize)>,
    id: ArchetypeId,
) -> bool {
    let sorted = sorted_by_type(strides);
    let old_map = before.archetype_map();
    let new_map = after.archetype_map();
    &&& id.spec_value() == archetype_hash(pair_keys(sorted))
    &&& pair_keys(sorted) == canonical_order(pair_keys(strides).to_set())
    &&& new_map == old_map.insert(id, new_map[id])
    &&& archetype_after_add(
        if old_map.contains_key(id) {
            Some(old_map[id])
        } else {
            None
        },
        new_map[id],
        entity,
        sorted,
    )
    &&& after.locations() == before.locations().insert(entity, (id, (new_map[id].entities().len() - 1) as usize))
    &&& after.pool()@ == before.pool()@
}

/// `after` is `before` with `entity` added under `id` by `add_entity`: to
/// the archetype of exactly these types and strides when `before` admits it,
/// else to the other archetype stored under `id`.
pub open spec fn entity_placed(
    before: ArchetypeStorage,
    after: ArchetypeStorage,
    entity: usize,
    strides: Seq<(ComponentId, usize)>,
    id: ArchetypeId,
) -> bool {
    if before.admits(entity, strides) {
        entity_added(before, after, entity, strides, id)
    } else {
        entity_joined(before, after, entity, id)
    }
}

/// `after` is the storage `before` with `entity` added to the archetype
/// stored under `id`, which another list of types hashes to as well: the
/// archetype keeps its types and columns, gains the entity and a zeroed
/// component of each column's own stride, and the entity is located at its
/// end.
pub open spec fn entity_joined(before: ArchetypeStorage, after: ArchetypeStorage, entity: usize, id: ArchetypeId) -> bool {
    let old_map = before.archetype_map();
    let new_map = after.archetype_map();
    let a = old_map[id];
    let a2 = new_map[id];
    &&& old_map.contains_key(id)
    &&& new_map == old_map.insert(id, a2)
    &&& archetype_after_join(a, a2, entity)
    &&& after.locations() == before.locations().insert(entity, (id, (a2.entities().len() - 1) as usize))
    &&& after.pool()@ == before.pool()@
}

/// `after` is `before` with `entity` appended and a zeroed component of each
/// column's stride appended to that column.
pub open spec fn archetype_after_join(before: Archetype, after: Archetype, entity: usize) -> bool {
    &&& after.entities() == before.entities().push(entity)
    &&& after.type_list() == before.type_list()
    &&& after.columns().dom() == before.columns().dom()
    &&& forall|k: TypeId| #[trigger] before.columns().contains_key(k) ==> {
        let col = before.columns()[k];
        &&& after.columns()[k].spec_stride() == col.spec_stride()
        &&& after.columns()[k].bytes() == col.bytes() + zeros(col.spec_stride() as nat)
        &&& after.columns()[k].count() == col.count() + 1
    }
}

/// A zeroed component for each column of `a`, in column order.
fn zero_column_data(a: &Archetype) -> (r: Vec<(ComponentId, Vec<u8>)>)
    requires
        a.wf(),
    ensures
        data_keys(r@) == a.column_keys(),
        forall|j: int|
            0 <= j < r@.len() ==> (#[trigger] r@[j]).1@ == zeros(a.columns()[r@[j].0@].spec_stride() as nat),
{
    let mut out: Vec<(ComponentId, Vec<u8>)> = Vec::new();
    let mut j: usize = 0;
    while j < a.columns.len()
        invariant
            a.wf(),
            j <= a.columns@.len(),
            out@.len() == j,
            forall|i: int|
                0 <= i < j ==> (#[trigger] out@[i]).0 == a.column_ids@[i] && out@[i].1@ == zeros(
                    a.columns@[i].spec_stride() as nat,
                ),
        decreases a.columns@.len() - j,
    {
        let stride = a.columns[j].stride;
        let bytes: Vec<u8> = vec![0u8; stride];
        assert(bytes@ =~= zeros(stride as nat));
        out.push((a.column_ids[j], bytes));
        j = j + 1;
    }
    assert(data_keys(out@) =~= a.column_keys());
    assert forall|j: int| 0 <= j < out@.len() implies (#[trigger] out@[j]).1@ == zeros(
        a.columns()[out@[j].0@].spec_stride() as nat,
    ) by {
        lemma_index_of_unique(a.column_keys(), j);
        assert(a.column_keys()[j] == out@[j].0@);
    }
    out
}

/// Appending a zeroed component to every column of a stored archetype keeps
/// it standing under its identifier.
proof fn lemma_join_ok(
    id: ArchetypeId,
    a: Archetype,
    a2: Archetype,
    entity: usize,
    data: Seq<(ComponentId, Vec<u8>)>,
)
    requires
        archetype_ok(id, a),
        a.entities().len() < usize::MAX,
        data_keys(data) == a.column_keys(),
        forall|j: int| 0 <= j < data.len() ==> (#[trigger] data[j]).1@ == zeros(a.columns()[data[j].0@].spec_stride() as nat),
        a2.wf(),
        a2.entities() == a.entities().push(entity),
        a2.type_list() == a.type_list(),
        a2.column_keys() == a.column_keys(),
        a2.columns().dom() == a.columns().dom(),
        forall|k: TypeId| #[trigger] a2.columns().contains_key(k) ==> {
            let before = a.columns()[k];
            let after = a2.columns()[k];
            &&& after.spec_stride() == before.spec_stride()
            &&& match data_for(data, k) {
                Some(b) => after.bytes() == before.bytes() + b && after.count() == before.count() + 1,
                None => after == before,
            }
        },
    ensures
        archetype_ok(id, a2),
        archetype_after_join(a, a2, entity),
{
    reveal(archetype_ok);
    assert forall|k: TypeId| #[trigger] a.columns().contains_key(k) implies data_for(data, k) == Some(
        zeros(a.columns()[k].spec_stride() as nat),
    ) by {
        let j = a.column_keys().index_of(k);
        assert(data_keys(data)[j] == k);
        lemma_data_for_present(data, j);
    }
    assert forall|k: TypeId| #[trigger] a2.columns().contains_key(k) implies a2.columns()[k].count() == a2.entities().len() by {
        assert(a.columns().contains_key(k));
    }
}

/// `after` is the storage `before` with the located `entity` removed: the
/// last entity of its archetype takes its index, and an archetype left
/// empty is dropped.
pub open spec fn entity_removed(before: ArchetypeStorage, after: ArchetypeStorage, entity: usize) -> bool {
    let loc = before.locations()[entity];
    let a = before.archetype_map()[loc.0];
    let last = a.entities().last();
    &&& after.locations() == if last == entity {
        before.locations().remove(entity)
    } else {
        before.locations().remove(entity).insert(last, loc)
    }
    &&& if a.entities().len() == 1 {
        after.archetype_map() == before.archetype_map().remove(loc.0)
    } else {
        &&& after.archetype_map() == before.archetype_map().insert(loc.0, after.archetype_map()[loc.0])
        &&& archetype_after_remove(a, after.archetype_map()[loc.0], loc.1 as int)
    }
    &&& after.pool()@ == before.pool()@
}

/// Removing an entity from a stored archetype that keeps others leaves it
/// standing under its identifier.
proof fn lemma_remove_ok(id: ArchetypeId, a: Archetype, a2: Archetype, index: int)
    requires
        archetype_ok(id, a),
        a.entities().len() > 1,
        0 <= index < a.entities().len(),
        a2.wf(),
        a2.full(),
        archetype_after_remove(a, a2, index),
    ensures
        archetype_ok(id, a2),
{
    reveal(archetype_ok);
}

/// Replacing a stored archetype by one with the same entities that stands
/// under the identifier keeps the model consistent.
proof fn lemma_consistent_replace(
    map: Map<ArchetypeId, Archetype>,
    locs: Map<usize, (ArchetypeId, usize)>,
    id: ArchetypeId,
    a2: Archetype,
)
    requires
        consistent(map, locs),
        map.contains_key(id),
        archetype_ok(id, a2),
        a2.entities() == map[id].entities(),
    ensures
        consistent(map.insert(id, a2), locs),
{
    let m2 = map.insert(id, a2);
    assert forall|e: usize| #[trigger] locs.contains_key(e) implies {
        let loc = locs[e];
        &&& m2.contains_key(loc.0)
        &&& loc.1 < m2[loc.0].entities().len()
        &&& m2[loc.0].entities()[loc.1 as int] == e
    } by {
        assert(map.contains_key(locs[e].0));
    }
    assert forall|id2: ArchetypeId, idx: int|
        m2.contains_key(id2) && 0 <= idx < m2[id2].entities().len() implies {
            let e = #[trigger] m2[id2].entities()[idx];
            &&& locs.contains_key(e)
            &&& locs[e] == (id2, idx as usize)
        } by {
        assert(map[id2].entities()[idx] == m2[id2].entities()[idx]);
    }
}

/// Whether the pairs name distinct types and every stride leaves room for a
/// column of sixteen components.
fn distinct_and_bounded(pairs: &Vec<(ComponentId, usize)>) -> (r: bool)
    ensures
        r == (pair_keys(pairs@).no_duplicates() && forall|j: int|
            0 <= j < pairs@.len() ==> 16 * (#[trigger] pairs@[j]).1 <= usize::MAX),
{
    let n = pairs.len();
    let mut i: usize = 0;
    while i < n
        invariant
            n == pairs@.len(),
            i <= n,
            forall|a: int, b: int| 0 <= a < i && 0 <= b < n && a != b ==> pair_keys(pairs@)[a] != pair_keys(pairs@)[b],
            forall|a: int| 0 <= a < i ==> 16 * (#[trigger] pairs@[a]).1 <= usize::MAX,
        decreases n - i,
    {
        if pairs[i].1 > usize::MAX / 16 {
            return false;
        }
        let mut j: usize = 0;
        while j < n
            invariant
                n == pairs@.len(),
                i < n,
                j <= n,
                forall|b: int| 0 <= b < j && b != i ==> pair_keys(pairs@)[i as int] != pair_keys(pairs@)[b],
            decreases n - j,
        {
            if j != i && pairs[i].0.same(&pairs[j].0) {
                assert(pair_keys(pairs@)[i as int] == pair_keys(pairs@)[j as int]);
                return false;
            }
            j = j + 1;
        }
        i = i + 1;
    }
    true
}

/// Whether two type lists name the same types in the same order.
fn same_types(a: &[ComponentId], b: &[ComponentId]) -> (r: bool)
    ensures
        r == (type_ids(a@) == type_ids(b@)),
{
    if a.len() != b.len() {
        assert(type_ids(a@).len() != type_ids(b@).len());
        return false;
    }
    let mut k: usize = 0;
    while k < a.len()
        invariant
            a@.len() == b@.len(),
            k <= a@.len(),
            forall|q: int| 0 <= q < k ==> a@[q]@ == b@[q]@,
        decreases a@.len() - k,
    {
        if !a[k].same(&b[k]) {
            assert(type_ids(a@)[k as int] != type_ids(b@)[k as int]);
            return false;
        }
        k = k + 1;
    }
    assert(type_ids(a@) =~= type_ids(b@));
    true
}

/// Whether the archetype has a column of each listed type with the listed stride.
fn strides_match(arch: &Archetype, pairs: &Vec<(ComponentId, usize)>) -> (r: bool)
    requires
        arch.wf(),
    ensures
        r == forall|t: int|
            0 <= t < pairs@.len() ==> arch.columns().contains_key((#[trigger] pairs@[t]).0@)
                && arch.columns()[pairs@[t].0@].spec_stride() == pairs@[t].1,
{
    let mut q: usize = 0;
    while q < pairs.len()
        invariant
            arch.wf(),
            q <= pairs@.len(),
            forall|t: int|
                0 <= t < q ==> arch.columns().contains_key((#[trigger] pairs@[t]).0@)
                    && arch.columns()[pairs@[t].0@].spec_stride() == pairs@[t].1,
        decreases pairs@.len() - q,
    {
        match arch.get_column(pairs[q].0) {
            Some(col) => {
                if col.stride() != pairs[q].1 {
                    return false;
                }
            },
            None => {
                return false;
            },
        }
        q = q + 1;
    }
    true
}

/// The entities of the listed archetypes, archetype after archetype.
pub open spec fn entities_of(ids: Seq<ArchetypeId>, map: Map<ArchetypeId, Archetype>) -> Seq<usize>
    decreases ids.len(),
{
    if ids.len() == 0 {
        Seq::empty()
    } else {
        entities_of(ids.drop_last(), map) + map[ids.last()].entities()
    }
}

proof fn lemma_entities_of_member(ids: Seq<ArchetypeId>, map: Map<ArchetypeId, Archetype>, j: int)
    requires
        0 <= j < entities_of(ids, map).len(),
    ensures
        exists|k: int, x: int|
            0 <= k < ids.len() && 0 <= x < map[ids[k]].entities().len() && map[ids[k]].entities()[x]
                == entities_of(ids, map)[j],
    decreases ids.len(),
{
    let rest = entities_of(ids.drop_last(), map);
    if j < rest.len() {
        lemma_entities_of_member(ids.drop_last(), map, j);
        let (k, x) = choose|k: int, x: int|
            0 <= k < ids.drop_last().len() && 0 <= x < map[ids.drop_last()[k]].entities().len()
                && map[ids.drop_last()[k]].entities()[x] == rest[j];
        assert(ids[k] == ids.drop_last()[k]);
    } else {
        let x = j - rest.len();
        assert(map[ids[ids.len() - 1]].entities()[x] == entities_of(ids, map)[j]);
    }
}

/// The entities of distinct stored archetypes are distinct and located.
proof fn lemma_entities_of_distinct(
    ids: Seq<ArchetypeId>,
    map: Map<ArchetypeId, Archetype>,
    locs: Map<usize, (ArchetypeId, usize)>,
)
    requires
        consistent(map, locs),
        ids.no_duplicates(),
        forall|k: int| 0 <= k < ids.len() ==> map.contains_key(#[trigger] ids[k]),
    ensures
        entities_of(ids, map).no_duplicates(),
        forall|j: int| 0 <= j < entities_of(ids, map).len() ==> locs.contains_key(#[trigger] entities_of(ids, map)[j]),
    decreases ids.len(),
{
    if ids.len() > 0 {
        let pre = ids.drop_last();
        let last = ids.last();
        let rest = entities_of(pre, map);
        let ents = map[last].entities();
        let all = entities_of(ids, map);
        assert forall|a: int, b: int| 0 <= a < pre.len() && 0 <= b < pre.len() && a != b implies pre[a] != pre[b] by {
            assert(pre[a] == ids[a] && pre[b] == ids[b]);
        }
        assert forall|k: int| 0 <= k < pre.len() implies map.contains_key(#[trigger] pre[k]) by {
            assert(pre[k] == ids[k]);
        }
        lemma_entities_of_distinct(pre, map, locs);
        assert(map.contains_key(last)) by {
            assert(ids[ids.len() - 1] == last);
        }
        assert(all == rest + ents);
        assert forall|j: int| 0 <= j < all.len() implies locs.contains_key(#[trigger] all[j]) by {
            if j >= rest.len() {
                assert(all[j] == ents[j - rest.len()]);
            } else {
                assert(all[j] == rest[j]);
            }
        }
        assert forall|a: int, b: int| 0 <= a < all.len() && 0 <= b < all.len() && a != b implies all[a] != all[b] by {
            if a < rest.len() && b < rest.len() {
                assert(all[a] == rest[a] && all[b] == rest[b]);
            } else if a >= rest.len() && b >= rest.len() {
                assert(all[a] == ents[a - rest.len()] && all[b] == ents[b - rest.len()]);
                assert(locs[ents[a - rest.len()]] == (last, (a - rest.len()) as usize));
                assert(locs[ents[b - rest.len()]] == (last, (b - rest.len()) as usize));
                lemma_archetype_ok_len(last, map[last]);
            } else {
                let (i, x) = if a < rest.len() { (a, b - rest.len()) } else { (b, a - rest.len()) };
                lemma_entities_of_member(pre, map, i);
                let (k, y) = choose|k: int, y: int|
                    0 <= k < pre.len() && 0 <= y < map[pre[k]].entities().len() && map[pre[k]].entities()[y] == rest[i];
                assert(all[i] == rest[i]);
                assert(locs[rest[i]] == (pre[k], y as usize));
                assert(locs[ents[x]] == (last, x as usize));
                assert(pre[k] == ids[k]);
                assert(ids[k] != ids[ids.len() - 1]);
            }
        }
    }
}

/// Distinct values below `bound` number at most `bound`.
pub(crate) proof fn lemma_distinct_below(s: Seq<usize>, bound: nat)
    requires
        s.no_duplicates(),
        forall|i: int| 0 <= i < s.len() ==> (#[trigger] s[i]) < bound,
    ensures
        s.len() <= bound,
{
    let t = s.map_values(|x: usize| x as int);
    assert forall|a: int, b: int| 0 <= a < t.len() && 0 <= b < t.len() && a != b implies t[a] != t[b] by {
        assert(t[a] == s[a] as int && t[b] == s[b] as int);
    }
    t.unique_seq_to_set();
    vstd::set_lib::lemma_int_range(0, bound as int);
    assert forall|x: int| t.to_set().contains(x) implies vstd::set_lib::set_int_range(0, bound as int).contains(x) by {
        let i = choose|i: int| 0 <= i < t.len() && t[i] == x;
        assert(t[i] == s[i] as int);
    }
    vstd::set_lib::lemma_len_subset(t.to_set(), vstd::set_lib::set_int_range(0, bound as int));
}

/// Storage for managing multiple archetypes
///
/// Maintains a collection of archetypes, ordered by identifier, and tracks
/// which archetype each entity belongs to and where.
pub struct ArchetypeStorage {
    /// Identifiers of the stored archetypes, ascending
    archetype_ids: Vec<ArchetypeId>,
    /// The archetype of each identifier, at the same position
    archetypes: Vec<Archetype>,
    /// Maps entity ID to its archetype ID
    entity_archetype: Vec<Option<ArchetypeId>>,
    /// Maps entity ID to its index within the archetype
    entity_index: Vec<Option<usize>>,
    /// Memory pool for reusable component columns
    column_pool: ColumnPool,
}

impl ArchetypeStorage {
    /// The identifiers of the stored archetypes, ascending.
    pub closed spec fn id_order(&self) -> Seq<ArchetypeId> {
        self.archetype_ids@
    }

    /// The stored archetypes, by identifier.
    pub closed spec fn archetype_map(&self) -> Map<ArchetypeId, Archetype> {
        Map::new(
            |id: ArchetypeId| self.archetype_ids@.contains(id),
            |id: ArchetypeId| self.archetypes@[self.archetype_ids@.index_of(id)],
        )
    }

    /// Where each stored entity is: its archetype and its index there.
    pub closed spec fn locations(&self) -> Map<usize, (ArchetypeId, usize)> {
        Map::new(
            |e: usize| e < self.entity_archetype@.len() && self.entity_archetype@[e as int] is Some,
            |e: usize| (self.entity_archetype@[e as int].unwrap(), self.entity_index@[e as int].unwrap()),
        )
    }

    /// The column pool.
    pub closed spec fn pool(&self) -> ColumnPool {
        self.column_pool
    }

    spec fn tables_wf(&self) -> bool {
        &&& self.archetype_ids@.len() == self.archetypes@.len()
        &&& forall|i: int, j: int|
            0 <= i < j < self.archetype_ids@.len() ==> (#[trigger] self.archetype_ids@[i]).0
                < (#[trigger] self.archetype_ids@[j]).0
        &&& self.entity_archetype@.len() == self.entity_index@.len()
        &&& forall|e: int|
            0 <= e < self.entity_archetype@.len() ==> ((#[trigger] self.entity_archetype@[e]) is Some
                <==> self.entity_index@[e] is Some)
    }

    /// The storage's invariant: its tables are in order, its pool holds
    /// nothing and has counted nothing, and its model is consistent.
    pub closed spec fn wf(&self) -> bool {
        &&& self.tables_wf()
        &&& self.column_pool.wf()
        &&& self.column_pool@ == Map::<TypeId, Seq<Vec<u8>>>::empty()
        &&& self.column_pool.allocation_count() == 0
        &&& self.column_pool.release_count() == 0
        &&& consistent(self.archetype_map(), self.locations())
    }

    proof fn lemma_ids_unique(&self)
        requires
            self.tables_wf(),
        ensures
            self.archetype_ids@.no_duplicates(),
            self.archetype_map().dom() == self.archetype_ids@.to_set(),
            self.archetype_map().dom().finite(),
            self.archetype_map().dom().len() == self.archetype_ids@.len(),
    {
        assert forall|i: int, j: int|
            0 <= i < self.archetype_ids@.len() && 0 <= j < self.archetype_ids@.len() && i != j implies
            self.archetype_ids@[i] != self.archetype_ids@[j] by {
            if i < j {
                assert(self.archetype_ids@[i].0 < self.archetype_ids@[j].0);
            } else {
                assert(self.archetype_ids@[j].0 < self.archetype_ids@[i].0);
            }
        }
        self.archetype_ids@.unique_seq_to_set();
        assert(self.archetype_map().dom() =~= self.archetype_ids@.to_set());
    }

    /// A storage in order lists each identifier of its archetypes once, ascending,
    /// and its archetypes and entity locations agree.
    pub proof fn lemma_consistent(&self)
        requires
            self.wf(),
        ensures
            consistent(self.archetype_map(), self.locations()),
            self.archetype_map().dom().finite(),
            self.archetype_map().dom() == self.id_order().to_set(),
            self.archetype_map().dom().len() == self.id_order().len(),
            forall|i: int, j: int|
                0 <= i < j < self.id_order().len() ==> (#[trigger] self.id_order()[i]).spec_value()
                    < (#[trigger] self.id_order()[j]).spec_value(),
    {
        self.lemma_ids_unique();
    }

    /// The archetype at position `p`, with its identifier.
    proof fn lemma_at(&self, p: int)
        requires
            self.tables_wf(),
            0 <= p < self.archetype_ids@.len(),
        ensures
            self.archetype_map().contains_key(self.archetype_ids@[p]),
            self.archetype_map()[self.archetype_ids@[p]] == self.archetypes@[p],
    {
        self.lemma_ids_unique();
        lemma_index_of_unique(self.archetype_ids@, p);
    }

    /// Replacing the archetype at position `p` changes only its identifier's entry.
    proof fn lemma_map_update(a: Self, b: Self, p: int)
        requires
            a.tables_wf(),
            b.archetype_ids@ == a.archetype_ids@,
            b.archetypes@.len() == a.archetypes@.len(),
            0 <= p < a.archetypes@.len(),
            forall|j: int| 0 <= j < a.archetypes@.len() && j != p ==> b.archetypes@[j] == a.archetypes@[j],
        ensures
            b.archetype_map() == a.archetype_map().insert(a.archetype_ids@[p], b.archetypes@[p]),
    {
        a.lemma_ids_unique();
        let ids = a.archetype_ids@;
        lemma_index_of_unique(ids, p);
        assert forall|k: ArchetypeId| ids.contains(k) && k != ids[p] implies ids.index_of(k) != p by {
            let j = ids.index_of(k);
            assert(ids[j] == k);
        }
        assert(b.archetype_map() =~= a.archetype_map().insert(ids[p], b.archetypes@[p]));
    }

    /// Inserting an archetype at its place in identifier order adds its entry.
    proof fn lemma_map_insert(a: Self, b: Self, p: int, id: ArchetypeId, x: Archetype)
        requires
            a.tables_wf(),
            0 <= p <= a.archetype_ids@.len(),
            forall|i: int| 0 <= i < p ==> (#[trigger] a.archetype_ids@[i]).0 < id.0,
            forall|i: int| p <= i < a.archetype_ids@.len() ==> id.0 < (#[trigger] a.archetype_ids@[i]).0,
            b.archetype_ids@ == a.archetype_ids@.insert(p, id),
            b.archetypes@ == a.archetypes@.insert(p, x),
        ensures
            forall|i: int, j: int|
                0 <= i < j < b.archetype_ids@.len() ==> (#[trigger] b.archetype_ids@[i]).0
                    < (#[trigger] b.archetype_ids@[j]).0,
            b.archetype_map() == a.archetype_map().insert(id, x),
    {
        let ids = a.archetype_ids@;
        let nids = b.archetype_ids@;
        ids.insert_ensures(p, id);
        a.archetypes@.insert_ensures(p, x);
        assert forall|i: int, j: int| 0 <= i < j < nids.len() implies (#[trigger] nids[i]).0 < (#[trigger] nids[j]).0 by {
            if i < p && j < p {
                assert(ids[i].0 < ids[j].0);
            } else if i < p && j == p {
            } else if i < p {
                assert(nids[j] == ids[j - 1]);
            } else if i == p {
                assert(nids[j] == ids[j - 1]);
            } else {
                assert(nids[i] == ids[i - 1]);
                assert(nids[j] == ids[j - 1]);
                assert(ids[i - 1].0 < ids[j - 1].0);
            }
        }
        a.lemma_ids_unique();
        assert(nids.no_duplicates()) by {
            assert forall|i: int, j: int| 0 <= i < nids.len() && 0 <= j < nids.len() && i != j implies nids[i] != nids[j] by {
                if i < j {
                    assert(nids[i].0 < nids[j].0);
                } else {
                    assert(nids[j].0 < nids[i].0);
                }
            }
        }
        lemma_index_of_unique(nids, p);
        assert forall|k: ArchetypeId| #[trigger] nids.contains(k) <==> (ids.contains(k) || k == id) by {
            if nids.contains(k) {
                let j = choose|j: int| 0 <= j < nids.len() && nids[j] == k;
                if j < p {
                    assert(ids[j] == k);
                } else if j > p {
                    assert(ids[j - 1] == k);
                }
            }
            if ids.contains(k) {
                let j = choose|j: int| 0 <= j < ids.len() && ids[j] == k;
                if j < p {
                    assert(nids[j] == k);
                } else {
                    assert(nids[j + 1] == k);
                }
            }
        }
        assert forall|k: ArchetypeId| ids.contains(k) implies #[trigger] b.archetypes@[nids.index_of(k)]
            == a.archetypes@[ids.index_of(k)] by {
            let j = ids.index_of(k);
            lemma_index_of_unique(ids, j);
            assert(ids[j] == k);
            if j < p {
                assert(nids[j] == k);
                lemma_index_of_unique(nids, j);
            } else {
                assert(nids[j + 1] == k);
                lemma_index_of_unique(nids, j + 1);
            }
        }
        assert(!ids.contains(id)) by {
            if ids.contains(id) {
                let j = choose|j: int| 0 <= j < ids.len() && ids[j] == id;
                if j < p {
                    assert(ids[j].0 < id.0);
                } else {
                    assert(id.0 < ids[j].0);
                }
            }
        }
        assert(b.archetype_map() =~= a.archetype_map().insert(id, x));
    }

    /// Removing the archetype at position `p` removes its entry.
    proof fn lemma_map_remove(a: Self, b: Self, p: int)
        requires
            a.tables_wf(),
            0 <= p < a.archetype_ids@.len(),
            b.archetype_ids@ == a.archetype_ids@.remove(p),
            b.archetypes@ == a.archetypes@.remove(p),
        ensures
            forall|i: int, j: int|
                0 <= i < j < b.archetype_ids@.len() ==> (#[trigger] b.archetype_ids@[i]).0
                    < (#[trigger] b.archetype_ids@[j]).0,
            b.archetype_map() == a.archetype_map().remove(a.archetype_ids@[p]),
    {
        let ids = a.archetype_ids@;
        let nids = b.archetype_ids@;
        ids.remove_ensures(p);
        a.archetypes@.remove_ensures(p);
        assert forall|i: int, j: int| 0 <= i < j < nids.len() implies (#[trigger] nids[i]).0 < (#[trigger] nids[j]).0 by {
            let i0 = if i < p { i } else { i + 1 };
            let j0 = if j < p { j } else { j + 1 };
            assert(nids[i] == ids[i0]);
            assert(nids[j] == ids[j0]);
            assert(ids[i0].0 < ids[j0].0);
        }
        a.lemma_ids_unique();
        lemma_index_of_unique(ids, p);
        assert forall|k: ArchetypeId| #[trigger] nids.contains(k) <==> (ids.contains(k) && k != ids[p]) by {
            if nids.contains(k) {
                let j = choose|j: int| 0 <= j < nids.len() && nids[j] == k;
                let j0 = if j < p { j } else { j + 1 };
                assert(ids[j0] == k);
                assert(ids[j0] != ids[p]);
            }
            if ids.contains(k) && k != ids[p] {
                let j = choose|j: int| 0 <= j < ids.len() && ids[j] == k;
                if j < p {
                    assert(nids[j] == k);
                } else {
                    assert(nids[j - 1] == k);
                }
            }
        }
        assert(nids.no_duplicates()) by {
            assert forall|i: int, j: int| 0 <= i < nids.len() && 0 <= j < nids.len() && i != j implies nids[i] != nids[j] by {
                if i < j {
                    assert(nids[i].0 < nids[j].0);
                } else {
                    assert(nids[j].0 < nids[i].0);
                }
            }
        }
        assert forall|k: ArchetypeId| nids.contains(k) implies #[trigger] b.archetypes@[nids.index_of(k)]
            == a.archetypes@[ids.index_of(k)] by {
            let j = nids.index_of(k);
            lemma_index_of_unique(nids, j);
            assert(nids[j] == k);
            let j0 = if j < p { j } else { j + 1 };
            assert(ids[j0] == k);
            lemma_index_of_unique(ids, j0);
        }
        assert(b.archetype_map() =~= a.archetype_map().remove(ids[p]));
    }

    /// Setting the entry of entity `e` in both tables sets or removes its location.
    proof fn lemma_locations_set(a: Self, b: Self, e: usize)
        requires
            a.entity_archetype@.len() == a.entity_index@.len(),
            b.entity_archetype@.len() == a.entity_archetype@.len(),
            b.entity_index@.len() == a.entity_index@.len(),
            e < a.entity_archetype@.len(),
            forall|i: int|
                0 <= i < a.entity_archetype@.len() && i != e ==> b.entity_archetype@[i] == a.entity_archetype@[i]
                    && b.entity_index@[i] == a.entity_index@[i],
        ensures
            b.locations() == if b.entity_archetype@[e as int] is Some {
                a.locations().insert(e, (b.entity_archetype@[e as int].unwrap(), b.entity_index@[e as int].unwrap()))
            } else {
                a.locations().remove(e)
            },
    {
        if b.entity_archetype@[e as int] is Some {
            let v = (b.entity_archetype@[e as int].unwrap(), b.entity_index@[e as int].unwrap());
            assert forall|k: usize| #[trigger] b.locations().contains_key(k) == a.locations().insert(e, v).contains_key(k) by {
                if k != e && (k as int) < a.entity_archetype@.len() {
                    assert(b.entity_archetype@[k as int] == a.entity_archetype@[k as int]);
                }
            }
            assert forall|k: usize| #[trigger] b.locations().contains_key(k) implies b.locations()[k] == a.locations().insert(e, v)[k] by {
                if k != e {
                    assert(b.entity_archetype@[k as int] == a.entity_archetype@[k as int]);
                    assert(b.entity_index@[k as int] == a.entity_index@[k as int]);
                }
            }
            assert(b.locations() =~= a.locations().insert(e, v));
        } else {
            assert forall|k: usize| #[trigger] b.locations().contains_key(k) == a.locations().remove(e).contains_key(k) by {
                if k != e && (k as int) < a.entity_archetype@.len() {
                    assert(b.entity_archetype@[k as int] == a.entity_archetype@[k as int]);
                }
            }
            assert forall|k: usize| #[trigger] b.locations().contains_key(k) implies b.locations()[k] == a.locations().remove(e)[k] by {
                assert(b.entity_archetype@[k as int] == a.entity_archetype@[k as int]);
                assert(b.entity_index@[k as int] == a.entity_index@[k as int]);
            }
            assert(b.locations() =~= a.locations().remove(e));
        }
    }

    /// Distinct stored archetypes hold together at most as many entities
    /// as an index can count.
    pub proof fn lemma_entity_total(&self, ids: Seq<ArchetypeId>)
        requires
            self.wf(),
            ids.no_duplicates(),
            forall|k: int| 0 <= k < ids.len() ==> self.archetype_map().contains_key(#[trigger] ids[k]),
        ensures
            entities_of(ids, self.archetype_map()).len() <= usize::MAX,
    {
        let all = entities_of(ids, self.archetype_map());
        lemma_entities_of_distinct(ids, self.archetype_map(), self.locations());
        assert(self.entity_archetype.len() == self.entity_archetype@.len());
        assert forall|i: int| 0 <= i < all.len() implies (#[trigger] all[i]) < self.entity_archetype@.len() by {
            assert(self.locations().contains_key(all[i]));
        }
        lemma_distinct_below(all, self.entity_archetype@.len());
    }

    /// Creates a new empty ArchetypeStorage
    pub fn new() -> (r: Self)
        ensures
            r.wf(),
            r.archetype_map() == Map::<ArchetypeId, Archetype>::empty(),
            r.locations() == Map::<usize, (ArchetypeId, usize)>::empty(),
            r.pool()@ == Map::<TypeId, Seq<Vec<u8>>>::empty(),
            r.pool().allocation_count() == 0,
            r.pool().release_count() == 0,
    {
        let r = Self {
            archetype_ids: Vec::new(),
            archetypes: Vec::new(),
            entity_archetype: Vec::new(),
            entity_index: Vec::new(),
            column_pool: ColumnPool::new(),
        };
        assert(r.archetype_map() =~= Map::<ArchetypeId, Archetype>::empty());
        assert(r.locations() =~= Map::<usize, (ArchetypeId, usize)>::empty());
        r
    }

    /// The position of the archetype `id`, or where it would be inserted.
    fn find_archetype(&self, id: ArchetypeId) -> (r: Result<usize, usize>)
        requires
            self.tables_wf(),
        ensures
            match r {
                Ok(p) => p < self.archetype_ids@.len() && self.archetype_ids@[p as int] == id,
                Err(p) => {
                    &&& p <= self.archetype_ids@.len()
                    &&& !self.archetype_ids@.contains(id)
                    &&& forall|i: int| 0 <= i < p ==> (#[trigger] self.archetype_ids@[i]).0 < id.0
                    &&& forall|i: int| p <= i < self.archetype_ids@.len() ==> id.0 < (#[trigger] self.archetype_ids@[i]).0
                },
            },
    {
        let mut i: usize = 0;
        while i < self.archetype_ids.len() && self.archetype_ids[i].value() < id.value()
            invariant
                self.tables_wf(),
                i <= self.archetype_ids@.len(),
                forall|j: int| 0 <= j < i ==> (#[trigger] self.archetype_ids@[j]).0 < id.0,
            decreases self.archetype_ids@.len() - i,
        {
            i = i + 1;
        }
        if i < self.archetype_ids.len() && self.archetype_ids[i].value() == id.value() {
            Ok(i)
        } else {
            proof {
                assert forall|j: int| i <= j < self.archetype_ids@.len() implies id.0 < (#[trigger] self.archetype_ids@[j]).0 by {
                    if j > i {
                        assert(self.archetype_ids@[i as int].0 < self.archetype_ids@[j].0);
                    }
                }
                if self.archetype_ids@.contains(id) {
                    let j = choose|j: int| 0 <= j < self.archetype_ids@.len() && self.archetype_ids@[j] == id;
                    if j < i {
                        assert(self.archetype_ids@[j].0 < id.0);
                    } else {
                        assert(id.0 < self.archetype_ids@[j].0);
                    }
                }
            }
            Err(i)
        }
    }

    /// The location of an entity, if it is stored.
    fn location(&self, entity_id: usize) -> (r: Option<(ArchetypeId, usize)>)
        requires
            self.tables_wf(),
        ensures
            r == (if self.locations().contains_key(entity_id) {
                Some(self.locations()[entity_id])
            } else {
                None
            }),
    {
        if entity_id >= self.entity_archetype.len() {
            return None;
        }
        match self.entity_archetype[entity_id] {
            Some(id) => {
                assert(self.entity_index@[entity_id as int] is Some);
                match self.entity_index[entity_id] {
                    Some(index) => Some((id, index)),
                    None => None,
                }
            },
            None => None,
        }
    }

    /// Gets the archetype containing the given entity
    pub fn get_archetype(&self, entity_id: usize) -> (r: Option<&Archetype>)
        requires
            self.wf(),
        ensures
            r == (if self.locations().contains_key(entity_id) {
                Some(&self.archetype_map()[self.locations()[entity_id].0])
            } else {
                None
            }),
    {
        match self.location(entity_id) {
            Some((id, _)) => match self.find_archetype(id) {
                Ok(p) => {
                    proof {
                        self.lemma_at(p as int);
                    }
                    Some(&self.archetypes[p])
                },
                Err(_) => None,
            },
            None => None,
        }
    }

    /// Returns the archetype ID for the given entity
    pub fn get_archetype_id(&self, entity_id: usize) -> (r: Option<ArchetypeId>)
        requires
            self.wf(),
        ensures
            r == (if self.locations().contains_key(entity_id) {
                Some(self.locations()[entity_id].0)
            } else {
                None
            }),
    {
        match self.location(entity_id) {
            Some((id, _)) => Some(id),
            None => None,
        }
    }

    /// Whether `add_entity` can place `entity_id` with these (component,
    /// stride) pairs: the entity is not stored yet, one more entity index can
    /// be tracked, the types are distinct, every stride leaves room for a
    /// column of sixteen components, and an archetype already stored under
    /// the identifier of these types holds exactly these types with these
    /// strides.
    pub open spec fn admits(&self, entity_id: usize, strides: Seq<(ComponentId, usize)>) -> bool {
        &&& !self.locations().contains_key(entity_id)
        &&& entity_id < usize::MAX
        &&& pair_keys(strides).no_duplicates()
        &&& forall|j: int| 0 <= j < strides.len() ==> 16 * (#[trigger] strides[j]).1 <= usize::MAX
        &&& self.no_collision(strides)
    }

    /// An archetype stored under the identifier of these (component, stride)
    /// pairs, if any, holds exactly these types with these strides.
    pub open spec fn no_collision(&self, strides: Seq<(ComponentId, usize)>) -> bool {
        let sorted = sorted_by_type(strides);
        let map = self.archetype_map();
        forall|id: ArchetypeId|
            #[trigger] map.contains_key(id) && id.spec_value() == archetype_hash(pair_keys(sorted)) ==> {
                &&& type_ids(map[id].type_list()) == pair_keys(sorted)
                &&& forall|j: int|
                    0 <= j < sorted.len() ==> map[id].columns()[(#[trigger] sorted[j]).0@].spec_stride()
                        == sorted[j].1
            }
    }

    /// Extends the entity tables so that `entity_id` can be located; the
    /// archetypes, the locations and the pool stay as they are.
    fn track_entity(&mut self, entity_id: usize)
        requires
            old(self).wf(),
            entity_id < usize::MAX,
        ensures
            final(self).wf(),
            final(self).archetype_ids@ == old(self).archetype_ids@,
            final(self).archetypes@ == old(self).archetypes@,
            final(self).column_pool == old(self).column_pool,
            final(self).archetype_map() == old(self).archetype_map(),
            final(self).locations() == old(self).locations(),
            entity_id < final(self).entity_archetype@.len(),
    {
        let ghost g0 = *self;
        let ghost old_map = self.archetype_map();
        let ghost old_locs = self.locations();
        while self.entity_archetype.len() <= entity_id
            invariant
                entity_id < usize::MAX,
                self.entity_archetype@.len() == self.entity_index@.len(),
                g0.entity_archetype@.len() <= self.entity_archetype@.len(),
                self.entity_archetype@.len() > g0.entity_archetype@.len() ==> self.entity_archetype@.len() <= entity_id + 1,
                forall|i: int|
                    0 <= i < g0.entity_archetype@.len() ==> self.entity_archetype@[i] == g0.entity_archetype@[i]
                        && self.entity_index@[i] == g0.entity_index@[i],
                forall|i: int|
                    g0.entity_archetype@.len() <= i < self.entity_archetype@.len() ==> (
                    #[trigger] self.entity_archetype@[i]) is None && self.entity_index@[i] is None,
                self.archetype_ids == g0.archetype_ids,
                self.archetypes == g0.archetypes,
                self.column_pool == g0.column_pool,
            decreases entity_id + 1 - self.entity_archetype@.len(),
        {
            self.entity_archetype.push(None);
            self.entity_index.push(None);
        }
        proof {
            assert(g0.tables_wf());
            assert(self.tables_wf()) by {
                assert forall|e: int| 0 <= e < self.entity_archetype@.len() implies ((#[trigger] self.entity_archetype@[e]) is Some
                    <==> self.entity_index@[e] is Some) by {
                    if e < g0.entity_archetype@.len() {
                        assert(g0.entity_archetype@[e] is Some <==> g0.entity_index@[e] is Some);
                    }
                }
            }
            assert(self.archetype_map() =~= old_map);
            assert forall|k: usize| #[trigger] self.locations().contains_key(k) == old_locs.contains_key(k) by {
                if (k as int) < g0.entity_archetype@.len() {
                    assert(self.entity_archetype@[k as int] == g0.entity_archetype@[k as int]);
                }
            }
            assert forall|k: usize| #[trigger] self.locations().contains_key(k) implies self.locations()[k] == old_locs[k] by {
                assert(self.entity_archetype@[k as int] == g0.entity_archetype@[k as int]);
                assert(self.entity_index@[k as int] == g0.entity_index@[k as int]);
            }
            assert(self.locations() =~= old_locs);
        }
    }

    /// Adds `entity_id` to the stored archetype at position `p`, with a
    /// zeroed component in each of its columns.
    fn join_archetype(&mut self, entity_id: usize, p: usize) -> (r: ArchetypeId)
        requires
            old(self).wf(),
            entity_id < usize::MAX,
            !old(self).locations().contains_key(entity_id),
            p < old(self).archetype_ids@.len(),
        ensures
            final(self).wf(),
            r == old(self).archetype_ids@[p as int],
            entity_joined(*old(self), *final(self), entity_id, r),
    {
        let ghost old_map = self.archetype_map();
        let ghost old_locs = self.locations();
        self.track_entity(entity_id);
        let id = self.archetype_ids[p];
        let bound = self.entity_archetype.len();
        let ghost a = self.archetypes@[p as int];
        proof {
            self.lemma_at(p as int);
            assert(archetype_ok(id, a));
            lemma_archetype_len_bound(old_map, old_locs, id, entity_id, bound as nat);
            assert(a.wf() && a.full()) by {
                reveal(archetype_ok);
            }
        }
        let data = zero_column_data(&self.archetypes[p]);
        proof {
            assert(data_keys(data@).no_duplicates());
            assert forall|k: TypeId| #[trigger] a.columns().contains_key(k) implies a.columns()[k].count() < usize::MAX by {}
            assert forall|j: int| 0 <= j < data@.len() && a.columns().contains_key(data@[j].0@) implies (
                #[trigger] data@[j]).1@.len() == a.columns()[data@[j].0@].spec_stride() by {}
        }
        let ghost s1 = *self;
        let index = self.archetypes[p].add_entity(entity_id, data);
        proof {
            Self::lemma_map_update(s1, *self, p as int);
            lemma_join_ok(id, a, self.archetypes@[p as int], entity_id, data@);
        }
        let ghost a2 = self.archetypes@[p as int];
        let ghost s2 = *self;
        self.entity_archetype.set(entity_id, Some(id));
        self.entity_index.set(entity_id, Some(index));
        proof {
            assert(s2.locations() =~= old_locs);
            Self::lemma_locations_set(s2, *self, entity_id);
            assert(self.archetype_map() =~= s2.archetype_map());
            lemma_consistent_add(old_map, old_locs, id, a2, entity_id, index);
        }
        id
    }

    /// Adds an entity with the given component types to storage
    ///
    /// The pairs give each component type and its stride (size in bytes).
    /// The types are ordered, and the entity is appended, with zeroed
    /// components, to the archetype stored under the identifier of the
    /// ordered types, which is created when there is none. An entity that is
    /// stored already is first removed from where it is. Should another list
    /// of types be stored under the same identifier, the entity joins that
    /// archetype with a zeroed component in each of its columns. Returns the
    /// ArchetypeId where the entity was placed.
    pub fn add_entity(&mut self, entity_id: usize, component_strides: Vec<(ComponentId, usize)>) -> (r: ArchetypeId)
        requires
            old(self).wf(),
            entity_id < usize::MAX,
            pair_keys(component_strides@).no_duplicates(),
            forall|j: int| 0 <= j < component_strides@.len() ==> 16 * (#[trigger] component_strides@[j]).1 <= usize::MAX,
        ensures
            final(self).wf(),
            r.spec_value() == archetype_hash(canonical_order(pair_keys(component_strides@).to_set())),
            final(self).locations().contains_key(entity_id),
            final(self).locations()[entity_id].0 == r,
            final(self).archetype_map().contains_key(r),
            !old(self).locations().contains_key(entity_id) ==> entity_placed(
                *old(self),
                *final(self),
                entity_id,
                component_strides@,
                r,
            ),
            old(self).locations().contains_key(entity_id) ==> exists|mid: ArchetypeStorage|
                #[trigger] entity_removed(*old(self), mid, entity_id) && mid.wf() && entity_placed(
                    mid,
                    *final(self),
                    entity_id,
                    component_strides@,
                    r,
                ),
    {
        if self.location(entity_id).is_some() {
            let _ = self.remove_entity(entity_id);
        }
        let ghost mid = *self;
        proof {
            lemma_sorted_keys_set(component_strides@);
        }
        match self.collision(&component_strides) {
            None => self.place_entity(entity_id, component_strides),
            Some(p) => {
                self.join_archetype(entity_id, p)
            },
        }
    }

    /// Places an entity that the storage admits: the types are ordered, the
    /// archetype of these types is found or created, and the entity is
    /// appended to it with zeroed components.
    fn place_entity(&mut self, entity_id: usize, component_strides: Vec<(ComponentId, usize)>) -> (r: ArchetypeId)
        requires
            old(self).wf(),
            old(self).admits(entity_id, component_strides@),
        ensures
            final(self).wf(),
            entity_added(*old(self), *final(self), entity_id, component_strides@, r),
    {
        let ghost old_map = self.archetype_map();
        let ghost old_locs = self.locations();
        proof {
            lemma_sorted_by_type(component_strides@);
        }
        let sorted = sort_by_type(&component_strides);
        proof {
            broadcast use vstd::seq_lib::group_to_multiset_ensures;

            lemma_sorted_keys_set(component_strides@);
            lemma_canonical_order(pair_keys(sorted@));

            assert forall|j: int| 0 <= j < sorted@.len() implies 16 * (#[trigger] sorted@[j]).1 <= usize::MAX by {
                assert(sorted@.to_multiset().count(sorted@[j]) > 0);
                assert(component_strides@.to_multiset().count(sorted@[j]) > 0);
                assert(component_strides@.contains(sorted@[j]));
                let i = choose|i: int| 0 <= i < component_strides@.len() && component_strides@[i] == sorted@[j];
                assert(16 * component_strides@[i].1 <= usize::MAX);
            }
        }
        let types = pair_ids(&sorted);
        let archetype_id = ArchetypeId::from_types(types.as_slice());
        self.track_entity(entity_id);
        let bound = self.entity_archetype.len();
        let data = zero_component_data(&sorted);
        let ghost s1 = *self;
        let index = match self.find_archetype(archetype_id) {
            Ok(p) => {
                let ghost a = self.archetypes@[p as int];
                proof {
                    self.lemma_at(p as int);
                    assert(old_map.contains_key(archetype_id));
                    assert(archetype_ok(archetype_id, a));
                    lemma_archetype_len_bound(old_map, old_locs, archetype_id, entity_id, bound as nat);
                    assert(a.wf() && a.full()) by {
                        reveal(archetype_ok);
                    }
                    assert forall|j: int|
                        0 <= j < data@.len() && a.columns().contains_key(data@[j].0@) implies (
                        #[trigger] data@[j]).1@.len() == a.columns()[data@[j].0@].spec_stride() by {
                        assert(data@[j].0 == sorted@[j].0);
                    }
                }
                let index = self.archetypes[p].add_entity(entity_id, data);
                proof {
                    Self::lemma_map_update(s1, *self, p as int);
                    lemma_add_to_existing(archetype_id, a, self.archetypes@[p as int], entity_id, sorted@, data@);
                }
                index
            },
            Err(p) => {
                let mut arch = new_archetype(&mut self.column_pool, types, &sorted);
                let ghost a = arch;
                let index = arch.add_entity(entity_id, data);
                proof {
                    lemma_add_to_new(archetype_id, a, arch, entity_id, sorted@, data@);
                }
                let ghost s1b = *self;
                self.archetype_ids.insert(p, archetype_id);
                self.archetypes.insert(p, arch);
                proof {
                    Self::lemma_map_insert(s1b, *self, p as int, archetype_id, arch);
                    assert(s1b.archetype_map() =~= old_map);
                }
                index
            },
        };
        let ghost a2 = self.archetype_map()[archetype_id];
        let ghost s2 = *self;
        self.entity_archetype.set(entity_id, Some(archetype_id));
        self.entity_index.set(entity_id, Some(index));
        proof {
            assert(s2.locations() =~= old_locs);
            Self::lemma_locations_set(s2, *self, entity_id);
            assert(self.archetype_map() =~= s2.archetype_map());
            lemma_consistent_add(old_map, old_locs, archetype_id, a2, entity_id, index);
        }
        archetype_id
    }

    /// The position of the archetype stored under the identifier of these
    /// pairs when it does not hold exactly their types and strides.
    fn collision(&self, pairs: &Vec<(ComponentId, usize)>) -> (r: Option<usize>)
        requires
            self.wf(),
            pair_keys(pairs@).no_duplicates(),
        ensures
            r is None <==> self.no_collision(pairs@),
            pair_keys(sorted_by_type(pairs@)) == canonical_order(pair_keys(pairs@).to_set()),
            match r {
                Some(p) => p < self.archetype_ids@.len() && self.archetype_ids@[p as int].spec_value()
                    == archetype_hash(pair_keys(sorted_by_type(pairs@))),
                None => true,
            },
    {
        proof {
            lemma_sorted_by_type(pairs@);
        }
        let sorted = sort_by_type(&pairs);
        let types = pair_ids(&sorted);
        let archetype_id = ArchetypeId::from_types(types.as_slice());
        proof {
            lemma_sorted_keys_set(pairs@);
            lemma_canonical_order(pair_keys(sorted@));
            assert forall|id: ArchetypeId|
                #[trigger] self.archetype_map().contains_key(id) && id.spec_value() == archetype_hash(
                    pair_keys(sorted_by_type(pairs@)),
                ) implies id == archetype_id by {
                assert(id.0 == archetype_id.0);
            }
        }
        match self.find_archetype(archetype_id) {
            Ok(p) => {
                proof {
                    self.lemma_at(p as int);
                    assert(self.archetypes@[p as int].wf()) by {
                        reveal(archetype_ok);
                    }
                }
                proof {
                    assert(self.archetype_map().contains_key(archetype_id));
                    assert(archetype_id.spec_value() == archetype_hash(pair_keys(sorted_by_type(pairs@))));
                }
                if !same_types(self.archetypes[p].types(), types.as_slice()) {
                    return Some(p);
                }
                proof {
                    let a = self.archetypes@[p as int];
                    assert(a.column_keys() == type_ids(a.type_list())) by {
                        reveal(archetype_ok);
                    }
                    assert forall|t: int| 0 <= t < sorted@.len() implies a.columns().contains_key((#[trigger] sorted@[t]).0@) by {
                        assert(pair_keys(sorted@)[t] == sorted@[t].0@);
                        assert(a.column_keys().contains(sorted@[t].0@));
                    }
                }
                if !strides_match(&self.archetypes[p], &sorted) {
                    return Some(p);
                }
            },
            Err(_) => {},
        }
        None

    }

    /// Adds an entity when the storage admits it (see `admits`: among
    /// others, the entity is not stored yet and no other list of types is
    /// stored under the identifier of these), and otherwise leaves the
    /// storage unchanged and returns `None`.
    pub fn try_add_entity(&mut self, entity_id: usize, component_strides: Vec<(ComponentId, usize)>) -> (r: Option<ArchetypeId>)
        requires
            old(self).wf(),
        ensures
            final(self).wf(),
            r is Some <==> old(self).admits(entity_id, component_strides@),
            match r {
                Some(id) => entity_added(*old(self), *final(self), entity_id, component_strides@, id),
                None => *final(self) == *old(self),
            },
    {
        if entity_id == usize::MAX || self.location(entity_id).is_some() {
            return None;
        }
        if !distinct_and_bounded(&component_strides) {
            return None;
        }
        if self.collision(&component_strides).is_some() {
            return None;
        }
        let r = self.place_entity(entity_id, component_strides);
        Some(r)
    }

    /// Removes an entity from storage
    ///
    /// Returns the identifier of the entity's archetype if the entity was
    /// found and removed, `None` otherwise.
    pub fn remove_entity(&mut self, entity_id: usize) -> (r: Option<ArchetypeId>)
        requires
            old(self).wf(),
        ensures
            final(self).wf(),
            r == (if old(self).locations().contains_key(entity_id) {
                Some(old(self).locations()[entity_id].0)
            } else {
                None
            }),
            old(self).locations().contains_key(entity_id) ==> entity_removed(*old(self), *final(self), entity_id),
            !old(self).locations().contains_key(entity_id) ==> *final(self) == *old(self),
    {
        let (archetype_id, index) = match self.location(entity_id) {
            Some(loc) => loc,
            None => {
                return None;
            },
        };
        let ghost old_map = self.archetype_map();
        let ghost old_locs = self.locations();
        let ghost s0 = *self;
        self.entity_archetype.set(entity_id, None);
        self.entity_index.set(entity_id, None);
        proof {
            Self::lemma_locations_set(s0, *self, entity_id);
            assert(self.archetype_map() =~= old_map);
        }
        match self.find_archetype(archetype_id) {
            Ok(p) => {
                let ghost a = self.archetypes@[p as int];
                let ghost last = a.entities().last();
                proof {
                    self.lemma_at(p as int);
                    assert(a.wf() && a.full()) by {
                        reveal(archetype_ok);
                    }
                }
                let ghost s1 = *self;
                let removed = self.archetypes[p].remove_entity(index);
                let ghost a2 = self.archetypes@[p as int];
                proof {
                    Self::lemma_map_update(s1, *self, p as int);
                    if a.entities().len() > 1 {
                        lemma_remove_ok(archetype_id, a, a2, index as int);
                    }
                    lemma_consistent_remove(old_map, old_locs, entity_id, a2);
                }
                proof {
                    assert(removed == last);
                    if last != entity_id {
                        assert(index < a2.entities().len());
                        assert(a2.entities()[index as int] == last);
                        assert(old_locs.contains_key(last));
                    }
                }
                if removed != entity_id {
                    match self.archetypes[p].get_entity_id(index) {
                        Some(swapped) => {
                            if swapped < self.entity_index.len() {
                                let ghost s2 = *self;
                                self.entity_index.set(swapped, Some(index));
                                proof {
                                    assert(old_locs[last] == (archetype_id, (a.entities().len() - 1) as usize));
                                    Self::lemma_locations_set(s2, *self, swapped);
                                    assert(self.archetype_map() =~= s2.archetype_map());
                                }
                            }
                        },
                        None => {},
                    }
                }
                proof {
                    assert(self.archetype_map() == old_map.insert(archetype_id, a2));
                    assert(self.locations() == if last == entity_id {
                        old_locs.remove(entity_id)
                    } else {
                        old_locs.remove(entity_id).insert(last, (archetype_id, index))
                    });
                }
                if self.archetypes[p].is_empty() {
                    let ghost s3 = *self;
                    self.archetype_ids.remove(p);
                    self.archetypes.remove(p);
                    proof {
                        Self::lemma_map_remove(s3, *self, p as int);
                        assert(self.locations() =~= s3.locations());
                        assert(self.archetype_map() =~= old_map.remove(archetype_id));
                    }
                } else {
                    proof {
                        assert(self.archetype_map()[archetype_id] == a2);
                    }
                }
            },
            Err(_) => {},
        }
        Some(archetype_id)
    }

    /// Gets a mutable reference to the archetype containing the given entity
    ///
    /// The storage stays in order when the archetype keeps its entities and
    /// still stands under its identifier.
    pub fn get_archetype_mut(&mut self, entity_id: usize) -> (r: Option<&mut Archetype>)
        requires
            old(self).wf(),
        ensures
            final(self).locations() == old(self).locations(),
            final(self).id_order() == old(self).id_order(),
            final(self).pool() == old(self).pool(),
            match r {
                Some(a) => {
                    let id = old(self).locations()[entity_id].0;
                    &&& old(self).locations().contains_key(entity_id)
                    &&& *a == old(self).archetype_map()[id]
                    &&& final(self).archetype_map() == old(self).archetype_map().insert(id, *final(a))
                    &&& (final(a).entities() == a.entities() && archetype_ok(id, *final(a))) ==> final(self).wf()
                },
                None => {
                    &&& !old(self).locations().contains_key(entity_id)
                    &&& *final(self) == *old(self)
                },
            },
    {
        match self.location(entity_id) {
            Some((id, _)) => match self.find_archetype(id) {
                Ok(p) => {
                    proof {
                        self.lemma_at(p as int);
                        self.lemma_ids_unique();
                        let ids = self.archetype_ids@;
                        assert forall|k: ArchetypeId| ids.contains(k) && k != id implies ids.index_of(k) != p by {
                            let j = ids.index_of(k);
                            assert(ids[j] == k);
                        }
                        assert forall|a2: Archetype|
                            a2.entities() == self.archetype_map()[id].entities() && archetype_ok(id, a2) implies consistent(
                            self.archetype_map().insert(id, a2),
                            self.locations(),
                        ) by {
                            lemma_consistent_replace(self.archetype_map(), self.locations(), id, a2);
                        }
                    }
                    Some(&mut self.archetypes[p])
                },
                Err(_) => None,
            },
            None => None,
        }
    }

    /// Returns the number of archetypes in storage
    pub fn archetype_count(&self) -> (r: usize)
        requires
            self.wf(),
        ensures
            r == self.archetype_map().dom().len(),
    {
        proof {
            self.lemma_ids_unique();
        }
        self.archetypes.len()
    }

    /// Returns true if no entities are stored
    pub fn is_empty(&self) -> (r: bool)
        requires
            self.wf(),
        ensures
            r == (self.archetype_map().dom().len() == 0),
            r == (self.locations().dom() == Set::<usize>::empty()),
    {
        proof {
            self.lemma_ids_unique();
            if self.archetypes@.len() > 0 {
                self.lemma_at(0);
                let id = self.archetype_ids@[0];
                lemma_archetype_ok_len(id, self.archetype_map()[id]);
                let e = self.archetype_map()[id].entities()[0];
                assert(self.locations().contains_key(e));
            } else {
                assert forall|e: usize| !self.locations().contains_key(e) by {
                    if self.locations().contains_key(e) {
                        assert(self.archetype_map().contains_key(self.locations()[e].0));
                    }
                }
                assert(self.locations().dom() =~= Set::<usize>::empty());
            }
        }
        self.archetypes.len() == 0
    }

    /// Clears all entities and archetypes
    pub fn clear(&mut self)
        ensures
            final(self).wf(),
            final(self).archetype_map() == Map::<ArchetypeId, Archetype>::empty(),
            final(self).locations() == Map::<usize, (ArchetypeId, usize)>::empty(),
            final(self).pool()@ == Map::<TypeId, Seq<Vec<u8>>>::empty(),
            final(self).pool().allocation_count() == 0,
            final(self).pool().release_count() == 0,
    {
        self.archetype_ids.clear();
        self.archetypes.clear();
        self.entity_archetype.clear();
        self.entity_index.clear();
        self.column_pool.clear();
        assert(self.archetype_map() =~= Map::<ArchetypeId, Archetype>::empty());
        assert(self.locations() =~= Map::<usize, (ArchetypeId, usize)>::empty());
    }

    /// Returns the archetypes with their identifiers, in ascending identifier order
    pub fn iter_archetypes(&self) -> (r: Vec<(&ArchetypeId, &Archetype)>)
        requires
            self.wf(),
        ensures
            r@.len() == self.archetype_map().dom().len(),
            forall|i: int|
                0 <= i < r@.len() ==> self.archetype_map().contains_key(*(#[trigger] r@[i]).0)
                    && *r@[i].1 == self.archetype_map()[*r@[i].0] && *r@[i].0 == self.id_order()[i],
            forall|i: int, j: int|
                0 <= i < j < r@.len() ==> (*(#[trigger] r@[i]).0).spec_value() < (*(#[trigger] r@[j]).0).spec_value(),
    {
        proof {
            self.lemma_ids_unique();
        }
        let mut out: Vec<(&ArchetypeId, &Archetype)> = Vec::new();
        let mut i: usize = 0;
        while i < self.archetypes.len()
            invariant
                self.tables_wf(),
                i <= self.archetypes@.len(),
                out@.len() == i,
                forall|j: int| 0 <= j < i ==> *(#[trigger] out@[j]).0 == self.archetype_ids@[j] && *out@[j].1
                    == self.archetypes@[j],
            decreases self.archetypes@.len() - i,
        {
            out.push((&self.archetype_ids[i], &self.archetypes[i]));
            i = i + 1;
        }
        proof {
            assert forall|j: int| 0 <= j < out@.len() implies self.archetype_map().contains_key(*(#[trigger] out@[j]).0)
                && *out@[j].1 == self.archetype_map()[*out@[j].0] && *out@[j].0 == self.id_order()[j] by {
                self.lemma_at(j);
            }
        }
        out
    }

    /// Returns pool statistics
    pub fn pool_stats(&self) -> (r: PoolStats)
        requires
            self.wf(),
        ensures
            r.allocations == self.pool().allocation_count(),
            r.releases == self.pool().release_count(),
            r.pool_count == self.pool()@.dom().len(),
    {
        PoolStats::from_pool(&self.column_pool)
    }
}

/// Adding an entity and then removing it gives back the entity locations and
/// the set of stored archetypes as they were, and every stored archetype
/// holds the entities, in the order, that it held before.
pub proof fn lemma_add_then_remove(
    s0: ArchetypeStorage,
    s1: ArchetypeStorage,
    s2: ArchetypeStorage,
    entity: usize,
    strides: Seq<(ComponentId, usize)>,
    id: ArchetypeId,
)
    requires
        s0.wf(),
        s0.admits(entity, strides),
        entity_added(s0, s1, entity, strides, id),
        entity_removed(s1, s2, entity),
    ensures
        s2.locations() == s0.locations(),
        s2.archetype_map().dom() == s0.archetype_map().dom(),
        forall|k: ArchetypeId| #[trigger] s0.archetype_map().contains_key(k)
            ==> s2.archetype_map()[k].entities() == s0.archetype_map()[k].entities(),
{
    let m0 = s0.archetype_map();
    let m1 = s1.archetype_map();
    let a = m1[id];
    assert(s1.locations()[entity] == (id, (a.entities().len() - 1) as usize));
    assert(a.entities().last() == entity);
    assert(s2.locations() =~= s0.locations());
    if m0.contains_key(id) {
        lemma_archetype_ok_len(id, m0[id]);
        assert(a.entities().len() > 1);
        let a2 = s2.archetype_map()[id];
        assert(a2.entities() =~= m0[id].entities());
        assert(s2.archetype_map().dom() =~= m0.dom());
    } else {
        assert(a.entities().len() == 1);
        assert(s2.archetype_map() =~= m0);
    }
}

/// An entity added with the same (component, stride) pairs as one added just
/// before joins that entity's archetype, after it, and leaves it where it was.
pub proof fn lemma_same_pairs_same_archetype(
    s0: ArchetypeStorage,
    s1: ArchetypeStorage,
    s2: ArchetypeStorage,
    first: usize,
    second: usize,
    strides: Seq<(ComponentId, usize)>,
    id1: ArchetypeId,
    id2: ArchetypeId,
)
    requires
        entity_added(s0, s1, first, strides, id1),
        entity_added(s1, s2, second, strides, id2),
        first != second,
    ensures
        id1 == id2,
        s2.archetype_map()[id1].entities() == (if s0.archetype_map().contains_key(id1) {
            s0.archetype_map()[id1].entities()
        } else {
            Seq::<usize>::empty()
        }).push(first).push(second),
        s2.locations()[first] == s1.locations()[first],
        s2.locations()[first].0 == s2.locations()[second].0,
{
    assert(id1.0 == id2.0);
    let m1 = s1.archetype_map();
    assert(m1.contains_key(id1));
}

/// Entities added with the same component types, in whatever order the
/// types are listed, get the same archetype identifier: the identifier is
/// the hash of the types in increasing `TypeId` order.
pub proof fn lemma_same_composition_same_archetype(
    b1: ArchetypeStorage,
    a1: ArchetypeStorage,
    e1: usize,
    strides1: Seq<(ComponentId, usize)>,
    id1: ArchetypeId,
    b2: ArchetypeStorage,
    a2: ArchetypeStorage,
    e2: usize,
    strides2: Seq<(ComponentId, usize)>,
    id2: ArchetypeId,
)
    requires
        entity_added(b1, a1, e1, strides1, id1),
        entity_added(b2, a2, e2, strides2, id2),
        pair_keys(strides1).to_set() == pair_keys(strides2).to_set(),
    ensures
        id1 == id2,
        id1.spec_value() == archetype_hash(canonical_order(pair_keys(strides1).to_set())),
{
    assert(id1.0 == id2.0);
}

/// Every stored entity is in exactly one place: the archetypes, taken in
/// identifier order, hold exactly the located entities, each once.
pub proof fn lemma_entities_located(s: ArchetypeStorage)
    requires
        s.wf(),
    ensures
        entities_of(s.id_order(), s.archetype_map()).no_duplicates(),
        entities_of(s.id_order(), s.archetype_map()).to_set() == s.locations().dom(),
{
    s.lemma_ids_unique();
    let ids = s.id_order();
    let map = s.archetype_map();
    let all = entities_of(ids, map);
    assert forall|k: int| 0 <= k < ids.len() implies map.contains_key(#[trigger] ids[k]) by {
        assert(ids.to_set().contains(ids[k]));
    }
    lemma_entities_of_distinct(ids, map, s.locations());
    assert forall|e: usize| s.locations().contains_key(e) implies #[trigger] all.to_set().contains(e) by {
        let loc = s.locations()[e];
        assert(map.contains_key(loc.0));
        assert(ids.to_set().contains(loc.0));
        let k = choose|k: int| 0 <= k < ids.len() && ids[k] == loc.0;
        lemma_entities_of_contains(ids, map, k, loc.1 as int);
    }
    assert forall|e: usize| #[trigger] all.to_set().contains(e) implies s.locations().contains_key(e) by {
        let j = choose|j: int| 0 <= j < all.len() && all[j] == e;
    }
    assert(all.to_set() =~= s.locations().dom());
}

/// The entity at index `x` of the `k`-th listed archetype is among the
/// entities of the listed archetypes.
proof fn lemma_entities_of_contains(ids: Seq<ArchetypeId>, map: Map<ArchetypeId, Archetype>, k: int, x: int)
    requires
        0 <= k < ids.len(),
        0 <= x < map[ids[k]].entities().len(),
    ensures
        entities_of(ids, map).contains(map[ids[k]].entities()[x]),
    decreases ids.len(),
{
    let rest = entities_of(ids.drop_last(), map);
    let ents = map[ids.last()].entities();
    assert(entities_of(ids, map) == rest + ents);
    if k == ids.len() - 1 {
        assert((rest + ents)[rest.len() + x] == ents[x]);
    } else {
        assert(ids.drop_last()[k] == ids[k]);
        lemma_entities_of_contains(ids.drop_last(), map, k, x);
        let j = choose|j: int| 0 <= j < rest.len() && rest[j] == map[ids[k]].entities()[x];
        assert((rest + ents)[j] == rest[j]);
    }
}

impl Default for ArchetypeStorage {
    fn default() -> (r: Self)
        ensures
            r.wf(),
            r.archetype_map() == Map::<ArchetypeId, Archetype>::empty(),
            r.locations() == Map::<usize, (ArchetypeId, usize)>::empty(),
    {
        Self::new()
    }
}

} // verus!
