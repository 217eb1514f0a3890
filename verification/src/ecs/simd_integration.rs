//! Collision counting for batched overlap tests, and the grid of cells
//! that spatial queries look entities up in.

use vstd::prelude::*;

verus! {

/// SIMD batch size for f32 operations (4 floats = 128 bits)
pub const SIMD_F32_BATCH: usize = 4;

/// SIMD batch size for u8 operations (16 bytes = 128 bits)
pub const SIMD_U8_BATCH: usize = 16;

/// The number of `true` values among the first `n` results.
pub open spec fn count_true(results: Seq<bool>, n: int) -> nat
    decreases n,
{
    if n <= 0 {
        0
    } else {
        count_true(results, n - 1) + if results[n - 1] {
            1nat
        } else {
            0nat
        }
    }
}

proof fn lemma_count_true_bound(results: Seq<bool>, n: int)
    requires
        0 <= n <= results.len(),
    ensures
        count_true(results, n) <= n,
    decreases n,
{
    if n > 0 {
        lemma_count_true_bound(results, n - 1);
    }
}

/// Counts the collisions found by a batch of overlap tests.
#[derive(Debug)]
pub struct CollisionSimdDetector {
    /// Collision count from the last batch
    collisions: usize,
}

impl CollisionSimdDetector {
    pub closed spec fn spec_collisions(&self) -> usize {
        self.collisions
    }

    /// Creates a new detector with no collisions counted
    pub fn new() -> (r: Self)
        ensures
            r.spec_collisions() == 0,
    {
        Self { collisions: 0 }
    }

    /// Resets the collision count
    pub fn reset(&mut self)
        ensures
            final(self).spec_collisions() == 0,
    {
        self.collisions = 0;
    }

    /// Records a batch of overlap results: the count becomes the number of overlaps.
    pub fn record_results(&mut self, results: &[bool])
        ensures
            final(self).spec_collisions() == count_true(results@, results@.len() as int),
    {
        self.collisions = 0;
        let mut i: usize = 0;
        while i < results.len()
            invariant
                i <= results@.len(),
                self.collisions == count_true(results@, i as int),
            decreases results@.len() - i,
        {
            proof {
                lemma_count_true_bound(results@, i as int);
            }
            if results[i] {
                self.collisions = self.collisions + 1;
            }
            i = i + 1;
        }
    }

    /// Returns the collision count from the last batch
    pub fn collision_count(&self) -> (r: usize)
        ensures
            r == self.spec_collisions(),
    {
        self.collisions
    }
}

impl Default for CollisionSimdDetector {
    fn default() -> (r: Self)
        ensures
            r.spec_collisions() == 0,
    {
        Self::new()
    }
}

/// A cell of the spatial grid, by its integer coordinates.
pub type GridCell = (i32, i32, i32);

/// The entities of each occupied cell, as values.
pub open spec fn grid_entries(cells: Seq<(GridCell, Vec<usize>)>) -> Seq<(GridCell, Seq<usize>)> {
    Seq::new(cells.len(), |i: int| (cells[i].0, cells[i].1@))
}

/// No cell occurs twice.
pub open spec fn cells_distinct(s: Seq<(GridCell, Seq<usize>)>) -> bool {
    forall|i: int, j: int| 0 <= i < j < s.len() ==> (#[trigger] s[i]).0 != (#[trigger] s[j]).0
}

/// Where the cell `c` stands in `s`, if it does.
pub open spec fn cell_position(s: Seq<(GridCell, Seq<usize>)>, c: GridCell) -> Option<int> {
    if exists|i: int| 0 <= i < s.len() && (#[trigger] s[i]).0 == c {
        Some(choose|i: int| 0 <= i < s.len() && (#[trigger] s[i]).0 == c)
    } else {
        None
    }
}

/// The entities recorded in the cell `c`, in the order they were added.
pub open spec fn entities_at(s: Seq<(GridCell, Seq<usize>)>, c: GridCell) -> Seq<usize> {
    match cell_position(s, c) {
        Some(i) => s[i].1,
        None => Seq::empty(),
    }
}

/// `ids` without any occurrence of `id`.
pub open spec fn without(ids: Seq<usize>, id: usize) -> Seq<usize>
    decreases ids.len(),
{
    if ids.len() == 0 {
        ids
    } else if ids.last() == id {
        without(ids.drop_last(), id)
    } else {
        without(ids.drop_last(), id).push(ids.last())
    }
}

/// The grid after adding `id` to the cell `c`: at the end of the cell's
/// entities, the cell becoming the last occupied one if it was not.
pub open spec fn grid_insert(s: Seq<(GridCell, Seq<usize>)>, id: usize, c: GridCell) -> Seq<(GridCell, Seq<usize>)> {
    match cell_position(s, c) {
        Some(i) => s.update(i, (c, s[i].1.push(id))),
        None => s.push((c, seq![id])),
    }
}

/// The grid after taking `id` out of the cell `c` (the cell stays, empty or
/// not).
pub open spec fn grid_remove(s: Seq<(GridCell, Seq<usize>)>, id: usize, c: GridCell) -> Seq<(GridCell, Seq<usize>)> {
    match cell_position(s, c) {
        Some(i) => s.update(i, (c, without(s[i].1, id))),
        None => s,
    }
}

/// The number of entities recorded over all cells.
pub open spec fn grid_total(s: Seq<(GridCell, Seq<usize>)>) -> nat
    decreases s.len(),
{
    if s.len() == 0 {
        0
    } else {
        grid_total(s.drop_last()) + s.last().1.len()
    }
}

/// The cell at the offsets from `c`.
pub open spec fn offset_cell(c: GridCell, dx: int, dy: int, dz: int) -> GridCell {
    ((c.0 + dx) as i32, (c.1 + dy) as i32, (c.2 + dz) as i32)
}

/// The entities of the first `n` cells of the row at `dy`, `dz` from
/// `center`, from `dx = -r` on.
pub open spec fn row_entities(s: Seq<(GridCell, Seq<usize>)>, center: GridCell, r: int, dy: int, dz: int, n: int) -> Seq<usize>
    decreases n,
{
    if n <= 0 {
        Seq::empty()
    } else {
        row_entities(s, center, r, dy, dz, n - 1) + entities_at(s, offset_cell(center, -r + n - 1, dy, dz))
    }
}

/// The entities of the first `n` rows of the layer at `dz` from `center`,
/// from `dy = -r` on.
pub open spec fn layer_entities(s: Seq<(GridCell, Seq<usize>)>, center: GridCell, r: int, dz: int, n: int) -> Seq<usize>
    decreases n,
{
    if n <= 0 {
        Seq::empty()
    } else {
        layer_entities(s, center, r, dz, n - 1) + row_entities(s, center, r, -r + n - 1, dz, 2 * r + 1)
    }
}

/// The entities of the first `n` layers around `center`, from `dz = -r` on.
pub open spec fn block_entities(s: Seq<(GridCell, Seq<usize>)>, center: GridCell, r: int, n: int) -> Seq<usize>
    decreases n,
{
    if n <= 0 {
        Seq::empty()
    } else {
        block_entities(s, center, r, n - 1) + layer_entities(s, center, r, -r + n - 1, 2 * r + 1)
    }
}

/// The entities of the cells within `r` cells of `center` on each axis:
/// layer by layer (`dz`), row by row (`dy`), cell by cell (`dx`), each
/// offset from `-r` to `r`; none when `r` is negative.
pub open spec fn entities_around(s: Seq<(GridCell, Seq<usize>)>, center: GridCell, r: int) -> Seq<usize> {
    if r < 0 {
        Seq::empty()
    } else {
        block_entities(s, center, r, 2 * r + 1)
    }
}

/// Whether the offsets up to `r` from `center` stay within `i32`.
pub open spec fn around_in_range(center: GridCell, r: i32) -> bool {
    r >= 0 ==> {
        &&& i32::MIN <= center.0 - r && center.0 + r <= i32::MAX
        &&& i32::MIN <= center.1 - r && center.1 + r <= i32::MAX
        &&& i32::MIN <= center.2 - r && center.2 + r <= i32::MAX
    }
}


/// In a grid without repeated cells, a cell stands where its key is.
proof fn lemma_cell_position(s: Seq<(GridCell, Seq<usize>)>, c: GridCell, i: int)
    requires
        cells_distinct(s),
        0 <= i < s.len(),
        s[i].0 == c,
    ensures
        cell_position(s, c) == Some(i),
{
    assert(exists|j: int| 0 <= j < s.len() && (#[trigger] s[j]).0 == c);
    let k = choose|j: int| 0 <= j < s.len() && (#[trigger] s[j]).0 == c;
    if k != i {
        if k < i {
            assert(s[k].0 != s[i].0);
        } else {
            assert(s[i].0 != s[k].0);
        }
    }
}

/// Membership in a sequence is membership in all but its last element, or
/// being that element.
proof fn lemma_contains_split(ids: Seq<usize>, x: usize)
    requires
        ids.len() > 0,
    ensures
        ids.contains(x) <==> (ids.drop_last().contains(x) || ids.last() == x),
{
    let d = ids.drop_last();
    if ids.contains(x) {
        let k = choose|k: int| 0 <= k < ids.len() && ids[k] == x;
        if k < d.len() {
            assert(d[k] == x);
        }
    }
    if d.contains(x) {
        let k = choose|k: int| 0 <= k < d.len() && d[k] == x;
        assert(ids[k] == x);
    }
    if ids.last() == x {
        assert(ids[ids.len() - 1] == x);
    }
}

/// `without` leaves no occurrence of the removed entity and keeps every
/// other one.
proof fn lemma_without(ids: Seq<usize>, id: usize, x: usize)
    ensures
        !without(ids, id).contains(id),
        x != id ==> (ids.contains(x) <==> without(ids, id).contains(x)),
    decreases ids.len(),
{
    if ids.len() > 0 {
        let d = ids.drop_last();
        lemma_without(d, id, x);
        lemma_contains_split(ids, x);
        let w = without(ids, id);
        if ids.last() != id {
            assert(w.drop_last() =~= without(d, id));
            lemma_contains_split(w, x);
            lemma_contains_split(w, id);
        }
    }
}

/// After an entity is recorded in a cell, the cell holds its entities as
/// before followed by the new one, every other cell is unchanged, the grid
/// holds one entity more, and it has one cell more exactly when the cell
/// was not occupied.
pub proof fn lemma_grid_insert(s: Seq<(GridCell, Seq<usize>)>, id: usize, c: GridCell)
    requires
        cells_distinct(s),
    ensures
        cells_distinct(grid_insert(s, id, c)),
        entities_at(grid_insert(s, id, c), c) == entities_at(s, c).push(id),
        forall|d: GridCell| d != c ==> entities_at(grid_insert(s, id, c), d) == entities_at(s, d),
        grid_total(grid_insert(s, id, c)) == grid_total(s) + 1,
        grid_insert(s, id, c).len() == s.len() + if cell_position(s, c) is None {
            1int
        } else {
            0int
        },
{
    let t = grid_insert(s, id, c);
    match cell_position(s, c) {
        Some(i) => {
            lemma_cell_position(s, c, i);
            assert(s[i].0 == c);
            lemma_cell_position(t, c, i);
            assert forall|d: GridCell| d != c implies entities_at(t, d) == entities_at(s, d) by {
                if let Some(j) = cell_position(s, d) {
                    assert(s[j].0 == d);
                    lemma_cell_position(t, d, j);
                } else {
                    assert forall|j: int| 0 <= j < t.len() implies (#[trigger] t[j]).0 != d by {
                        if t[j].0 == d {
                            assert(s[j].0 == d);
                        }
                    }
                }
            }
            lemma_grid_total_update(s, i, s[i].1.push(id));
        },
        None => {
            assert forall|j: int| 0 <= j < s.len() implies (#[trigger] s[j]).0 != c by {
                if s[j].0 == c {
                    assert(exists|k: int| 0 <= k < s.len() && (#[trigger] s[k]).0 == c);
                }
            }
            lemma_cell_position(t, c, s.len() as int);
            assert forall|d: GridCell| d != c implies entities_at(t, d) == entities_at(s, d) by {
                if let Some(j) = cell_position(s, d) {
                    assert(s[j].0 == d);
                    lemma_cell_position(t, d, j);
                } else {
                    assert forall|j: int| 0 <= j < t.len() implies (#[trigger] t[j]).0 != d by {
                        if j < s.len() && t[j].0 == d {
                            assert(s[j].0 == d);
                        }
                    }
                }
            }
            assert(t.drop_last() =~= s);
        },
    }
}

/// The total after replacing the entities of one cell.
proof fn lemma_grid_total_update(s: Seq<(GridCell, Seq<usize>)>, i: int, ids: Seq<usize>)
    requires
        0 <= i < s.len(),
    ensures
        grid_total(s.update(i, (s[i].0, ids))) == grid_total(s) - s[i].1.len() + ids.len(),
    decreases s.len(),
{
    let t = s.update(i, (s[i].0, ids));
    if i == s.len() - 1 {
        assert(t.drop_last() =~= s.drop_last());
    } else {
        lemma_grid_total_update(s.drop_last(), i, ids);
        assert(t.drop_last() =~= s.drop_last().update(i, (s[i].0, ids)));
    }
}

/// After an entity is taken out of a cell, the cell no longer holds it,
/// keeps every other entity it held, and every other cell is unchanged.
pub proof fn lemma_grid_remove(s: Seq<(GridCell, Seq<usize>)>, id: usize, c: GridCell)
    requires
        cells_distinct(s),
    ensures
        cells_distinct(grid_remove(s, id, c)),
        !entities_at(grid_remove(s, id, c), c).contains(id),
        forall|x: usize| x != id ==> (entities_at(s, c).contains(x) <==> entities_at(grid_remove(s, id, c), c).contains(x)),
        forall|d: GridCell| d != c ==> entities_at(grid_remove(s, id, c), d) == entities_at(s, d),
        grid_remove(s, id, c).len() == s.len(),
{
    let t = grid_remove(s, id, c);
    match cell_position(s, c) {
        Some(i) => {
            lemma_cell_position(s, c, i);
            assert(s[i].0 == c);
            lemma_cell_position(t, c, i);
            lemma_without(s[i].1, id, id);
            assert forall|x: usize| x != id implies (entities_at(s, c).contains(x) <==> entities_at(t, c).contains(x)) by {
                lemma_without(s[i].1, id, x);
            }
            assert forall|d: GridCell| d != c implies entities_at(t, d) == entities_at(s, d) by {
                if let Some(j) = cell_position(s, d) {
                    assert(s[j].0 == d);
                    lemma_cell_position(t, d, j);
                } else {
                    assert forall|j: int| 0 <= j < t.len() implies (#[trigger] t[j]).0 != d by {
                        if t[j].0 == d {
                            assert(s[j].0 == d);
                        }
                    }
                }
            }
        },
        None => {
        },
    }
}

/// Whether two cells are the same.
fn same_cell(a: GridCell, b: GridCell) -> (r: bool)
    ensures
        r == (a == b),
{
    a.0 == b.0 && a.1 == b.1 && a.2 == b.2
}

/// The grid of cells that spatial queries look entities up in: for each
/// occupied cell, the entities recorded there.
#[derive(Debug)]
pub struct SpatialGrid {
    cells: Vec<(GridCell, Vec<usize>)>,
}

impl View for SpatialGrid {
    type V = Seq<(GridCell, Seq<usize>)>;

    closed spec fn view(&self) -> Seq<(GridCell, Seq<usize>)> {
        grid_entries(self.cells@)
    }
}

impl SpatialGrid {
    /// Well-formed: no cell occurs twice.
    pub open spec fn wf(&self) -> bool {
        cells_distinct(self@)
    }

    /// An empty grid.
    pub fn new() -> (r: Self)
        ensures
            r.wf(),
            r@ == Seq::<(GridCell, Seq<usize>)>::empty(),
    {
        let r = SpatialGrid { cells: Vec::new() };
        assert(r@ =~= Seq::<(GridCell, Seq<usize>)>::empty());
        r
    }

    /// Where the cell stands, if it is occupied.
    fn find_cell(&self, c: GridCell) -> (r: Option<usize>)
        requires
            self.wf(),
        ensures
            match r {
                Some(i) => cell_position(self@, c) == Some(i as int) && i < self@.len() && self@[i as int].0 == c,
                None => cell_position(self@, c) is None,
            },
    {
        let mut i: usize = 0;
        while i < self.cells.len()
            invariant
                self.wf(),
                i <= self.cells.len(),
                self@.len() == self.cells.len(),
                forall|j: int| 0 <= j < i ==> (#[trigger] self@[j]).0 != c,
            decreases self.cells.len() - i,
        {
            assert(self@[i as int].0 == self.cells@[i as int].0);
            if same_cell(self.cells[i].0, c) {
                assert(exists|j: int| 0 <= j < self@.len() && (#[trigger] self@[j]).0 == c);
                let ghost k = choose|k: int| 0 <= k < self@.len() && (#[trigger] self@[k]).0 == c;
                assert(k == i) by {
                    if k < i {
                    } else if k > i {
                        assert(self@[i as int].0 != self@[k].0);
                    }
                }
                return Some(i);
            }
            i += 1;
        }
        None
    }

    /// Records the entity in the cell.
    pub fn insert(&mut self, entity_id: usize, c: GridCell)
        requires
            old(self).wf(),
        ensures
            final(self).wf(),
            final(self)@ == grid_insert(old(self)@, entity_id, c),
    {
        match self.find_cell(c) {
            Some(i) => {
                let ghost before = self@;
                let mut entry = (c, Vec::new());
                std::mem::swap(&mut entry, &mut self.cells[i]);
                entry.1.push(entity_id);
                self.cells.set(i, entry);
                assert(self@ =~~= before.update(i as int, (c, before[i as int].1.push(entity_id))));
            },
            None => {
                let ghost before = self@;
                let mut ids = Vec::new();
                ids.push(entity_id);
                self.cells.push((c, ids));
                assert(self@ =~= before.push((c, seq![entity_id])));
            },
        }
    }

    /// Takes every occurrence of the entity out of the cell.
    pub fn remove(&mut self, entity_id: usize, c: GridCell)
        requires
            old(self).wf(),
        ensures
            final(self).wf(),
            final(self)@ == grid_remove(old(self)@, entity_id, c),
    {
        if let Some(i) = self.find_cell(c) {
            let ghost before = self@;
            assert(before[i as int].0 == c);
            let mut entry = (c, Vec::new());
            std::mem::swap(&mut entry, &mut self.cells[i]);
            let old_ids = entry.1;
            let mut kept: Vec<usize> = Vec::new();
            let mut k: usize = 0;
            while k < old_ids.len()
                invariant
                    k <= old_ids.len(),
                    kept@ == without(old_ids@.subrange(0, k as int), entity_id),
                decreases old_ids.len() - k,
            {
                assert(old_ids@.subrange(0, k + 1).drop_last() =~= old_ids@.subrange(0, k as int));
                if old_ids[k] != entity_id {
                    kept.push(old_ids[k]);
                }
                k += 1;
            }
            assert(old_ids@.subrange(0, k as int) =~= old_ids@);
            self.cells.set(i, (c, kept));
            assert(self@ =~~= before.update(i as int, (c, without(before[i as int].1, entity_id))));
        }
    }

    /// Moves the entity from one cell to another; nothing when they are the
    /// same cell.
    pub fn update(&mut self, entity_id: usize, old_cell: GridCell, new_cell: GridCell)
        requires
            old(self).wf(),
        ensures
            final(self).wf(),
            final(self)@ == if old_cell == new_cell {
                old(self)@
            } else {
                grid_insert(grid_remove(old(self)@, entity_id, old_cell), entity_id, new_cell)
            },
    {
        if same_cell(old_cell, new_cell) {
            return;
        }
        self.remove(entity_id, old_cell);
        self.insert(entity_id, new_cell);
    }

    /// Appends the entities of the cell to `out`.
    fn extend_with_cell(&self, c: GridCell, out: &mut Vec<usize>)
        requires
            self.wf(),
        ensures
            final(out)@ == old(out)@ + entities_at(self@, c),
    {
        if let Some(i) = self.find_cell(c) {
            let ids = &self.cells[i].1;
            let ghost start = out@;
            let mut k: usize = 0;
            while k < ids.len()
                invariant
                    k <= ids.len(),
                    out@ == start + ids@.subrange(0, k as int),
                decreases ids.len() - k,
            {
                out.push(ids[k]);
                assert(ids@.subrange(0, k + 1) =~= ids@.subrange(0, k as int).push(ids@[k as int]));
                k += 1;
            }
            assert(ids@.subrange(0, k as int) =~= ids@);
            assert(self@[i as int] == (self.cells@[i as int].0, self.cells@[i as int].1@));
            assert(entities_at(self@, c) == ids@);
        } else {
            assert(out@ =~= old(out)@ + entities_at(self@, c));
        }
    }

    /// The entities of the cell, in the order they were recorded.
    pub fn query_cell(&self, c: GridCell) -> (r: Vec<usize>)
        requires
            self.wf(),
        ensures
            r@ == entities_at(self@, c),
    {
        let mut out: Vec<usize> = Vec::new();
        self.extend_with_cell(c, &mut out);
        assert(out@ =~= entities_at(self@, c));
        out
    }

    /// The entities of the cells within `cell_radius` cells of `center` on
    /// each axis (see `entities_around`).
    pub fn query_around(&self, center: GridCell, cell_radius: i32) -> (r: Vec<usize>)
        requires
            self.wf(),
            around_in_range(center, cell_radius),
        ensures
            r@ == entities_around(self@, center, cell_radius as int),
    {
        let mut out: Vec<usize> = Vec::new();
        if cell_radius < 0 {
            assert(out@ =~= entities_around(self@, center, cell_radius as int));
            return out;
        }
        let r: i64 = cell_radius as i64;
        let ghost rr = r as int;
        let width: i64 = 2 * r + 1;
        let mut kz: i64 = 0;
        assert(out@ =~= block_entities(self@, center, rr, 0));
        while kz < width
            invariant
                self.wf(),
                0 <= r <= i32::MAX,
                r == rr,
                r == cell_radius,
                width == 2 * rr + 1,
                around_in_range(center, cell_radius),
                0 <= kz <= width,
                out@ == block_entities(self@, center, rr, kz as int),
            decreases width - kz,
        {
            let dz: i32 = (kz - r) as i32;
            let mut ky: i64 = 0;
            assert(out@ =~= block_entities(self@, center, rr, kz as int) + layer_entities(self@, center, rr, dz as int, 0));
            while ky < width
                invariant
                    self.wf(),
                    0 <= r <= i32::MAX,
                    r == rr,
                    r == cell_radius,
                    width == 2 * rr + 1,
                    around_in_range(center, cell_radius),
                    0 <= kz < width,
                    dz == kz - r,
                    0 <= ky <= width,
                    out@ == block_entities(self@, center, rr, kz as int) + layer_entities(self@, center, rr, dz as int, ky as int),
                decreases width - ky,
            {
                let dy: i32 = (ky - r) as i32;
                let mut kx: i64 = 0;
                assert(out@ =~= block_entities(self@, center, rr, kz as int) + layer_entities(self@, center, rr, dz as int, ky as int)
                    + row_entities(self@, center, rr, dy as int, dz as int, 0));
                while kx < width
                    invariant
                        self.wf(),
                        0 <= r <= i32::MAX,
                        r == rr,
                        r == cell_radius,
                        width == 2 * rr + 1,
                        around_in_range(center, cell_radius),
                        0 <= kz < width,
                        dz == kz - r,
                        0 <= ky < width,
                        dy == ky - r,
                        0 <= kx <= width,
                        out@ == block_entities(self@, center, rr, kz as int) + layer_entities(self@, center, rr, dz as int, ky as int)
                            + row_entities(self@, center, rr, dy as int, dz as int, kx as int),
                    decreases width - kx,
                {
                    let dx: i32 = (kx - r) as i32;
                    let c: GridCell = (center.0 + dx, center.1 + dy, center.2 + dz);
                    assert(c == offset_cell(center, dx as int, dy as int, dz as int));
                    self.extend_with_cell(c, &mut out);
                    assert(out@ =~= block_entities(self@, center, rr, kz as int) + layer_entities(self@, center, rr, dz as int, ky as int)
                        + row_entities(self@, center, rr, dy as int, dz as int, kx + 1));
                    kx += 1;
                }
                assert(out@ =~= block_entities(self@, center, rr, kz as int) + layer_entities(self@, center, rr, dz as int, ky + 1));
                ky += 1;
            }
            assert(out@ =~= block_entities(self@, center, rr, kz + 1));
            kz += 1;
        }
        out
    }

    /// Forgets every cell.
    pub fn clear(&mut self)
        ensures
            final(self).wf(),
            final(self)@ == Seq::<(GridCell, Seq<usize>)>::empty(),
    {
        self.cells.clear();
        assert(self@ =~= Seq::<(GridCell, Seq<usize>)>::empty());
    }

    /// The number of occupied cells (a cell stays counted once its last
    /// entity is removed).
    pub fn cell_count(&self) -> (r: usize)
        ensures
            r == self@.len(),
    {
        self.cells.len()
    }

    /// The number of entities recorded over all cells.
    pub fn entity_count(&self) -> (r: usize)
        requires
            grid_total(self@) <= usize::MAX,
        ensures
            r == grid_total(self@),
    {
        let mut total: usize = 0;
        let mut i: usize = 0;
        while i < self.cells.len()
            invariant
                i <= self.cells.len(),
                self@.len() == self.cells.len(),
                grid_total(self@) <= usize::MAX,
                total == grid_total(self@.subrange(0, i as int)),
            decreases self.cells.len() - i,
        {
            proof {
                lemma_grid_total_prefix(self@, i as int);
            }
            assert(self@[i as int].1.len() == self.cells@[i as int].1.len());
            total = total + self.cells[i].1.len();
            i += 1;
        }
        assert(self@.subrange(0, i as int) =~= self@);
        total
    }
}

/// Totals over prefixes grow one cell at a time up to the whole total.
proof fn lemma_grid_total_prefix(s: Seq<(GridCell, Seq<usize>)>, i: int)
    requires
        0 <= i < s.len(),
    ensures
        grid_total(s.subrange(0, i + 1)) == grid_total(s.subrange(0, i)) + s[i].1.len(),
        grid_total(s.subrange(0, i + 1)) <= grid_total(s),
    decreases s.len(),
{
    assert(s.subrange(0, i + 1).drop_last() =~= s.subrange(0, i));
    if i + 1 < s.len() {
        lemma_grid_total_prefix(s.drop_last(), i);
        assert(s.drop_last().subrange(0, i + 1) =~= s.subrange(0, i + 1));
        assert(s.drop_last().subrange(0, i) =~= s.subrange(0, i));
    } else {
        assert(s.subrange(0, i + 1) =~= s);
    }
}

impl Default for SpatialGrid {
    fn default() -> (r: Self)
        ensures
            r.wf(),
            r@ == Seq::<(GridCell, Seq<usize>)>::empty(),
    {
        SpatialGrid::new()
    }
}

} // verus!
