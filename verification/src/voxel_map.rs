//! Occupancy grid with the sticky upgrade rule: a cell only ever moves up
//! the order `Unknown < Free < Occupied`.

use vstd::prelude::*;
use bevy::platform::collections::HashSet;
use bevy::platform::hash::FixedHasher;
use crate::grid::{
    CellCoord, GridDims, grid_index, lemma_cast_i32, lemma_cast_i32_injective, lemma_coords_of_flat, lemma_flat_in_range,
    lemma_flat_of_coords,
};
use crate::known_set::{
    held_indices, index_set_clone, index_set_elements, index_set_insert, index_set_new, index_set_remove,
};

verus! {

/// What is known of one voxel.
#[derive(Clone, Copy, PartialEq, Eq, Debug, Structural)]
pub enum CellState {
    Unknown,
    Free,
    Occupied,
}

/// Position of a state in the order `Unknown < Free < Occupied`.
pub open spec fn rank(s: CellState) -> int {
    match s {
        CellState::Unknown => 0,
        CellState::Free => 1,
        CellState::Occupied => 2,
    }
}

/// The upgrade rule: `Occupied` wins over everything, `Free` wins over
/// `Unknown` only.
pub open spec fn join(current: CellState, observed: CellState) -> CellState {
    if current == CellState::Occupied || observed == CellState::Occupied {
        CellState::Occupied
    } else if current == CellState::Free || observed == CellState::Free {
        CellState::Free
    } else {
        CellState::Unknown
    }
}

/// Number of cells of `s` that are in state `st`.
pub open spec fn count_state(s: Seq<CellState>, st: CellState) -> nat
    decreases s.len(),
{
    if s.len() == 0 {
        0
    } else {
        count_state(s.drop_last(), st) + (if s.last() == st { 1nat } else { 0nat })
    }
}

pub proof fn lemma_count_bound(s: Seq<CellState>, st: CellState)
    ensures
        count_state(s, st) <= s.len(),
    decreases s.len(),
{
    if s.len() > 0 {
        lemma_count_bound(s.drop_last(), st);
    }
}

pub proof fn lemma_count_update(s: Seq<CellState>, i: int, v: CellState, st: CellState)
    requires
        0 <= i < s.len(),
    ensures
        count_state(s.update(i, v), st) + (if s[i] == st { 1int } else { 0int })
            == count_state(s, st) + (if v == st { 1int } else { 0int }),
    decreases s.len(),
{
    if i == s.len() - 1 {
        assert(s.update(i, v).drop_last() =~= s.drop_last());
    } else {
        lemma_count_update(s.drop_last(), i, v, st);
        assert(s.update(i, v).drop_last() =~= s.drop_last().update(i, v));
    }
}

pub proof fn lemma_count_uniform(n: nat, v: CellState, st: CellState)
    ensures
        count_state(Seq::new(n, |k: int| v), st) == (if v == st { n } else { 0 }),
    decreases n,
{
    if n > 0 {
        lemma_count_uniform((n - 1) as nat, v, st);
        assert(Seq::new(n, |k: int| v).drop_last() =~= Seq::new((n - 1) as nat, |k: int| v));
    }
}

/// The known cells are finite, and as many as the `Free` and the
/// `Occupied` cells together.
proof fn lemma_known_count(cells: Seq<CellState>)
    requires
        cells.len() <= u32::MAX + 1,
    ensures
        known_indices(cells).finite(),
        known_indices(cells).len() == count_state(cells, CellState::Free) + count_state(
            cells,
            CellState::Occupied,
        ),
    decreases cells.len(),
{
    if cells.len() == 0 {
        assert(known_indices(cells) =~= Set::<u32>::empty());
    } else {
        let p = cells.drop_last();
        lemma_known_count(p);
        let n = (cells.len() - 1) as u32;
        if cells.last() == CellState::Unknown {
            assert(known_indices(cells) =~= known_indices(p));
        } else {
            assert(known_indices(cells) =~= known_indices(p).insert(n));
            assert(!known_indices(p).contains(n));
        }
    }
}

/// Flat indices of the cells of `cells` that are not `Unknown`.
pub open spec fn known_indices(cells: Seq<CellState>) -> Set<u32> {
    Set::new(|i: u32| (i as int) < cells.len() && cells[i as int] != CellState::Unknown)
}

/// State of cell `p` of a grid `dims` holding `cells`; cells outside the
/// grid read as `Unknown`.
pub open spec fn state_at(dims: GridDims, cells: Seq<CellState>, p: CellCoord) -> CellState {
    match dims.index_of(p) {
        Some(i) => cells[i],
        None => CellState::Unknown,
    }
}

/// Whether observing `observed` at `p` turns an in-grid cell `Occupied` that
/// was not before.
pub open spec fn newly_occupied(
    dims: GridDims,
    cells: Seq<CellState>,
    p: CellCoord,
    observed: CellState,
) -> bool {
    match dims.index_of(p) {
        Some(i) => cells[i] != CellState::Occupied && join(cells[i], observed)
            == CellState::Occupied,
        None => false,
    }
}

/// Cells of a grid `dims` after observing `obs` at `p` (cells outside the
/// grid are ignored).
pub open spec fn observe(dims: GridDims, cells: Seq<CellState>, p: CellCoord, obs: CellState) -> Seq<
    CellState,
> {
    match dims.index_of(p) {
        Some(i) => cells.update(i, join(cells[i], obs)),
        None => cells,
    }
}

/// One `upgrade` of cell `p` with `obs`, as (cells, newly-`Occupied` list):
/// the cell is joined with `obs`, and its index is appended to the list
/// when it turns `Occupied`.
pub open spec fn upgrade_step(
    dims: GridDims,
    cells: Seq<CellState>,
    dirty: Seq<u32>,
    p: CellCoord,
    obs: CellState,
) -> (Seq<CellState>, Seq<u32>) {
    (
        observe(dims, cells, p, obs),
        if newly_occupied(dims, cells, p, obs) {
            dirty.push(dims.index_of(p).unwrap() as u32)
        } else {
            dirty
        },
    )
}

/// `upgrade` applied to each `(cell, observation)` of `ops` in turn.
pub open spec fn replay_upgrades(
    dims: GridDims,
    cells: Seq<CellState>,
    dirty: Seq<u32>,
    ops: Seq<(CellCoord, CellState)>,
) -> (Seq<CellState>, Seq<u32>)
    decreases ops.len(),
{
    if ops.len() == 0 {
        (cells, dirty)
    } else {
        let (c, d) = replay_upgrades(dims, cells, dirty, ops.drop_last());
        upgrade_step(dims, c, d, ops.last().0, ops.last().1)
    }
}

/// Flat indices of the cells that are `Occupied` in `after` but were not
/// in `before`.
pub open spec fn turned_occupied(before: Seq<CellState>, after: Seq<CellState>) -> Set<u32> {
    Set::new(
        |i: u32|
            (i as int) < before.len() && before[i as int] != CellState::Occupied && after[i as int]
                == CellState::Occupied,
    )
}

/// No cell that was `Occupied` in `before` is anything else in `after`.
pub open spec fn keeps_walls(before: Seq<CellState>, after: Seq<CellState>) -> bool {
    &&& after.len() == before.len()
    &&& forall|i: int|
        0 <= i < before.len() && before[i] == CellState::Occupied ==> #[trigger] after[i]
            == CellState::Occupied
}

/// The newly-`Occupied` list went from `d0` to `d` while the cells went from
/// `before` to `after`: `d0` is kept as it was, and what follows it lists
/// each cell that turned `Occupied` exactly once, and nothing else.
pub open spec fn records_new_walls(
    d0: Seq<u32>,
    d: Seq<u32>,
    before: Seq<CellState>,
    after: Seq<CellState>,
) -> bool {
    &&& d.len() >= d0.len()
    &&& d.take(d0.len() as int) == d0
    &&& d.skip(d0.len() as int).no_duplicates()
    &&& d.skip(d0.len() as int).to_set() == turned_occupied(before, after)
}

/// One more `upgrade` keeps the record of new walls exact.
pub proof fn lemma_upgrade_records_new_walls(
    dims: GridDims,
    c0: Seq<CellState>,
    d0: Seq<u32>,
    c: Seq<CellState>,
    d: Seq<u32>,
    p: CellCoord,
    obs: CellState,
)
    requires
        c0.len() == dims.cell_count(),
        dims.cell_count() <= u32::MAX,
        keeps_walls(c0, c),
        records_new_walls(d0, d, c0, c),
    ensures
        keeps_walls(c0, upgrade_step(dims, c, d, p, obs).0),
        records_new_walls(
            d0,
            upgrade_step(dims, c, d, p, obs).1,
            c0,
            upgrade_step(dims, c, d, p, obs).0,
        ),
{
    let (c2, d2) = upgrade_step(dims, c, d, p, obs);
    let n = d0.len() as int;
    match dims.index_of(p) {
        Some(i) => {
            lemma_flat_in_range(dims, p.x as int, p.y as int, p.z as int);
            let iu = i as u32;
            assert(iu as int == i);
            if newly_occupied(dims, c, p, obs) {
                assert(!d.skip(n).to_set().contains(iu));
                assert(d2.take(n) =~= d0) by {
                    assert(d2.take(n) =~= d.take(n));
                }
                assert(d2.skip(n) =~= d.skip(n).push(iu));
                assert(d2.skip(n).to_set() =~= turned_occupied(c0, c2)) by {
                    assert(d.skip(n).push(iu).to_set() =~= d.skip(n).to_set().insert(iu)) by {
                        broadcast use vstd::seq_lib::group_seq_properties;
                    }
                    assert(turned_occupied(c0, c2) =~= turned_occupied(c0, c).insert(iu));
                }
                assert(d2.skip(n).no_duplicates()) by {
                    broadcast use vstd::seq_lib::group_seq_properties;
                    assert forall|a: int, b: int|
                        0 <= a < b < d2.skip(n).len() implies d2.skip(n)[a] != d2.skip(n)[b] by {
                        if b == d2.skip(n).len() - 1 {
                            assert(d.skip(n).contains(d.skip(n)[a]));
                        } else {
                            assert(d2.skip(n)[a] == d.skip(n)[a]);
                            assert(d2.skip(n)[b] == d.skip(n)[b]);
                        }
                    }
                }
            } else {
                assert(turned_occupied(c0, c2) =~= turned_occupied(c0, c));
            }
        },
        None => {},
    }
}

/// The signed coordinate of flat index `flat` in a grid `dims` (each axis
/// cast to `i32` as the executable code does).
pub open spec fn unflatten_spec(flat: int, dims: GridDims) -> CellCoord {
    CellCoord {
        x: dims.x_of(flat) as i32,
        y: dims.y_of(flat) as i32,
        z: dims.z_of(flat) as i32,
    }
}

/// The local cell, if any, that feeds global cell `gi` when a map over
/// `local` is merged into a map over `global`: the local cell with the same
/// coordinates, when that lies inside the local grid and each coordinate
/// fits an `i32`.
pub open spec fn merge_source(global: GridDims, local: GridDims, gi: int) -> Option<int> {
    let x = global.x_of(gi);
    let y = global.y_of(gi);
    let z = global.z_of(gi);
    if x < local.x && y < local.y && z < local.z && x <= i32::MAX && y <= i32::MAX && z
        <= i32::MAX {
        Some(local.flat_of(x, y, z))
    } else {
        None
    }
}

/// The cells of a map over `gd` holding `gc` after the known cells of a
/// map over `ld` holding `lc` were folded into it.
pub open spec fn merged_cells(
    gd: GridDims,
    gc: Seq<CellState>,
    ld: GridDims,
    lc: Seq<CellState>,
) -> Seq<CellState> {
    Seq::new(
        gc.len(),
        |gi: int|
            match merge_source(gd, ld, gi) {
                Some(li) => join(gc[gi], lc[li]),
                None => gc[gi],
            },
    )
}

/// The coordinate of a flat index in grid `dims`.
pub fn unflatten(flat: u32, dims: GridDims) -> (c: CellCoord)
    requires
        dims.x > 0,
        dims.y > 0,
        dims.x * dims.y <= u32::MAX,
    ensures
        c == unflatten_spec(flat as int, dims),
{
    let plane = dims.x * dims.y;
    assert(plane > 0) by (nonlinear_arith)
        requires
            plane == dims.x * dims.y,
            dims.x > 0,
            dims.y > 0,
    ;
    let z = flat / plane;
    let rem = flat % plane;
    let y = rem / dims.x;
    let x = rem % dims.x;
    CellCoord {
        x: #[verifier::truncate] (x as i32),
        y: #[verifier::truncate] (y as i32),
        z: #[verifier::truncate] (z as i32),
    }
}

/// Whether `entry` lists flat cell `i` of a grid `dims` holding `cells`.
pub open spec fn lists_cell(
    entry: (CellCoord, CellState),
    i: u32,
    dims: GridDims,
    cells: Seq<CellState>,
) -> bool {
    entry.0 == unflatten_spec(i as int, dims) && entry.1 == cells[i as int]
}

/// Whether `entry` lists some known cell of a grid `dims` holding `cells`.
pub open spec fn lists_known_cell(
    entry: (CellCoord, CellState),
    dims: GridDims,
    cells: Seq<CellState>,
) -> bool {
    exists|i: u32| #[trigger] known_indices(cells).contains(i) && lists_cell(entry, i, dims, cells)
}

/// Global cell `gi` part-way through a merge that has folded in the local
/// cells listed in `done`.
pub open spec fn partly_merged(
    gd: GridDims,
    gc: Seq<CellState>,
    ld: GridDims,
    lc: Seq<CellState>,
    done: Seq<u32>,
    gi: int,
) -> CellState {
    match merge_source(gd, ld, gi) {
        Some(li) => if done.contains(li as u32) {
            join(gc[gi], lc[li])
        } else {
            gc[gi]
        },
        None => gc[gi],
    }
}

/// The global cell that local cell `li` lands on, when it lands inside the
/// global grid, is exactly the global cell whose merge source is `li`.
proof fn lemma_merge_target(gd: GridDims, ld: GridDims, li: int)
    requires
        0 <= li < ld.cell_count(),
        ld.cell_count() <= u32::MAX,
    ensures
        match gd.index_of(unflatten_spec(li, ld)) {
            Some(gs) => merge_source(gd, ld, gs) == Some(li),
            None => true,
        },
        forall|gi: int|
            0 <= gi < gd.cell_count() && #[trigger] merge_source(gd, ld, gi) == Some(li)
                ==> gd.index_of(unflatten_spec(li, ld)) == Some(gi),
{
    lemma_flat_of_coords(ld, li);
    let lx = ld.x_of(li);
    let ly = ld.y_of(li);
    let lz = ld.z_of(li);
    lemma_cast_i32(lx);
    lemma_cast_i32(ly);
    lemma_cast_i32(lz);
    let cell = unflatten_spec(li, ld);
    if let Some(gs) = gd.index_of(cell) {
        lemma_coords_of_flat(gd, lx, ly, lz);
    }
    assert forall|gi: int|
        0 <= gi < gd.cell_count() && #[trigger] merge_source(gd, ld, gi) == Some(li) implies gd.index_of(
        cell,
    ) == Some(gi) by {
        lemma_flat_of_coords(gd, gi);
        let x = gd.x_of(gi);
        let y = gd.y_of(gi);
        let z = gd.z_of(gi);
        lemma_coords_of_flat(ld, x, y, z);
        lemma_cast_i32(x);
        lemma_cast_i32(y);
        lemma_cast_i32(z);
    }
}

/// A listing built index by index from a duplicate-free enumeration of the
/// known cells names each known cell exactly as `iter_known` promises.
proof fn lemma_known_listing(
    out: Seq<(CellCoord, CellState)>,
    ids: Seq<u32>,
    cells: Seq<CellState>,
    dims: GridDims,
)
    requires
        cells.len() == dims.cell_count(),
        dims.cell_count() <= u32::MAX,
        ids.no_duplicates(),
        ids.to_set() == known_indices(cells),
        out.len() == ids.len(),
        forall|k: int|
            0 <= k < ids.len() ==> #[trigger] out[k] == (
                unflatten_spec(ids[k] as int, dims),
                cells[ids[k] as int],
            ),
    ensures
        out.len() == known_indices(cells).len(),
        out.no_duplicates(),
        forall|k: int| 0 <= k < out.len() ==> #[trigger] lists_known_cell(out[k], dims, cells),
        forall|i: u32|
            #[trigger] known_indices(cells).contains(i) ==> exists|k: int|
                0 <= k < out.len() && lists_cell(out[k], i, dims, cells),
{
    ids.unique_seq_to_set();
    assert forall|k1: int, k2: int|
        0 <= k1 < out.len() && 0 <= k2 < out.len() && k1 != k2 implies #[trigger] out[k1]
        != #[trigger] out[k2] by {
        let a = ids[k1];
        let b = ids[k2];
        assert(ids.to_set().contains(a));
        assert(ids.to_set().contains(b));
        assert(known_indices(cells).contains(a) && known_indices(cells).contains(b));
        if out[k1] == out[k2] {
            lemma_flat_of_coords(dims, a as int);
            lemma_flat_of_coords(dims, b as int);
            lemma_cast_i32_injective(dims.x_of(a as int), dims.x_of(b as int));
            lemma_cast_i32_injective(dims.y_of(a as int), dims.y_of(b as int));
            lemma_cast_i32_injective(dims.z_of(a as int), dims.z_of(b as int));
        }
    }
    assert forall|k: int| 0 <= k < out.len() implies #[trigger] lists_known_cell(
        out[k],
        dims,
        cells,
    ) by {
        let w = ids[k];
        assert(ids.to_set().contains(w));
        assert(known_indices(cells).contains(w));
    }
    assert forall|i: u32| #[trigger] known_indices(cells).contains(i) implies exists|k: int|
        0 <= k < out.len() && lists_cell(out[k], i, dims, cells) by {
        assert(ids.to_set().contains(i));
        let k = choose|k: int| 0 <= k < ids.len() && ids[k] == i;
        assert(out[k] == (unflatten_spec(i as int, dims), cells[i as int]));
    }
}

/// A voxel occupancy map over a fixed grid. Besides the cell states it keeps
/// the set of known (non-`Unknown`) cells, the cells that turned `Occupied`
/// since the last drain, and running Free / Occupied totals.
pub struct VoxelMap {
    dims: GridDims,
    cells: Vec<CellState>,
    known: HashSet<u32, FixedHasher>,
    dirty_occupied: Vec<u32>,
    free_count: usize,
    occupied_count: usize,
}

impl Clone for VoxelMap {
    /// A copy with the same cells, known set, drain queue and totals.
    fn clone(&self) -> (c: Self)
        ensures
            c@ == self@,
            c.grid() == self.grid(),
            c.dirty() == self.dirty(),
            self.wf() ==> c.wf(),
    {
        VoxelMap {
            dims: self.dims,
            cells: self.cells.clone(),
            known: index_set_clone(&self.known),
            dirty_occupied: self.dirty_occupied.clone(),
            free_count: self.free_count,
            occupied_count: self.occupied_count,
        }
    }
}

impl View for VoxelMap {
    type V = Seq<CellState>;

    closed spec fn view(&self) -> Seq<CellState> {
        self.cells@
    }
}

impl VoxelMap {
    /// The grid extent.
    pub closed spec fn grid(&self) -> GridDims {
        self.dims
    }

    /// Flat indices that turned `Occupied` since the last drain, oldest first.
    pub closed spec fn dirty(&self) -> Seq<u32> {
        self.dirty_occupied@
    }

    /// The map's internal consistency.
    pub closed spec fn wf(&self) -> bool {
        &&& self.cells@.len() == self.dims.cell_count()
        &&& self.dims.x * self.dims.y <= u32::MAX
        &&& self.dims.cell_count() <= u32::MAX
        &&& held_indices(self.known) == known_indices(self.cells@)
        &&& self.dirty_occupied@.no_duplicates()
        &&& forall|k: int|
            0 <= k < self.dirty_occupied@.len() ==> {
                &&& (#[trigger] self.dirty_occupied@[k] as int) < self.cells@.len()
                &&& self.cells@[self.dirty_occupied@[k] as int] == CellState::Occupied
            }
        &&& self.free_count == count_state(self.cells@, CellState::Free)
        &&& self.occupied_count == count_state(self.cells@, CellState::Occupied)
    }

    pub proof fn lemma_wf_len(&self)
        requires
            self.wf(),
        ensures
            self@.len() == self.grid().cell_count(),
            self.grid().cell_count() <= u32::MAX,
            self.grid().x * self.grid().y <= u32::MAX,
    {
    }

    /// The grid extent.
    pub fn dims(&self) -> (d: GridDims)
        ensures
            d == self.grid(),
    {
        self.dims
    }

    /// An all-`Unknown` map over `dims`.
    pub fn new(dims: GridDims) -> (m: Self)
        requires
            dims.x * dims.y <= u32::MAX,
            dims.cell_count() <= u32::MAX,
        ensures
            m.wf(),
            m.grid() == dims,
            m@ == Seq::new(dims.cell_count() as nat, |k: int| CellState::Unknown),
            m.dirty() == Seq::<u32>::empty(),
    {
        let n = dims.x * dims.y * dims.z;
        let cells = vec![CellState::Unknown; n as usize];
        let m = VoxelMap {
            dims,
            cells,
            known: index_set_new(),
            dirty_occupied: Vec::new(),
            free_count: 0,
            occupied_count: 0,
        };
        proof {
            assert(m.cells@ =~= Seq::new(dims.cell_count() as nat, |k: int| CellState::Unknown));
            lemma_count_uniform(dims.cell_count() as nat, CellState::Unknown, CellState::Free);
            lemma_count_uniform(dims.cell_count() as nat, CellState::Unknown, CellState::Occupied);
            assert(held_indices(m.known) =~= known_indices(m.cells@));
        }
        m
    }

    /// Flat index of `p`, or `None` when `p` lies outside the grid.
    pub fn idx(&self, p: CellCoord) -> (r: Option<u32>)
        requires
            self.grid().cell_count() <= u32::MAX,
        ensures
            match r {
                Some(i) => self.grid().index_of(p) == Some(i as int) && (i as int) < self.grid().cell_count(),
                None => self.grid().index_of(p) is None,
            },
    {
        grid_index(self.dims, p)
    }

    /// State of cell `p`; `Unknown` outside the grid.
    pub fn get(&self, p: CellCoord) -> (s: CellState)
        requires
            self.wf(),
        ensures
            s == state_at(self.grid(), self@, p),
    {
        match self.idx(p) {
            Some(i) => self.cells[i as usize],
            None => CellState::Unknown,
        }
    }

    fn adjust_counts(&mut self, old_state: CellState, new_state: CellState)
        requires
            old_state == CellState::Free ==> old(self).free_count >= 1,
            old_state == CellState::Occupied ==> old(self).occupied_count >= 1,
            old(self).free_count - (if old_state == CellState::Free { 1int } else { 0 })
                + (if new_state == CellState::Free { 1int } else { 0 }) <= usize::MAX,
            old(self).occupied_count - (if old_state == CellState::Occupied { 1int } else { 0 })
                + (if new_state == CellState::Occupied { 1int } else { 0 }) <= usize::MAX,
        ensures
            final(self).free_count == old(self).free_count - (if old_state == CellState::Free {
                1int
            } else {
                0
            }) + (if new_state == CellState::Free { 1int } else { 0 }),
            final(self).occupied_count == old(self).occupied_count - (if old_state
                == CellState::Occupied {
                1int
            } else {
                0
            }) + (if new_state == CellState::Occupied { 1int } else { 0 }),
            final(self).dims == old(self).dims,
            final(self).cells == old(self).cells,
            final(self).known == old(self).known,
            final(self).dirty_occupied == old(self).dirty_occupied,
    {
        match old_state {
            CellState::Free => self.free_count -= 1,
            CellState::Occupied => self.occupied_count -= 1,
            _ => {},
        }
        match new_state {
            CellState::Free => self.free_count += 1,
            CellState::Occupied => self.occupied_count += 1,
            _ => {},
        }
    }

    /// Fold an observation into cell `p`: the cell becomes
    /// `join(current, observed)`, so `Occupied` is sticky and `Free` only
    /// replaces `Unknown`. Cells outside the grid are ignored. A cell that
    /// turns `Occupied` is queued for the next drain.
    pub fn upgrade(&mut self, p: CellCoord, observed: CellState)
        requires
            old(self).wf(),
        ensures
            final(self).wf(),
            final(self).grid() == old(self).grid(),
            final(self)@ == (match old(self).grid().index_of(p) {
                Some(i) => old(self)@.update(i, join(old(self)@[i], observed)),
                None => old(self)@,
            }),
            final(self).dirty() == (if newly_occupied(old(self).grid(), old(self)@, p, observed) {
                old(self).dirty().push(old(self).grid().index_of(p).unwrap() as u32)
            } else {
                old(self).dirty()
            }),
            (final(self)@, final(self).dirty()) == upgrade_step(
                old(self).grid(),
                old(self)@,
                old(self).dirty(),
                p,
                observed,
            ),
    {
        let i = match self.idx(p) {
            Some(i) => i,
            None => {
                return;
            },
        };
        proof {
            lemma_flat_in_range(self.dims, p.x as int, p.y as int, p.z as int);
        }
        let idx = i as usize;
        let cur = self.cells[idx];
        let new_state = match (cur, observed) {
            (CellState::Occupied, _) | (_, CellState::Occupied) => CellState::Occupied,
            (CellState::Free, _) | (_, CellState::Free) => CellState::Free,
            _ => CellState::Unknown,
        };
        if new_state == cur {
            proof {
                assert(self.cells@.update(idx as int, new_state) =~= self.cells@);
            }
            return;
        }
        let ghost before = self.cells@;
        proof {
            lemma_count_update(before, idx as int, new_state, CellState::Free);
            lemma_count_update(before, idx as int, new_state, CellState::Occupied);
            lemma_count_bound(before.update(idx as int, new_state), CellState::Free);
            lemma_count_bound(before.update(idx as int, new_state), CellState::Occupied);
        }
        self.adjust_counts(cur, new_state);
        if cur == CellState::Unknown && new_state != CellState::Unknown {
            index_set_insert(&mut self.known, i);
        } else if new_state == CellState::Unknown && cur != CellState::Unknown {
            index_set_remove(&mut self.known, i);
        }
        if new_state == CellState::Occupied && cur != CellState::Occupied {
            proof {
                assert forall|k: int| 0 <= k < self.dirty_occupied@.len() implies
                    self.dirty_occupied@[k] != i by {
                    assert(self.cells@[self.dirty_occupied@[k] as int] == CellState::Occupied);
                }
            }
            self.dirty_occupied.push(i);
        }
        self.cells.set(idx, new_state);
        proof {
            assert(held_indices(self.known) =~= known_indices(self.cells@));
            assert forall|k: int| 0 <= k < self.dirty_occupied@.len() implies {
                &&& (#[trigger] self.dirty_occupied@[k] as int) < self.cells@.len()
                &&& self.cells@[self.dirty_occupied@[k] as int] == CellState::Occupied
            } by {
                if k < old(self).dirty_occupied@.len() {
                    assert(self.dirty_occupied@[k] == old(self).dirty_occupied@[k]);
                }
            }
        }
    }

    /// Hand out, and forget, the flat indices that turned `Occupied` since
    /// the previous drain. `Occupied` is sticky, so the indices only ever add
    /// cells: each index is handed out once in the map's lifetime.
    pub fn drain_dirty_occupied(&mut self) -> (drained: Vec<u32>)
        requires
            old(self).wf(),
        ensures
            final(self).wf(),
            final(self).grid() == old(self).grid(),
            final(self)@ == old(self)@,
            drained@ == old(self).dirty(),
            final(self).dirty() == Seq::<u32>::empty(),
            drained@.no_duplicates(),
            forall|k: int|
                0 <= k < drained@.len() ==> (#[trigger] drained@[k] as int) < old(self)@.len()
                    && old(self)@[drained@[k] as int] == CellState::Occupied,
    {
        let mut drained: Vec<u32> = Vec::new();
        std::mem::swap(&mut drained, &mut self.dirty_occupied);
        drained
    }

    /// Whether any cell turned `Occupied` since the last drain.
    pub fn has_dirty_occupied(&self) -> (b: bool)
        requires
            self.wf(),
        ensures
            b == (self.dirty().len() > 0),
    {
        !self.dirty_occupied.is_empty()
    }

    /// `(free, occupied)` cell totals.
    pub fn count_known(&self) -> (r: (usize, usize))
        requires
            self.wf(),
        ensures
            r.0 == count_state(self@, CellState::Free),
            r.1 == count_state(self@, CellState::Occupied),
    {
        (self.free_count, self.occupied_count)
    }

    /// Flat indices of the known cells, each once, in hash-set order.
    fn known_index_list(&self) -> (v: Vec<u32>)
        requires
            self.wf(),
        ensures
            v@.no_duplicates(),
            v@.to_set() == known_indices(self@),
    {
        index_set_elements(&self.known)
    }

    /// Every known cell with its state, each once; the order is that of the
    /// known-cell hash set and is left open.
    pub fn iter_known(&self) -> (r: Vec<(CellCoord, CellState)>)
        requires
            self.wf(),
        ensures
            r@.len() == known_indices(self@).len(),
            r@.len() == count_state(self@, CellState::Free) + count_state(
                self@,
                CellState::Occupied,
            ),
            r@.no_duplicates(),
            forall|k: int|
                0 <= k < r@.len() ==> #[trigger] lists_known_cell(r@[k], self.grid(), self@),
            forall|i: u32|
                #[trigger] known_indices(self@).contains(i) ==> exists|k: int|
                    0 <= k < r@.len() && lists_cell(r@[k], i, self.grid(), self@),
    {
        let ids = self.known_index_list();
        let mut out: Vec<(CellCoord, CellState)> = Vec::new();
        let mut j: usize = 0;
        while j < ids.len()
            invariant
                self.wf(),
                j <= ids@.len(),
                ids@.no_duplicates(),
                ids@.to_set() == known_indices(self@),
                out@.len() == j,
                forall|k: int|
                    0 <= k < j ==> #[trigger] out@[k] == (
                        unflatten_spec(ids@[k] as int, self.grid()),
                        self@[ids@[k] as int],
                    ),
            decreases ids@.len() - j,
        {
            let i = ids[j];
            proof {
                assert(ids@.to_set().contains(i));
                lemma_flat_of_coords(self.dims, i as int);
                assert(self.dims.x * self.dims.y <= (self.dims.x * self.dims.y) * self.dims.z)
                    by (nonlinear_arith)
                    requires self.dims.z > 0;
            }
            let c = unflatten(i, self.dims);
            out.push((c, self.cells[i as usize]));
            j += 1;
        }
        proof {
            lemma_known_listing(out@, ids@, self@, self.grid());
            lemma_known_count(self@);
        }
        out
    }

    /// Fold every known cell of `local` into this map with `upgrade`, at
    /// the same coordinates. Each global cell ends as the join of its old
    /// state with the local cell it shares coordinates with, if any.
    pub fn merge_from(&mut self, local: &VoxelMap)
        requires
            old(self).wf(),
            local.wf(),
        ensures
            final(self).wf(),
            final(self).grid() == old(self).grid(),
            final(self)@ == merged_cells(old(self).grid(), old(self)@, local.grid(), local@),
            records_new_walls(old(self).dirty(), final(self).dirty(), old(self)@, final(self)@),
    {
        let ids = local.known_index_list();
        let ghost g0 = self@;
        let ghost d0 = self.dirty();
        proof {
            assert(d0.take(d0.len() as int) =~= d0);
            assert(d0.skip(d0.len() as int) =~= Seq::<u32>::empty());
            assert(turned_occupied(g0, g0) =~= Set::<u32>::empty());
            assert(Seq::<u32>::empty().to_set() =~= Set::<u32>::empty());
        }
        let ghost gd = self.dims;
        let ghost ld = local.dims;
        let ghost lc = local@;
        let mut j: usize = 0;
        while j < ids.len()
            invariant
                self.wf(),
                local.wf(),
                self.grid() == gd,
                gd == old(self).grid(),
                g0 == old(self)@,
                d0 == old(self).dirty(),
                keeps_walls(g0, self@),
                records_new_walls(d0, self.dirty(), g0, self@),
                ld == local.grid(),
                lc == local@,
                j <= ids@.len(),
                ids@.no_duplicates(),
                ids@.to_set() == known_indices(lc),
                self@.len() == g0.len(),
                g0.len() == gd.cell_count(),
                forall|gi: int|
                    0 <= gi < g0.len() ==> #[trigger] self@[gi] == partly_merged(
                        gd,
                        g0,
                        ld,
                        lc,
                        ids@.take(j as int),
                        gi,
                    ),
            decreases ids@.len() - j,
        {
            let li = ids[j];
            proof {
                assert(ids@.to_set().contains(li));
                lemma_flat_of_coords(ld, li as int);
                assert(ld.x * ld.y <= (ld.x * ld.y) * ld.z) by (nonlinear_arith)
                    requires
                        ld.z > 0,
                ;
            }
            let cell = unflatten(li, local.dims);
            let st = local.cells[li as usize];
            let ghost before = self@;
            let ghost before_dirty = self.dirty();
            proof {
                lemma_upgrade_records_new_walls(gd, g0, d0, before, before_dirty, cell, st);
                lemma_merge_target(gd, ld, li as int);
                assert(!ids@.take(j as int).contains(li)) by {
                    if ids@.take(j as int).contains(li) {
                        let k = choose|k: int| 0 <= k < j && ids@.take(j as int)[k] == li;
                        assert(ids@[k] == ids@[j as int]);
                    }
                }
                assert(ids@.take(j + 1) =~= ids@.take(j as int).push(li));
            }
            self.upgrade(cell, st);
            proof {
                let done = ids@.take(j + 1);
                assert forall|gi: int| 0 <= gi < g0.len() implies #[trigger] self@[gi]
                    == partly_merged(gd, g0, ld, lc, done, gi) by {
                    assert(before[gi] == partly_merged(gd, g0, ld, lc, ids@.take(j as int), gi));
                    lemma_flat_of_coords(gd, gi);
                    if merge_source(gd, ld, gi) == Some(li as int) {
                        assert(gd.index_of(cell) == Some(gi));
                        assert(done[j as int] == li);
                        assert(done.contains(li));
                        assert(st == lc[li as int]);
                        assert(self@[gi] == join(before[gi], st));
                    } else {
                        match gd.index_of(cell) {
                            Some(gs) => {
                                lemma_flat_in_range(gd, cell.x as int, cell.y as int, cell.z as int);
                                assert(merge_source(gd, ld, gs) == Some(li as int));
                                assert(gs != gi);
                                assert(self@ == before.update(gs, join(before[gs], st)));
                                assert(self@[gi] == before[gi]);
                            },
                            None => {
                                assert(self@ == before);
                            },
                        }
                        match merge_source(gd, ld, gi) {
                            Some(lj) => {
                                lemma_flat_in_range(ld, gd.x_of(gi), gd.y_of(gi), gd.z_of(gi));
                                assert(lj != li as int);
                                assert((lj as u32) != li);
                                assert(done.contains(lj as u32) == ids@.take(j as int).contains(
                                    lj as u32,
                                ));
                            },
                            None => {},
                        }
                    }
                }
            }
            j += 1;
        }
        proof {
            assert(ids@.take(ids@.len() as int) =~= ids@);
            assert forall|gi: int| 0 <= gi < g0.len() implies #[trigger] self@[gi] == merged_cells(
                gd,
                g0,
                ld,
                lc,
            )[gi] by {
                match merge_source(gd, ld, gi) {
                    Some(li) => {
                        lemma_flat_of_coords(gd, gi);
                        lemma_flat_in_range(ld, gd.x_of(gi), gd.y_of(gi), gd.z_of(gi));
                        if ids@.contains(li as u32) {
                            assert(ids@.to_set().contains(li as u32));
                        } else {
                            assert(!ids@.to_set().contains(li as u32));
                            assert(!known_indices(lc).contains(li as u32));
                        }
                    },
                    None => {},
                }
            }
            assert(self@ =~= merged_cells(gd, g0, ld, lc));
        }
    }
}

} // verus!

verus! {

/// The upgrade rule never lowers a cell: `Occupied` stays `Occupied` and
/// `Free` never goes back to `Unknown`.
pub proof fn law_upgrade_is_monotone(current: CellState, observed: CellState)
    ensures
        rank(join(current, observed)) >= rank(current),
        rank(join(current, observed)) >= rank(observed),
        current == CellState::Occupied ==> join(current, observed) == CellState::Occupied,
        current == CellState::Free ==> join(current, observed) != CellState::Unknown,
{
}

/// `Free` overrides `Unknown` only; an `Unknown` observation changes nothing.
pub proof fn law_free_overrides_only_unknown(current: CellState)
    ensures
        join(CellState::Unknown, CellState::Free) == CellState::Free,
        join(CellState::Occupied, CellState::Free) == CellState::Occupied,
        join(current, CellState::Unknown) == current,
{
}

/// The upgrade rule is order-independent and repeat-proof: commutative,
/// associative and idempotent.
pub proof fn law_join_is_a_semilattice(a: CellState, b: CellState, c: CellState)
    ensures
        join(a, b) == join(b, a),
        join(join(a, b), c) == join(a, join(b, c)),
        join(a, a) == a,
{
}

/// Merging two local maps into the global map gives the same result in
/// either order.
pub proof fn law_merge_order_independent(
    gd: GridDims,
    gc: Seq<CellState>,
    d1: GridDims,
    c1: Seq<CellState>,
    d2: GridDims,
    c2: Seq<CellState>,
)
    requires
        gc.len() == gd.cell_count(),
        c1.len() == d1.cell_count(),
        c2.len() == d2.cell_count(),
    ensures
        merged_cells(gd, merged_cells(gd, gc, d1, c1), d2, c2) == merged_cells(
            gd,
            merged_cells(gd, gc, d2, c2),
            d1,
            c1,
        ),
{
    assert(merged_cells(gd, merged_cells(gd, gc, d1, c1), d2, c2) =~= merged_cells(
        gd,
        merged_cells(gd, gc, d2, c2),
        d1,
        c1,
    ));
}

/// Merging the same local map twice is the same as merging it once.
pub proof fn law_merge_idempotent(
    gd: GridDims,
    gc: Seq<CellState>,
    ld: GridDims,
    lc: Seq<CellState>,
)
    requires
        gc.len() == gd.cell_count(),
        lc.len() == ld.cell_count(),
    ensures
        merged_cells(gd, merged_cells(gd, gc, ld, lc), ld, lc) == merged_cells(gd, gc, ld, lc),
{
    assert(merged_cells(gd, merged_cells(gd, gc, ld, lc), ld, lc) =~= merged_cells(
        gd,
        gc,
        ld,
        lc,
    ));
}

/// A merge never lowers a global cell.
pub proof fn law_merge_is_monotone(
    gd: GridDims,
    gc: Seq<CellState>,
    ld: GridDims,
    lc: Seq<CellState>,
    gi: int,
)
    requires
        0 <= gi < gc.len(),
    ensures
        rank(merged_cells(gd, gc, ld, lc)[gi]) >= rank(gc[gi]),
{
}

/// Merging a map into an all-`Unknown` map of the same grid reproduces it
/// (for grids whose coordinates fit an `i32`, the coordinate type).
pub proof fn law_merge_into_empty_copies(d: GridDims, lc: Seq<CellState>)
    requires
        lc.len() == d.cell_count(),
        d.x <= i32::MAX,
        d.y <= i32::MAX,
        d.z <= i32::MAX,
    ensures
        merged_cells(d, Seq::new(d.cell_count() as nat, |k: int| CellState::Unknown), d, lc)
            == lc,
{
    let e = Seq::new(d.cell_count() as nat, |k: int| CellState::Unknown);
    assert forall|gi: int| 0 <= gi < lc.len() implies merged_cells(d, e, d, lc)[gi] == lc[gi] by {
        lemma_flat_of_coords(d, gi);
        let x = d.x_of(gi);
        let y = d.y_of(gi);
        let z = d.z_of(gi);
    }
    assert(merged_cells(d, e, d, lc) =~= lc);
}


/// The in-grid cells of a grid `dims` holding `cells` that are in state `st`.
pub open spec fn cells_in_state(dims: GridDims, cells: Seq<CellState>, st: CellState) -> Set<
    CellCoord,
> {
    Set::new(|p: CellCoord| dims.index_of(p) matches Some(i) && cells[i] == st)
}

/// Flat indices of the cells of `cells` in state `st`.
pub open spec fn indices_in_state(cells: Seq<CellState>, st: CellState) -> Set<int> {
    Set::new(|i: int| 0 <= i < cells.len() && cells[i] == st)
}

proof fn lemma_indices_in_state(cells: Seq<CellState>, st: CellState)
    ensures
        indices_in_state(cells, st).finite(),
        indices_in_state(cells, st).len() == count_state(cells, st),
    decreases cells.len(),
{
    if cells.len() == 0 {
        assert(indices_in_state(cells, st) =~= Set::<int>::empty());
    } else {
        let p = cells.drop_last();
        lemma_indices_in_state(p, st);
        let n = cells.len() - 1;
        if cells.last() == st {
            assert(indices_in_state(cells, st) =~= indices_in_state(p, st).insert(n));
        } else {
            assert(indices_in_state(cells, st) =~= indices_in_state(p, st));
        }
    }
}

/// The totals of `count_known` count cells by coordinate: for every state,
/// as many in-grid coordinates hold it as `count_state` says (for grids
/// whose every coordinate is an `i32`).
pub proof fn law_counts_are_per_cell(dims: GridDims, cells: Seq<CellState>, st: CellState)
    requires
        cells.len() == dims.cell_count(),
        dims.cell_count() <= u32::MAX,
        dims.x <= i32::MAX,
        dims.y <= i32::MAX,
        dims.z <= i32::MAX,
    ensures
        cells_in_state(dims, cells, st).finite(),
        cells_in_state(dims, cells, st).len() == count_state(cells, st),
{
    let ix = indices_in_state(cells, st);
    let f = |i: int| unflatten_spec(i, dims);
    lemma_indices_in_state(cells, st);
    assert forall|i: int| #[trigger] ix.contains(i) implies dims.index_of(f(i)) == Some(i) by {
        lemma_flat_of_coords(dims, i);
        lemma_cast_i32(dims.x_of(i));
        lemma_cast_i32(dims.y_of(i));
        lemma_cast_i32(dims.z_of(i));
    }
    assert(vstd::relations::injective_on(f, ix)) by {
        assert forall|a: int, b: int| ix.contains(a) && ix.contains(b) && #[trigger] f(a) == #[trigger] f(b) implies a == b by {
            assert(dims.index_of(f(a)) == Some(a));
            assert(dims.index_of(f(b)) == Some(b));
        }
    }
    assert(ix.map(f) =~= cells_in_state(dims, cells, st)) by {
        assert forall|p: CellCoord| #[trigger] cells_in_state(dims, cells, st).contains(p) implies ix.map(f).contains(p) by {
            let i = dims.index_of(p).unwrap();
            lemma_coords_of_flat(dims, p.x as int, p.y as int, p.z as int);
            lemma_flat_in_range(dims, p.x as int, p.y as int, p.z as int);
            lemma_cast_i32(p.x as int);
            lemma_cast_i32(p.y as int);
            lemma_cast_i32(p.z as int);
            assert(f(i) == p);
            assert(ix.contains(i));
        }
        assert forall|p: CellCoord| #[trigger] ix.map(f).contains(p) implies cells_in_state(dims, cells, st).contains(p) by {
            let i = choose|i: int| ix.contains(i) && f(i) == p;
            assert(dims.index_of(f(i)) == Some(i));
        }
    }
    vstd::set_lib::lemma_map_size(ix, cells_in_state(dims, cells, st), f);
}

/// What the newly-`Occupied` list holds after any run of upgrades: the
/// list it started from, then every cell that turned `Occupied` during the
/// run, each exactly once and in the order the upgrades made them so, and
/// nothing else; no wall is ever lost. After a drain the list starts empty,
/// so the next drain hands out exactly the cells that became walls since.
pub proof fn law_drain_lists_new_walls_once(
    dims: GridDims,
    cells: Seq<CellState>,
    dirty: Seq<u32>,
    ops: Seq<(CellCoord, CellState)>,
)
    requires
        cells.len() == dims.cell_count(),
        dims.cell_count() <= u32::MAX,
    ensures
        keeps_walls(cells, replay_upgrades(dims, cells, dirty, ops).0),
        records_new_walls(
            dirty,
            replay_upgrades(dims, cells, dirty, ops).1,
            cells,
            replay_upgrades(dims, cells, dirty, ops).0,
        ),
    decreases ops.len(),
{
    if ops.len() == 0 {
        assert(dirty.take(dirty.len() as int) =~= dirty);
        assert(dirty.skip(dirty.len() as int) =~= Seq::<u32>::empty());
        assert(turned_occupied(cells, cells) =~= Set::<u32>::empty());
        assert(Seq::<u32>::empty().to_set() =~= Set::<u32>::empty());
    } else {
        law_drain_lists_new_walls_once(dims, cells, dirty, ops.drop_last());
        let (c, d) = replay_upgrades(dims, cells, dirty, ops.drop_last());
        lemma_upgrade_records_new_walls(dims, cells, dirty, c, d, ops.last().0, ops.last().1);
    }
}

} // verus!
