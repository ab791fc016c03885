//! What one lidar ray teaches a drone's local map: every cell the ray
//! passes through before it meets solid ground is `Free`, the cell where it
//! meets ground is `Occupied`, and the ray stops there.

use vstd::prelude::*;
use crate::grid::{CellCoord, GridDims};
use crate::ground_truth::{GroundTruthMap, solid_at};
use crate::voxel_map::{
    CellState, VoxelMap, join, keeps_walls, lemma_upgrade_records_new_walls, observe,
    records_new_walls, turned_occupied,
};

verus! {

/// Cells after observing every cell of `path`, in order, as `Free`.
pub open spec fn mark_free(d: GridDims, s: Seq<CellState>, path: Seq<CellCoord>) -> Seq<CellState>
    decreases path.len(),
{
    if path.len() == 0 {
        s
    } else {
        observe(d, mark_free(d, s, path.drop_last()), path.last(), CellState::Free)
    }
}

/// Position along `path` of the first cell that is solid in the ground
/// truth; `path.len()` when the ray meets nothing.
pub open spec fn first_solid(gd: GridDims, gc: Seq<bool>, path: Seq<CellCoord>) -> int
    decreases path.len(),
{
    if path.len() == 0 {
        0
    } else if solid_at(gd, gc, path[0]) {
        0
    } else {
        1 + first_solid(gd, gc, path.skip(1))
    }
}

pub proof fn lemma_first_solid(gd: GridDims, gc: Seq<bool>, path: Seq<CellCoord>, j: int)
    requires
        0 <= j <= path.len(),
        forall|k: int| 0 <= k < j ==> !solid_at(gd, gc, #[trigger] path[k]),
        j == path.len() || solid_at(gd, gc, path[j]),
    ensures
        first_solid(gd, gc, path) == j,
    decreases j,
{
    if j > 0 {
        let rest = path.skip(1);
        assert forall|k: int| 0 <= k < j - 1 implies !solid_at(gd, gc, #[trigger] rest[k]) by {
            assert(rest[k] == path[k + 1]);
        }
        if j < path.len() {
            assert(rest[j - 1] == path[j]);
        }
        lemma_first_solid(gd, gc, rest, j - 1);
        assert(!solid_at(gd, gc, path[0]));
    }
}

/// Trace one ray through a local map. `path` is the sequence of cells the
/// ray visits, in order, and `start` the cell holding its origin. Each cell
/// before the first solid one is observed `Free`; the first solid cell is
/// observed `Occupied` and returned. When no cell is solid, the last cell of
/// the path (or `start` for an empty path) is returned.
pub fn cast_ray(
    start: CellCoord,
    path: &Vec<CellCoord>,
    ground: &GroundTruthMap,
    local: &mut VoxelMap,
) -> (end: CellCoord)
    requires
        ground.wf(),
        old(local).wf(),
    ensures
        final(local).wf(),
        final(local).grid() == old(local).grid(),
        ({
            let h = first_solid(ground.grid(), ground@, path@);
            let freed = mark_free(old(local).grid(), old(local)@, path@.take(h));
            if h < path@.len() {
                &&& end == path@[h]
                &&& final(local)@ == observe(
                    old(local).grid(),
                    freed,
                    path@[h],
                    CellState::Occupied,
                )
            } else {
                &&& end == (if path@.len() == 0 {
                    start
                } else {
                    path@.last()
                })
                &&& final(local)@ == freed
            }
        }),
        records_new_walls(old(local).dirty(), final(local).dirty(), old(local)@, final(local)@),
{
    let ghost gd = ground.grid();
    let ghost gc = ground@;
    let ghost ld = local.grid();
    let ghost l0 = local@;
    let ghost ld0 = local.dirty();
    proof {
        local.lemma_wf_len();
        assert(ld0.take(ld0.len() as int) =~= ld0);
        assert(ld0.skip(ld0.len() as int) =~= Seq::<u32>::empty());
        assert(turned_occupied(l0, l0) =~= Set::<u32>::empty());
        assert(Seq::<u32>::empty().to_set() =~= Set::<u32>::empty());
    }
    let mut last_cell = start;
    let mut j: usize = 0;
    while j < path.len()
        invariant
            ground.wf(),
            gd == ground.grid(),
            gc == ground@,
            local.wf(),
            local.grid() == ld,
            ld == old(local).grid(),
            l0 == old(local)@,
            ld0 == old(local).dirty(),
            l0.len() == ld.cell_count(),
            ld.cell_count() <= u32::MAX,
            keeps_walls(l0, local@),
            records_new_walls(ld0, local.dirty(), l0, local@),
            j <= path@.len(),
            forall|k: int| 0 <= k < j ==> !solid_at(gd, gc, #[trigger] path@[k]),
            local@ == mark_free(ld, l0, path@.take(j as int)),
            last_cell == (if j == 0 {
                start
            } else {
                path@[j - 1]
            }),
        decreases path@.len() - j,
    {
        let cell = path[j];
        last_cell = cell;
        proof {
            lemma_upgrade_records_new_walls(ld, l0, ld0, local@, local.dirty(), cell, CellState::Occupied);
            lemma_upgrade_records_new_walls(ld, l0, ld0, local@, local.dirty(), cell, CellState::Free);
        }
        if ground.get(cell) {
            local.upgrade(cell, CellState::Occupied);
            proof {
                lemma_first_solid(gd, gc, path@, j as int);
            }
            return cell;
        }
        local.upgrade(cell, CellState::Free);
        proof {
            assert(path@.take(j + 1).drop_last() =~= path@.take(j as int));
        }
        j += 1;
    }
    proof {
        lemma_first_solid(gd, gc, path@, path@.len() as int);
        assert(path@.take(path@.len() as int) =~= path@);
    }
    last_cell
}

/// A ray never lowers a cell: a wall seen before stays `Occupied`, and a
/// `Free` cell never returns to `Unknown`.
pub proof fn law_ray_never_erases(d: GridDims, s: Seq<CellState>, path: Seq<CellCoord>, i: int)
    requires
        0 <= i < s.len(),
        s.len() == d.cell_count(),
    ensures
        mark_free(d, s, path).len() == s.len(),
        crate::voxel_map::rank(mark_free(d, s, path)[i]) >= crate::voxel_map::rank(s[i]),
        s[i] == CellState::Occupied ==> mark_free(d, s, path)[i] == CellState::Occupied,
    decreases path.len(),
{
    if path.len() > 0 {
        law_ray_never_erases(d, s, path.drop_last(), i);
        let m = mark_free(d, s, path.drop_last());
        match d.index_of(path.last()) {
            Some(g) => {
                let c = path.last();
                crate::grid::lemma_flat_in_range(d, c.x as int, c.y as int, c.z as int);
                if g == i {
                    assert(m.update(g, join(m[g], CellState::Free))[i] == join(m[i], CellState::Free));
                }
            },
            None => {},
        }
    }
}

} // verus!
