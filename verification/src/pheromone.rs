//! Integer layout of the pheromone grid: its coarse extent, the flat index
//! of a coarse cell, and the neighbour stencils that deposits, gradients and
//! diffusion read. The trail values themselves are floating point and live
//! with the caller.

use vstd::prelude::*;
use crate::grid::{CellCoord, GridDims, lemma_flat_in_range};

verus! {

/// Native voxels per pheromone cell along each axis.
pub const DOWNSAMPLE: u32 = 8;

/// Number of pheromone channels (scout, mapper).
pub const CHANNEL_COUNT: usize = 2;

/// `ceil(n / DOWNSAMPLE)`.
pub open spec fn coarse_extent(n: u32) -> int {
    (n + 7) / 8
}

/// The pheromone grid over a world of extent `world`: each axis divided by
/// `DOWNSAMPLE`, rounded up.
pub fn pheromone_dims(world: GridDims) -> (d: GridDims)
    ensures
        d.x == coarse_extent(world.x),
        d.y == coarse_extent(world.y),
        d.z == coarse_extent(world.z),
{
    GridDims {
        x: world.x / DOWNSAMPLE + if world.x % DOWNSAMPLE != 0 { 1 } else { 0 },
        y: world.y / DOWNSAMPLE + if world.y % DOWNSAMPLE != 0 { 1 } else { 0 },
        z: world.z / DOWNSAMPLE + if world.z % DOWNSAMPLE != 0 { 1 } else { 0 },
    }
}

/// Cells per channel of a pheromone grid.
pub fn coarse_cell_count(d: GridDims) -> (n: usize)
    requires
        d.x * d.y <= u32::MAX,
        d.cell_count() <= u32::MAX,
    ensures
        n == d.cell_count(),
{
    (d.x * d.y * d.z) as usize
}

/// Flat index of coarse cell `(x, y, z)`, `None` outside the grid.
pub fn coarse_index(d: GridDims, x: u32, y: u32, z: u32) -> (r: Option<usize>)
    requires
        d.cell_count() <= u32::MAX,
    ensures
        match r {
            Some(i) => x < d.x && y < d.y && z < d.z && i == d.flat_of(x as int, y as int, z as int),
            None => !(x < d.x && y < d.y && z < d.z),
        },
{
    if x >= d.x || y >= d.y || z >= d.z {
        return None;
    }
    proof {
        lemma_flat_in_range(d, x as int, y as int, z as int);
        assert((z * d.y + y) * d.x + x == d.flat_of(x as int, y as int, z as int))
            by (nonlinear_arith);
        let (dx, dy, dz) = (d.x as int, d.y as int, d.z as int);
        let (xi, yi, zi) = (x as int, y as int, z as int);
        assert(zi * dy <= (dz - 1) * dy) by (nonlinear_arith)
            requires 0 <= zi < dz, dy >= 0;
        assert((dz - 1) * dy + dy == dz * dy) by (nonlinear_arith);
        assert(zi * dy + yi < dz * dy);
        assert(zi * dy + yi <= dz * dy - 1);
        assert((zi * dy + yi) * dx <= (dz * dy - 1) * dx) by (nonlinear_arith)
            requires zi * dy + yi <= dz * dy - 1, dx >= 0;
        assert((dz * dy - 1) * dx + dx == (dx * dy) * dz) by (nonlinear_arith);
        assert(zi * dy <= (zi * dy + yi) * dx) by (nonlinear_arith)
            requires dx >= 1, yi >= 0, zi >= 0, dy >= 0;
        assert(zi * dy + yi <= (zi * dy + yi) * dx) by (nonlinear_arith)
            requires dx >= 1, yi >= 0, zi >= 0, dy >= 0;
        assert((z * d.y + y) * d.x <= u32::MAX);
        assert(z * d.y + y <= u32::MAX);
    }
    Some(((z * d.y + y) * d.x + x) as usize)
}

/// Flat index of a signed coarse cell, `None` outside the grid.
pub fn signed_coarse_index(d: GridDims, c: CellCoord) -> (r: Option<usize>)
    requires
        d.cell_count() <= u32::MAX,
    ensures
        match r {
            Some(i) => d.index_of(c) == Some(i as int),
            None => d.index_of(c) is None,
        },
{
    if c.x < 0 || c.y < 0 || c.z < 0 {
        return None;
    }
    coarse_index(d, c.x as u32, c.y as u32, c.z as u32)
}

/// The six face offsets, in the order `+x, -x, +y, -y, +z, -z`.
pub open spec fn face_offset(k: int) -> (int, int, int) {
    if k == 0 {
        (1, 0, 0)
    } else if k == 1 {
        (-1, 0, 0)
    } else if k == 2 {
        (0, 1, 0)
    } else if k == 3 {
        (0, -1, 0)
    } else if k == 4 {
        (0, 0, 1)
    } else {
        (0, 0, -1)
    }
}

/// The face neighbour `k` of `c`.
pub open spec fn neighbor(c: CellCoord, k: int) -> CellCoord {
    CellCoord {
        x: (c.x + face_offset(k).0) as i32,
        y: (c.y + face_offset(k).1) as i32,
        z: (c.z + face_offset(k).2) as i32,
    }
}

/// Cells whose six face neighbours are representable as `i32` coordinates.
pub open spec fn neighbors_representable(c: CellCoord) -> bool {
    i32::MIN < c.x < i32::MAX && i32::MIN < c.y < i32::MAX && i32::MIN < c.z < i32::MAX
}

fn neighbor_of(c: CellCoord, k: usize) -> (n: CellCoord)
    requires
        neighbors_representable(c),
        k < 6,
    ensures
        n == neighbor(c, k as int),
{
    if k == 0 {
        CellCoord { x: c.x + 1, y: c.y, z: c.z }
    } else if k == 1 {
        CellCoord { x: c.x - 1, y: c.y, z: c.z }
    } else if k == 2 {
        CellCoord { x: c.x, y: c.y + 1, z: c.z }
    } else if k == 3 {
        CellCoord { x: c.x, y: c.y - 1, z: c.z }
    } else if k == 4 {
        CellCoord { x: c.x, y: c.y, z: c.z + 1 }
    } else {
        CellCoord { x: c.x, y: c.y, z: c.z - 1 }
    }
}

/// Flat indices of the first `k` face neighbours of `c` that lie in the grid.
pub open spec fn present_neighbors(d: GridDims, c: CellCoord, k: int) -> Seq<usize>
    decreases k,
{
    if k <= 0 {
        Seq::empty()
    } else {
        match d.index_of(neighbor(c, k - 1)) {
            Some(i) => present_neighbors(d, c, k - 1).push(i as usize),
            None => present_neighbors(d, c, k - 1),
        }
    }
}

/// Whether face neighbour `k` of `c` lies in the grid.
pub open spec fn face_in_grid(d: GridDims, c: CellCoord, k: int) -> bool {
    d.index_of(neighbor(c, k)) is Some
}

/// How many of the face neighbours before `k` (in the order `+x, -x, +y,
/// -y, +z, -z`) lie in the grid.
pub open spec fn faces_in_grid_before(d: GridDims, c: CellCoord, k: int) -> int {
    (if 0 < k && face_in_grid(d, c, 0) { 1int } else { 0int }) + (if 1 < k && face_in_grid(d, c, 1) {
        1int
    } else {
        0int
    }) + (if 2 < k && face_in_grid(d, c, 2) { 1int } else { 0int }) + (if 3 < k && face_in_grid(
        d,
        c,
        3,
    ) {
        1int
    } else {
        0int
    }) + (if 4 < k && face_in_grid(d, c, 4) { 1int } else { 0int }) + (if 5 < k && face_in_grid(
        d,
        c,
        5,
    ) {
        1int
    } else {
        0int
    })
}

/// What `present_neighbors(d, c, k)` holds, neighbour by neighbour: one
/// entry per in-grid face neighbour before `k`, the entry of neighbour `kk`
/// standing after those of the in-grid neighbours before it.
proof fn lemma_present_neighbors(d: GridDims, c: CellCoord, k: int)
    requires
        0 <= k <= 6,
        d.cell_count() <= u32::MAX,
    ensures
        present_neighbors(d, c, k).len() == faces_in_grid_before(d, c, k),
        forall|kk: int|
            0 <= kk < k && face_in_grid(d, c, kk) ==> #[trigger] present_neighbors(d, c, k)[faces_in_grid_before(
                d,
                c,
                kk,
            )] as int == d.index_of(neighbor(c, kk))->Some_0,
    decreases k,
{
    if k > 0 {
        lemma_present_neighbors(d, c, k - 1);
        let prev = present_neighbors(d, c, k - 1);
        let cur = present_neighbors(d, c, k);
        let n = neighbor(c, k - 1);
        assert(faces_in_grid_before(d, c, k) == faces_in_grid_before(d, c, k - 1) + (if face_in_grid(
            d,
            c,
            k - 1,
        ) {
            1int
        } else {
            0int
        }));
        match d.index_of(n) {
            Some(i) => {
                lemma_flat_in_range(d, n.x as int, n.y as int, n.z as int);
                assert(cur == prev.push(i as usize));
                assert forall|kk: int| 0 <= kk < k && face_in_grid(d, c, kk) implies #[trigger] cur[faces_in_grid_before(
                    d,
                    c,
                    kk,
                )] as int == d.index_of(neighbor(c, kk))->Some_0 by {
                    if kk < k - 1 {
                        assert(prev[faces_in_grid_before(d, c, kk)] as int == d.index_of(
                            neighbor(c, kk),
                        )->Some_0);
                        assert(faces_in_grid_before(d, c, kk) < faces_in_grid_before(d, c, k - 1));
                    }
                }
            },
            None => {
                assert(cur == prev);
                assert forall|kk: int| 0 <= kk < k && face_in_grid(d, c, kk) implies #[trigger] cur[faces_in_grid_before(
                    d,
                    c,
                    kk,
                )] as int == d.index_of(neighbor(c, kk))->Some_0 by {
                    assert(prev[faces_in_grid_before(d, c, kk)] as int == d.index_of(
                        neighbor(c, kk),
                    )->Some_0);
                }
            },
        }
    }
}

/// A deposit spills into each of the six face neighbours of `c` (`+x, -x,
/// +y, -y, +z, -z`) that lies in the grid, and into nothing else: the spill
/// list has one entry per in-grid neighbour, and the entry of neighbour
/// `k` is its flat index, standing after the entries of the in-grid
/// neighbours before it.
pub proof fn law_deposit_reaches_every_face(d: GridDims, c: CellCoord)
    requires
        d.cell_count() <= u32::MAX,
    ensures
        present_neighbors(d, c, 6).len() == faces_in_grid_before(d, c, 6),
        forall|k: int|
            0 <= k < 6 && face_in_grid(d, c, k) ==> #[trigger] present_neighbors(d, c, 6)[faces_in_grid_before(
                d,
                c,
                k,
            )] as int == d.index_of(neighbor(c, k))->Some_0,
{
    lemma_present_neighbors(d, c, 6);
}

/// Flat indices of the face neighbours of `c` that lie in the grid, in
/// the order `+x, -x, +y, -y, +z, -z`: the cells a deposit spills into.
pub fn deposit_neighbors(d: GridDims, c: CellCoord) -> (r: Vec<usize>)
    requires
        d.cell_count() <= u32::MAX,
        neighbors_representable(c),
    ensures
        r@ == present_neighbors(d, c, 6),
        r@.len() == faces_in_grid_before(d, c, 6),
        forall|k: int|
            0 <= k < 6 && face_in_grid(d, c, k) ==> #[trigger] r@[faces_in_grid_before(d, c, k)]
                as int == d.index_of(neighbor(c, k))->Some_0,
{
    let mut r: Vec<usize> = Vec::new();
    let mut k: usize = 0;
    while k < 6
        invariant
            k <= 6,
            neighbors_representable(c),
            d.cell_count() <= u32::MAX,
            r@ == present_neighbors(d, c, k as int),
        decreases 6 - k,
    {
        let n = neighbor_of(c, k);
        match signed_coarse_index(d, n) {
            Some(i) => {
                r.push(i);
            },
            None => {},
        }
        k += 1;
    }
    proof {
        law_deposit_reaches_every_face(d, c);
    }
    r
}

/// For each face neighbour of `c` (order `+x, -x, +y, -y, +z, -z`), its
/// flat index, or `None` when it lies outside the grid and reads as zero:
/// the stencil of the central-difference gradient.
pub fn gradient_neighbors(d: GridDims, c: CellCoord) -> (r: Vec<Option<usize>>)
    requires
        d.cell_count() <= u32::MAX,
        neighbors_representable(c),
    ensures
        r@.len() == 6,
        forall|k: int|
            0 <= k < 6 ==> match #[trigger] r@[k] {
                Some(i) => d.index_of(neighbor(c, k)) == Some(i as int),
                None => d.index_of(neighbor(c, k)) is None,
            },
{
    let mut r: Vec<Option<usize>> = Vec::new();
    let mut k: usize = 0;
    while k < 6
        invariant
            k <= 6,
            neighbors_representable(c),
            d.cell_count() <= u32::MAX,
            r@.len() == k,
            forall|j: int|
                0 <= j < k ==> match #[trigger] r@[j] {
                    Some(i) => d.index_of(neighbor(c, j)) == Some(i as int),
                    None => d.index_of(neighbor(c, j)) is None,
                },
        decreases 6 - k,
    {
        let n = neighbor_of(c, k);
        r.push(signed_coarse_index(d, n));
        k += 1;
    }
    r
}

/// The diffusion stencil of in-grid cell `(x, y, z)`: its flat index and
/// the flat indices of its six face neighbours (order `+x, -x, +y, -y,
/// +z, -z`), with a neighbour outside the grid replaced by the cell itself
/// so that walls do not drain the field.
pub fn diffusion_neighbors(d: GridDims, x: u32, y: u32, z: u32) -> (r: (usize, Vec<usize>))
    requires
        x < d.x,
        y < d.y,
        z < d.z,
        d.x * d.y <= u32::MAX,
        d.cell_count() <= u32::MAX,
    ensures
        r.0 == d.flat_of(x as int, y as int, z as int),
        r.1@.len() == 6,
        forall|k: int|
            0 <= k < 6 ==> {
                let (ox, oy, oz) = face_offset(k);
                let (nx, ny, nz) = (x + ox, y + oy, z + oz);
                #[trigger] r.1@[k] == if 0 <= nx < d.x && 0 <= ny < d.y && 0 <= nz < d.z {
                    d.flat_of(nx, ny, nz)
                } else {
                    d.flat_of(x as int, y as int, z as int)
                }
            },
{
    proof {
        lemma_flat_in_range(d, x as int, y as int, z as int);
    }
    let stride_y = d.x as usize;
    let stride_z = (d.x * d.y) as usize;
    let i = (z as usize) * stride_z + (y as usize) * stride_y + (x as usize);
    proof {
        assert(i == d.flat_of(x as int, y as int, z as int)) by (nonlinear_arith)
            requires
                i == z * (d.x * d.y) + y * d.x + x,
                d.flat_of(x as int, y as int, z as int) == x + y * d.x + z * (d.x * d.y),
        ;
        if x + 1 < d.x {
            lemma_flat_in_range(d, x + 1, y as int, z as int);
        }
        if y + 1 < d.y {
            lemma_flat_in_range(d, x as int, y + 1, z as int);
        }
        if z + 1 < d.z {
            lemma_flat_in_range(d, x as int, y as int, z + 1);
        }
        assert(d.flat_of(x + 1, y as int, z as int) == i + 1);
        assert(d.flat_of(x - 1, y as int, z as int) == i - 1);
        assert(d.flat_of(x as int, y + 1, z as int) == i + d.x) by (nonlinear_arith)
            requires i == d.flat_of(x as int, y as int, z as int);
        assert(d.flat_of(x as int, y - 1, z as int) == i - d.x) by (nonlinear_arith)
            requires i == d.flat_of(x as int, y as int, z as int);
        assert(d.flat_of(x as int, y as int, z + 1) == i + d.x * d.y) by (nonlinear_arith)
            requires i == d.flat_of(x as int, y as int, z as int);
        assert(d.flat_of(x as int, y as int, z - 1) == i - d.x * d.y) by (nonlinear_arith)
            requires i == d.flat_of(x as int, y as int, z as int);
        if y > 0 {
            assert(i >= d.x) by (nonlinear_arith)
                requires i == x + y * d.x + z * (d.x * d.y), y >= 1, z >= 0, d.x >= 0, d.y >= 0;
        }
        if z > 0 {
            assert(i >= d.x * d.y) by (nonlinear_arith)
                requires i == x + y * d.x + z * (d.x * d.y), z >= 1, y >= 0, d.x >= 0, d.y >= 0;
        }
    }
    let mut r: Vec<usize> = Vec::new();
    r.push(if x + 1 < d.x { i + 1 } else { i });
    r.push(if x > 0 { i - 1 } else { i });
    r.push(if y + 1 < d.y { i + stride_y } else { i });
    r.push(if y > 0 { i - stride_y } else { i });
    r.push(if z + 1 < d.z { i + stride_z } else { i });
    r.push(if z > 0 { i - stride_z } else { i });
    (i, r)
}

} // verus!
