//! Integer grid geometry shared by every voxel structure: extents, signed
//! cell coordinates and the x-fastest flat layout
//! `flat = x + y * dims.x + z * dims.x * dims.y`.

use vstd::prelude::*;
use vstd::arithmetic::div_mod::lemma_fundamental_div_mod;
use vstd::arithmetic::div_mod::lemma_fundamental_div_mod_converse;
use vstd::arithmetic::div_mod::lemma_mod_bound;

verus! {

/// Extent of a voxel grid along each axis, in cells.
#[derive(Clone, Copy, Debug, PartialEq, Eq, Structural)]
pub struct GridDims {
    pub x: u32,
    pub y: u32,
    pub z: u32,
}

/// A signed integer cell coordinate (may lie outside any grid).
#[derive(Clone, Copy, Debug, PartialEq, Eq, Structural)]
pub struct CellCoord {
    pub x: i32,
    pub y: i32,
    pub z: i32,
}

impl GridDims {
    /// Number of cells of the grid.
    pub open spec fn cell_count(self) -> int {
        (self.x * self.y) * self.z
    }

    /// Cells in one z-slice.
    pub open spec fn plane(self) -> int {
        self.x * self.y
    }

    /// Whether `c` lies inside the grid.
    pub open spec fn contains(self, c: CellCoord) -> bool {
        0 <= c.x && 0 <= c.y && 0 <= c.z && c.x < self.x && c.y < self.y && c.z < self.z
    }

    /// Flat index of an in-bounds cell, `None` for a cell outside the grid.
    pub open spec fn index_of(self, c: CellCoord) -> Option<int> {
        if self.contains(c) {
            Some(self.flat_of(c.x as int, c.y as int, c.z as int))
        } else {
            None
        }
    }

    /// Flat index of the (unsigned) coordinate triple.
    pub open spec fn flat_of(self, x: int, y: int, z: int) -> int {
        x + y * self.x + z * (self.x * self.y)
    }

    /// x coordinate of flat index `i`.
    pub open spec fn x_of(self, i: int) -> int {
        (i % self.plane()) % (self.x as int)
    }

    /// y coordinate of flat index `i`.
    pub open spec fn y_of(self, i: int) -> int {
        (i % self.plane()) / (self.x as int)
    }

    /// z coordinate of flat index `i`.
    pub open spec fn z_of(self, i: int) -> int {
        i / self.plane()
    }
}

/// In-bounds coordinates give a flat index below the cell count.
pub proof fn lemma_flat_in_range(d: GridDims, x: int, y: int, z: int)
    requires
        0 <= x < d.x,
        0 <= y < d.y,
        0 <= z < d.z,
    ensures
        0 <= x + y * d.x,
        x + y * d.x < d.plane(),
        0 <= d.flat_of(x, y, z),
        d.flat_of(x, y, z) < d.cell_count(),
        y * d.x <= d.plane(),
        z * d.x <= d.plane() * d.z,
        z * d.x * d.y == z * (d.x * d.y),
        (z * d.x) * d.y < d.cell_count(),
{
    let dx = d.x as int;
    let dy = d.y as int;
    let dz = d.z as int;
    assert(0 <= y * dx) by (nonlinear_arith) requires 0 <= y, 0 <= dx;
    assert(x + y * dx < dx * dy) by (nonlinear_arith) requires 0 <= x < dx, 0 <= y < dy;
    assert(0 <= z * (dx * dy)) by (nonlinear_arith) requires 0 <= z, 0 <= dx, 0 <= dy;
    assert(z * (dx * dy) <= (dz - 1) * (dx * dy)) by (nonlinear_arith)
        requires 0 <= z < dz, 0 <= dx, 0 <= dy;
    assert((dz - 1) * (dx * dy) + dx * dy == (dx * dy) * dz) by (nonlinear_arith);
    assert(y * dx <= dx * dy) by (nonlinear_arith) requires 0 <= y < dy, 0 <= dx;
    assert(z * dx <= (dx * dy) * dz) by (nonlinear_arith)
        requires 0 <= z < dz, 0 <= dx, 1 <= dy;
    assert(z * dx * dy == z * (dx * dy)) by (nonlinear_arith);
}

/// Unflattening an in-bounds coordinate's flat index gives the coordinate back.
pub proof fn lemma_coords_of_flat(d: GridDims, x: int, y: int, z: int)
    requires
        0 <= x < d.x,
        0 <= y < d.y,
        0 <= z < d.z,
    ensures
        d.x_of(d.flat_of(x, y, z)) == x,
        d.y_of(d.flat_of(x, y, z)) == y,
        d.z_of(d.flat_of(x, y, z)) == z,
{
    let dx = d.x as int;
    let p = d.plane();
    lemma_flat_in_range(d, x, y, z);
    let i = d.flat_of(x, y, z);
    let r = x + y * dx;
    assert(i == z * p + r);
    lemma_fundamental_div_mod_converse(i, p, z, r);
    assert(r == y * dx + x);
    lemma_fundamental_div_mod_converse(r, dx, y, x);
}

/// Every flat index below the cell count names an in-bounds coordinate
/// whose flat index is the same number.
pub proof fn lemma_flat_of_coords(d: GridDims, i: int)
    requires
        0 <= i < d.cell_count(),
    ensures
        d.x > 0,
        d.y > 0,
        d.z > 0,
        0 <= d.x_of(i) < d.x,
        0 <= d.y_of(i) < d.y,
        0 <= d.z_of(i) < d.z,
        d.flat_of(d.x_of(i), d.y_of(i), d.z_of(i)) == i,
{
    let dx = d.x as int;
    let dy = d.y as int;
    let dz = d.z as int;
    let p = d.plane();
    assert(dx > 0 && dy > 0 && dz > 0) by (nonlinear_arith)
        requires 0 <= i < (dx * dy) * dz, dx >= 0, dy >= 0, dz >= 0;
    assert(p > 0) by (nonlinear_arith) requires p == dx * dy, dx > 0, dy > 0;
    lemma_fundamental_div_mod(i, p);
    lemma_mod_bound(i, p);
    let z = i / p;
    let r = i % p;
    assert(0 <= z < dz) by (nonlinear_arith)
        requires i == p * z + r, 0 <= r < p, 0 <= i < p * dz, p > 0;
    lemma_fundamental_div_mod(r, dx);
    lemma_mod_bound(r, dx);
    let y = r / dx;
    let x = r % dx;
    assert(0 <= y < dy) by (nonlinear_arith)
        requires r == dx * y + x, 0 <= x < dx, 0 <= r < p, p == dx * dy, dx > 0;
    assert(d.flat_of(x, y, z) == i) by (nonlinear_arith)
        requires r == dx * y + x, i == p * z + r, p == dx * dy,
            d.flat_of(x, y, z) == x + y * dx + z * (dx * dy);
}

/// Casting a `u32`-range value to `i32` keeps it when it fits and makes it
/// negative when it does not.
pub proof fn lemma_cast_i32(v: int)
    requires
        0 <= v <= u32::MAX,
    ensures
        v <= i32::MAX ==> (v as i32) as int == v,
        v > i32::MAX ==> (v as i32) < 0,
{
    let u = v as u32;
    assert(u as int == v);
    assert(u > 0x7fff_ffffu32 ==> (u as i32) < 0) by (bit_vector);
    assert((v as i32) == (u as i32));
}

/// Casting to `i32` keeps `u32`-range values apart.
pub proof fn lemma_cast_i32_injective(a: int, b: int)
    requires
        0 <= a <= u32::MAX,
        0 <= b <= u32::MAX,
        a as i32 == b as i32,
    ensures
        a == b,
{
    let ua = a as u32;
    let ub = b as u32;
    assert(ua as int == a && ub as int == b);
    assert((a as i32) == (ua as i32) && (b as i32) == (ub as i32));
    assert((ua as i32) == (ub as i32) ==> ua == ub) by (bit_vector);
}

/// Flat index of `p` in grid `dims`, or `None` when `p` lies outside.
pub fn grid_index(dims: GridDims, p: CellCoord) -> (r: Option<u32>)
    requires
        dims.cell_count() <= u32::MAX,
    ensures
        match r {
            Some(i) => dims.index_of(p) == Some(i as int) && (i as int) < dims.cell_count(),
            None => dims.index_of(p) is None,
        },
{
    if p.x < 0 || p.y < 0 || p.z < 0 {
        return None;
    }
    let x = p.x as u32;
    let y = p.y as u32;
    let z = p.z as u32;
    if x >= dims.x || y >= dims.y || z >= dims.z {
        return None;
    }
    proof {
        lemma_flat_in_range(dims, x as int, y as int, z as int);
    }
    Some(x + y * dims.x + z * dims.x * dims.y)
}

} // verus!
