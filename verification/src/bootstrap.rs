//! The built-in ground-truth worlds seeded into a fresh maps directory: a
//! floor plane, optionally with solid boxes (towers, clusters) or two long
//! corridor walls.

use vstd::prelude::*;
use crate::ground_truth::{GroundTruthMap, lemma_index_of_iff_coords, packs};
use crate::dvm::{dvm_encoding, encode_dvm};
use crate::grid::{CellCoord, GridDims};

verus! {

/// Extent of the built-in worlds.
pub const DIMS_X: u32 = 640;
pub const DIMS_Y: u32 = 24;
pub const DIMS_Z: u32 = 640;

/// The built-in world extent, 640 x 24 x 640.
pub open spec fn default_dims() -> GridDims {
    GridDims { x: DIMS_X, y: DIMS_Y, z: DIMS_Z }
}

pub fn dims() -> (d: GridDims)
    ensures
        d == default_dims(),
{
    GridDims { x: DIMS_X, y: DIMS_Y, z: DIMS_Z }
}

/// Whether cell `i` of grid `d` lies in the half-open box `[l, h)`.
pub open spec fn in_box(
    d: GridDims,
    i: int,
    lx: int,
    ly: int,
    lz: int,
    hx: int,
    hy: int,
    hz: int,
) -> bool {
    lx <= d.x_of(i) < hx && ly <= d.y_of(i) < hy && lz <= d.z_of(i) < hz
}

/// Mark solid every cell of the half-open box `[lo, hi)` that lies in the grid.
pub fn fill_box(map: &mut GroundTruthMap, lo: CellCoord, hi: CellCoord)
    requires
        old(map).wf(),
    ensures
        final(map).wf(),
        final(map).grid() == old(map).grid(),
        final(map)@.len() == old(map)@.len(),
        forall|i: int|
            0 <= i < final(map)@.len() ==> #[trigger] final(map)@[i] == (old(map)@[i] || in_box(
                old(map).grid(),
                i,
                lo.x as int,
                lo.y as int,
                lo.z as int,
                hi.x as int,
                hi.y as int,
                hi.z as int,
            )),
{
    let ghost m0 = map@;
    let ghost d = map.grid();
    proof {
        map.lemma_wf_len();
    }
    let mut x = lo.x;
    while x < hi.x
        invariant
            map.wf(),
            map.grid() == d,
            map@.len() == m0.len(),
            m0.len() == d.cell_count(),
            lo.x <= x,
            x <= hi.x || x == lo.x,
            forall|i: int|
                0 <= i < m0.len() ==> #[trigger] map@[i] == (m0[i] || in_box(
                    d,
                    i,
                    lo.x as int,
                    lo.y as int,
                    lo.z as int,
                    x as int,
                    hi.y as int,
                    hi.z as int,
                )),
        decreases hi.x - x,
    {
        let mut y = lo.y;
        while y < hi.y
            invariant
                map.wf(),
                map.grid() == d,
                map@.len() == m0.len(),
                m0.len() == d.cell_count(),
                lo.x <= x < hi.x,
                lo.y <= y,
                y <= hi.y || y == lo.y,
                forall|i: int|
                    0 <= i < m0.len() ==> #[trigger] map@[i] == (m0[i] || in_box(
                        d,
                        i,
                        lo.x as int,
                        lo.y as int,
                        lo.z as int,
                        x as int,
                        hi.y as int,
                        hi.z as int,
                    ) || in_box(
                        d,
                        i,
                        x as int,
                        lo.y as int,
                        lo.z as int,
                        x + 1,
                        y as int,
                        hi.z as int,
                    )),
            decreases hi.y - y,
        {
            let mut z = lo.z;
            while z < hi.z
                invariant
                    map.wf(),
                    map.grid() == d,
                    map@.len() == m0.len(),
                    m0.len() == d.cell_count(),
                    lo.x <= x < hi.x,
                    lo.y <= y < hi.y,
                    lo.z <= z,
                    z <= hi.z || z == lo.z,
                    forall|i: int|
                        0 <= i < m0.len() ==> #[trigger] map@[i] == (m0[i] || in_box(
                            d,
                            i,
                            lo.x as int,
                            lo.y as int,
                            lo.z as int,
                            x as int,
                            hi.y as int,
                            hi.z as int,
                        ) || in_box(
                            d,
                            i,
                            x as int,
                            lo.y as int,
                            lo.z as int,
                            x + 1,
                            y as int,
                            hi.z as int,
                        ) || in_box(d, i, x as int, y as int, lo.z as int, x + 1, y + 1, z as int)),
                decreases hi.z - z,
            {
                let c = CellCoord { x, y, z };
                let ghost before = map@;
                map.set(c, true);
                proof {
                    assert forall|i: int| 0 <= i < m0.len() implies #[trigger] map@[i] == (before[i]
                        || (d.x_of(i) == x && d.y_of(i) == y && d.z_of(i) == z)) by {
                        lemma_index_of_iff_coords(d, c, i);
                    }
                }
                z += 1;
            }
            y += 1;
        }
        x += 1;
    }
}

/// The built-in extent with a solid floor plane at height `floor_y`.
pub fn empty_world(floor_y: i32) -> (m: GroundTruthMap)
    ensures
        m.wf(),
        m.grid() == default_dims(),
        m@.len() == default_dims().cell_count(),
        forall|i: int|
            0 <= i < m@.len() ==> #[trigger] m@[i] == (default_dims().y_of(i) == floor_y),
{
    let d = dims();
    let mut map = GroundTruthMap::new(d);
    proof {
        map.lemma_wf_len();
    }
    let mut x: i32 = 0;
    while x < DIMS_X as i32
        invariant
            map.wf(),
            map.grid() == d,
            d == default_dims(),
            map@.len() == d.cell_count(),
            0 <= x <= DIMS_X,
            forall|i: int|
                0 <= i < map@.len() ==> #[trigger] map@[i] == (d.y_of(i) == floor_y && d.x_of(i)
                    < x),
        decreases DIMS_X - x,
    {
        let mut z: i32 = 0;
        proof {
            assert forall|i: int| 0 <= i < map@.len() implies #[trigger] map@[i] == (d.y_of(i)
                == floor_y && (d.x_of(i) < x || (d.x_of(i) == x && d.z_of(i) < z))) by {
                crate::grid::lemma_flat_of_coords(d, i);
            }
        }
        while z < DIMS_Z as i32
            invariant
                map.wf(),
                map.grid() == d,
                d == default_dims(),
                map@.len() == d.cell_count(),
                0 <= x < DIMS_X,
                0 <= z <= DIMS_Z,
                forall|i: int|
                    0 <= i < map@.len() ==> #[trigger] map@[i] == (d.y_of(i) == floor_y && (d.x_of(
                        i,
                    ) < x || (d.x_of(i) == x && d.z_of(i) < z))),
            decreases DIMS_Z - z,
        {
            let c = CellCoord { x, y: floor_y, z };
            let ghost before = map@;
            map.set(c, true);
            proof {
                assert forall|i: int| 0 <= i < map@.len() implies #[trigger] map@[i] == (before[i]
                    || (d.x_of(i) == x && d.y_of(i) == floor_y && d.z_of(i) == z)) by {
                    lemma_index_of_iff_coords(d, c, i);
                }
            }
            z += 1;
        }
        proof {
            assert forall|i: int| 0 <= i < map@.len() implies #[trigger] map@[i] == (d.y_of(i)
                == floor_y && d.x_of(i) < x + 1) by {
                crate::grid::lemma_flat_of_coords(d, i);
            }
        }
        x += 1;
    }
    proof {
        assert forall|i: int| 0 <= i < map@.len() implies #[trigger] map@[i] == (d.y_of(i)
            == floor_y) by {
            crate::grid::lemma_flat_of_coords(d, i);
        }
    }
    map
}

/// Whether cell `i` of grid `d` lies in the half-open box `b = (lo, hi)`.
pub open spec fn in_coord_box(d: GridDims, i: int, b: (CellCoord, CellCoord)) -> bool {
    in_box(
        d,
        i,
        b.0.x as int,
        b.0.y as int,
        b.0.z as int,
        b.1.x as int,
        b.1.y as int,
        b.1.z as int,
    )
}

/// Whether cell `i` of grid `d` lies in any of the boxes.
pub open spec fn in_some_box(d: GridDims, i: int, boxes: Seq<(CellCoord, CellCoord)>) -> bool {
    exists|k: int| 0 <= k < boxes.len() && #[trigger] in_coord_box(d, i, boxes[k])
}

/// Fill each box in turn.
fn fill_boxes(map: &mut GroundTruthMap, boxes: &Vec<(CellCoord, CellCoord)>)
    requires
        old(map).wf(),
    ensures
        final(map).wf(),
        final(map).grid() == old(map).grid(),
        final(map)@.len() == old(map)@.len(),
        forall|i: int|
            0 <= i < final(map)@.len() ==> #[trigger] final(map)@[i] == (old(map)@[i]
                || in_some_box(old(map).grid(), i, boxes@)),
{
    let ghost m0 = map@;
    let ghost d = map.grid();
    let mut j: usize = 0;
    while j < boxes.len()
        invariant
            map.wf(),
            map.grid() == d,
            map@.len() == m0.len(),
            j <= boxes@.len(),
            forall|i: int|
                0 <= i < m0.len() ==> #[trigger] map@[i] == (m0[i] || in_some_box(
                    d,
                    i,
                    boxes@.subrange(0, j as int),
                )),
        decreases boxes@.len() - j,
    {
        let (lo, hi) = boxes[j];
        let ghost before = map@;
        fill_box(map, lo, hi);
        proof {
            let pre = boxes@.subrange(0, j as int);
            let post = boxes@.subrange(0, j + 1);
            assert forall|i: int| 0 <= i < m0.len() implies #[trigger] map@[i] == (m0[i]
                || in_some_box(d, i, post)) by {
                if in_some_box(d, i, pre) {
                    let k = choose|k: int| 0 <= k < pre.len() && #[trigger] in_coord_box(d, i, pre[k]);
                    assert(post[k] == pre[k]);
                }
                if in_coord_box(d, i, boxes@[j as int]) {
                    assert(post[j as int] == boxes@[j as int]);
                }
                if in_some_box(d, i, post) {
                    let k = choose|k: int| 0 <= k < post.len() && #[trigger] in_coord_box(d, i, post[k]);
                    if k < j {
                        assert(pre[k] == post[k]);
                    }
                }
            }
        }
        j += 1;
    }
    proof {
        assert(boxes@.subrange(0, boxes@.len() as int) =~= boxes@);
    }
}

/// The floor-only world.
pub fn build_empty(floor_y: i32) -> (m: GroundTruthMap)
    ensures
        m.wf(),
        m.grid() == default_dims(),
        m@.len() == default_dims().cell_count(),
        forall|i: int|
            0 <= i < m@.len() ==> #[trigger] m@[i] == (default_dims().y_of(i) == floor_y),
{
    empty_world(floor_y)
}

/// The floor plus solid cluster boxes.
pub fn build_clusters(floor_y: i32, clusters: &Vec<(CellCoord, CellCoord)>) -> (m: GroundTruthMap)
    ensures
        m.wf(),
        m.grid() == default_dims(),
        m@.len() == default_dims().cell_count(),
        forall|i: int|
            0 <= i < m@.len() ==> #[trigger] m@[i] == (default_dims().y_of(i) == floor_y
                || in_some_box(default_dims(), i, clusters@)),
{
    let mut map = empty_world(floor_y);
    fill_boxes(&mut map, clusters);
    map
}

/// The six towers of the tower world, each 20 x 21 x 20 cells.
pub open spec fn tower_boxes() -> Seq<(CellCoord, CellCoord)> {
    seq![
        (CellCoord { x: 120, y: 1, z: 120 }, CellCoord { x: 140, y: 22, z: 140 }),
        (CellCoord { x: 280, y: 1, z: 200 }, CellCoord { x: 300, y: 22, z: 220 }),
        (CellCoord { x: 440, y: 1, z: 320 }, CellCoord { x: 460, y: 22, z: 340 }),
        (CellCoord { x: 180, y: 1, z: 440 }, CellCoord { x: 200, y: 22, z: 460 }),
        (CellCoord { x: 380, y: 1, z: 500 }, CellCoord { x: 400, y: 22, z: 520 }),
        (CellCoord { x: 520, y: 1, z: 100 }, CellCoord { x: 540, y: 22, z: 120 }),
    ]
}

/// The floor plus six tall towers.
pub fn build_towers(floor_y: i32) -> (m: GroundTruthMap)
    ensures
        m.wf(),
        m.grid() == default_dims(),
        m@.len() == default_dims().cell_count(),
        forall|i: int|
            0 <= i < m@.len() ==> #[trigger] m@[i] == (default_dims().y_of(i) == floor_y
                || in_some_box(default_dims(), i, tower_boxes())),
        forall|i: int|
            0 <= i < m@.len() ==> #[trigger] m@[i] == (default_dims().y_of(i) == floor_y
                || ({
                    let d = default_dims();
                    let (x, y, z) = (d.x_of(i), d.y_of(i), d.z_of(i));
                    1 <= y < 22 && ((120 <= x < 140 && 120 <= z < 140) || (280 <= x < 300 && 200
                        <= z < 220) || (440 <= x < 460 && 320 <= z < 340) || (180 <= x < 200 && 440
                        <= z < 460) || (380 <= x < 400 && 500 <= z < 520) || (520 <= x < 540 && 100
                        <= z < 120))
                })),
{
    let mut map = empty_world(floor_y);
    let mut towers: Vec<(CellCoord, CellCoord)> = Vec::new();
    towers.push((CellCoord { x: 120, y: 1, z: 120 }, CellCoord { x: 140, y: 22, z: 140 }));
    towers.push((CellCoord { x: 280, y: 1, z: 200 }, CellCoord { x: 300, y: 22, z: 220 }));
    towers.push((CellCoord { x: 440, y: 1, z: 320 }, CellCoord { x: 460, y: 22, z: 340 }));
    towers.push((CellCoord { x: 180, y: 1, z: 440 }, CellCoord { x: 200, y: 22, z: 460 }));
    towers.push((CellCoord { x: 380, y: 1, z: 500 }, CellCoord { x: 400, y: 22, z: 520 }));
    towers.push((CellCoord { x: 520, y: 1, z: 100 }, CellCoord { x: 540, y: 22, z: 120 }));
    proof {
        assert(towers@ =~= tower_boxes());
    }
    fill_boxes(&mut map, &towers);
    proof {
        assert forall|i: int| 0 <= i < map@.len() implies in_some_box(default_dims(), i, tower_boxes())
            == ({
                    let d = default_dims();
                    let (x, y, z) = (d.x_of(i), d.y_of(i), d.z_of(i));
                    1 <= y < 22 && ((120 <= x < 140 && 120 <= z < 140) || (280 <= x < 300 && 200
                        <= z < 220) || (440 <= x < 460 && 320 <= z < 340) || (180 <= x < 200 && 440
                        <= z < 460) || (380 <= x < 400 && 500 <= z < 520) || (520 <= x < 540 && 100
                        <= z < 120))
                }) by {
            law_tower_boxes(i);
        }
    }
    map
}

/// The tower world's solid cells above the floor are exactly the six
/// towers, each 20 x 21 x 20 cells standing on the floor: a cell is in one
/// of `tower_boxes` exactly when its coordinates lie in one of
/// `[120,140)x[1,22)x[120,140)`, `[280,300)x[1,22)x[200,220)`,
/// `[440,460)x[1,22)x[320,340)`, `[180,200)x[1,22)x[440,460)`,
/// `[380,400)x[1,22)x[500,520)` or `[520,540)x[1,22)x[100,120)`.
pub proof fn law_tower_boxes(i: int)
    ensures
        in_some_box(default_dims(), i, tower_boxes()) == ({
            let d = default_dims();
            let (x, y, z) = (d.x_of(i), d.y_of(i), d.z_of(i));
            1 <= y < 22 && ((120 <= x < 140 && 120 <= z < 140) || (280 <= x < 300 && 200 <= z
                < 220) || (440 <= x < 460 && 320 <= z < 340) || (180 <= x < 200 && 440 <= z < 460)
                || (380 <= x < 400 && 500 <= z < 520) || (520 <= x < 540 && 100 <= z < 120))
        }),
{
    let d = default_dims();
    let b = tower_boxes();
    if in_some_box(d, i, b) {
        let k = choose|k: int| 0 <= k < b.len() && #[trigger] in_coord_box(d, i, b[k]);
        assert(0 <= k < 6);
    } else {
        assert(!in_coord_box(d, i, b[0]));
        assert(!in_coord_box(d, i, b[1]));
        assert(!in_coord_box(d, i, b[2]));
        assert(!in_coord_box(d, i, b[3]));
        assert(!in_coord_box(d, i, b[4]));
        assert(!in_coord_box(d, i, b[5]));
    }
}

/// Whether cell `i` of grid `d` is part of one of the two corridor walls:
/// x in `[40, 600)`, y in `[1, 18)`, z at 280 or 360.
pub open spec fn in_corridor_wall(d: GridDims, i: int) -> bool {
    40 <= d.x_of(i) < 600 && 1 <= d.y_of(i) < 18 && (d.z_of(i) == 280 || d.z_of(i) == 360)
}

/// The floor plus two parallel walls forming a long corridor.
pub fn build_tight_corridor(floor_y: i32) -> (m: GroundTruthMap)
    ensures
        m.wf(),
        m.grid() == default_dims(),
        m@.len() == default_dims().cell_count(),
        forall|i: int|
            0 <= i < m@.len() ==> #[trigger] m@[i] == (default_dims().y_of(i) == floor_y
                || in_corridor_wall(default_dims(), i)),
        forall|i: int|
            0 <= i < m@.len() ==> #[trigger] m@[i] == (default_dims().y_of(i) == floor_y || (40
                <= default_dims().x_of(i) < 600 && 1 <= default_dims().y_of(i) < 18 && (
            default_dims().z_of(i) == 280 || default_dims().z_of(i) == 360))),
{
    let mut map = empty_world(floor_y);
    let ghost m0 = map@;
    let ghost d = default_dims();
    let z_a: i32 = 280;
    let z_b: i32 = 360;
    let mut x: i32 = 40;
    while x < 600
        invariant
            map.wf(),
            map.grid() == d,
            d == default_dims(),
            map@.len() == m0.len(),
            m0.len() == d.cell_count(),
            40 <= x <= 600,
            z_a == 280,
            z_b == 360,
            forall|i: int|
                0 <= i < m0.len() ==> #[trigger] map@[i] == (m0[i] || (in_corridor_wall(d, i)
                    && d.x_of(i) < x)),
        decreases 600 - x,
    {
        let mut y: i32 = 1;
        while y < 18
            invariant
                map.wf(),
                map.grid() == d,
                d == default_dims(),
                map@.len() == m0.len(),
                m0.len() == d.cell_count(),
                40 <= x < 600,
                1 <= y <= 18,
                z_a == 280,
                z_b == 360,
                forall|i: int|
                    0 <= i < m0.len() ==> #[trigger] map@[i] == (m0[i] || (in_corridor_wall(d, i)
                        && (d.x_of(i) < x || (d.x_of(i) == x && d.y_of(i) < y)))),
            decreases 18 - y,
        {
            let ca = CellCoord { x, y, z: z_a };
            let cb = CellCoord { x, y, z: z_b };
            let ghost before = map@;
            map.set(ca, true);
            let ghost mid = map@;
            map.set(cb, true);
            proof {
                assert forall|i: int| 0 <= i < m0.len() implies #[trigger] map@[i] == (before[i]
                    || (d.x_of(i) == x && d.y_of(i) == y && (d.z_of(i) == 280 || d.z_of(i)
                    == 360))) by {
                    lemma_index_of_iff_coords(d, ca, i);
                    lemma_index_of_iff_coords(d, cb, i);
                    assert(mid[i] == (before[i] || (d.x_of(i) == x && d.y_of(i) == y && d.z_of(i)
                        == 280)));
                    assert(map@[i] == (mid[i] || (d.x_of(i) == x && d.y_of(i) == y && d.z_of(i)
                        == 360)));
                }
            }
            y += 1;
        }
        x += 1;
    }
    map
}

/// The `.dvm` bytes of a world with the given voxel size (as `f32` bits):
/// what the bootstrap writes for each built-in map.
pub fn world_dvm_bytes(map: &GroundTruthMap, voxel_size_bits: u32) -> (bytes: Vec<u8>)
    requires
        map.wf(),
    ensures
        exists|words: Seq<u32>|
            packs(words, map@) && bytes@ == dvm_encoding(map.grid(), voxel_size_bits, words),
{
    let words = map.pack_bitset();
    proof {
        map.lemma_wf_len();
        assert(words@.len() * 4 <= u32::MAX + 124);
    }
    let bytes = encode_dvm(map.dims(), voxel_size_bits, words.as_slice());
    proof {
        assert(packs(words@, map@) && bytes@ == dvm_encoding(map.grid(), voxel_size_bits, words@));
    }
    bytes
}

} // verus!
