use drones::grid::{CellCoord, GridDims};
use drones::voxel_map::{unflatten, CellState, VoxelMap};

fn c(x: i32, y: i32, z: i32) -> CellCoord {
    CellCoord { x, y, z }
}

fn dims(x: u32, y: u32, z: u32) -> GridDims {
    GridDims { x, y, z }
}

#[test]
fn new_map_is_unknown_everywhere() {
    let m = VoxelMap::new(dims(4, 3, 2));
    assert_eq!(m.dims(), dims(4, 3, 2));
    assert_eq!(m.get(c(0, 0, 0)), CellState::Unknown);
    assert_eq!(m.get(c(3, 2, 1)), CellState::Unknown);
    assert_eq!(m.count_known(), (0, 0));
    assert!(!m.has_dirty_occupied());
    assert!(m.iter_known().is_empty());
}

#[test]
fn idx_is_x_fastest_and_bounds_checked() {
    let m = VoxelMap::new(dims(4, 3, 2));
    assert_eq!(m.idx(c(0, 0, 0)), Some(0));
    assert_eq!(m.idx(c(1, 0, 0)), Some(1));
    assert_eq!(m.idx(c(0, 1, 0)), Some(4));
    assert_eq!(m.idx(c(0, 0, 1)), Some(12));
    assert_eq!(m.idx(c(3, 2, 1)), Some(23));
    assert_eq!(m.idx(c(4, 0, 0)), None);
    assert_eq!(m.idx(c(0, 3, 0)), None);
    assert_eq!(m.idx(c(0, 0, 2)), None);
    assert_eq!(m.idx(c(-1, 0, 0)), None);
    assert_eq!(m.idx(c(0, -1, 0)), None);
    assert_eq!(m.idx(c(0, 0, -1)), None);
}

#[test]
fn occupied_is_sticky() {
    let mut m = VoxelMap::new(dims(4, 4, 4));
    m.upgrade(c(1, 2, 3), CellState::Occupied);
    m.upgrade(c(1, 2, 3), CellState::Free);
    m.upgrade(c(1, 2, 3), CellState::Unknown);
    assert_eq!(m.get(c(1, 2, 3)), CellState::Occupied);
    assert_eq!(m.count_known(), (0, 1));
}

#[test]
fn free_overrides_unknown_only() {
    let mut m = VoxelMap::new(dims(4, 4, 4));
    m.upgrade(c(0, 0, 0), CellState::Free);
    assert_eq!(m.get(c(0, 0, 0)), CellState::Free);
    m.upgrade(c(0, 0, 0), CellState::Unknown);
    assert_eq!(m.get(c(0, 0, 0)), CellState::Free);
    m.upgrade(c(0, 0, 0), CellState::Occupied);
    assert_eq!(m.get(c(0, 0, 0)), CellState::Occupied);
    assert_eq!(m.count_known(), (0, 1));
}

#[test]
fn unknown_observation_changes_nothing() {
    let mut m = VoxelMap::new(dims(2, 2, 2));
    m.upgrade(c(1, 1, 1), CellState::Unknown);
    assert_eq!(m.get(c(1, 1, 1)), CellState::Unknown);
    assert_eq!(m.count_known(), (0, 0));
    assert!(m.iter_known().is_empty());
}

#[test]
fn out_of_grid_upgrade_is_ignored() {
    let mut m = VoxelMap::new(dims(2, 2, 2));
    m.upgrade(c(2, 0, 0), CellState::Occupied);
    m.upgrade(c(-1, 0, 0), CellState::Occupied);
    assert_eq!(m.count_known(), (0, 0));
    assert!(!m.has_dirty_occupied());
    assert_eq!(m.get(c(2, 0, 0)), CellState::Unknown);
}

#[test]
fn counts_track_transitions() {
    let mut m = VoxelMap::new(dims(3, 3, 3));
    m.upgrade(c(0, 0, 0), CellState::Free);
    m.upgrade(c(1, 0, 0), CellState::Free);
    m.upgrade(c(2, 0, 0), CellState::Occupied);
    assert_eq!(m.count_known(), (2, 1));
    m.upgrade(c(1, 0, 0), CellState::Occupied);
    assert_eq!(m.count_known(), (1, 2));
}

#[test]
fn dirty_occupied_drains_each_cell_once() {
    let mut m = VoxelMap::new(dims(4, 4, 4));
    m.upgrade(c(1, 0, 0), CellState::Free);
    assert!(!m.has_dirty_occupied());
    m.upgrade(c(1, 0, 0), CellState::Occupied);
    m.upgrade(c(2, 0, 0), CellState::Occupied);
    m.upgrade(c(1, 0, 0), CellState::Occupied);
    assert!(m.has_dirty_occupied());
    let drained = m.drain_dirty_occupied();
    assert_eq!(drained, vec![1, 2]);
    assert!(!m.has_dirty_occupied());
    m.upgrade(c(1, 0, 0), CellState::Occupied);
    assert!(m.drain_dirty_occupied().is_empty());
    assert_eq!(m.get(c(1, 0, 0)), CellState::Occupied);
}

#[test]
fn unflatten_inverts_idx() {
    let d = dims(5, 4, 3);
    assert_eq!(unflatten(0, d), c(0, 0, 0));
    assert_eq!(unflatten(7, d), c(2, 1, 0));
    assert_eq!(unflatten(20, d), c(0, 0, 1));
    assert_eq!(unflatten(59, d), c(4, 3, 2));
    let m = VoxelMap::new(d);
    for i in 0..60u32 {
        assert_eq!(m.idx(unflatten(i, d)), Some(i));
    }
}

#[test]
fn iter_known_lists_every_known_cell_once() {
    let mut m = VoxelMap::new(dims(4, 4, 4));
    m.upgrade(c(1, 2, 3), CellState::Free);
    m.upgrade(c(0, 0, 0), CellState::Occupied);
    m.upgrade(c(3, 3, 3), CellState::Free);
    let mut known = m.iter_known();
    let (free, occupied) = m.count_known();
    assert_eq!(known.len(), free + occupied);
    known.sort_by_key(|(p, _)| (p.x, p.y, p.z));
    assert_eq!(
        known,
        vec![
            (c(0, 0, 0), CellState::Occupied),
            (c(1, 2, 3), CellState::Free),
            (c(3, 3, 3), CellState::Free),
        ]
    );
}

#[test]
fn merge_joins_cell_by_cell() {
    let d = dims(3, 2, 2);
    let mut global = VoxelMap::new(d);
    global.upgrade(c(0, 0, 0), CellState::Occupied);
    global.upgrade(c(1, 0, 0), CellState::Free);
    let mut local = VoxelMap::new(d);
    local.upgrade(c(0, 0, 0), CellState::Free);
    local.upgrade(c(1, 0, 0), CellState::Occupied);
    local.upgrade(c(2, 1, 1), CellState::Free);
    global.merge_from(&local);
    assert_eq!(global.get(c(0, 0, 0)), CellState::Occupied);
    assert_eq!(global.get(c(1, 0, 0)), CellState::Occupied);
    assert_eq!(global.get(c(2, 1, 1)), CellState::Free);
    assert_eq!(global.get(c(2, 0, 0)), CellState::Unknown);
    assert_eq!(global.count_known(), (1, 2));
    assert_eq!(local.count_known(), (2, 1));
}

#[test]
fn merge_order_does_not_matter() {
    let d = dims(3, 3, 3);
    let mut a = VoxelMap::new(d);
    a.upgrade(c(0, 1, 2), CellState::Free);
    a.upgrade(c(2, 2, 2), CellState::Occupied);
    let mut b = VoxelMap::new(d);
    b.upgrade(c(0, 1, 2), CellState::Occupied);
    b.upgrade(c(1, 1, 1), CellState::Free);
    let mut g1 = VoxelMap::new(d);
    g1.merge_from(&a);
    g1.merge_from(&b);
    let mut g2 = VoxelMap::new(d);
    g2.merge_from(&b);
    g2.merge_from(&a);
    for i in 0..27u32 {
        let p = unflatten(i, d);
        assert_eq!(g1.get(p), g2.get(p));
    }
    assert_eq!(g1.get(c(0, 1, 2)), CellState::Occupied);
    let before: Vec<CellState> = (0..27u32).map(|i| g1.get(unflatten(i, d))).collect();
    g1.merge_from(&a);
    let after: Vec<CellState> = (0..27u32).map(|i| g1.get(unflatten(i, d))).collect();
    assert_eq!(before, after);
}

#[test]
fn merge_into_empty_copies_local() {
    let d = dims(4, 2, 3);
    let mut local = VoxelMap::new(d);
    local.upgrade(c(3, 1, 2), CellState::Occupied);
    local.upgrade(c(0, 1, 0), CellState::Free);
    let mut global = VoxelMap::new(d);
    global.merge_from(&local);
    for i in 0..24u32 {
        let p = unflatten(i, d);
        assert_eq!(global.get(p), local.get(p));
    }
}

#[test]
fn merge_across_grids_matches_coordinates() {
    let mut local = VoxelMap::new(dims(2, 2, 2));
    local.upgrade(c(1, 1, 1), CellState::Occupied);
    local.upgrade(c(0, 1, 0), CellState::Free);
    let mut global = VoxelMap::new(dims(3, 1, 3));
    global.merge_from(&local);
    assert_eq!(global.get(c(1, 0, 1)), CellState::Unknown);
    assert_eq!(global.count_known(), (0, 0));
    let mut wide = VoxelMap::new(dims(3, 3, 3));
    wide.merge_from(&local);
    assert_eq!(wide.get(c(1, 1, 1)), CellState::Occupied);
    assert_eq!(wide.get(c(0, 1, 0)), CellState::Free);
    assert_eq!(wide.count_known(), (1, 1));
}

#[test]
fn clone_copies_everything() {
    let mut m = VoxelMap::new(dims(3, 3, 3));
    m.upgrade(c(1, 1, 1), CellState::Occupied);
    m.upgrade(c(0, 0, 0), CellState::Free);
    let mut k = m.clone();
    assert_eq!(k.count_known(), (1, 1));
    assert_eq!(k.get(c(1, 1, 1)), CellState::Occupied);
    assert_eq!(k.drain_dirty_occupied(), vec![13]);
    assert!(m.has_dirty_occupied());
    assert_eq!(k.iter_known().len(), 2);
}

#[test]
fn merge_queues_cells_that_become_walls() {
    let d = dims(3, 1, 1);
    let mut global = VoxelMap::new(d);
    global.upgrade(c(0, 0, 0), CellState::Occupied);
    global.upgrade(c(1, 0, 0), CellState::Free);
    assert_eq!(global.drain_dirty_occupied(), vec![0]);
    let mut local = VoxelMap::new(d);
    local.upgrade(c(0, 0, 0), CellState::Occupied);
    local.upgrade(c(1, 0, 0), CellState::Occupied);
    local.upgrade(c(2, 0, 0), CellState::Free);
    global.merge_from(&local);
    assert_eq!(global.drain_dirty_occupied(), vec![1]);
    global.merge_from(&local);
    assert!(!global.has_dirty_occupied());
}

#[test]
fn counts_match_cells_by_coordinate() {
    let d = dims(3, 2, 2);
    let mut m = VoxelMap::new(d);
    assert_eq!(m.count_known(), (0, 0));
    m.upgrade(c(0, 0, 0), CellState::Free);
    m.upgrade(c(2, 1, 1), CellState::Occupied);
    m.upgrade(c(1, 1, 0), CellState::Free);
    m.upgrade(c(1, 1, 0), CellState::Occupied);
    m.upgrade(c(5, 0, 0), CellState::Occupied);
    let mut free = 0;
    let mut occupied = 0;
    for z in 0..2 {
        for y in 0..2 {
            for x in 0..3 {
                match m.get(c(x, y, z)) {
                    CellState::Free => free += 1,
                    CellState::Occupied => occupied += 1,
                    CellState::Unknown => {}
                }
            }
        }
    }
    assert_eq!(m.count_known(), (free, occupied));
    assert_eq!((free, occupied), (1, 2));
}
