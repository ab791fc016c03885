use drones::grid::{CellCoord, GridDims};
use drones::ground_truth::GroundTruthMap;
use drones::raycast::cast_ray;
use drones::voxel_map::{CellState, VoxelMap};

fn c(x: i32, y: i32, z: i32) -> CellCoord {
    CellCoord { x, y, z }
}

#[test]
fn ray_frees_until_the_wall() {
    let d = GridDims { x: 8, y: 1, z: 1 };
    let mut ground = GroundTruthMap::new(d);
    ground.set(c(4, 0, 0), true);
    let mut local = VoxelMap::new(d);
    let path: Vec<CellCoord> = (0..8).map(|x| c(x, 0, 0)).collect();
    let end = cast_ray(c(0, 0, 0), &path, &ground, &mut local);
    assert_eq!(end, c(4, 0, 0));
    for x in 0..4 {
        assert_eq!(local.get(c(x, 0, 0)), CellState::Free);
    }
    assert_eq!(local.get(c(4, 0, 0)), CellState::Occupied);
    assert_eq!(local.get(c(5, 0, 0)), CellState::Unknown);
    assert_eq!(local.count_known(), (4, 1));
}

#[test]
fn ray_without_hit_ends_at_last_cell() {
    let d = GridDims { x: 8, y: 1, z: 1 };
    let ground = GroundTruthMap::new(d);
    let mut local = VoxelMap::new(d);
    let path = vec![c(1, 0, 0), c(2, 0, 0), c(3, 0, 0)];
    assert_eq!(cast_ray(c(1, 0, 0), &path, &ground, &mut local), c(3, 0, 0));
    assert_eq!(local.count_known(), (3, 0));
    let empty: Vec<CellCoord> = Vec::new();
    assert_eq!(cast_ray(c(6, 0, 0), &empty, &ground, &mut local), c(6, 0, 0));
}

#[test]
fn ray_miss_does_not_erase_a_wall() {
    let d = GridDims { x: 4, y: 1, z: 1 };
    let mut ground = GroundTruthMap::new(d);
    let mut local = VoxelMap::new(d);
    ground.set(c(2, 0, 0), true);
    let path: Vec<CellCoord> = (0..4).map(|x| c(x, 0, 0)).collect();
    cast_ray(c(0, 0, 0), &path, &ground, &mut local);
    ground.set(c(2, 0, 0), false);
    let end = cast_ray(c(0, 0, 0), &path, &ground, &mut local);
    assert_eq!(end, c(3, 0, 0));
    assert_eq!(local.get(c(2, 0, 0)), CellState::Occupied);
    assert_eq!(local.get(c(3, 0, 0)), CellState::Free);
}

#[test]
fn cells_outside_the_local_grid_are_skipped() {
    let d = GridDims { x: 2, y: 1, z: 1 };
    let ground = GroundTruthMap::new(d);
    let mut local = VoxelMap::new(d);
    let path = vec![c(1, 0, 0), c(2, 0, 0), c(3, 0, 0)];
    assert_eq!(cast_ray(c(1, 0, 0), &path, &ground, &mut local), c(3, 0, 0));
    assert_eq!(local.count_known(), (1, 0));
}

#[test]
fn ray_queues_the_wall_it_finds_once() {
    let d = GridDims { x: 8, y: 1, z: 1 };
    let mut ground = GroundTruthMap::new(d);
    ground.set(c(4, 0, 0), true);
    let mut local = VoxelMap::new(d);
    let path: Vec<CellCoord> = (0..8).map(|x| c(x, 0, 0)).collect();
    cast_ray(c(0, 0, 0), &path, &ground, &mut local);
    cast_ray(c(0, 0, 0), &path, &ground, &mut local);
    assert_eq!(local.drain_dirty_occupied(), vec![4]);
    assert!(!local.has_dirty_occupied());
}
