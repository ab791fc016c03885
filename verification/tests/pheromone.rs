use drones::grid::{CellCoord, GridDims};
use drones::pheromone::{
    coarse_cell_count, coarse_index, deposit_neighbors, diffusion_neighbors, gradient_neighbors,
    pheromone_dims, signed_coarse_index, DOWNSAMPLE,
};

fn c(x: i32, y: i32, z: i32) -> CellCoord {
    CellCoord { x, y, z }
}

#[test]
fn coarse_grid_of_the_default_world() {
    assert_eq!(DOWNSAMPLE, 8);
    let d = pheromone_dims(GridDims { x: 640, y: 24, z: 640 });
    assert_eq!(d, GridDims { x: 80, y: 3, z: 80 });
    assert_eq!(coarse_cell_count(d), 19200);
    assert_eq!(pheromone_dims(GridDims { x: 9, y: 8, z: 1 }), GridDims { x: 2, y: 1, z: 1 });
    assert_eq!(pheromone_dims(GridDims { x: 0, y: 0, z: 0 }), GridDims { x: 0, y: 0, z: 0 });
}

#[test]
fn coarse_index_layout() {
    let d = GridDims { x: 4, y: 3, z: 2 };
    assert_eq!(coarse_index(d, 0, 0, 0), Some(0));
    assert_eq!(coarse_index(d, 3, 2, 1), Some(23));
    assert_eq!(coarse_index(d, 1, 1, 1), Some(17));
    assert_eq!(coarse_index(d, 4, 0, 0), None);
    assert_eq!(signed_coarse_index(d, c(-1, 0, 0)), None);
    assert_eq!(signed_coarse_index(d, c(1, 2, 0)), Some(9));
}

#[test]
fn deposit_spills_into_in_grid_neighbours() {
    let d = GridDims { x: 4, y: 3, z: 2 };
    // corner: only +x, +y, +z exist
    assert_eq!(deposit_neighbors(d, c(0, 0, 0)), vec![1, 4, 12]);
    // interior-ish cell (1, 1, 0): +x, -x, +y, -y, +z
    assert_eq!(deposit_neighbors(d, c(1, 1, 0)), vec![6, 4, 9, 1, 17]);
    // outside the grid entirely: no neighbour inside
    assert!(deposit_neighbors(d, c(10, 10, 10)).is_empty());
}

#[test]
fn gradient_stencil_reads_zero_outside() {
    let d = GridDims { x: 4, y: 3, z: 2 };
    assert_eq!(
        gradient_neighbors(d, c(0, 0, 0)),
        vec![Some(1), None, Some(4), None, Some(12), None]
    );
    assert_eq!(
        gradient_neighbors(d, c(3, 2, 1)),
        vec![None, Some(22), None, Some(19), None, Some(11)]
    );
}

#[test]
fn diffusion_stencil_clamps_to_self() {
    let d = GridDims { x: 4, y: 3, z: 2 };
    assert_eq!(diffusion_neighbors(d, 0, 0, 0), (0, vec![1, 0, 4, 0, 12, 0]));
    assert_eq!(diffusion_neighbors(d, 2, 1, 1), (18, vec![19, 17, 22, 14, 18, 6]));
}
