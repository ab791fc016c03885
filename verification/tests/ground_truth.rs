use drones::bootstrap::{
    build_clusters, build_empty, build_tight_corridor, build_towers, empty_world, fill_box,
    world_dvm_bytes, DIMS_X, DIMS_Y, DIMS_Z,
};
use drones::dvm::parse_dvm;
use drones::grid::{CellCoord, GridDims};
use drones::ground_truth::GroundTruthMap;

fn c(x: i32, y: i32, z: i32) -> CellCoord {
    CellCoord { x, y, z }
}

#[test]
fn set_and_get() {
    let mut m = GroundTruthMap::new(GridDims { x: 4, y: 4, z: 4 });
    assert!(!m.get(c(1, 2, 3)));
    m.set(c(1, 2, 3), true);
    assert!(m.get(c(1, 2, 3)));
    m.set(c(4, 0, 0), true);
    assert!(!m.get(c(4, 0, 0)));
    assert_eq!(m.count_occupied(), 1);
    m.set(c(1, 2, 3), false);
    assert_eq!(m.count_occupied(), 0);
}

#[test]
fn pack_bitset_layout() {
    let mut m = GroundTruthMap::new(GridDims { x: 10, y: 2, z: 2 });
    m.set(c(0, 0, 0), true); // flat 0
    m.set(c(1, 1, 1), true); // flat 1 + 10 + 20 = 31
    m.set(c(2, 1, 1), true); // flat 32
    let words = m.pack_bitset();
    assert_eq!(words, vec![1 | (1 << 31), 1]);
}

#[test]
fn from_bitset_inverts_pack() {
    let d = GridDims { x: 5, y: 3, z: 3 };
    let mut m = GroundTruthMap::new(d);
    for (x, y, z) in [(0, 0, 0), (4, 2, 2), (2, 1, 0), (3, 0, 2)] {
        m.set(c(x, y, z), true);
    }
    let words = m.pack_bitset();
    let back = GroundTruthMap::from_bitset(d, &words);
    assert_eq!(back.dims(), d);
    for z in 0..3 {
        for y in 0..3 {
            for x in 0..5 {
                assert_eq!(back.get(c(x, y, z)), m.get(c(x, y, z)));
            }
        }
    }
    assert_eq!(back.count_occupied(), 4);
}

#[test]
fn from_short_bitset_reads_empty() {
    let d = GridDims { x: 40, y: 1, z: 1 };
    let m = GroundTruthMap::from_bitset(d, &[u32::MAX]);
    assert!(m.get(c(31, 0, 0)));
    assert!(!m.get(c(32, 0, 0)));
    assert_eq!(m.count_occupied(), 32);
}

#[test]
fn fill_box_marks_the_half_open_box() {
    let mut m = GroundTruthMap::new(GridDims { x: 6, y: 6, z: 6 });
    fill_box(&mut m, c(1, 2, 3), c(3, 4, 5));
    assert_eq!(m.count_occupied(), 8);
    assert!(m.get(c(1, 2, 3)));
    assert!(m.get(c(2, 3, 4)));
    assert!(!m.get(c(3, 3, 4)));
    fill_box(&mut m, c(-2, -2, -2), c(1, 1, 1));
    assert_eq!(m.count_occupied(), 9);
    fill_box(&mut m, c(5, 5, 5), c(5, 9, 9));
    assert_eq!(m.count_occupied(), 9);
}

#[test]
fn built_in_worlds() {
    let floor = 0;
    let empty = build_empty(floor);
    assert_eq!(empty.dims(), GridDims { x: DIMS_X, y: DIMS_Y, z: DIMS_Z });
    assert_eq!(empty.count_occupied(), 640 * 640);
    assert!(empty.get(c(639, 0, 639)));
    assert!(!empty.get(c(10, 1, 10)));

    let towers = build_towers(floor);
    assert_eq!(towers.count_occupied(), 640 * 640 + 6 * 20 * 21 * 20);
    assert!(towers.get(c(120, 21, 139)));
    assert!(!towers.get(c(140, 5, 130)));

    let corridor = build_tight_corridor(floor);
    assert_eq!(corridor.count_occupied(), 640 * 640 + 2 * 560 * 17);
    assert!(corridor.get(c(40, 1, 280)));
    assert!(corridor.get(c(599, 17, 360)));
    assert!(!corridor.get(c(600, 1, 280)));
    assert!(!corridor.get(c(300, 18, 360)));

    let clusters = build_clusters(floor, &vec![(c(10, 1, 10), c(12, 3, 12))]);
    assert_eq!(clusters.count_occupied(), 640 * 640 + 8);

    let raised = empty_world(5);
    assert!(raised.get(c(0, 5, 0)));
    assert!(!raised.get(c(0, 0, 0)));
}

#[test]
fn world_bytes_decode_to_the_world() {
    let mut m = GroundTruthMap::new(GridDims { x: 7, y: 3, z: 2 });
    m.set(c(6, 2, 1), true);
    m.set(c(0, 1, 0), true);
    let bytes = world_dvm_bytes(&m, 1.0f32.to_bits());
    let asset = parse_dvm(&bytes).expect("valid");
    assert_eq!(asset.dims, m.dims());
    assert_eq!(asset.bitset, m.pack_bitset());
    let back = GroundTruthMap::from_bitset(asset.dims, &asset.bitset);
    assert!(back.get(c(6, 2, 1)));
    assert!(back.get(c(0, 1, 0)));
    assert_eq!(back.count_occupied(), 2);
}
