use drones::dvm::MapAsset;
use drones::grid::{CellCoord, GridDims};
use drones::registry::MapEntry;
use drones::swap::{apply_pending_swap, bootstrap_initial_map, enqueue_map_swap, MapSwapRequested, PendingMapSwap};

fn req(h: u32, name: &str) -> MapSwapRequested<u32> {
    MapSwapRequested { handle: h, name: name.to_string() }
}

#[test]
fn latest_request_wins() {
    let mut p: PendingMapSwap<u32> = PendingMapSwap::new();
    enqueue_map_swap(vec![req(1, "a.dvm"), req(2, "b.dvm"), req(3, "c.dvm")], &mut p);
    assert_eq!(p.handle, Some(3));
    assert_eq!(p.name, "c.dvm");
    enqueue_map_swap(Vec::new(), &mut p);
    assert_eq!(p.handle, Some(3));
    assert_eq!(p.name, "c.dvm");
}

#[test]
fn bootstrap_queues_first_entry_once() {
    let mut p: PendingMapSwap<u32> = PendingMapSwap::new();
    let mut once = false;
    let first = || Some(MapEntry { name: "clusters.dvm".to_string(), handle: 11u32 });
    assert!(!bootstrap_initial_map(first(), true, &mut p, &mut once));
    assert!(!bootstrap_initial_map(None, false, &mut p, &mut once));
    assert_eq!(p.handle, None);
    assert!(!once);
    assert!(bootstrap_initial_map(first(), false, &mut p, &mut once));
    assert_eq!(p.handle, Some(11));
    assert_eq!(p.name, "clusters.dvm");
    assert!(once);
    p.handle = None;
    assert!(!bootstrap_initial_map(first(), false, &mut p, &mut once));
    assert_eq!(p.handle, None);
}

#[test]
fn bootstrap_waits_for_pending_request() {
    let mut p: PendingMapSwap<u32> = PendingMapSwap::new();
    p.handle = Some(5);
    let mut once = false;
    let first = Some(MapEntry { name: "x.dvm".to_string(), handle: 11u32 });
    assert!(!bootstrap_initial_map(first, false, &mut p, &mut once));
    assert_eq!(p.handle, Some(5));
    assert!(!once);
}

#[test]
fn applying_a_swap_builds_ground_truth_and_clears_queue() {
    let mut p: PendingMapSwap<u32> = PendingMapSwap::new();
    enqueue_map_swap(vec![req(4, "tiny.dvm")], &mut p);
    let asset = MapAsset { dims: GridDims { x: 4, y: 2, z: 1 }, voxel_size_bits: 1.0f32.to_bits(), bitset: vec![0b1000_0001] };
    let map = apply_pending_swap(&mut p, Some(&asset)).expect("the asset has loaded");
    assert_eq!(p.handle, None);
    assert!(p.name.is_empty());
    assert_eq!(map.dims(), asset.dims);
    assert!(map.get(CellCoord { x: 0, y: 0, z: 0 }));
    assert!(map.get(CellCoord { x: 3, y: 1, z: 0 }));
    assert_eq!(map.count_occupied(), 2);
}

#[test]
fn swap_waits_until_the_asset_has_loaded() {
    let asset = MapAsset { dims: GridDims { x: 1, y: 1, z: 1 }, voxel_size_bits: 0, bitset: vec![1] };
    let mut p: PendingMapSwap<u32> = PendingMapSwap::new();
    assert!(apply_pending_swap(&mut p, Some(&asset)).is_none());
    assert_eq!(p.handle, None);
    enqueue_map_swap(vec![req(7, "slow.dvm")], &mut p);
    assert!(apply_pending_swap(&mut p, None).is_none());
    assert_eq!(p.handle, Some(7));
    assert_eq!(p.name, "slow.dvm");
    let map = apply_pending_swap(&mut p, Some(&asset)).expect("loaded now");
    assert!(map.get(CellCoord { x: 0, y: 0, z: 0 }));
    assert_eq!(p.handle, None);
}
