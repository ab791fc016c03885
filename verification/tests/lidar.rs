use drones::grid::GridDims;
use drones::lidar::{
    build_indirect_args, build_pass_plan, lidar_scan_plan, lidar_workgroups,
    local_occupancy_len, merge_workgroups, occupancy_words_per_drone, ray_slot_count,
    role_cone_ranges, scan_due, BuildDispatch, BuildPass, LidarDispatch, LidarFrameCounter,
    LidarSourceMode, Role, RoleConeRange,
};

#[test]
fn occupancy_words() {
    assert_eq!(occupancy_words_per_drone(GridDims { x: 640, y: 24, z: 640 }), 614_400);
    assert_eq!(occupancy_words_per_drone(GridDims { x: 17, y: 1, z: 1 }), 2);
    assert_eq!(occupancy_words_per_drone(GridDims { x: 0, y: 5, z: 5 }), 0);
}

#[test]
fn scan_gate() {
    assert!(scan_due(0, 3));
    assert!(!scan_due(1, 3));
    assert!(scan_due(6, 3));
    assert!(scan_due(7, 0));
    assert!(scan_due(7, 1));
}

#[test]
fn workgroup_shapes() {
    assert_eq!(lidar_workgroups(64), (7, 8));
    assert_eq!(lidar_workgroups(0), (7, 1));
    assert_eq!(lidar_workgroups(9), (7, 2));
    let d = GridDims { x: 640, y: 24, z: 640 };
    assert_eq!(merge_workgroups(d), 9600);
}

#[test]
fn frame_counter_wraps() {
    let mut f = LidarFrameCounter(5);
    f.tick();
    assert_eq!(f.0, 6);
    let mut g = LidarFrameCounter(u32::MAX);
    g.tick();
    assert_eq!(g.0, 0);
}

#[test]
fn ray_ranges_follow_each_other() {
    let r = role_cone_ranges([64, 128, 32]);
    assert_eq!(r[0], RoleConeRange { role: Role::Scout, offset: 0, count: 64 });
    assert_eq!(r[1], RoleConeRange { role: Role::Mapper, offset: 64, count: 128 });
    assert_eq!(r[2], RoleConeRange { role: Role::Anchor, offset: 192, count: 32 });
}

#[test]
fn scan_plan_gates_and_clears() {
    let dda = LidarSourceMode::Dda;
    assert_eq!(lidar_scan_plan(dda, dda, 3, 2, 64, false), None);
    assert_eq!(
        lidar_scan_plan(dda, dda, 4, 2, 64, false),
        Some(LidarDispatch { clear_point_count: true, groups_x: 7, groups_y: 8 })
    );
    assert_eq!(
        lidar_scan_plan(dda, dda, 5, 0, 100, true),
        Some(LidarDispatch { clear_point_count: false, groups_x: 7, groups_y: 13 })
    );
}

#[test]
fn only_the_selected_lidar_source_scans() {
    let (dda, bvh) = (LidarSourceMode::Dda, LidarSourceMode::Bvh);
    let expected = Some(LidarDispatch { clear_point_count: true, groups_x: 7, groups_y: 8 });
    assert_eq!(lidar_scan_plan(dda, dda, 0, 1, 64, false), expected);
    assert_eq!(lidar_scan_plan(dda, bvh, 0, 1, 64, false), None);
    assert_eq!(lidar_scan_plan(bvh, bvh, 0, 1, 64, false), expected);
    assert_eq!(lidar_scan_plan(bvh, dda, 0, 1, 64, false), None);
    for mode in [dda, bvh] {
        for frame in 0..6u32 {
            let runs = [dda, bvh]
                .iter()
                .filter(|&&pass| lidar_scan_plan(mode, pass, frame, 2, 64, true).is_some())
                .count();
            assert!(runs <= 1);
        }
    }
}

#[test]
fn build_passes_dispatch_from_their_indirect_slots() {
    for frame in 0..4u32 {
        assert_eq!(
            build_pass_plan(BuildPass::Local, frame),
            Some(BuildDispatch { clear_instance_count: true, indirect_offset: 0 })
        );
    }
    assert_eq!(
        build_pass_plan(BuildPass::Global, 4),
        Some(BuildDispatch { clear_instance_count: true, indirect_offset: 16 })
    );
    assert_eq!(build_pass_plan(BuildPass::Global, 5), None);
}

#[test]
fn indirect_args_scale_with_active_cells() {
    assert_eq!(build_indirect_args(&[3, 700, 256], 257), vec![3, 50, 1, 0, 2, 1, 1, 0]);
    assert_eq!(build_indirect_args(&[], 0), vec![0, 50, 1, 0, 0, 1, 1, 0]);
    assert_eq!(build_indirect_args(&[256], 512), vec![1, 50, 1, 0, 2, 1, 1, 0]);
}

#[test]
fn buffer_lengths() {
    assert_eq!(ray_slot_count(10), 256);
    assert_eq!(ray_slot_count(300), 300);
    assert_eq!(local_occupancy_len(GridDims { x: 640, y: 24, z: 640 }), 50 * 614_400);
}
