//! Integer bookkeeping of the GPU lidar: buffer sizes, dispatch shapes,
//! the scan-rate gate, the frame counter and the per-role ray ranges.

use vstd::prelude::*;
use crate::grid::GridDims;

verus! {

/// Drone slots the GPU buffers are sized for.
pub const MAX_DRONES_GPU: u32 = 50;

/// Bounds of the rays-per-scan slider.
pub const MIN_RAYS_PER_SCAN: u32 = 4;
pub const MAX_RAYS_PER_SCAN: u32 = 256;

/// Bounds of the steps-per-ray slider.
pub const MIN_STEPS_PER_RAY: u32 = 8;
pub const MAX_STEPS_PER_RAY_SLIDER: u32 = 256;

/// Bounds of the scan-interval slider, in frames.
pub const MIN_SCAN_INTERVAL_FRAMES: u32 = 1;
pub const MAX_SCAN_INTERVAL_FRAMES: u32 = 30;

/// `ceil(a / d)` for a positive divisor.
pub open spec fn ceil_div(a: int, d: int) -> int {
    (a + d - 1) / d
}

fn div_ceil_u32(a: u32, d: u32) -> (r: u32)
    requires
        d > 0,
    ensures
        r == ceil_div(a as int, d as int),
{
    proof {
        let q = (a / d) as int;
        let r = (a % d) as int;
        vstd::arithmetic::div_mod::lemma_fundamental_div_mod(a as int, d as int);
        vstd::arithmetic::div_mod::lemma_mod_bound(a as int, d as int);
        if r == 0 {
            assert(a + d - 1 == q * d + (d - 1)) by (nonlinear_arith)
                requires a == d * q + r, r == 0;
            vstd::arithmetic::div_mod::lemma_fundamental_div_mod_converse(
                a + d - 1,
                d as int,
                q,
                d - 1,
            );
        } else {
            assert(a + d - 1 == (q + 1) * d + (r - 1)) by (nonlinear_arith)
                requires a == d * q + r;
            vstd::arithmetic::div_mod::lemma_fundamental_div_mod_converse(
                a + d - 1,
                d as int,
                q + 1,
                r - 1,
            );
            assert(q < u32::MAX) by (nonlinear_arith)
                requires a == d * q + r, d >= 2, q >= 0, r >= 1, a <= u32::MAX;
        }
    }
    a / d + if a % d != 0 { 1 } else { 0 }
}

/// `u32` words of one drone's local occupancy buffer: 2 bits per cell
/// (Free flag, Occupied flag), 16 cells per word.
pub fn occupancy_words_per_drone(dims: GridDims) -> (w: usize)
    requires
        dims.x * dims.y <= u32::MAX,
        dims.cell_count() <= u32::MAX,
    ensures
        w == ceil_div(dims.cell_count(), 16),
{
    let cells = (dims.x * dims.y * dims.z) as usize;
    cells / 16 + if cells % 16 != 0 { 1 } else { 0 }
}

/// The lidar pass runs only on frames that are a multiple of the scan
/// interval (an interval of 0 counts as 1).
pub fn scan_due(frame: u32, scan_interval_frames: u32) -> (due: bool)
    ensures
        due == (frame % (if scan_interval_frames == 0 {
            1u32
        } else {
            scan_interval_frames
        }) == 0),
{
    let interval = if scan_interval_frames > 1 { scan_interval_frames } else { 1 };
    frame % interval == 0
}

/// Workgroups of the lidar pass: 8 x 8 threads, one per (drone slot, ray).
pub fn lidar_workgroups(rays_per_scan: u32) -> (g: (u32, u32))
    ensures
        g.0 == ceil_div(MAX_DRONES_GPU as int, 8),
        g.1 == ceil_div(if rays_per_scan == 0 { 1 } else { rays_per_scan as int }, 8),
{
    let rays = if rays_per_scan > 1 { rays_per_scan } else { 1 };
    (div_ceil_u32(MAX_DRONES_GPU, 8), div_ceil_u32(rays, 8))
}

/// Workgroups of the global-occupancy merge pass: 64 threads per group,
/// one thread per occupancy word.
pub fn merge_workgroups(dims: GridDims) -> (g: u32)
    requires
        dims.x * dims.y <= u32::MAX,
        dims.cell_count() <= u32::MAX,
    ensures
        g == ceil_div(ceil_div(dims.cell_count(), 16), 64),
{
    let cells = dims.x * dims.y * dims.z;
    let words = div_ceil_u32(cells, 16);
    div_ceil_u32(words, 64)
}

/// Threads per workgroup of the instance build passes: one per active cell.
pub const BUILD_GROUP_SIZE: u32 = 256;

/// `u32` words of one indirect-dispatch slot: the workgroup counts
/// `(x, y, z)` and a pad word that keeps each slot 16-byte aligned.
pub const INDIRECT_SLOT_WORDS: usize = 4;

/// The largest entry of `s` (0 for an empty sequence).
pub open spec fn seq_max(s: Seq<u32>) -> int
    decreases s.len(),
{
    if s.len() == 0 {
        0
    } else {
        let m = seq_max(s.drop_last());
        if s.last() > m {
            s.last() as int
        } else {
            m
        }
    }
}

/// The indirect-dispatch buffer of the two instance build passes, as the
/// preparing pass writes it each frame. Slot 0 (the local build) walks the
/// longest of the drones' active-cell lists, one row of groups per drone
/// slot; slot 1 (the global build) walks the global active-cell list.
pub open spec fn build_indirect_words(local_counts: Seq<u32>, global_count: u32) -> Seq<u32> {
    seq![
        ceil_div(seq_max(local_counts), BUILD_GROUP_SIZE as int) as u32,
        MAX_DRONES_GPU,
        1u32,
        0u32,
        ceil_div(global_count as int, BUILD_GROUP_SIZE as int) as u32,
        1u32,
        1u32,
        0u32,
    ]
}

/// `seq_max` is the largest entry: no entry exceeds it, and it is one of
/// the entries (0 for no entries).
proof fn lemma_seq_max(s: Seq<u32>)
    ensures
        forall|k: int| 0 <= k < s.len() ==> #[trigger] s[k] <= seq_max(s),
        s.len() == 0 ==> seq_max(s) == 0,
        s.len() > 0 ==> exists|k: int| 0 <= k < s.len() && #[trigger] s[k] == seq_max(s),
        0 <= seq_max(s) <= u32::MAX,
    decreases s.len(),
{
    if s.len() > 0 {
        let p = s.drop_last();
        lemma_seq_max(p);
        assert forall|k: int| 0 <= k < s.len() implies #[trigger] s[k] <= seq_max(s) by {
            if k < p.len() {
                assert(s[k] == p[k]);
            }
        }
        if s.last() > seq_max(p) {
            assert(s[s.len() - 1] == seq_max(s));
        } else if p.len() > 0 {
            let k = choose|k: int| 0 <= k < p.len() && #[trigger] p[k] == seq_max(p);
            assert(s[k] == p[k]);
        } else {
            assert(s[0] == seq_max(s));
        }
    }
}

/// Whether `m` is the largest of the counts `s` (0 when there are none).
pub open spec fn is_longest(s: Seq<u32>, m: int) -> bool {
    &&& forall|k: int| 0 <= k < s.len() ==> #[trigger] s[k] <= m
    &&& (s.len() == 0 ==> m == 0)
    &&& (s.len() > 0 ==> exists|k: int| 0 <= k < s.len() && #[trigger] s[k] == m)
}

/// The indirect-dispatch buffer holds two 16-byte slots. Slot 0 asks for
/// `ceil(m / 256)` x 50 x 1 workgroups, where `m` is the longest of the
/// drones' active-cell lists (0 when there are no drones): every drone's
/// active cells are covered, one row of groups per drone slot. Slot 1 asks
/// for `ceil(g / 256)` x 1 x 1 workgroups for the `g` global active cells.
/// The pad words are 0.
pub proof fn law_indirect_args_cover_active_cells(local_counts: Seq<u32>, global_count: u32)
    ensures
        ({
            let w = build_indirect_words(local_counts, global_count);
            &&& w.len() == 8
            &&& exists|m: int| #[trigger] is_longest(local_counts, m) && w[0] == (m + 255) / 256
            &&& w[1] == 50 && w[2] == 1 && w[3] == 0
            &&& w[4] == (global_count + 255) / 256
            &&& w[5] == 1 && w[6] == 1 && w[7] == 0
        }),
{
    lemma_seq_max(local_counts);
    let m = seq_max(local_counts);
    assert(is_longest(local_counts, m));
    assert(build_indirect_words(local_counts, global_count)[0] == (m + 255) / 256);
}

/// Fill the indirect-dispatch buffer of the build passes from the drones'
/// active-cell counts and the global active-cell count, so the work of
/// each build scales with the cells that turned `Occupied`, never with
/// the size of the world.
pub fn build_indirect_args(local_counts: &[u32], global_count: u32) -> (w: Vec<u32>)
    ensures
        w@ == build_indirect_words(local_counts@, global_count),
{
    let mut longest: u32 = 0;
    let mut i: usize = 0;
    while i < local_counts.len()
        invariant
            i <= local_counts@.len(),
            longest == seq_max(local_counts@.subrange(0, i as int)),
        decreases local_counts@.len() - i,
    {
        proof {
            assert(local_counts@.subrange(0, i + 1).drop_last() =~= local_counts@.subrange(
                0,
                i as int,
            ));
        }
        if local_counts[i] > longest {
            longest = local_counts[i];
        }
        i += 1;
    }
    proof {
        assert(local_counts@.subrange(0, local_counts@.len() as int) =~= local_counts@);
    }
    let mut w: Vec<u32> = Vec::new();
    w.push(div_ceil_u32(longest, BUILD_GROUP_SIZE));
    w.push(MAX_DRONES_GPU);
    w.push(1);
    w.push(0);
    w.push(div_ceil_u32(global_count, BUILD_GROUP_SIZE));
    w.push(1);
    w.push(1);
    w.push(0);
    proof {
        assert(w@ =~= build_indirect_words(local_counts@, global_count));
    }
    w
}

/// The two instance build passes.
#[derive(Clone, Copy, PartialEq, Eq, Debug, Structural)]
pub enum BuildPass {
    /// The per-drone local maps (indirect slot 0).
    Local,
    /// The central map (indirect slot 1).
    Global,
}

/// What a build pass records on a frame when it runs: it zeroes its
/// instance counter, then dispatches indirectly from the build buffer at
/// `indirect_offset` bytes.
#[derive(Clone, Copy, PartialEq, Eq, Debug, Structural)]
pub struct BuildDispatch {
    pub clear_instance_count: bool,
    pub indirect_offset: u64,
}

/// What build pass `pass` does on frame `frame`, by spec.
pub open spec fn build_plan_spec(pass: BuildPass, frame: u32) -> Option<BuildDispatch> {
    match pass {
        BuildPass::Local => Some(BuildDispatch { clear_instance_count: true, indirect_offset: 0 }),
        BuildPass::Global => if frame % 2 == 0 {
            Some(
                BuildDispatch {
                    clear_instance_count: true,
                    indirect_offset: (INDIRECT_SLOT_WORDS * 4) as u64,
                },
            )
        } else {
            None
        },
    }
}

/// The build pass `pass` on frame `frame`. The local build runs every
/// frame from slot 0; the global build runs on even frames only (the
/// central map's instances are read every frame, and one frame of delay
/// does not show), from slot 1. Both clear their instance counter first.
pub fn build_pass_plan(pass: BuildPass, frame: u32) -> (plan: Option<BuildDispatch>)
    ensures
        plan == build_plan_spec(pass, frame),
        pass == BuildPass::Local ==> plan == Some(
            BuildDispatch { clear_instance_count: true, indirect_offset: 0 },
        ),
        pass == BuildPass::Global ==> (plan is Some <==> frame % 2 == 0),
        pass == BuildPass::Global && frame % 2 == 0 ==> plan == Some(
            BuildDispatch { clear_instance_count: true, indirect_offset: 16 },
        ),
{
    match pass {
        BuildPass::Local => Some(BuildDispatch { clear_instance_count: true, indirect_offset: 0 }),
        BuildPass::Global => if frame % 2 == 0 {
            Some(
                BuildDispatch {
                    clear_instance_count: true,
                    indirect_offset: (INDIRECT_SLOT_WORDS * 4) as u64,
                },
            )
        } else {
            None
        },
    }
}

/// Where the lidar rays are cast against: the voxel bitset with a DDA walk,
/// or the triangle BVH. Exactly one lidar pass, the one of this mode, runs.
#[derive(Clone, Copy, PartialEq, Eq, Debug, Structural)]
pub enum LidarSourceMode {
    Dda,
    Bvh,
}

/// What the lidar pass does on a frame when it runs.
#[derive(Clone, Copy, PartialEq, Eq, Debug, Structural)]
pub struct LidarDispatch {
    /// Zero the point counter first, so the point cloud shows this scan
    /// only (off in sticky-spray mode, where points accumulate).
    pub clear_point_count: bool,
    pub groups_x: u32,
    pub groups_y: u32,
}

/// The scan interval in effect: 0 counts as 1.
pub open spec fn effective_interval(scan_interval_frames: u32) -> u32 {
    if scan_interval_frames == 0 {
        1u32
    } else {
        scan_interval_frames
    }
}

/// What the lidar pass of source `pass` does on frame `frame` while the
/// selected source is `mode`, by spec.
pub open spec fn scan_plan_spec(
    mode: LidarSourceMode,
    pass: LidarSourceMode,
    frame: u32,
    scan_interval_frames: u32,
    rays_per_scan: u32,
    sticky_spray: bool,
) -> Option<LidarDispatch> {
    if mode == pass && frame % effective_interval(scan_interval_frames) == 0 {
        Some(
            LidarDispatch {
                clear_point_count: !sticky_spray,
                groups_x: ceil_div(MAX_DRONES_GPU as int, 8) as u32,
                groups_y: ceil_div(
                    if rays_per_scan == 0 {
                        1
                    } else {
                        rays_per_scan as int
                    },
                    8,
                ) as u32,
            },
        )
    } else {
        None
    }
}

/// The lidar pass of source `pass` on frame `frame`: nothing unless `pass`
/// is the selected source `mode` and the scan is due; otherwise whether to
/// clear the point counter and the workgroup shape.
pub fn lidar_scan_plan(
    mode: LidarSourceMode,
    pass: LidarSourceMode,
    frame: u32,
    scan_interval_frames: u32,
    rays_per_scan: u32,
    sticky_spray: bool,
) -> (plan: Option<LidarDispatch>)
    ensures
        plan == scan_plan_spec(mode, pass, frame, scan_interval_frames, rays_per_scan, sticky_spray),
        plan is Some ==> mode == pass,
        plan is Some <==> (mode == pass && frame % (if scan_interval_frames == 0 {
            1u32
        } else {
            scan_interval_frames
        }) == 0),
        plan matches Some(p) ==> p.clear_point_count == !sticky_spray && p.groups_x == 7
            && p.groups_y == ((if rays_per_scan == 0 {
            1
        } else {
            rays_per_scan as int
        }) + 7) / 8,
{
    if mode != pass {
        return None;
    }
    if !scan_due(frame, scan_interval_frames) {
        return None;
    }
    let (gx, gy) = lidar_workgroups(rays_per_scan);
    Some(LidarDispatch { clear_point_count: !sticky_spray, groups_x: gx, groups_y: gy })
}

/// The lidar pass of source `pass` dispatches on frame `frame` exactly when
/// `pass` is the selected source and `frame` is a multiple of the scan
/// interval (an interval of 0 counting as 1); when it does, it clears the
/// point counter unless spray is sticky and runs 7 x ceil(max(rays, 1) / 8)
/// workgroups of 8 x 8 threads.
pub proof fn law_scan_gate(
    mode: LidarSourceMode,
    pass: LidarSourceMode,
    frame: u32,
    scan_interval_frames: u32,
    rays_per_scan: u32,
    sticky_spray: bool,
)
    ensures
        scan_plan_spec(mode, pass, frame, scan_interval_frames, rays_per_scan, sticky_spray) is Some
            <==> (mode == pass && frame % (if scan_interval_frames == 0 {
            1u32
        } else {
            scan_interval_frames
        }) == 0),
        scan_plan_spec(mode, pass, frame, scan_interval_frames, rays_per_scan, sticky_spray) matches Some(
            p,
        ) ==> p.clear_point_count == !sticky_spray && p.groups_x == 7 && p.groups_y == ((
        if rays_per_scan == 0 {
            1
        } else {
            rays_per_scan as int
        }) + 7) / 8,
{
}

/// The local instance build runs every frame from byte 0 of the indirect
/// buffer; the global build runs exactly on even frames, from byte 16 (the
/// second slot); both clear their instance counter first.
pub proof fn law_build_schedule(frame: u32)
    ensures
        build_plan_spec(BuildPass::Local, frame) == Some(
            BuildDispatch { clear_instance_count: true, indirect_offset: 0 },
        ),
        build_plan_spec(BuildPass::Global, frame) is Some <==> frame % 2 == 0,
        frame % 2 == 0 ==> build_plan_spec(BuildPass::Global, frame) == Some(
            BuildDispatch { clear_instance_count: true, indirect_offset: 16 },
        ),
{
}

/// At most one of the two lidar passes runs on any frame: whatever the
/// selected source and settings, the DDA pass and the BVH pass do not both
/// dispatch.
pub proof fn law_one_lidar_pass_per_frame(
    mode: LidarSourceMode,
    frame: u32,
    scan_interval_frames: u32,
    rays_per_scan: u32,
    sticky_spray: bool,
)
    ensures
        scan_plan_spec(
            mode,
            LidarSourceMode::Dda,
            frame,
            scan_interval_frames,
            rays_per_scan,
            sticky_spray,
        ) is None || scan_plan_spec(
            mode,
            LidarSourceMode::Bvh,
            frame,
            scan_interval_frames,
            rays_per_scan,
            sticky_spray,
        ) is None,
{
}

/// Length of the ray-direction buffer: room for the slider's maximum ray
/// count, or for all directions when there are more.
pub fn ray_slot_count(n_dirs: usize) -> (n: usize)
    ensures
        n == (if n_dirs > MAX_RAYS_PER_SCAN { n_dirs as int } else { MAX_RAYS_PER_SCAN as int }),
{
    let max_slots = MAX_RAYS_PER_SCAN as usize;
    if n_dirs > max_slots {
        n_dirs
    } else {
        max_slots
    }
}

/// Length of the buffer holding every drone slot's local occupancy.
pub fn local_occupancy_len(dims: GridDims) -> (n: usize)
    requires
        dims.x * dims.y <= u32::MAX,
        dims.cell_count() <= u32::MAX,
        MAX_DRONES_GPU * ceil_div(dims.cell_count(), 16) <= usize::MAX,
    ensures
        n == MAX_DRONES_GPU * ceil_div(dims.cell_count(), 16),
{
    let words = occupancy_words_per_drone(dims);
    (MAX_DRONES_GPU as usize) * words
}

/// Frames since start-up, wrapping.
pub struct LidarFrameCounter(pub u32);

impl LidarFrameCounter {
    /// Advance one frame, wrapping at `u32::MAX`.
    pub fn tick(&mut self)
        ensures
            final(self).0 == (if old(self).0 == u32::MAX {
                0
            } else {
                old(self).0 + 1
            }),
    {
        self.0 = self.0.wrapping_add(1);
    }
}

/// A drone's sensing role.
#[derive(Clone, Copy, PartialEq, Eq, Debug, Structural)]
pub enum Role {
    Scout,
    Mapper,
    Anchor,
}

/// Where one role's rays sit in the shared ray buffer.
#[derive(Clone, Copy, PartialEq, Eq, Debug, Structural)]
pub struct RoleConeRange {
    pub role: Role,
    pub offset: u32,
    pub count: u32,
}

/// Ranges of the concatenated per-role ray buffer, in the order scout,
/// mapper, anchor, for cones of `counts[k]` rays each: each range starts
/// where the previous one ended.
pub fn role_cone_ranges(counts: [u32; 3]) -> (r: [RoleConeRange; 3])
    requires
        counts[0] + counts[1] + counts[2] <= u32::MAX,
    ensures
        r[0] == (RoleConeRange { role: Role::Scout, offset: 0, count: counts[0] }),
        r[1] == (RoleConeRange { role: Role::Mapper, offset: counts[0], count: counts[1] }),
        r[2] == (RoleConeRange {
            role: Role::Anchor,
            offset: (counts[0] + counts[1]) as u32,
            count: counts[2],
        }),
{
    let roles = [Role::Scout, Role::Mapper, Role::Anchor];
    let mut ranges = [RoleConeRange { role: Role::Scout, offset: 0, count: 0 };3];
    let mut offset: u32 = 0;
    let mut i: usize = 0;
    while i < 3
        invariant
            i <= 3,
            counts[0] + counts[1] + counts[2] <= u32::MAX,
            roles@ == seq![Role::Scout, Role::Mapper, Role::Anchor],
            offset == (if i == 0 {
                0
            } else if i == 1 {
                counts[0] as int
            } else if i == 2 {
                counts[0] + counts[1]
            } else {
                counts[0] + counts[1] + counts[2]
            }),
            i > 0 ==> ranges[0] == (RoleConeRange { role: Role::Scout, offset: 0, count: counts[0] }),
            i > 1 ==> ranges[1] == (RoleConeRange {
                role: Role::Mapper,
                offset: counts[0],
                count: counts[1],
            }),
            i > 2 ==> ranges[2] == (RoleConeRange {
                role: Role::Anchor,
                offset: (counts[0] + counts[1]) as u32,
                count: counts[2],
            }),
        decreases 3 - i,
    {
        let count = counts[i];
        ranges[i] = RoleConeRange { role: roles[i], offset, count };
        offset += count;
        i += 1;
    }
    ranges
}

} // verus!
