//! Verified core of a drone-swarm exploration simulator: voxel occupancy
//! maps and their merge rule, the `.dvm` map file format, MagicaVoxel
//! rasterisation, ground-truth map construction, lidar ray bookkeeping,
//! pheromone-grid indexing and the map registry / swap queue.

pub mod grid;
pub mod known_set;
pub mod voxel_map;
pub mod dvm;
pub mod bitset;
pub mod ground_truth;
pub mod bootstrap;
pub mod vox;
pub mod raycast;
pub mod registry;
pub mod swap;
pub mod pheromone;
pub mod lidar;
pub mod text;
