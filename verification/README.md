# drones

A drone-swarm exploration simulator whose core is verified with Verus.

- `src/` is the verified library: voxel occupancy maps (the sticky
  `Unknown < Free < Occupied` upgrade rule, merging, the list of cells that
  became walls), the `.dvm` map format, MagicaVoxel import through `dot_vox`,
  ground-truth maps and the built-in worlds, lidar ray folding, the map
  registry and swap queue, pheromone-grid indexing and the integer
  bookkeeping of the GPU lidar passes. Laws about these stand in `src/` as
  public proof functions named `law_*`.
- `tests/` runs the library on concrete values.
- `app/` is the Bevy application around the library: asset loading, the
  file system, the ECS schedule and every floating-point computation.
