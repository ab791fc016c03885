use drones::dvm::MapAsset;
use drones::grid::GridDims;
use drones::vox::{
    models_to_asset, rasterize_model, VoxAssetLoader, VoxLoadError, VoxModel, VoxVoxel,
    UNIT_VOXEL_BITS,
};

fn v(x: u8, y: u8, z: u8) -> VoxVoxel {
    VoxVoxel { x, y, z, i: 1 }
}

fn bit(a: &MapAsset, i: usize) -> bool {
    (a.bitset[i / 32] >> (i % 32)) & 1 == 1
}

/// A minimal MagicaVoxel file: one model of the given size and voxels.
fn vox_file(size: (u32, u32, u32), voxels: &[(u8, u8, u8, u8)]) -> Vec<u8> {
    let mut size_chunk = Vec::new();
    size_chunk.extend_from_slice(b"SIZE");
    size_chunk.extend_from_slice(&12u32.to_le_bytes());
    size_chunk.extend_from_slice(&0u32.to_le_bytes());
    size_chunk.extend_from_slice(&size.0.to_le_bytes());
    size_chunk.extend_from_slice(&size.1.to_le_bytes());
    size_chunk.extend_from_slice(&size.2.to_le_bytes());
    let mut xyzi = Vec::new();
    xyzi.extend_from_slice(b"XYZI");
    xyzi.extend_from_slice(&(4 + 4 * voxels.len() as u32).to_le_bytes());
    xyzi.extend_from_slice(&0u32.to_le_bytes());
    xyzi.extend_from_slice(&(voxels.len() as u32).to_le_bytes());
    for &(x, y, z, i) in voxels {
        xyzi.extend_from_slice(&[x, y, z, i]);
    }
    let mut out = Vec::new();
    out.extend_from_slice(b"VOX ");
    out.extend_from_slice(&150u32.to_le_bytes());
    out.extend_from_slice(b"MAIN");
    out.extend_from_slice(&0u32.to_le_bytes());
    out.extend_from_slice(&((size_chunk.len() + xyzi.len()) as u32).to_le_bytes());
    out.extend_from_slice(&size_chunk);
    out.extend_from_slice(&xyzi);
    out
}

#[test]
fn rasterize_swaps_y_and_z() {
    // MagicaVoxel size (x=4, y=3, z=2) stands upright as (4, 2, 3).
    let model = VoxModel { size_x: 4, size_y: 3, size_z: 2, voxels: vec![v(1, 2, 1), v(0, 0, 0)] };
    let a = rasterize_model(&model);
    assert_eq!(a.dims, GridDims { x: 4, y: 2, z: 3 });
    assert_eq!(a.voxel_size_bits, UNIT_VOXEL_BITS);
    assert_eq!(f32::from_bits(a.voxel_size_bits), 1.0);
    assert_eq!(a.bitset.len(), 1);
    // voxel (1, 2, 1) -> upright (x=1, y=1, z=2) -> 1 + 1*4 + 2*8 = 21
    assert!(bit(&a, 21));
    assert!(bit(&a, 0));
    let set: Vec<usize> = (0..32).filter(|&i| bit(&a, i)).collect();
    assert_eq!(set, vec![0, 21]);
}

#[test]
fn rasterize_skips_voxels_outside_the_model() {
    let model = VoxModel { size_x: 2, size_y: 2, size_z: 2, voxels: vec![v(2, 0, 0), v(0, 5, 0), v(1, 1, 1)] };
    let a = rasterize_model(&model);
    assert_eq!(a.bitset, vec![1u32 << 7]);
}

#[test]
fn rasterize_sizes_the_bitset_by_cells() {
    let model = VoxModel { size_x: 10, size_y: 10, size_z: 10, voxels: vec![v(9, 9, 9)] };
    let a = rasterize_model(&model);
    assert_eq!(a.bitset.len(), 32); // ceil(1000 / 32)
    assert!(bit(&a, 999));
}

#[test]
fn no_models_is_empty() {
    assert!(matches!(models_to_asset(&Vec::new()), Err(VoxLoadError::Empty)));
}

#[test]
fn first_model_is_used() {
    let models = vec![
        VoxModel { size_x: 1, size_y: 1, size_z: 1, voxels: vec![v(0, 0, 0)] },
        VoxModel { size_x: 8, size_y: 8, size_z: 8, voxels: vec![] },
    ];
    let a = models_to_asset(&models).expect("one model");
    assert_eq!(a.dims, GridDims { x: 1, y: 1, z: 1 });
    assert_eq!(a.bitset, vec![1]);
}

#[test]
fn garbage_is_a_parse_error() {
    let loader = VoxAssetLoader::new();
    match loader.load_bytes(b"definitely not a vox file") {
        Err(VoxLoadError::Parse(msg)) => assert_eq!(msg, "Not a valid MagicaVoxel .vox file"),
        Err(e) => panic!("unexpected error {:?}", e),
        Ok(_) => panic!("garbage accepted"),
    }
}

#[test]
fn vox_file_loads_upright() {
    let bytes = vox_file((3, 2, 5), &[(2, 1, 4, 7), (0, 0, 0, 1)]);
    let loader = VoxAssetLoader::new();
    assert_eq!(loader.extensions(), vec!["vox"]);
    let a = loader.load_bytes(&bytes).expect("valid vox");
    assert_eq!(a.dims, GridDims { x: 3, y: 5, z: 2 });
    // (2, 1, 4) -> upright (2, 4, 1) -> 2 + 4*3 + 1*15 = 29
    let set: Vec<usize> = (0..32).filter(|&i| bit(&a, i)).collect();
    assert_eq!(set, vec![0, 29]);
    let again = loader.try_load_bytes(&bytes).expect("fits").expect("valid vox");
    assert_eq!(again.bitset, a.bitset);
}

#[test]
fn io_errors_convert_for_vox() {
    let e: VoxLoadError = std::io::Error::new(std::io::ErrorKind::Other, "boom").into();
    assert!(matches!(e, VoxLoadError::Io(_)));
}

#[test]
fn vox_errors_read_as_text() {
    assert_eq!(VoxLoadError::Empty.message(), ".vox contained no models");
    assert_eq!(VoxLoadError::Parse("bad".to_string()).message(), ".vox parse error: bad");
    let io = VoxLoadError::Io(std::io::Error::new(std::io::ErrorKind::Other, "eof"));
    assert_eq!(io.message(), "io error: eof");
}
