//! MagicaVoxel `.vox` import: the first model of a file, turned from
//! MagicaVoxel's Z-up frame into the simulator's Y-up frame and rasterised
//! into a packed occupancy bitset.

use vstd::prelude::*;
use crate::bitset::{bit_set, lemma_zero_bits, set_bit, words_for};
use crate::dvm::MapAsset;
use crate::grid::{GridDims, lemma_flat_in_range};
use crate::text::{io_error_text, push_str};

verus! {

/// One voxel of a MagicaVoxel model: position and palette index.
#[derive(Clone, Copy, Debug)]
pub struct VoxVoxel {
    pub x: u8,
    pub y: u8,
    pub z: u8,
    pub i: u8,
}

/// One MagicaVoxel model: its extent (MagicaVoxel axes) and its voxels.
pub struct VoxModel {
    pub size_x: u32,
    pub size_y: u32,
    pub size_z: u32,
    pub voxels: Vec<VoxVoxel>,
}

/// A model as plain values: `((size x, size y, size z), voxels as (x, y, z, i))`.
pub type VoxModelView = ((u32, u32, u32), Seq<(u8, u8, u8, u8)>);

impl View for VoxModel {
    type V = VoxModelView;

    open spec fn view(&self) -> VoxModelView {
        (
            (self.size_x, self.size_y, self.size_z),
            self.voxels@.map_values(|v: VoxVoxel| (v.x, v.y, v.z, v.i)),
        )
    }
}

/// The models that `dot_vox` reads from a file's bytes, `None` when it
/// refuses the file.
pub uninterp spec fn vox_file_models(bytes: Seq<u8>) -> Option<Seq<VoxModelView>>;

/// The message `dot_vox::load_bytes` gives for every file it refuses.
pub open spec fn vox_refusal_message() -> Seq<char> {
    "Not a valid MagicaVoxel .vox file"@
}

/// `dot_vox::load_bytes`, with each model copied into plain values. The
/// models are named by `vox_file_models` of the bytes; the contract claims
/// no more of them. On refusal the error is the crate's fixed message.
#[verifier::external_body]
fn vox_load_models(bytes: &[u8]) -> (r: Result<Vec<VoxModel>, String>)
    ensures
        match r {
            Ok(ms) => vox_file_models(bytes@) == Some(ms@.map_values(|m: VoxModel| m@)),
            Err(msg) => vox_file_models(bytes@) is None && msg@ == vox_refusal_message(),
        },
{
    match dot_vox::load_bytes(bytes) {
        Ok(data) => Ok(data.models.iter().map(|m| VoxModel {
            size_x: m.size.x,
            size_y: m.size.y,
            size_z: m.size.z,
            voxels: m.voxels.iter().map(|v| VoxVoxel { x: v.x, y: v.y, z: v.z, i: v.i }).collect(),
        }).collect()),
        Err(e) => Err(e.to_string()),
    }
}

/// Why a `.vox` file was refused.
#[derive(Debug)]
pub enum VoxLoadError {
    Io(std::io::Error),
    Parse(String),
    Empty,
}

impl VoxLoadError {
    /// The error as a line of text.
    pub fn message(&self) -> (m: String)
        ensures
            match self {
                VoxLoadError::Io(_) => exists|t: Seq<char>| m@ == "io error: "@ + t,
                VoxLoadError::Parse(msg) => m@ == ".vox parse error: "@ + msg@,
                VoxLoadError::Empty => m@ == ".vox contained no models"@,
            },
    {
        let mut m = String::new();
        match self {
            VoxLoadError::Io(e) => {
                push_str(&mut m, "io error: ");
                let t = io_error_text(e);
                push_str(&mut m, t.as_str());
            },
            VoxLoadError::Parse(msg) => {
                push_str(&mut m, ".vox parse error: ");
                push_str(&mut m, msg.as_str());
            },
            VoxLoadError::Empty => {
                push_str(&mut m, ".vox contained no models");
            },
        }
        proof {
            assert(Seq::<char>::empty() + ".vox contained no models"@ =~= ".vox contained no models"@);
            assert(Seq::<char>::empty() + ".vox parse error: "@ =~= ".vox parse error: "@);
            assert(Seq::<char>::empty() + "io error: "@ =~= "io error: "@);
        }
        m
    }
}

impl From<std::io::Error> for VoxLoadError {
    fn from(e: std::io::Error) -> (r: Self) {
        VoxLoadError::Io(e)
    }
}

impl vstd::std_specs::convert::FromSpecImpl<std::io::Error> for VoxLoadError {
    open spec fn obeys_from_spec() -> bool {
        true
    }

    open spec fn from_spec(v: std::io::Error) -> VoxLoadError {
        VoxLoadError::Io(v)
    }
}

/// Grid extent of a rasterised model: MagicaVoxel's y becomes z and its z
/// becomes y, so the model stands upright in a Y-up world.
pub open spec fn upright_dims(m: VoxModelView) -> GridDims {
    GridDims { x: m.0.0, y: m.0.2, z: m.0.1 }
}

/// Models whose cell count arithmetic stays within `u32`.
pub open spec fn model_fits(m: VoxModelView) -> bool {
    m.0.0 * m.0.2 <= u32::MAX && (m.0.0 * m.0.2) * m.0.1 <= u32::MAX
}

/// Whether voxel `v` of a model lands on cell `i` of the upright grid.
pub open spec fn voxel_lands_on(d: GridDims, v: (u8, u8, u8, u8), i: int) -> bool {
    (v.0 as int) < d.x && (v.2 as int) < d.y && (v.1 as int) < d.z && d.flat_of(
        v.0 as int,
        v.2 as int,
        v.1 as int,
    ) == i
}

/// Whether some voxel of the model lands on cell `i`.
pub open spec fn model_covers(m: VoxModelView, i: int) -> bool {
    exists|k: int| 0 <= k < m.1.len() && #[trigger] voxel_lands_on(upright_dims(m), m.1[k], i)
}

/// The bits `v` of a rasterised model: `ceil(cells / 32)` words, a bit set
/// exactly where some in-bounds voxel lands.
pub open spec fn rasterises(m: VoxModelView, bits: Seq<u32>) -> bool {
    &&& bits.len() == words_for(upright_dims(m).cell_count())
    &&& forall|i: int| 0 <= i < 32 * bits.len() ==> #[trigger] bit_set(bits, i) == model_covers(m, i)
}

/// The `f32` 1.0 as bits: `.vox` files carry no world scale.
pub const UNIT_VOXEL_BITS: u32 = 0x3F80_0000;

/// Rasterise one model into an upright occupancy map with unit voxels.
/// Voxels outside the model's extent are skipped.
pub fn rasterize_model(model: &VoxModel) -> (a: MapAsset)
    requires
        model_fits(model@),
    ensures
        a.dims == upright_dims(model@),
        a.voxel_size_bits == UNIT_VOXEL_BITS,
        rasterises(model@, a.bitset@),
{
    let dims_x = model.size_x;
    let dims_y = model.size_z;
    let dims_z = model.size_y;
    let ghost d = upright_dims(model@);
    let cells = (dims_x * dims_y * dims_z) as usize;
    let words = cells / 32 + if cells % 32 != 0 { 1 } else { 0 };
    let mut bitset = vec![0u32; words];
    proof {
        lemma_zero_bits(bitset@);
        assert(words == words_for(d.cell_count()));
    }
    let ghost mv = model@;
    let mut j: usize = 0;
    while j < model.voxels.len()
        invariant
            mv == model@,
            d == upright_dims(mv),
            dims_x == d.x,
            dims_y == d.y,
            dims_z == d.z,
            model_fits(mv),
            j <= model.voxels@.len(),
            mv.1.len() == model.voxels@.len(),
            bitset@.len() == words,
            words == words_for(d.cell_count()),
            forall|i: int|
                0 <= i < 32 * bitset@.len() ==> #[trigger] bit_set(bitset@, i) == exists|k: int|
                    0 <= k < j && #[trigger] voxel_lands_on(d, mv.1[k], i),
        decreases model.voxels@.len() - j,
    {
        let v = model.voxels[j];
        assert(mv.1[j as int] == (v.x, v.y, v.z, v.i));
        let x = v.x as u32;
        let y = v.z as u32;
        let z = v.y as u32;
        let ghost before = bitset@;
        if x >= dims_x || y >= dims_y || z >= dims_z {
            proof {
                assert forall|i: int| 0 <= i < 32 * bitset@.len() implies #[trigger] bit_set(
                    bitset@,
                    i,
                ) == exists|k: int| 0 <= k < j + 1 && #[trigger] voxel_lands_on(d, mv.1[k], i) by {
                    if exists|k: int| 0 <= k < j + 1 && #[trigger] voxel_lands_on(d, mv.1[k], i) {
                        let k = choose|k: int| 0 <= k < j + 1 && #[trigger] voxel_lands_on(d, mv.1[k], i);
                        assert(k != j);
                    }
                }
            }
        } else {
            proof {
                lemma_flat_in_range(d, x as int, y as int, z as int);
            }
            let flat = (x + y * dims_x + z * dims_x * dims_y) as usize;
            proof {
                assert(flat as int == d.flat_of(x as int, y as int, z as int));
                assert(flat / 32 < words) by {
                    assert(flat < d.cell_count());
                }
            }
            set_bit(&mut bitset, flat);
            proof {
                assert forall|i: int| 0 <= i < 32 * bitset@.len() implies #[trigger] bit_set(
                    bitset@,
                    i,
                ) == exists|k: int| 0 <= k < j + 1 && #[trigger] voxel_lands_on(d, mv.1[k], i) by {
                    if i == flat as int {
                        assert(voxel_lands_on(d, mv.1[j as int], i));
                    }
                    if exists|k: int| 0 <= k < j + 1 && #[trigger] voxel_lands_on(d, mv.1[k], i) {
                        let k = choose|k: int| 0 <= k < j + 1 && #[trigger] voxel_lands_on(d, mv.1[k], i);
                        if k == j {
                            assert(i == flat as int);
                        }
                    }
                }
            }
        }
        j += 1;
    }
    proof {
        assert forall|i: int| 0 <= i < 32 * bitset@.len() implies #[trigger] bit_set(bitset@, i)
            == model_covers(mv, i) by {
            if model_covers(mv, i) {
                let k = choose|k: int| 0 <= k < mv.1.len() && #[trigger] voxel_lands_on(
                    upright_dims(mv),
                    mv.1[k],
                    i,
                );
                assert(voxel_lands_on(d, mv.1[k], i));
            }
        }
    }
    MapAsset { dims: GridDims { x: dims_x, y: dims_y, z: dims_z }, voxel_size_bits: UNIT_VOXEL_BITS, bitset }
}

/// What loading gives for the models a file held: `Empty` when there is
/// none, otherwise the first model rasterised.
pub open spec fn models_result(ms: Seq<VoxModelView>, r: Result<MapAsset, VoxLoadError>) -> bool {
    if ms.len() == 0 {
        r matches Err(VoxLoadError::Empty)
    } else {
        &&& r matches Ok(a)
        &&& r->Ok_0.dims == upright_dims(ms[0])
        &&& r->Ok_0.voxel_size_bits == UNIT_VOXEL_BITS
        &&& rasterises(ms[0], r->Ok_0.bitset@)
    }
}

/// Turn the models read from a `.vox` file into a map: the first model,
/// rasterised, or `Empty` when the file held none.
pub fn models_to_asset(models: &Vec<VoxModel>) -> (r: Result<MapAsset, VoxLoadError>)
    requires
        models@.len() > 0 ==> model_fits(models@[0]@),
    ensures
        models_result(models@.map_values(|m: VoxModel| m@), r),
{
    if models.len() == 0 {
        return Err(VoxLoadError::Empty);
    }
    let a = rasterize_model(&models[0]);
    Ok(a)
}

/// Whether the first model of the file, if any, fits the 32-bit cell
/// arithmetic of rasterisation.
pub open spec fn vox_file_fits(bytes: Seq<u8>) -> bool {
    vox_file_models(bytes) matches Some(ms) ==> (ms.len() > 0 ==> model_fits(ms[0]))
}

/// What loading `bytes` gives: the refusal message when `dot_vox` refuses
/// the file, otherwise `models_result` of its models.
pub open spec fn vox_result(bytes: Seq<u8>, r: Result<MapAsset, VoxLoadError>) -> bool {
    match vox_file_models(bytes) {
        None => r matches Err(VoxLoadError::Parse(msg)) && msg@ == vox_refusal_message(),
        Some(ms) => models_result(ms, r),
    }
}

/// Loader for MagicaVoxel `.vox` files.
pub struct VoxAssetLoader;

impl VoxAssetLoader {
    pub fn new() -> (l: Self) {
        VoxAssetLoader
    }

    /// Load the bytes of a `.vox` file.
    pub fn load_bytes(&self, bytes: &[u8]) -> (r: Result<MapAsset, VoxLoadError>)
        requires
            vox_file_fits(bytes@),
        ensures
            vox_result(bytes@, r),
    {
        let models = match vox_load_models(bytes) {
            Ok(ms) => ms,
            Err(msg) => {
                return Err(VoxLoadError::Parse(msg));
            },
        };
        proof {
            assert(models@.map_values(|m: VoxModel| m@).len() == models@.len());
            if models@.len() > 0 {
                assert(models@.map_values(|m: VoxModel| m@)[0] == models@[0]@);
            }
        }
        models_to_asset(&models)
    }

    /// Load the bytes of a `.vox` file when its first model's cell count
    /// fits 32-bit arithmetic; `None` when it does not.
    pub fn try_load_bytes(&self, bytes: &[u8]) -> (r: Option<Result<MapAsset, VoxLoadError>>)
        ensures
            match r {
                Some(res) => vox_file_fits(bytes@) && vox_result(bytes@, res),
                None => !vox_file_fits(bytes@),
            },
    {
        let fits = match vox_load_models(bytes) {
            Ok(ms) => {
                proof {
                    assert(ms@.map_values(|m: VoxModel| m@).len() == ms@.len());
                    if ms@.len() > 0 {
                        assert(ms@.map_values(|m: VoxModel| m@)[0] == ms@[0]@);
                    }
                }
                if ms.len() == 0 {
                    true
                } else {
                    let m = &ms[0];
                    match m.size_x.checked_mul(m.size_z) {
                        Some(plane) => plane.checked_mul(m.size_y).is_some(),
                        None => false,
                    }
                }
            },
            Err(_) => true,
        };
        if fits {
            Some(self.load_bytes(bytes))
        } else {
            None
        }
    }

    /// File extensions this loader claims.
    pub fn extensions(&self) -> (e: Vec<&'static str>)
        ensures
            e@.len() == 1,
            e@[0]@ == "vox"@,
    {
        let mut e: Vec<&'static str> = Vec::new();
        e.push("vox");
        e
    }
}

} // verus!
