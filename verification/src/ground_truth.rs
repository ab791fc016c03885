//! The ground-truth world: which voxels are solid. Packs to and from the
//! `.dvm` bitset layout (cell `i` is bit `i % 32` of word `i / 32`).

use vstd::prelude::*;
use crate::bitset::{bit_set, lemma_zero_bits, set_bit, words_for};
use crate::grid::{CellCoord, GridDims, grid_index, lemma_coords_of_flat, lemma_flat_of_coords};

verus! {

/// Number of `true` entries of `s`.
pub open spec fn count_true(s: Seq<bool>) -> nat
    decreases s.len(),
{
    if s.len() == 0 {
        0
    } else {
        count_true(s.drop_last()) + (if s.last() { 1nat } else { 0nat })
    }
}

proof fn lemma_count_true_bound(s: Seq<bool>)
    ensures
        count_true(s) <= s.len(),
    decreases s.len(),
{
    if s.len() > 0 {
        lemma_count_true_bound(s.drop_last());
    }
}

/// Solid / empty state of every voxel of a grid.
pub struct GroundTruthMap {
    dims: GridDims,
    occupied: Vec<bool>,
}

impl View for GroundTruthMap {
    type V = Seq<bool>;

    closed spec fn view(&self) -> Seq<bool> {
        self.occupied@
    }
}

/// Solidity of cell `p` of a grid `dims` holding `cells`; outside reads empty.
pub open spec fn solid_at(dims: GridDims, cells: Seq<bool>, p: CellCoord) -> bool {
    match dims.index_of(p) {
        Some(i) => cells[i],
        None => false,
    }
}

/// Whether `words` is the packed bitset of `cells`: `ceil(len / 32)` words,
/// bit `i` set exactly for the solid cells, padding bits clear.
pub open spec fn packs(words: Seq<u32>, cells: Seq<bool>) -> bool {
    &&& words.len() == words_for(cells.len() as int)
    &&& forall|i: int|
        0 <= i < 32 * words.len() ==> #[trigger] bit_set(words, i) == (i < cells.len()
            && cells[i])
}

/// The cells a bitset describes for `n` cells; bits past the bitset read empty.
pub open spec fn unpack(words: Seq<u32>, n: nat) -> Seq<bool> {
    Seq::new(n, |i: int| i / 32 < words.len() && bit_set(words, i))
}

impl GroundTruthMap {
    /// The grid extent.
    pub closed spec fn grid(&self) -> GridDims {
        self.dims
    }

    pub closed spec fn wf(&self) -> bool {
        &&& self.occupied@.len() == self.dims.cell_count()
        &&& self.dims.cell_count() <= u32::MAX
        &&& self.dims.x * self.dims.y <= u32::MAX
    }

    pub proof fn lemma_wf_len(&self)
        requires
            self.wf(),
        ensures
            self@.len() == self.grid().cell_count(),
            self.grid().cell_count() <= u32::MAX,
    {
    }

    pub fn dims(&self) -> (d: GridDims)
        ensures
            d == self.grid(),
    {
        self.dims
    }

    /// An all-empty world over `dims`.
    pub fn new(dims: GridDims) -> (m: Self)
        requires
            dims.x * dims.y <= u32::MAX,
            dims.cell_count() <= u32::MAX,
        ensures
            m.wf(),
            m.grid() == dims,
            m@ == Seq::new(dims.cell_count() as nat, |k: int| false),
    {
        let n = dims.x * dims.y * dims.z;
        let occupied = vec![false; n as usize];
        let m = GroundTruthMap { dims, occupied };
        proof {
            assert(m.occupied@ =~= Seq::new(dims.cell_count() as nat, |k: int| false));
        }
        m
    }

    /// Whether cell `p` is solid; cells outside the grid are empty.
    pub fn get(&self, p: CellCoord) -> (b: bool)
        requires
            self.wf(),
        ensures
            b == solid_at(self.grid(), self@, p),
    {
        match grid_index(self.dims, p) {
            Some(i) => self.occupied[i as usize],
            None => false,
        }
    }

    /// Mark cell `p` solid or empty; cells outside the grid are ignored.
    pub fn set(&mut self, p: CellCoord, solid: bool)
        requires
            old(self).wf(),
        ensures
            final(self).wf(),
            final(self).grid() == old(self).grid(),
            final(self)@.len() == old(self)@.len(),
            final(self)@ == (match old(self).grid().index_of(p) {
                Some(i) => old(self)@.update(i, solid),
                None => old(self)@,
            }),
    {
        match grid_index(self.dims, p) {
            Some(i) => {
                self.occupied.set(i as usize, solid);
            },
            None => {},
        }
    }

    /// Number of solid cells.
    pub fn count_occupied(&self) -> (n: usize)
        requires
            self.wf(),
        ensures
            n == count_true(self@),
    {
        let mut n: usize = 0;
        let mut i: usize = 0;
        while i < self.occupied.len()
            invariant
                self.wf(),
                i <= self@.len(),
                n == count_true(self@.subrange(0, i as int)),
            decreases self@.len() - i,
        {
            proof {
                assert(self@.subrange(0, i + 1).drop_last() =~= self@.subrange(0, i as int));
                lemma_count_true_bound(self@.subrange(0, i + 1));
            }
            if self.occupied[i] {
                n += 1;
            }
            i += 1;
        }
        proof {
            assert(self@.subrange(0, self@.len() as int) =~= self@);
        }
        n
    }

    /// The packed occupancy bitset of the world.
    pub fn pack_bitset(&self) -> (words: Vec<u32>)
        requires
            self.wf(),
        ensures
            packs(words@, self@),
    {
        let n = self.occupied.len();
        let nw = n / 32 + if n % 32 != 0 { 1 } else { 0 };
        let mut words = vec![0u32; nw];
        proof {
            assert(nw == words_for(n as int));
            lemma_zero_bits(words@);
        }
        let mut i: usize = 0;
        while i < n
            invariant
                self.wf(),
                n == self@.len(),
                i <= n,
                words@.len() == nw,
                nw == words_for(n as int),
                forall|j: int|
                    0 <= j < 32 * words@.len() ==> #[trigger] bit_set(words@, j) == (j < i
                        && self@[j]),
            decreases n - i,
        {
            if self.occupied[i] {
                set_bit(&mut words, i);
            }
            i += 1;
        }
        words
    }

    /// The world over `dims` that a bitset describes. Bits past the end of
    /// `bitset` read as empty cells.
    pub fn from_bitset(dims: GridDims, bitset: &[u32]) -> (m: Self)
        requires
            dims.x * dims.y <= u32::MAX,
            dims.cell_count() <= u32::MAX,
        ensures
            m.wf(),
            m.grid() == dims,
            m@ == unpack(bitset@, dims.cell_count() as nat),
    {
        let n = dims.x * dims.y * dims.z;
        let mut occupied: Vec<bool> = Vec::with_capacity(n as usize);
        let mut i: u32 = 0;
        while i < n
            invariant
                i <= n,
                n == dims.cell_count(),
                occupied@ == unpack(bitset@, dims.cell_count() as nat).subrange(0, i as int),
            decreases n - i,
        {
            let w = (i / 32) as usize;
            let solid = if w < bitset.len() {
                (bitset[w] >> (i % 32)) & 1u32 == 1u32
            } else {
                false
            };
            occupied.push(solid);
            proof {
                assert(occupied@ =~= unpack(bitset@, dims.cell_count() as nat).subrange(
                    0,
                    i + 1,
                ));
            }
            i += 1;
        }
        proof {
            assert(occupied@ =~= unpack(bitset@, dims.cell_count() as nat));
        }
        GroundTruthMap { dims, occupied }
    }
}

/// Packing a world and reading the bitset back gives the same cells.
pub proof fn law_pack_then_unpack(words: Seq<u32>, cells: Seq<bool>)
    requires
        packs(words, cells),
    ensures
        unpack(words, cells.len()) == cells,
{
    assert forall|i: int| 0 <= i < cells.len() implies unpack(words, cells.len())[i] == cells[i] by {
        assert(i / 32 < words.len());
        assert(bit_set(words, i) == cells[i]);
    }
    assert(unpack(words, cells.len()) =~= cells);
}

/// A bitset of the right length with clear padding is the packing of the
/// cells it describes.
pub proof fn law_unpack_then_pack(words: Seq<u32>, n: nat)
    requires
        words.len() == words_for(n as int),
        forall|i: int| n <= i < 32 * words.len() ==> !#[trigger] bit_set(words, i),
    ensures
        packs(words, unpack(words, n)),
{
    assert forall|i: int| 0 <= i < 32 * words.len() implies #[trigger] bit_set(words, i) == (i
        < unpack(words, n).len() && unpack(words, n)[i]) by {
        if i < n {
            assert(i / 32 < words.len());
        }
    }
}

/// A cell is named by `c` exactly when its coordinates are those of `c`.
pub proof fn lemma_index_of_iff_coords(d: GridDims, c: CellCoord, i: int)
    requires
        0 <= i < d.cell_count(),
    ensures
        (d.index_of(c) == Some(i)) <==> (d.x_of(i) == c.x && d.y_of(i) == c.y && d.z_of(i)
            == c.z),
        d.index_of(c) matches Some(g) ==> 0 <= g < d.cell_count(),
{
    lemma_flat_of_coords(d, i);
    if d.contains(c) {
        lemma_coords_of_flat(d, c.x as int, c.y as int, c.z as int);
        crate::grid::lemma_flat_in_range(d, c.x as int, c.y as int, c.z as int);
    }
}

} // verus!
