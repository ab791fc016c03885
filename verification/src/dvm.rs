//! The `.dvm` ground-truth map file: a 24-byte little-endian header
//! (`"DVM1"`, the three grid extents, the voxel size as IEEE-754 bits and
//! the bitset length in words) followed by the packed occupancy bitset,
//! one `u32` word per 32 cells.

use vstd::prelude::*;
use crate::grid::GridDims;
use crate::text::{decimal, io_error_text, push_decimal, push_str};

verus! {

#[verifier::external_type_specification]
#[verifier::external_body]
pub struct ExIoError(std::io::Error);

/// Bytes of the header: magic, three extents, voxel size, bitset length.
pub const HEADER_BYTES: usize = 24;

/// The four magic bytes `"DVM1"`.
pub open spec fn dvm_magic() -> Seq<u8> {
    seq![0x44u8, 0x56u8, 0x4Du8, 0x31u8]
}

/// `ceil(a / d)` for a positive divisor.
pub open spec fn div_ceil(a: int, d: int) -> int {
    (a + d - 1) / d
}

/// A decoded ground-truth map: grid extents, the voxel edge length as the
/// bits of an `f32`, and the packed occupancy bitset (cell `i` is bit
/// `i % 32` of word `i / 32`).
pub struct MapAsset {
    pub dims: GridDims,
    pub voxel_size_bits: u32,
    pub bitset: Vec<u32>,
}

impl View for MapAsset {
    type V = (GridDims, u32, Seq<u32>);

    open spec fn view(&self) -> (GridDims, u32, Seq<u32>) {
        (self.dims, self.voxel_size_bits, self.bitset@)
    }
}

/// Why a `.dvm` file was refused.
#[derive(Debug)]
pub enum MapLoadError {
    Io(std::io::Error),
    BadMagic,
    Truncated,
    BitsetLenMismatch { expected: usize, found: usize },
}

impl MapLoadError {
    /// The error as a line of text.
    pub fn message(&self) -> (m: String)
        ensures
            match self {
                MapLoadError::Io(_) => exists|t: Seq<char>| m@ == "io error: "@ + t,
                MapLoadError::BadMagic => m@ == ".dvm bad magic (expected DVM1)"@,
                MapLoadError::Truncated => m@ == ".dvm truncated"@,
                MapLoadError::BitsetLenMismatch { expected, found } => m@
                    == ".dvm bitset len mismatch: header="@ + decimal(*found as nat)
                    + ", dims-derived="@ + decimal(*expected as nat),
            },
    {
        let mut m = String::new();
        match self {
            MapLoadError::Io(e) => {
                push_str(&mut m, "io error: ");
                let t = io_error_text(e);
                push_str(&mut m, t.as_str());
            },
            MapLoadError::BadMagic => {
                push_str(&mut m, ".dvm bad magic (expected DVM1)");
            },
            MapLoadError::Truncated => {
                push_str(&mut m, ".dvm truncated");
            },
            MapLoadError::BitsetLenMismatch { expected, found } => {
                push_str(&mut m, ".dvm bitset len mismatch: header=");
                push_decimal(&mut m, *found);
                push_str(&mut m, ", dims-derived=");
                push_decimal(&mut m, *expected);
            },
        }
        proof {
            assert(Seq::<char>::empty() + ".dvm bad magic (expected DVM1)"@ =~= ".dvm bad magic (expected DVM1)"@);
            assert(Seq::<char>::empty() + ".dvm truncated"@ =~= ".dvm truncated"@);
            assert(Seq::<char>::empty() + ".dvm bitset len mismatch: header="@ =~= ".dvm bitset len mismatch: header="@);
            assert(Seq::<char>::empty() + "io error: "@ =~= "io error: "@);
        }
        m
    }
}

impl From<std::io::Error> for MapLoadError {
    fn from(e: std::io::Error) -> (r: Self) {
        MapLoadError::Io(e)
    }
}

impl vstd::std_specs::convert::FromSpecImpl<std::io::Error> for MapLoadError {
    open spec fn obeys_from_spec() -> bool {
        true
    }

    open spec fn from_spec(v: std::io::Error) -> MapLoadError {
        MapLoadError::Io(v)
    }
}

/// The `u32` whose little-endian bytes are `s[0]`, `s[1]`, `s[2]`, `s[3]`.
pub open spec fn le_word(s: Seq<u8>) -> u32 {
    (s[0] + 256 * s[1] + 65536 * s[2] + 16777216 * s[3]) as u32
}

/// The four little-endian bytes of `x`, least significant first.
pub open spec fn le_bytes(x: u32) -> Seq<u8> {
    seq![
        (x % 256) as u8,
        ((x / 256) % 256) as u8,
        ((x / 65536) % 256) as u8,
        (x / 16777216) as u8,
    ]
}

/// Reading back the bytes of a word gives the word.
pub proof fn lemma_le_word_of_bytes(x: u32)
    ensures
        #[trigger] le_bytes(x).len() == 4,
        le_word(le_bytes(x)) == x,
{
    assert(x % 256 + 256 * ((x / 256) % 256) + 65536 * ((x / 65536) % 256) + 16777216 * (x
        / 16777216) == x) by (bit_vector);
    assert(x / 16777216 < 256) by (bit_vector);
}

/// The little-endian `u32` stored at byte offset `off`.
pub open spec fn word_at(b: Seq<u8>, off: int) -> u32 {
    le_word(b.subrange(off, off + 4))
}

/// Grid extents named by a header.
pub open spec fn header_dims(b: Seq<u8>) -> GridDims {
    GridDims { x: word_at(b, 4), y: word_at(b, 8), z: word_at(b, 12) }
}

/// Whether the header is complete and starts with the magic bytes.
pub open spec fn header_ok(b: Seq<u8>) -> bool {
    b.len() >= HEADER_BYTES && b.subrange(0, 4) == dvm_magic()
}

/// Bytes the file must hold for its declared bitset.
pub open spec fn needed_len(b: Seq<u8>) -> int {
    HEADER_BYTES + word_at(b, 20) * 4
}

/// Bitset words that the header's extents call for.
pub open spec fn expected_words(b: Seq<u8>) -> int {
    div_ceil((header_dims(b).x * header_dims(b).y) * header_dims(b).z, 32)
}

/// Inputs on which reading the header's sizes stays within `usize`.
pub open spec fn dvm_sizes_fit(b: Seq<u8>) -> bool {
    header_ok(b) ==> {
        &&& needed_len(b) <= usize::MAX
        &&& b.len() >= needed_len(b) ==> header_dims(b).x * header_dims(b).y <= usize::MAX
        &&& b.len() >= needed_len(b) ==> (header_dims(b).x * header_dims(b).y) * header_dims(
            b,
        ).z <= usize::MAX
    }
}

/// The bitset words stored after the header.
pub open spec fn payload_words(b: Seq<u8>, n: nat) -> Seq<u32> {
    Seq::new(n, |k: int| word_at(b, HEADER_BYTES + 4 * k))
}

/// What decoding `b` gives: `Truncated` when the header or the declared
/// bitset does not fit, `BadMagic` when the first bytes are not `"DVM1"`,
/// `BitsetLenMismatch` when the declared length is not `ceil(cells / 32)`,
/// and otherwise the map the header and payload describe.
pub open spec fn dvm_result(b: Seq<u8>, r: Result<MapAsset, MapLoadError>) -> bool {
    if b.len() < HEADER_BYTES {
        r matches Err(MapLoadError::Truncated)
    } else if b.subrange(0, 4) != dvm_magic() {
        r matches Err(MapLoadError::BadMagic)
    } else if b.len() < needed_len(b) {
        r matches Err(MapLoadError::Truncated)
    } else if word_at(b, 20) != expected_words(b) {
        &&& r matches Err(MapLoadError::BitsetLenMismatch { expected, found })
        &&& r->Err_0->expected == expected_words(b)
        &&& r->Err_0->found == word_at(b, 20)
    } else {
        &&& r matches Ok(m)
        &&& r->Ok_0@ == (header_dims(b), word_at(b, 16), payload_words(b, word_at(b, 20) as nat))
    }
}

/// Decode a little-endian `u32` from exactly four bytes.
pub fn u32_le(b: &[u8]) -> (v: u32)
    requires
        b@.len() == 4,
    ensures
        v == le_word(b@),
{
    (b[0] as u32) + 256 * (b[1] as u32) + 65536 * (b[2] as u32) + 16777216 * (b[3] as u32)
}

/// Append the four little-endian bytes of `x`.
fn push_le(out: &mut Vec<u8>, x: u32)
    ensures
        final(out)@ == old(out)@ + le_bytes(x),
{
    out.push((x % 256) as u8);
    out.push(((x / 256) % 256) as u8);
    out.push(((x / 65536) % 256) as u8);
    out.push((x / 16777216) as u8);
    proof {
        assert(x / 16777216 < 256) by (bit_vector);
        assert(final(out)@ =~= old(out)@ + le_bytes(x));
    }
}

/// Whether decoding `bytes` keeps its size arithmetic within `usize`
/// (`dvm_sizes_fit`): the declared payload length, and the cell count once
/// the payload is present.
pub fn sizes_fit(bytes: &[u8]) -> (ok: bool)
    ensures
        ok == dvm_sizes_fit(bytes@),
{
    if bytes.len() < HEADER_BYTES || bytes[0] != 0x44u8 || bytes[1] != 0x56u8 || bytes[2]
        != 0x4Du8 || bytes[3] != 0x31u8 {
        proof {
            if bytes@.len() >= HEADER_BYTES && bytes@.subrange(0, 4) == dvm_magic() {
                assert(bytes@.subrange(0, 4)[0] == bytes@[0]);
                assert(bytes@.subrange(0, 4)[1] == bytes@[1]);
                assert(bytes@.subrange(0, 4)[2] == bytes@[2]);
                assert(bytes@.subrange(0, 4)[3] == bytes@[3]);
            }
        }
        return true;
    }
    proof {
        assert(bytes@.subrange(0, 4) =~= dvm_magic());
    }
    let dx = u32_le(&bytes[4..8]) as u128;
    let dy = u32_le(&bytes[8..12]) as u128;
    let dz = u32_le(&bytes[12..16]) as u128;
    let len_word = u32_le(&bytes[20..24]) as u128;
    let needed: u128 = 24 + len_word * 4;
    if needed > usize::MAX as u128 {
        return false;
    }
    if (bytes.len() as u128) < needed {
        return true;
    }
    assert(dx * dy <= 0xffff_ffffu128 * 0xffff_ffffu128) by (nonlinear_arith)
        requires dx <= 0xffff_ffffu128, dy <= 0xffff_ffffu128;
    let xy: u128 = dx * dy;
    assert(xy * dz <= (0xffff_ffffu128 * 0xffff_ffffu128) * 0xffff_ffffu128) by (nonlinear_arith)
        requires xy <= 0xffff_ffffu128 * 0xffff_ffffu128, dz <= 0xffff_ffffu128;
    let xyz: u128 = xy * dz;
    xy <= usize::MAX as u128 && xyz <= usize::MAX as u128
}

/// Decode a `.dvm` file.
pub fn parse_dvm(bytes: &[u8]) -> (r: Result<MapAsset, MapLoadError>)
    requires
        dvm_sizes_fit(bytes@),
    ensures
        dvm_result(bytes@, r),
{
    if bytes.len() < HEADER_BYTES {
        return Err(MapLoadError::Truncated);
    }
    if bytes[0] != 0x44u8 || bytes[1] != 0x56u8 || bytes[2] != 0x4Du8 || bytes[3] != 0x31u8 {
        proof {
            assert(bytes@.subrange(0, 4) != dvm_magic()) by {
                if bytes@.subrange(0, 4) == dvm_magic() {
                    assert(bytes@.subrange(0, 4)[0] == bytes@[0]);
                    assert(bytes@.subrange(0, 4)[1] == bytes@[1]);
                    assert(bytes@.subrange(0, 4)[2] == bytes@[2]);
                    assert(bytes@.subrange(0, 4)[3] == bytes@[3]);
                }
            }
        }
        return Err(MapLoadError::BadMagic);
    }
    proof {
        assert(bytes@.subrange(0, 4) =~= dvm_magic());
    }
    let dx = u32_le(&bytes[4..8]);
    let dy = u32_le(&bytes[8..12]);
    let dz = u32_le(&bytes[12..16]);
    let voxel_size_bits = u32_le(&bytes[16..20]);
    let bitset_len = u32_le(&bytes[20..24]) as usize;

    let needed = HEADER_BYTES + bitset_len * 4;
    if bytes.len() < needed {
        return Err(MapLoadError::Truncated);
    }
    let cells = (dx as usize) * (dy as usize) * (dz as usize);
    let expected_len = cells / 32 + if cells % 32 != 0 { 1 } else { 0 };
    proof {
        assert(expected_len == div_ceil(cells as int, 32));
    }
    if bitset_len != expected_len {
        return Err(MapLoadError::BitsetLenMismatch { expected: expected_len, found: bitset_len });
    }
    let mut bitset: Vec<u32> = Vec::with_capacity(bitset_len);
    let mut i: usize = 0;
    while i < bitset_len
        invariant
            i <= bitset_len,
            bitset_len == word_at(bytes@, 20),
            needed == HEADER_BYTES + bitset_len * 4,
            bytes@.len() >= needed,
            bitset@ == payload_words(bytes@, i as nat),
        decreases bitset_len - i,
    {
        let off = HEADER_BYTES + i * 4;
        let w = u32_le(&bytes[off..off + 4]);
        bitset.push(w);
        i += 1;
        proof {
            assert(bitset@ =~= payload_words(bytes@, i as nat));
        }
    }
    Ok(MapAsset { dims: GridDims { x: dx, y: dy, z: dz }, voxel_size_bits, bitset })
}

/// Little-endian bytes of a word sequence, word after word.
pub open spec fn words_le(ws: Seq<u32>) -> Seq<u8>
    decreases ws.len(),
{
    if ws.len() == 0 {
        Seq::empty()
    } else {
        words_le(ws.drop_last()) + le_bytes(ws.last())
    }
}

/// The `.dvm` bytes of a map: magic, extents, voxel-size bits, the bitset
/// length (as a `u32`) and the bitset words, all little-endian.
pub open spec fn dvm_encoding(dims: GridDims, voxel_size_bits: u32, ws: Seq<u32>) -> Seq<u8> {
    dvm_magic() + le_bytes(dims.x) + le_bytes(dims.y)
        + le_bytes(dims.z) + le_bytes(voxel_size_bits)
        + le_bytes(ws.len() as u32) + words_le(ws)
}

proof fn lemma_words_le(ws: Seq<u32>)
    ensures
        words_le(ws).len() == 4 * ws.len(),
        forall|k: int|
            0 <= k < ws.len() ==> #[trigger] words_le(ws).subrange(4 * k, 4 * k + 4)
                == le_bytes(ws[k]),
    decreases ws.len(),
{
    if ws.len() > 0 {
        lemma_le_word_of_bytes(ws.last());
        lemma_words_le(ws.drop_last());
        let a = words_le(ws.drop_last());
        let b = le_bytes(ws.last());
        assert forall|k: int| 0 <= k < ws.len() implies #[trigger] words_le(ws).subrange(
            4 * k,
            4 * k + 4,
        ) == le_bytes(ws[k]) by {
            if k < ws.len() - 1 {
                assert(words_le(ws).subrange(4 * k, 4 * k + 4) =~= a.subrange(4 * k, 4 * k + 4));
                assert(ws.drop_last()[k] == ws[k]);
            } else {
                assert(words_le(ws).subrange(4 * k, 4 * k + 4) =~= b);
            }
        }
    }
}

/// Encode a map as `.dvm` bytes. The length field is the bitset length cut
/// to 32 bits.
pub fn encode_dvm(dims: GridDims, voxel_size_bits: u32, bitset: &[u32]) -> (out: Vec<u8>)
    requires
        HEADER_BYTES + bitset@.len() * 4 <= usize::MAX,
    ensures
        out@ == dvm_encoding(dims, voxel_size_bits, bitset@),
{
    let mut out: Vec<u8> = Vec::with_capacity(HEADER_BYTES + bitset.len() * 4);
    out.push(0x44u8);
    out.push(0x56u8);
    out.push(0x4Du8);
    out.push(0x31u8);
    push_le(&mut out, dims.x);
    push_le(&mut out, dims.y);
    push_le(&mut out, dims.z);
    push_le(&mut out, voxel_size_bits);
    let len_word: u32 = #[verifier::truncate] (bitset.len() as u32);
    push_le(&mut out, len_word);
    let ghost head = out@;
    proof {
        assert(head =~= dvm_magic() + le_bytes(dims.x) + le_bytes(dims.y)
            + le_bytes(dims.z) + le_bytes(voxel_size_bits)
            + le_bytes(bitset@.len() as u32));
    }
    let mut i: usize = 0;
    while i < bitset.len()
        invariant
            i <= bitset@.len(),
            out@ == head + words_le(bitset@.subrange(0, i as int)),
        decreases bitset@.len() - i,
    {
        push_le(&mut out, bitset[i]);
        proof {
            assert(bitset@.subrange(0, i + 1).drop_last() =~= bitset@.subrange(0, i as int));
        }
        i += 1;
    }
    proof {
        assert(bitset@.subrange(0, bitset@.len() as int) =~= bitset@);
    }
    out
}

/// Decoding what `encode_dvm` wrote gives the map back: for a bitset of
/// `ceil(cells / 32)` words whose length fits the 32-bit length field, the
/// encoding passes every check of `parse_dvm` and carries the same extents,
/// voxel-size bits and words.
#[verifier::spinoff_prover]
#[verifier::rlimit(40)]
pub proof fn law_dvm_roundtrip(dims: GridDims, voxel_size_bits: u32, ws: Seq<u32>)
    requires
        ws.len() == div_ceil((dims.x * dims.y) * dims.z, 32),
        ws.len() <= u32::MAX,
        dims.x * dims.y <= usize::MAX,
        (dims.x * dims.y) * dims.z <= usize::MAX,
        HEADER_BYTES + ws.len() * 4 <= usize::MAX,
    ensures
        ({
            let b = dvm_encoding(dims, voxel_size_bits, ws);
            &&& dvm_sizes_fit(b)
            &&& header_ok(b)
            &&& b.len() >= needed_len(b)
            &&& word_at(b, 20) == expected_words(b)
            &&& header_dims(b) == dims
            &&& word_at(b, 16) == voxel_size_bits
            &&& payload_words(b, word_at(b, 20) as nat) == ws
        }),
{
    lemma_words_le(ws);
    lemma_le_word_of_bytes(dims.x);
    lemma_le_word_of_bytes(dims.y);
    lemma_le_word_of_bytes(dims.z);
    lemma_le_word_of_bytes(voxel_size_bits);
    lemma_le_word_of_bytes(ws.len() as u32);
    assert forall|k: int| 0 <= k < ws.len() implies le_word(#[trigger] le_bytes(ws[k])) == ws[k] by {
        lemma_le_word_of_bytes(ws[k]);
    }
    let b = dvm_encoding(dims, voxel_size_bits, ws);
    let n = ws.len() as u32;
    assert(n as int == ws.len());
    assert(b.subrange(0, 4) =~= dvm_magic());
    assert(b.subrange(4, 8) =~= le_bytes(dims.x));
    assert(b.subrange(8, 12) =~= le_bytes(dims.y));
    assert(b.subrange(12, 16) =~= le_bytes(dims.z));
    assert(b.subrange(16, 20) =~= le_bytes(voxel_size_bits));
    assert(b.subrange(20, 24) =~= le_bytes(n));
    assert(header_dims(b) == dims);
    assert forall|k: int| 0 <= k < ws.len() implies #[trigger] payload_words(b, ws.len())[k]
        == ws[k] by {
        assert(b.subrange(HEADER_BYTES + 4 * k, HEADER_BYTES + 4 * k + 4) =~= words_le(
            ws,
        ).subrange(4 * k, 4 * k + 4));
    }
    assert(payload_words(b, ws.len()) =~= ws);
}

/// Loader for `.dvm` map files.
pub struct MapAssetLoader;

impl MapAssetLoader {
    pub fn new() -> (l: Self) {
        MapAssetLoader
    }

    /// Decode the bytes of a `.dvm` file (see `parse_dvm`).
    pub fn load_bytes(&self, bytes: &[u8]) -> (r: Result<MapAsset, MapLoadError>)
        requires
            dvm_sizes_fit(bytes@),
        ensures
            dvm_result(bytes@, r),
    {
        parse_dvm(bytes)
    }

    /// File extensions this loader claims.
    pub fn extensions(&self) -> (e: Vec<&'static str>)
        ensures
            e@.len() == 1,
            e@[0]@ == "dvm"@,
    {
        let mut e: Vec<&'static str> = Vec::new();
        e.push("dvm");
        e
    }
}

} // verus!
