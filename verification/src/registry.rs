//! The registry of map files: which file names count as maps, the order the
//! map picker lists them in, and the entry selected after a scan.

use vstd::prelude::*;
use vstd::utf8::encode_utf8;

verus! {

/// The UTF-8 bytes of a file name.
pub open spec fn name_bytes(s: String) -> Seq<u8> {
    encode_utf8(s@)
}

/// Byte-wise lexicographic `a <= b` (the order of Rust strings).
pub open spec fn lex_le(a: Seq<u8>, b: Seq<u8>) -> bool
    decreases a.len(),
{
    if a.len() == 0 {
        true
    } else if b.len() == 0 {
        false
    } else if a[0] != b[0] {
        a[0] < b[0]
    } else {
        lex_le(a.drop_first(), b.drop_first())
    }
}

pub proof fn lemma_lex_total(a: Seq<u8>, b: Seq<u8>)
    ensures
        lex_le(a, b) || lex_le(b, a),
    decreases a.len(),
{
    if a.len() > 0 && b.len() > 0 && a[0] == b[0] {
        lemma_lex_total(a.drop_first(), b.drop_first());
    }
}

pub proof fn lemma_lex_trans(a: Seq<u8>, b: Seq<u8>, c: Seq<u8>)
    requires
        lex_le(a, b),
        lex_le(b, c),
    ensures
        lex_le(a, c),
    decreases a.len(),
{
    if a.len() > 0 && b.len() > 0 && c.len() > 0 && a[0] == b[0] && b[0] == c[0] {
        lemma_lex_trans(a.drop_first(), b.drop_first(), c.drop_first());
    }
}

/// Whether `s` ends with the bytes of `suffix`.
pub open spec fn ends_with_bytes(s: Seq<u8>, suffix: Seq<u8>) -> bool {
    s.len() >= suffix.len() && s.subrange(s.len() - suffix.len(), s.len() as int) == suffix
}

/// Whether a file name is a map file the picker lists: it ends in `.dvm`.
pub open spec fn is_map_name(s: String) -> bool {
    ends_with_bytes(name_bytes(s), seq![0x2Eu8, 0x64u8, 0x76u8, 0x6Du8])
}

/// The map file names of `names`, in their order.
pub open spec fn map_names(names: Seq<String>) -> Seq<String>
    decreases names.len(),
{
    if names.len() == 0 {
        Seq::empty()
    } else if is_map_name(names.last()) {
        map_names(names.drop_last()).push(names.last())
    } else {
        map_names(names.drop_last())
    }
}

/// Whether the names are in byte-wise lexicographic order.
pub open spec fn names_sorted(s: Seq<String>) -> bool {
    forall|i: int, j: int|
        0 <= i < j < s.len() ==> lex_le(name_bytes(#[trigger] s[i]), name_bytes(#[trigger] s[j]))
}

fn ends_with(b: &[u8], suffix: [u8; 4]) -> (r: bool)
    ensures
        r == ends_with_bytes(b@, suffix@),
{
    if b.len() < 4 {
        return false;
    }
    let n = b.len();
    let r = b[n - 4] == suffix[0] && b[n - 3] == suffix[1] && b[n - 2] == suffix[2] && b[n - 1]
        == suffix[3];
    proof {
        if r {
            assert(b@.subrange(n - 4, n as int) =~= suffix@);
        } else {
            if b@.subrange(n - 4, n as int) == suffix@ {
                assert(b@.subrange(n - 4, n as int)[0] == b@[n - 4]);
                assert(b@.subrange(n - 4, n as int)[1] == b@[n - 3]);
                assert(b@.subrange(n - 4, n as int)[2] == b@[n - 2]);
                assert(b@.subrange(n - 4, n as int)[3] == b@[n - 1]);
            }
        }
    }
    r
}

/// Whether `name` is a map file name the picker lists (ends in `.dvm`).
pub fn is_map_file_name(name: &String) -> (r: bool)
    ensures
        r == is_map_name(*name),
{
    let b = name.as_str().as_bytes();
    let dvm: [u8; 4] = [0x2Eu8, 0x64u8, 0x76u8, 0x6Du8];
    proof {
        assert(dvm@ =~= seq![0x2Eu8, 0x64u8, 0x76u8, 0x6Du8]);
    }
    ends_with(b, dvm)
}

/// Byte-wise lexicographic `a <= b`.
fn name_le(a: &String, b: &String) -> (r: bool)
    ensures
        r == lex_le(name_bytes(*a), name_bytes(*b)),
{
    let x = a.as_str().as_bytes();
    let y = b.as_str().as_bytes();
    let mut i: usize = 0;
    proof {
        assert(x@.skip(0) =~= x@);
        assert(y@.skip(0) =~= y@);
    }
    while i < x.len()
        invariant
            i <= x@.len(),
            x@ == name_bytes(*a),
            y@ == name_bytes(*b),
            i <= y@.len(),
            forall|k: int| 0 <= k < i ==> x@[k] == y@[k],
            lex_le(x@, y@) == lex_le(x@.skip(i as int), y@.skip(i as int)),
        decreases x@.len() - i,
    {
        if i >= y.len() {
            return false;
        }
        if x[i] != y[i] {
            return x[i] < y[i];
        }
        proof {
            assert(x@.skip(i as int).drop_first() =~= x@.skip(i + 1));
            assert(y@.skip(i as int).drop_first() =~= y@.skip(i + 1));
        }
        i += 1;
    }
    true
}

/// The map file names among `names` (see `is_map_file_name`), sorted
/// byte-wise; names that compare equal keep their order.
pub fn select_map_files(names: &Vec<String>) -> (r: Vec<String>)
    ensures
        names_sorted(r@),
        r@.to_multiset() == map_names(names@).to_multiset(),
{
    let mut out: Vec<String> = Vec::new();
    let mut j: usize = 0;
    while j < names.len()
        invariant
            j <= names@.len(),
            names_sorted(out@),
            out@.to_multiset() == map_names(names@.take(j as int)).to_multiset(),
        decreases names@.len() - j,
    {
        proof {
            assert(names@.take(j + 1).drop_last() =~= names@.take(j as int));
            broadcast use vstd::seq_lib::group_to_multiset_ensures;
        }
        if is_map_file_name(&names[j]) {
            let name = names[j].clone();
            let mut p: usize = 0;
            while p < out.len() && name_le(&out[p], &name)
                invariant
                    p <= out@.len(),
                    names_sorted(out@),
                    forall|k: int| 0 <= k < p ==> lex_le(name_bytes(#[trigger] out@[k]), name_bytes(name)),
                decreases out@.len() - p,
            {
                p += 1;
            }
            let ghost before = out@;
            proof {
                assert forall|k: int| p <= k < before.len() implies lex_le(
                    name_bytes(name),
                    name_bytes(#[trigger] before[k]),
                ) by {
                    lemma_lex_total(name_bytes(before[p as int]), name_bytes(name));
                    if k > p {
                        lemma_lex_trans(name_bytes(name), name_bytes(before[p as int]), name_bytes(before[k]));
                    }
                }
            }
            out.insert(p, name);
            proof {
                assert forall|a: int, b: int| 0 <= a < b < out@.len() implies lex_le(
                    name_bytes(#[trigger] out@[a]),
                    name_bytes(#[trigger] out@[b]),
                ) by {
                    if a < p && b > p {
                        lemma_lex_trans(name_bytes(out@[a]), name_bytes(name), name_bytes(out@[b]));
                    }
                }
                assert(out@.remove(p as int) =~= before);
                assert(out@.to_multiset() =~= before.to_multiset().insert(name)) by {
                    assert(out@.remove(p as int).to_multiset() == out@.to_multiset().remove(out@[p as int]));
                }
            }
        }
        j += 1;
    }
    proof {
        assert(names@.take(names@.len() as int) =~= names@);
    }
    out
}

/// One map the picker offers: its file name and a handle to its asset.
pub struct MapEntry<H> {
    pub name: String,
    pub handle: H,
}

/// The maps found on disk and the one the picker has selected.
pub struct AvailableMaps<H> {
    pub entries: Vec<MapEntry<H>>,
    pub selected: Option<usize>,
}

impl<H> AvailableMaps<H> {
    /// No maps, nothing selected.
    pub fn new() -> (a: Self)
        ensures
            a.entries@.len() == 0,
            a.selected is None,
    {
        AvailableMaps { entries: Vec::new(), selected: None }
    }

    /// Replace the entries with a fresh scan. When the scan found anything
    /// the first entry becomes selected; otherwise the selection is kept.
    pub fn replace_entries(&mut self, entries: Vec<MapEntry<H>>)
        ensures
            final(self).entries@ == entries@,
            final(self).selected == (if entries@.len() > 0 {
                Some(0usize)
            } else {
                old(self).selected
            }),
    {
        self.entries = entries;
        if !self.entries.is_empty() {
            self.selected = Some(0);
        }
    }
}

} // verus!
