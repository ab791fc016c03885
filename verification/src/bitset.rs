//! Packed occupancy bitsets: cell `i` is bit `i % 32` of word `i / 32`.

use vstd::prelude::*;

verus! {

/// Whether bit `i` of the packed bitset `words` is set.
pub open spec fn bit_set(words: Seq<u32>, i: int) -> bool {
    (words[i / 32] >> ((i % 32) as u32)) & 1u32 == 1u32
}

/// Number of words that hold `n` bits.
pub open spec fn words_for(n: int) -> int {
    (n + 31) / 32
}

proof fn lemma_word_bits(w: u32, b: u32, c: u32)
    requires
        b < 32,
        c < 32,
    ensures
        ((w | (1u32 << b)) >> c) & 1u32 == (if c == b { 1u32 } else { (w >> c) & 1u32 }),
{
    assert(((w | (1u32 << b)) >> c) & 1u32 == (if c == b { 1u32 } else { (w >> c) & 1u32 }))
        by (bit_vector)
        requires
            b < 32,
            c < 32,
    ;
}

/// No bit of an all-zero bitset is set.
pub proof fn lemma_zero_bits(words: Seq<u32>)
    requires
        forall|k: int| 0 <= k < words.len() ==> words[k] == 0,
    ensures
        forall|i: int| 0 <= i < 32 * words.len() ==> !#[trigger] bit_set(words, i),
{
    assert forall|i: int| 0 <= i < 32 * words.len() implies !#[trigger] bit_set(words, i) by {
        let c = (i % 32) as u32;
        assert(words[i / 32] == 0);
        assert((0u32 >> c) & 1u32 == 0u32) by (bit_vector);
    }
}

/// Set bit `i` of `words`, leaving every other bit.
pub fn set_bit(words: &mut Vec<u32>, i: usize)
    requires
        i / 32 < old(words)@.len(),
    ensures
        final(words)@.len() == old(words)@.len(),
        forall|j: int|
            0 <= j < 32 * final(words)@.len() ==> #[trigger] bit_set(final(words)@, j) == (j
                == i || bit_set(old(words)@, j)),
{
    let w = i / 32;
    let b = (i % 32) as u32;
    let old_word = words[w];
    words.set(w, old_word | (1u32 << b));
    proof {
        assert forall|j: int| 0 <= j < 32 * words@.len() implies #[trigger] bit_set(words@, j) == (
        j == i || bit_set(old(words)@, j)) by {
            let c = (j % 32) as u32;
            lemma_word_bits(old_word, b, c);
            if j / 32 == w as int {
                if j != i as int {
                    assert(c != b);
                }
            } else {
                assert(j != i as int);
            }
        }
    }
}

} // verus!
