//! The occupancy layout: one bit per voxel of a padded chunk, in 64-bit
//! Y-columns of two words each.

use vstd::prelude::*;

use crate::bits;
use crate::pool::{CS_P, OCCUPANCY_WORDS_PER_SLOT};

verus! {

/// Whether the three coordinates lie in the padded chunk.
pub open spec fn in_chunk(x: int, y: int, z: int) -> bool {
    0 <= x < CS_P && 0 <= y < CS_P && 0 <= z < CS_P
}

/// Number of the Y-column at (x, z).
pub open spec fn column_index(x: int, z: int) -> int {
    x * CS_P + z
}

/// Number of the word that holds the bit of a voxel.
pub open spec fn word_index(x: int, y: int, z: int) -> int {
    column_index(x, z) * 2 + y / 32
}

/// Whether a voxel is occupied.
pub open spec fn occupied(words: Seq<u32>, x: int, y: int, z: int) -> bool {
    bits::bit32(words[word_index(x, y, z)], y % 32)
}

/// The occupied voxels of a chunk.
pub open spec fn occupied_set(words: Seq<u32>) -> Set<(int, int, int)> {
    Set::new(
        |v: (int, int, int)| in_chunk(v.0, v.1, v.2) && occupied(words, v.0, v.1, v.2),
    )
}

/// No two voxels of a chunk share a bit of the layout.
pub proof fn layout_is_injective(x: int, y: int, z: int, x2: int, y2: int, z2: int)
    requires
        in_chunk(x, y, z),
        in_chunk(x2, y2, z2),
        word_index(x, y, z) == word_index(x2, y2, z2),
        y % 32 == y2 % 32,
    ensures
        x == x2 && y == y2 && z == z2,
{
}

/// Every bit of a slot's occupancy words belongs to a voxel.
pub proof fn layout_is_surjective(word: int, bit: int)
    requires
        0 <= word < OCCUPANCY_WORDS_PER_SLOT,
        0 <= bit < 32,
    ensures
        ({
            let x = word / 128;
            let z = (word / 2) % 64;
            let y = (word % 2) * 32 + bit;
            in_chunk(x, y, z) && word_index(x, y, z) == word && y % 32 == bit
        }),
{
}

/// The occupied voxels determine the words.
pub proof fn voxels_determine_words(a: Seq<u32>, b: Seq<u32>)
    requires
        a.len() == OCCUPANCY_WORDS_PER_SLOT,
        b.len() == OCCUPANCY_WORDS_PER_SLOT,
        forall|x: int, y: int, z: int|
            in_chunk(x, y, z) ==> #[trigger] occupied(a, x, y, z) == occupied(b, x, y, z),
    ensures
        a == b,
{
    assert forall|w: int| 0 <= w < a.len() implies a[w] == b[w] by {
        assert forall|j: int| 0 <= j < 32 implies #[trigger] bits::bit32(a[w], j) == bits::bit32(
            b[w],
            j,
        ) by {
            layout_is_surjective(w, j);
            let x = w / 128;
            let z = (w / 2) % 64;
            let y = (w % 2) * 32 + j;
            assert(occupied(a, x, y, z) == occupied(b, x, y, z));
        }
        bits::lemma_same_bits(a[w], b[w]);
    }
    assert(a =~= b);
}

/// The set bits of the words are the occupied voxels.
pub proof fn occupied_set_len(words: Seq<u32>)
    requires
        words.len() == OCCUPANCY_WORDS_PER_SLOT,
    ensures
        occupied_set(words).finite(),
        occupied_set(words).len() == bits::ones_sum(words.map_values(|w: u32| w as u64)),
{
    let wide = words.map_values(|w: u32| w as u64);
    bits::ones_sum_counts_positions(wide);
    let f = |p: (int, int)| (p.0 / 128, (p.0 % 2) * 32 + p.1, (p.0 / 2) % 64);
    let positions = bits::ones_set(wide);
    let voxels = occupied_set(words);
    assert forall|p: (int, int)| positions.contains(p) implies p.1 < 32 by {
        bits::lemma_widen(words[p.0]);
    }
    assert(positions.map(f) =~= voxels) by {
        assert forall|p: (int, int)| positions.contains(p) implies voxels.contains(
            #[trigger] f(p),
        ) by {
            bits::lemma_widen(words[p.0]);
            layout_is_surjective(p.0, p.1);
        }
        assert forall|v: (int, int, int)| voxels.contains(v) implies positions.map(f).contains(
            v,
        ) by {
            let p = (word_index(v.0, v.1, v.2), v.1 % 32);
            bits::lemma_widen(words[p.0]);
            assert(bits::bit64(wide[p.0], p.1));
            assert(positions.contains(p));
            assert(f(p) == v);
        }
    }
    vstd::set_lib::lemma_map_size(positions, voxels, f);
}

/// A 64-bit column.
pub fn read_column(occupancy: &[u32], x: u32, z: u32) -> (col: u64)
    requires
        x < CS_P,
        z < CS_P,
        column_index(x as int, z as int) * 2 + 1 < occupancy@.len(),
    ensures
        forall|y: int|
            0 <= y < 64 ==> #[trigger] bits::bit64(col, y) == occupied(
                occupancy@,
                x as int,
                y,
                z as int,
            ),
{
    let col_idx: usize = (x * CS_P + z) as usize;
    let base: usize = col_idx * 2;
    let lo: u32 = occupancy[base];
    let hi: u32 = occupancy[base + 1];
    proof {
        bits::lemma_join_halves(lo, hi);
    }
    lo as u64 | ((hi as u64) << 32)
}

} // verus!
