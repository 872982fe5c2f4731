//! Chunk content: occupancy, palette and index buffer builders, materials, and
//! procedural test scenes.

use vstd::prelude::*;

use crate::bits;
use crate::coord::ChunkCoord;
use crate::materials;
use crate::materials::MaterialEntry;
use crate::mesh_cpu;
use crate::occupancy;
use crate::pool::{
    CS_P, CS_P3, MATERIAL_EMPTY, MAX_MATERIALS, MAX_PALETTE_ENTRIES,
    OCCUPANCY_WORDS_PER_SLOT,
};

verus! {

// Occupancy builder.

/// Writable occupancy grid for a single padded chunk.
/// Column layout: column index = x * CS_P + z, bit y in that column's 64 bits.
pub struct OccupancyBuilder {
    words: Vec<u32>,
}

impl View for OccupancyBuilder {
    type V = Seq<u32>;

    closed spec fn view(&self) -> Seq<u32> {
        self.words@
    }
}

impl OccupancyBuilder {
    pub open spec fn wf(&self) -> bool {
        self@.len() == OCCUPANCY_WORDS_PER_SLOT
    }

    /// Whether a voxel is set.
    pub open spec fn has(&self, x: int, y: int, z: int) -> bool {
        occupancy::occupied(self@, x, y, z)
    }

    /// An empty grid.
    pub fn new() -> (b: Self)
        ensures
            b.wf(),
            forall|x: int, y: int, z: int|
                occupancy::in_chunk(x, y, z) ==> !#[trigger] b.has(x, y, z),
    {
        proof {
            bits::lemma_zero32();
        }
        OccupancyBuilder { words: vec![0u32; OCCUPANCY_WORDS_PER_SLOT as usize] }
    }

    /// Set a single voxel.
    pub fn set(&mut self, x: u32, y: u32, z: u32)
        requires
            old(self).wf(),
            occupancy::in_chunk(x as int, y as int, z as int),
        ensures
            final(self).wf(),
            forall|a: int, b: int, c: int|
                occupancy::in_chunk(a, b, c) ==> #[trigger] final(self).has(a, b, c) == (old(
                    self).has(a, b, c) || (a == x && b == y && c == z)),
    {
        let word: usize = ((x * CS_P + z) * 2 + y / 32) as usize;
        let bit: u32 = y % 32;
        let w: u32 = self.words[word];
        self.words[word] = w | (1u32 << bit);
        proof {
            bits::lemma_set_bit32(w, bit);
            assert forall|a: int, b: int, c: int|
                occupancy::in_chunk(a, b, c) implies #[trigger] self.has(a, b, c) == (old(
                self).has(a, b, c) || (a == x && b == y && c == z)) by {
                if occupancy::word_index(a, b, c) == word {
                    assert(bits::bit32(w | (1u32 << bit), b % 32) == (b % 32 == bit || bits::bit32(
                        w,
                        b % 32,
                    )));
                    if b % 32 == bit {
                        occupancy::layout_is_injective(
                            a,
                            b,
                            c,
                            x as int,
                            y as int,
                            z as int,
                        );
                    }
                }
            }
        }
    }

    /// Clear a single voxel.
    pub fn clear(&mut self, x: u32, y: u32, z: u32)
        requires
            old(self).wf(),
            occupancy::in_chunk(x as int, y as int, z as int),
        ensures
            final(self).wf(),
            forall|a: int, b: int, c: int|
                occupancy::in_chunk(a, b, c) ==> #[trigger] final(self).has(a, b, c) == (old(
                    self).has(a, b, c) && !(a == x && b == y && c == z)),
    {
        let word: usize = ((x * CS_P + z) * 2 + y / 32) as usize;
        let bit: u32 = y % 32;
        let w: u32 = self.words[word];
        self.words[word] = w & !(1u32 << bit);
        proof {
            bits::lemma_clear_bit32(w, bit);
            assert forall|a: int, b: int, c: int|
                occupancy::in_chunk(a, b, c) implies #[trigger] self.has(a, b, c) == (old(
                self).has(a, b, c) && !(a == x && b == y && c == z)) by {
                if occupancy::word_index(a, b, c) == word {
                    assert(bits::bit32(w & !(1u32 << bit), b % 32) == (b % 32 != bit
                        && bits::bit32(w, b % 32)));
                    if b % 32 == bit {
                        occupancy::layout_is_injective(
                            a,
                            b,
                            c,
                            x as int,
                            y as int,
                            z as int,
                        );
                    }
                }
            }
        }
    }

    /// Test whether a voxel is set.
    pub fn get(&self, x: u32, y: u32, z: u32) -> (r: bool)
        requires
            self.wf(),
            occupancy::in_chunk(x as int, y as int, z as int),
        ensures
            r == self.has(x as int, y as int, z as int),
    {
        let word: usize = ((x * CS_P + z) * 2 + y / 32) as usize;
        bits::test_bit32(self.words[word], y % 32)
    }

    /// The occupancy words.
    pub fn as_words(&self) -> (w: &[u32])
        ensures
            w@ == self@,
    {
        self.words.as_slice()
    }

    /// Count total occupied voxels.
    pub fn popcount(&self) -> (n: u32)
        requires
            self.wf(),
        ensures
            n == occupancy::occupied_set(self@).len(),
            n <= 64 * OCCUPANCY_WORDS_PER_SLOT,
    {
        let ghost wide = self.words@.map_values(|w: u32| w as u64);
        let mut n: u32 = 0;
        let mut i: usize = 0;
        while i < self.words.len()
            invariant
                i <= self.words@.len(),
                self.words@.len() == OCCUPANCY_WORDS_PER_SLOT,
                wide == self.words@.map_values(|w: u32| w as u64),
                n == bits::ones_sum(wide.take(i as int)),
                n <= 64 * i,
            decreases self.words@.len() - i,
        {
            proof {
                assert(wide.take(i + 1).drop_last() =~= wide.take(i as int));
            }
            n = n + bits::count_ones(self.words[i] as u64);
            i = i + 1;
        }
        proof {
            assert(wide.take(i as int) =~= wide);
            occupancy::occupied_set_len(self@);
        }
        n
    }
}

// Palette builder.

/// Palette of a chunk: material ids by palette index. Entry 0 is always the
/// empty material, and no material occurs twice.
pub struct PaletteBuilder {
    entries: Vec<u16>,
}

impl View for PaletteBuilder {
    type V = Seq<u16>;

    closed spec fn view(&self) -> Seq<u16> {
        self.entries@
    }
}

/// A palette after adding a material: unchanged if it is there or no room is
/// left.
pub open spec fn palette_after_add(p: Seq<u16>, material_id: u16) -> Seq<u16> {
    if p.contains(material_id) || p.len() >= MAX_PALETTE_ENTRIES {
        p
    } else {
        p.push(material_id)
    }
}

/// A palette packed two entries per word.
pub open spec fn palette_words(p: Seq<u16>) -> Seq<u32> {
    Seq::new(
        (p.len() + 1) / 2,
        |i: int|
            (p[2 * i] + (if 2 * i + 1 < p.len() {
                p[2 * i + 1] as int
            } else {
                0
            }) * 0x1_0000) as u32,
    )
}

impl PaletteBuilder {
    pub open spec fn wf(&self) -> bool {
        &&& 1 <= self@.len() <= MAX_PALETTE_ENTRIES
        &&& self@[0] == MATERIAL_EMPTY
        &&& self@.no_duplicates()
    }

    /// A palette with the empty material only.
    pub fn new() -> (p: Self)
        ensures
            p.wf(),
            p@ == seq![MATERIAL_EMPTY],
    {
        let mut entries: Vec<u16> = Vec::new();
        entries.push(MATERIAL_EMPTY);
        PaletteBuilder { entries }
    }

    /// Add a material to the palette. Returns the palette index: the existing
    /// one if the material is already present, 0 if the palette is full.
    pub fn add(&mut self, material_id: u16) -> (idx: u8)
        requires
            old(self).wf(),
        ensures
            final(self).wf(),
            final(self)@ == palette_after_add(old(self)@, material_id),
            if final(self)@.contains(material_id) {
                idx < final(self)@.len() && final(self)@[idx as int] == material_id
            } else {
                idx == 0
            },
    {
        let mut i: usize = 0;
        while i < self.entries.len()
            invariant
                i <= self.entries@.len(),
                self@ == old(self)@,
                self.wf(),
                forall|j: int| 0 <= j < i ==> self.entries@[j] != material_id,
            decreases self.entries@.len() - i,
        {
            if self.entries[i] == material_id {
                return i as u8;
            }
            i = i + 1;
        }
        if self.entries.len() >= MAX_PALETTE_ENTRIES as usize {
            return 0;
        }
        self.entries.push(material_id);
        assert(self@[self@.len() - 1] == material_id);
        (self.entries.len() - 1) as u8
    }

    /// Palette data packed two entries per word.
    pub fn as_words(&self) -> (words: Vec<u32>)
        ensures
            words@ == palette_words(self@),
    {
        let n: usize = self.entries.len();
        let mut words: Vec<u32> = Vec::new();
        let mut i: usize = 0;
        while i < n
            invariant
                n == self.entries@.len(),
                i % 2 == 0,
                i <= n + 1,
                words@.len() == i / 2,
                forall|j: int| 0 <= j < words@.len() ==> words@[j] == palette_words(self@)[j],
            decreases n + 1 - i,
        {
            let lo: u32 = self.entries[i] as u32;
            let hi: u32 = if i < n - 1 { self.entries[i + 1] as u32 } else { 0 };
            words.push(lo + hi * 0x1_0000);
            if i >= n - 1 {
                assert(words@ =~= palette_words(self@));
                return words;
            }
            i = i + 2;
        }
        words
    }

    /// Number of entries.
    pub fn len(&self) -> (n: usize)
        ensures
            n == self@.len(),
    {
        self.entries.len()
    }
}

/// Unpacking a packed palette gives its entries back.
pub proof fn palette_roundtrip(p: Seq<u16>, i: int)
    requires
        0 <= i < p.len(),
    ensures
        mesh_cpu::palette_entry(palette_words(p), i) == p[i],
{
    let k = i / 2;
    let lo: u32 = p[2 * k] as u32;
    let hi: u32 = if 2 * k + 1 < p.len() {
        p[2 * k + 1] as u32
    } else {
        0
    };
    bits::lemma_halves(lo, hi);
    assert(palette_words(p)[k] == lo | (hi << 16));
}

// Per-voxel palette index buffer.

/// Per-voxel palette indices of a padded chunk, bitpacked for upload.
pub struct IndexBufBuilder {
    index_map: Vec<u8>,
}

impl View for IndexBufBuilder {
    type V = Seq<u8>;

    closed spec fn view(&self) -> Seq<u8> {
        self.index_map@
    }
}

/// Smallest field width among 1, 2, 4 and 8 that indexes a palette.
pub open spec fn bpe_for(palette_size: int) -> int {
    if palette_size <= 2 {
        1
    } else if palette_size <= 4 {
        2
    } else if palette_size <= 16 {
        4
    } else {
        8
    }
}

/// A packed palette metadata word: size in bits 0-15, field width in bits
/// 16-23. A size beyond 16 bits runs into the higher bits.
pub open spec fn palette_meta_word(palette_size: usize) -> u32 {
    (palette_size as u32) | ((bpe_for(palette_size as int) as u32) << 16)
}

/// `words` are the indices `map` packed at `bpe` bits each.
pub open spec fn is_packed(map: Seq<u8>, bpe: int, words: Seq<u32>) -> bool {
    &&& words.len() == CS_P3 * bpe / 32
    &&& forall|i: int|
        0 <= i < CS_P3 ==> #[trigger] bits::field32(words[i * bpe / 32], i * bpe % 32, bpe)
            == bits::field32(map[i] as u32, 0, bpe)
}

/// The entries of one word at each field width.
spec fn entries_per_word(bpe: int) -> int {
    if bpe == 1 {
        32
    } else if bpe == 2 {
        16
    } else if bpe == 4 {
        8
    } else {
        4
    }
}

/// Multiplication by a field width, case by case.
proof fn lemma_times_width(k: int, bpe: int)
    by (nonlinear_arith)
    requires
        bits::tiles_word(bpe),
    ensures
        bpe == 1 ==> k * bpe == k,
        bpe == 2 ==> k * bpe == 2 * k,
        bpe == 4 ==> k * bpe == 4 * k,
        bpe == 8 ==> k * bpe == 8 * k,
{
}

/// Multiplication by the entries per word, case by case.
proof fn lemma_times_entries(n: int, bpe: int)
    by (nonlinear_arith)
    requires
        bits::tiles_word(bpe),
    ensures
        bpe == 1 ==> n * entries_per_word(bpe) == 32 * n,
        bpe == 2 ==> n * entries_per_word(bpe) == 16 * n,
        bpe == 4 ==> n * entries_per_word(bpe) == 8 * n,
        bpe == 8 ==> n * entries_per_word(bpe) == 4 * n,
{
}

impl IndexBufBuilder {
    pub open spec fn wf(&self) -> bool {
        self@.len() == CS_P3
    }

    /// The palette index of a voxel.
    pub open spec fn at(&self, x: int, y: int, z: int) -> u8 {
        self@[mesh_cpu::voxel_index(x, y, z)]
    }

    /// Index 0 for every voxel.
    pub fn new() -> (b: Self)
        ensures
            b.wf(),
            forall|x: int, y: int, z: int|
                occupancy::in_chunk(x, y, z) ==> #[trigger] b.at(x, y, z) == 0,
    {
        IndexBufBuilder { index_map: vec![0u8; CS_P3 as usize] }
    }

    /// Set the palette index of a voxel.
    pub fn set(&mut self, x: u32, y: u32, z: u32, palette_idx: u8)
        requires
            old(self).wf(),
            occupancy::in_chunk(x as int, y as int, z as int),
        ensures
            final(self).wf(),
            forall|a: int, b: int, c: int|
                occupancy::in_chunk(a, b, c) ==> #[trigger] final(self).at(a, b, c) == (if a == x
                    && b == y && c == z {
                    palette_idx
                } else {
                    old(self).at(a, b, c)
                }),
    {
        let idx: usize = (x * CS_P * CS_P + y * CS_P + z) as usize;
        self.index_map[idx] = palette_idx;
    }

    /// The palette index of a voxel.
    pub fn get(&self, x: u32, y: u32, z: u32) -> (i: u8)
        requires
            self.wf(),
            occupancy::in_chunk(x as int, y as int, z as int),
        ensures
            i == self.at(x as int, y as int, z as int),
    {
        self.index_map[(x * CS_P * CS_P + y * CS_P + z) as usize]
    }

    /// Minimum bits per entry for a palette size: 1, 2, 4 or 8, which divide 32,
    /// so that packed entries never span two words.
    pub fn bits_per_entry(palette_size: usize) -> (bpe: u8)
        ensures
            bpe == bpe_for(palette_size as int),
            bits::tiles_word(bpe as int),
    {
        if palette_size <= 2 {
            1
        } else if palette_size <= 4 {
            2
        } else if palette_size <= 16 {
            4
        } else {
            8
        }
    }

    /// Pack per-voxel indices into words at the given bit width.
    pub fn pack(&self, bpe: u8) -> (words: Vec<u32>)
        requires
            self.wf(),
            bits::tiles_word(bpe as int),
        ensures
            is_packed(self@, bpe as int, words@),
    {
        let per_word: u32 = if bpe == 1 {
            32
        } else if bpe == 2 {
            16
        } else if bpe == 4 {
            8
        } else {
            4
        };
        let count: u32 = 8192 * bpe as u32;
        let mut words: Vec<u32> = Vec::new();
        let mut n: u32 = 0;
        proof {
            lemma_times_entries(0, bpe as int);
        }
        while n < count
            invariant
                self.wf(),
                bits::tiles_word(bpe as int),
                per_word == entries_per_word(bpe as int),
                count == 8192 * bpe,
                n <= count,
                words@.len() == n,
                forall|i: int|
                    0 <= i < n * per_word ==> #[trigger] bits::field32(
                        words@[i * bpe / 32],
                        i * bpe % 32,
                        bpe as int,
                    ) == bits::field32(self@[i] as u32, 0, bpe as int),
            decreases count - n,
        {
            let ghost prev = words@;
            proof {
                lemma_times_entries(n as int, bpe as int);
                lemma_times_entries(n + 1, bpe as int);
            }
            let w: u32 = self.pack_word(bpe, per_word, n * per_word);
            words.push(w);
            proof {
                assert forall|i: int| 0 <= i < (n + 1) * per_word implies #[trigger] bits::field32(
                    words@[i * bpe / 32],
                    i * bpe % 32,
                    bpe as int,
                ) == bits::field32(self@[i] as u32, 0, bpe as int) by {
                    lemma_times_width(i, bpe as int);
                    if i < n * per_word {
                        assert(words@[i * bpe / 32] == prev[i * bpe / 32]);
                    } else {
                        let k = i - n * per_word;
                        lemma_times_width(k, bpe as int);
                        assert(bits::field32(w, k * bpe, bpe as int) == bits::field32(
                            self@[n * per_word + k] as u32,
                            0,
                            bpe as int,
                        ));
                    }
                }
            }
            n = n + 1;
        }
        proof {
            lemma_times_entries(n as int, bpe as int);
            lemma_times_width(CS_P3 as int, bpe as int);
        }
        words
    }

    /// Pack the entries of one word.
    fn pack_word(&self, bpe: u8, per_word: u32, start: u32) -> (w: u32)
        requires
            self.wf(),
            bits::tiles_word(bpe as int),
            per_word == entries_per_word(bpe as int),
            start + per_word <= CS_P3,
        ensures
            forall|k: int|
                0 <= k < per_word ==> #[trigger] bits::field32(w, k * bpe, bpe as int)
                    == bits::field32(self@[start + k] as u32, 0, bpe as int),
    {
        let mut w: u32 = 0;
        let mut at: u32 = 0;
        let mut k: u32 = 0;
        proof {
            assert(0u32 >> 0 == 0) by (bit_vector);
        }
        while k < per_word
            invariant
                self.wf(),
                bits::tiles_word(bpe as int),
                per_word == entries_per_word(bpe as int),
                start + per_word <= CS_P3,
                k <= per_word,
                at == k * bpe,
                k < per_word ==> w >> at == 0,
                forall|j: int|
                    0 <= j < k ==> #[trigger] bits::field32(w, j * bpe, bpe as int)
                        == bits::field32(self@[start + j] as u32, 0, bpe as int),
            decreases per_word - k,
        {
            let v: u32 = bits::read_field32(
                self.index_map[(start + k) as usize] as u32,
                0,
                bpe as u32,
            );
            proof {
                lemma_times_width(k as int, bpe as int);
                lemma_times_width(k + 1, bpe as int);
                bits::lemma_field_of_small(self@[start + k] as u32, bpe as u32);
                bits::lemma_put_field(w, v, at, bpe as u32);
                assert forall|j: int| 0 <= j < k + 1 implies #[trigger] bits::field32(
                    w | (v << at),
                    j * bpe,
                    bpe as int,
                ) == bits::field32(self@[start + j] as u32, 0, bpe as int) by {
                    lemma_times_width(j, bpe as int);
                    if j < k {
                        assert(bits::field32(w, j * bpe, bpe as int) == bits::field32(
                            self@[start + j] as u32,
                            0,
                            bpe as int,
                        ));
                    }
                }
            }
            w = w | (v << at);
            at = at + bpe as u32;
            k = k + 1;
        }
        w
    }

    /// Build the packed palette metadata for a palette size.
    pub fn palette_meta(palette_size: usize) -> (m: u32)
        ensures
            m == palette_meta_word(palette_size),
    {
        let bpe: u8 = Self::bits_per_entry(palette_size);
        (palette_size as u32) | ((bpe as u32) << 16)
    }
}

/// Reading a packed index buffer gives each voxel's index back, cut to the
/// field width; an index that fits is read back whole.
pub proof fn index_roundtrip(map: Seq<u8>, bpe: int, words: Seq<u32>, x: int, y: int, z: int)
    requires
        bits::tiles_word(bpe),
        is_packed(map, bpe, words),
        occupancy::in_chunk(x, y, z),
    ensures
        ({
            let i = map[mesh_cpu::voxel_index(x, y, z)];
            let read = mesh_cpu::palette_index(words, bpe, x, y, z);
            &&& read == bits::field32(i as u32, 0, bpe)
            &&& i < (1u32 << (bpe as u32)) ==> read == i
        }),
{
    let v = mesh_cpu::voxel_index(x, y, z);
    lemma_times_width(v, bpe);
    lemma_times_width(CS_P3 as int, bpe);
    bits::lemma_field_of_small(map[v] as u32, bpe as u32);
    assert(bits::field32(words[v * bpe / 32], v * bpe % 32, bpe) == bits::field32(
        map[v] as u32,
        0,
        bpe,
    ));
}

/// The width chosen for a palette holds every index into it.
pub proof fn width_suffices(palette_size: int)
    requires
        0 <= palette_size <= 256,
    ensures
        bits::tiles_word(bpe_for(palette_size)),
        palette_size <= (1u32 << (bpe_for(palette_size) as u32)),
{
    assert(1u32 << 1 == 2 && 1u32 << 2 == 4 && 1u32 << 4 == 16 && 1u32 << 8 == 256) by (
    bit_vector);
}

/// What the mesher reads for a voxel is the material that the builders hold
/// for it.
pub proof fn material_roundtrip(
    palette: Seq<u16>,
    map: Seq<u8>,
    words: Seq<u32>,
    x: int,
    y: int,
    z: int,
)
    requires
        palette.len() <= 256,
        is_packed(map, bpe_for(palette.len() as int), words),
        occupancy::in_chunk(x, y, z),
        map[mesh_cpu::voxel_index(x, y, z)] < palette.len(),
    ensures
        mesh_cpu::material_id(
            palette_words(palette),
            words,
            bpe_for(palette.len() as int),
            x,
            y,
            z,
        ) == palette[map[mesh_cpu::voxel_index(x, y, z)] as int],
{
    width_suffices(palette.len() as int);
    index_roundtrip(map, bpe_for(palette.len() as int), words, x, y, z);
    palette_roundtrip(palette, map[mesh_cpu::voxel_index(x, y, z)] as int);
}

/// A metadata word holds the palette size and the field width, and nothing in
/// the reserved bits.
pub proof fn palette_meta_fields(palette_size: usize)
    requires
        palette_size <= 0xFFFF,
    ensures
        palette_meta_word(palette_size) == palette_size + bpe_for(palette_size as int) * 0x1_0000,
        mesh_cpu::meta_bpe(palette_meta_word(palette_size)) == bpe_for(palette_size as int),
{
    bits::lemma_halves(palette_size as u32, bpe_for(palette_size as int) as u32);
}

// Chunk data container.

/// All data needed to upload one chunk.
pub struct ChunkData {
    pub coord: ChunkCoord,
    pub occupancy: OccupancyBuilder,
    pub palette: PaletteBuilder,
    pub index_buf: IndexBufBuilder,
}

impl ChunkData {
    pub open spec fn wf(&self) -> bool {
        self.occupancy.wf() && self.palette.wf() && self.index_buf.wf()
    }

    /// The voxels of the chunk are those with an index, and `f` gives the index.
    pub open spec fn shows(&self, f: spec_fn(int, int, int) -> Option<u8>) -> bool {
        forall|x: int, y: int, z: int|
            #![trigger self.occupancy.has(x, y, z)]
            #![trigger self.index_buf.at(x, y, z)]
            occupancy::in_chunk(x, y, z) ==> {
                &&& self.occupancy.has(x, y, z) == (f(x, y, z) is Some)
                &&& self.index_buf.at(x, y, z) == (match f(x, y, z) {
                    Some(i) => i,
                    None => 0,
                })
            }
    }

    /// The material of a voxel, if there is one.
    pub open spec fn material_at(&self, x: int, y: int, z: int) -> Option<u16> {
        if self.occupancy.has(x, y, z) {
            Some(self.palette@[self.index_buf.at(x, y, z) as int])
        } else {
            None
        }
    }

    /// An empty chunk.
    pub fn empty(coord: ChunkCoord) -> (c: Self)
        ensures
            c.wf(),
            c.coord == coord,
            c.palette@ == seq![MATERIAL_EMPTY],
            c.shows(|x: int, y: int, z: int| None),
    {
        ChunkData {
            coord,
            occupancy: OccupancyBuilder::new(),
            palette: PaletteBuilder::new(),
            index_buf: IndexBufBuilder::new(),
        }
    }
}

/// A box of voxels, both corners inside.
pub open spec fn in_box(lo: Seq<u32>, hi: Seq<u32>, x: int, y: int, z: int) -> bool {
    lo[0] <= x <= hi[0] && lo[1] <= y <= hi[1] && lo[2] <= z <= hi[2]
}

/// `f` with the voxels of a box set to index `i`.
pub open spec fn with_box(
    f: spec_fn(int, int, int) -> Option<u8>,
    lo: Seq<u32>,
    hi: Seq<u32>,
    i: u8,
) -> spec_fn(int, int, int) -> Option<u8> {
    |x: int, y: int, z: int|
        if in_box(lo, hi, x, y, z) {
            Some(i)
        } else {
            f(x, y, z)
        }
}

/// Fill a box with one palette index.
pub fn fill_box(chunk: &mut ChunkData, lo: [u32; 3], hi: [u32; 3], palette_idx: u8)
    requires
        old(chunk).wf(),
        hi[0] < CS_P && hi[1] < CS_P && hi[2] < CS_P,
    ensures
        final(chunk).wf(),
        final(chunk).coord == old(chunk).coord,
        final(chunk).palette == old(chunk).palette,
        forall|x: int, y: int, z: int|
            occupancy::in_chunk(x, y, z) ==> #[trigger] final(chunk).occupancy.has(x, y, z) == (
            in_box(lo@, hi@, x, y, z) || old(chunk).occupancy.has(x, y, z)),
        forall|x: int, y: int, z: int|
            occupancy::in_chunk(x, y, z) ==> #[trigger] final(chunk).index_buf.at(x, y, z) == (
            if in_box(lo@, hi@, x, y, z) {
                palette_idx
            } else {
                old(chunk).index_buf.at(x, y, z)
            }),
        forall|f: spec_fn(int, int, int) -> Option<u8>|
            old(chunk).shows(f) ==> #[trigger] final(chunk).shows(
                with_box(f, lo@, hi@, palette_idx),
            ),
{
    let ghost occ = chunk.occupancy;
    let ghost idx = chunk.index_buf;
    let mut x: u32 = lo[0];
    while x <= hi[0]
        invariant
            chunk.wf(),
            chunk.coord == old(chunk).coord,
            chunk.palette == old(chunk).palette,
            hi[0] < CS_P && hi[1] < CS_P && hi[2] < CS_P,
            lo[0] <= x,
            forall|a: int, b: int, c: int|
                occupancy::in_chunk(a, b, c) ==> #[trigger] chunk.occupancy.has(a, b, c) == (occ.has(
                    a,
                    b,
                    c,
                ) || (in_box(lo@, hi@, a, b, c) && a < x)),
            forall|a: int, b: int, c: int|
                occupancy::in_chunk(a, b, c) ==> #[trigger] chunk.index_buf.at(a, b, c) == (
                if in_box(lo@, hi@, a, b, c) && a < x {
                    palette_idx
                } else {
                    idx.at(a, b, c)
                }),
        decreases 64 - x,
    {
        let mut y: u32 = lo[1];
        while y <= hi[1]
            invariant
                chunk.wf(),
                chunk.coord == old(chunk).coord,
                chunk.palette == old(chunk).palette,
                hi[0] < CS_P && hi[1] < CS_P && hi[2] < CS_P,
                lo[0] <= x <= hi[0],
                lo[1] <= y,
                forall|a: int, b: int, c: int|
                    occupancy::in_chunk(a, b, c) ==> #[trigger] chunk.occupancy.has(a, b, c) == (
                    occ.has(a, b, c) || (in_box(lo@, hi@, a, b, c) && (a < x || (a == x && b
                        < y)))),
                forall|a: int, b: int, c: int|
                    occupancy::in_chunk(a, b, c) ==> #[trigger] chunk.index_buf.at(a, b, c) == (
                    if in_box(lo@, hi@, a, b, c) && (a < x || (a == x && b < y)) {
                        palette_idx
                    } else {
                        idx.at(a, b, c)
                    }),
            decreases 64 - y,
        {
            let mut z: u32 = lo[2];
            while z <= hi[2]
                invariant
                    chunk.wf(),
                    chunk.coord == old(chunk).coord,
                    chunk.palette == old(chunk).palette,
                    hi[0] < CS_P && hi[1] < CS_P && hi[2] < CS_P,
                    lo[0] <= x <= hi[0],
                    lo[1] <= y <= hi[1],
                    lo[2] <= z,
                    forall|a: int, b: int, c: int|
                        occupancy::in_chunk(a, b, c) ==> #[trigger] chunk.occupancy.has(a, b, c)
                            == (occ.has(a, b, c) || (in_box(lo@, hi@, a, b, c) && (a < x || (a == x
                            && (b < y || (b == y && c < z)))))),
                    forall|a: int, b: int, c: int|
                        occupancy::in_chunk(a, b, c) ==> #[trigger] chunk.index_buf.at(a, b, c)
                            == (if in_box(lo@, hi@, a, b, c) && (a < x || (a == x && (b < y || (b
                            == y && c < z)))) {
                            palette_idx
                        } else {
                            idx.at(a, b, c)
                        }),
                decreases 64 - z,
            {
                chunk.occupancy.set(x, y, z);
                chunk.index_buf.set(x, y, z, palette_idx);
                z = z + 1;
            }
            y = y + 1;
        }
        x = x + 1;
    }
}

// Procedural generators.

/// Material ids used by the test scene.
pub const MAT_STONE: u16 = 2;

pub const MAT_BLUE: u16 = 3;

pub const MAT_EMISSIVE: u16 = 4;

/// Material ids used by the Cornell box.
pub const MAT_WHITE: u16 = 5;

pub const MAT_RED: u16 = 6;

pub const MAT_GREEN: u16 = 7;

pub const MAT_LIGHT: u16 = 8;

pub const MAT_GOLD: u16 = 9;

pub const MAT_ROUGH_GRAY: u16 = 10;

/// Whether a voxel lies on the shell of the usable interior.
pub open spec fn on_shell(x: int, y: int, z: int) -> bool {
    &&& 1 <= x <= 62 && 1 <= y <= 62 && 1 <= z <= 62
    &&& x == 1 || x == 62 || y == 1 || y == 62 || z == 1 || z == 62
}

/// Content of the room: floor, ceiling and four walls of the first material.
pub open spec fn room_at(x: int, y: int, z: int) -> Option<u8> {
    if on_shell(x, y, z) {
        Some(1)
    } else {
        None
    }
}

/// A chunk that holds the room.
pub open spec fn is_room(c: ChunkData) -> bool {
    &&& c.wf()
    &&& c.palette@ == seq![MATERIAL_EMPTY, MAT_STONE]
    &&& c.shows(|x: int, y: int, z: int| room_at(x, y, z))
}

/// Generate a room chunk: floor, ceiling, and four walls.
pub fn generate_room(coord: ChunkCoord) -> (c: ChunkData)
    ensures
        c.wf(),
        c.coord == coord,
        c.palette@ == seq![MATERIAL_EMPTY, MAT_STONE],
        c.shows(|x: int, y: int, z: int| room_at(x, y, z)),
        is_room(c),
{
    let mut c: ChunkData = ChunkData::empty(coord);
    let ghost f0 = |x: int, y: int, z: int| None::<u8>;
    assert(c.shows(f0));
    let stone: u8 = c.palette.add(MAT_STONE);
    assert(c.shows(f0));
    assert(c.palette@ =~= seq![MATERIAL_EMPTY, MAT_STONE]);
    let lo: u32 = 1;
    let hi: u32 = CS_P - 2;
    // Floor and ceiling.
    fill_box(&mut c, [lo, lo, lo], [hi, lo, hi], stone);
    fill_box(&mut c, [lo, hi, lo], [hi, hi, hi], stone);
    // Front and back walls.
    fill_box(&mut c, [lo, lo, lo], [hi, hi, lo], stone);
    fill_box(&mut c, [lo, lo, hi], [hi, hi, hi], stone);
    // Left and right walls.
    fill_box(&mut c, [lo, lo, lo], [lo, hi, hi], stone);
    fill_box(&mut c, [hi, lo, lo], [hi, hi, hi], stone);
    proof {
        let f1 = with_box(f0, [lo, lo, lo]@, [hi, lo, hi]@, stone);
        let f2 = with_box(f1, [lo, hi, lo]@, [hi, hi, hi]@, stone);
        let f3 = with_box(f2, [lo, lo, lo]@, [hi, hi, lo]@, stone);
        let f4 = with_box(f3, [lo, lo, hi]@, [hi, hi, hi]@, stone);
        let f5 = with_box(f4, [lo, lo, lo]@, [lo, hi, hi]@, stone);
        let f6 = with_box(f5, [hi, lo, lo]@, [hi, hi, hi]@, stone);
        assert(c.shows(f6));
    }
    c
}

/// Squared distance of a voxel from a centre.
pub open spec fn distance_squared(cx: int, cy: int, cz: int, x: int, y: int, z: int) -> int {
    (x - cx) * (x - cx) + (y - cy) * (y - cy) + (z - cz) * (z - cz)
}

/// Content of a sphere chunk: the usable voxels within the radius.
pub open spec fn sphere_at(
    cx: int,
    cy: int,
    cz: int,
    radius: int,
    x: int,
    y: int,
    z: int,
) -> Option<u8> {
    if 1 <= x <= 62 && 1 <= y <= 62 && 1 <= z <= 62 && distance_squared(cx, cy, cz, x, y, z)
        <= radius * radius {
        Some(1)
    } else {
        None
    }
}

/// A chunk that holds a sphere.
pub open spec fn is_sphere(c: ChunkData, cx: int, cy: int, cz: int, radius: int) -> bool {
    &&& c.wf()
    &&& c.palette@ == seq![MATERIAL_EMPTY, MAT_BLUE]
    &&& c.shows(|x: int, y: int, z: int| sphere_at(cx, cy, cz, radius, x, y, z))
}

/// Whether the squared distances of all usable voxels fit in 64 bits.
pub open spec fn centre_in_range(cx: int, cy: int, cz: int) -> bool {
    forall|x: int, y: int, z: int|
        1 <= x <= 62 && 1 <= y <= 62 && 1 <= z <= 62 ==> #[trigger] distance_squared(
            cx,
            cy,
            cz,
            x,
            y,
            z,
        ) <= i64::MAX
}

/// Whether a usable voxel lies in a sphere.
fn inside_sphere(cx: u32, cy: u32, cz: u32, r2: i64, x: u32, y: u32, z: u32) -> (b: bool)
    requires
        distance_squared(cx as int, cy as int, cz as int, x as int, y as int, z as int)
            <= i64::MAX,
    ensures
        b == (distance_squared(cx as int, cy as int, cz as int, x as int, y as int, z as int)
            <= r2),
{
    let dx: i64 = x as i64 - cx as i64;
    let dy: i64 = y as i64 - cy as i64;
    let dz: i64 = z as i64 - cz as i64;
    assert(dx * dx >= 0 && dy * dy >= 0 && dz * dz >= 0) by (nonlinear_arith);
    dx * dx + dy * dy + dz * dz <= r2
}

/// Generate a solid sphere with given centre and radius.
pub fn generate_sphere(coord: ChunkCoord, cx: u32, cy: u32, cz: u32, radius: u32) -> (c: ChunkData)
    requires
        radius * radius <= u32::MAX,
        centre_in_range(cx as int, cy as int, cz as int),
    ensures
        c.wf(),
        c.coord == coord,
        c.palette@ == seq![MATERIAL_EMPTY, MAT_BLUE],
        c.shows(
            |x: int, y: int, z: int|
                sphere_at(cx as int, cy as int, cz as int, radius as int, x, y, z),
        ),
        is_sphere(c, cx as int, cy as int, cz as int, radius as int),
{
    let mut chunk: ChunkData = ChunkData::empty(coord);
    let ghost f0 = |x: int, y: int, z: int| None::<u8>;
    assert(chunk.shows(f0));
    let blue: u8 = chunk.palette.add(MAT_BLUE);
    assert(chunk.palette@ =~= seq![MATERIAL_EMPTY, MAT_BLUE]);
    let r2: i64 = (radius * radius) as i64;
    let ghost f = |x: int, y: int, z: int|
        sphere_at(cx as int, cy as int, cz as int, radius as int, x, y, z);
    let mut x: u32 = 1;
    while x <= 62
        invariant
            chunk.wf(),
            chunk.coord == coord,
            chunk.palette@ == seq![MATERIAL_EMPTY, MAT_BLUE],
            blue == 1,
            r2 == radius * radius,
            centre_in_range(cx as int, cy as int, cz as int),
            f == |x: int, y: int, z: int|
                sphere_at(cx as int, cy as int, cz as int, radius as int, x, y, z),
            1 <= x <= 63,
            shows_part(chunk, f, |a: int, b: int, c: int| a < x),
        decreases 63 - x,
    {
        let mut y: u32 = 1;
        while y <= 62
            invariant
                chunk.wf(),
                chunk.coord == coord,
                chunk.palette@ == seq![MATERIAL_EMPTY, MAT_BLUE],
                blue == 1,
                r2 == radius * radius,
                centre_in_range(cx as int, cy as int, cz as int),
                f == |x: int, y: int, z: int|
                    sphere_at(cx as int, cy as int, cz as int, radius as int, x, y, z),
                1 <= x <= 62,
                1 <= y <= 63,
                shows_part(chunk, f, |a: int, b: int, c: int| a < x || (a == x && b < y)),
            decreases 63 - y,
        {
            let mut z: u32 = 1;
            while z <= 62
                invariant
                    chunk.wf(),
                    chunk.coord == coord,
                    chunk.palette@ == seq![MATERIAL_EMPTY, MAT_BLUE],
                    blue == 1,
                    r2 == radius * radius,
                    centre_in_range(cx as int, cy as int, cz as int),
                    f == |x: int, y: int, z: int|
                        sphere_at(cx as int, cy as int, cz as int, radius as int, x, y, z),
                    1 <= x <= 62,
                    1 <= y <= 62,
                    1 <= z <= 63,
                    shows_part(
                        chunk,
                        f,
                        |a: int, b: int, c: int| a < x || (a == x && (b < y || (b == y && c < z))),
                    ),
                decreases 63 - z,
            {
                if inside_sphere(cx, cy, cz, r2, x, y, z) {
                    chunk.occupancy.set(x, y, z);
                    chunk.index_buf.set(x, y, z, blue);
                }
                z = z + 1;
            }
            y = y + 1;
        }
        x = x + 1;
    }
    chunk
}

/// Within the voxels of `done` the chunk shows `f`, elsewhere nothing.
spec fn shows_part(
    chunk: ChunkData,
    f: spec_fn(int, int, int) -> Option<u8>,
    done: spec_fn(int, int, int) -> bool,
) -> bool {
    chunk.shows(
        |x: int, y: int, z: int|
            if done(x, y, z) {
                f(x, y, z)
            } else {
                None
            },
    )
}

/// Whether a voxel lies in one of the three emissive clusters.
pub open spec fn in_cluster(x: int, y: int, z: int) -> bool {
    ||| 10 <= x <= 11 && 8 <= y <= 9 && 10 <= z <= 11
    ||| 50 <= x <= 51 && 15 <= y <= 16 && 30 <= z <= 31
    ||| 30 <= x <= 31 && 10 <= y <= 11 && 50 <= z <= 51
}

/// Content of the emissive cluster chunk.
pub open spec fn clusters_at(x: int, y: int, z: int) -> Option<u8> {
    if in_cluster(x, y, z) {
        Some(1)
    } else {
        None
    }
}

/// A chunk that holds the emissive clusters.
pub open spec fn is_clusters(c: ChunkData) -> bool {
    &&& c.wf()
    &&& c.palette@ == seq![MATERIAL_EMPTY, MAT_EMISSIVE]
    &&& c.shows(|x: int, y: int, z: int| clusters_at(x, y, z))
}

/// Generate a few emissive voxel clusters at fixed positions within a chunk.
pub fn generate_emissive_clusters(coord: ChunkCoord) -> (c: ChunkData)
    ensures
        c.wf(),
        c.coord == coord,
        c.palette@ == seq![MATERIAL_EMPTY, MAT_EMISSIVE],
        c.shows(|x: int, y: int, z: int| clusters_at(x, y, z)),
        is_clusters(c),
{
    let mut c: ChunkData = ChunkData::empty(coord);
    let ghost f0 = |x: int, y: int, z: int| None::<u8>;
    assert(c.shows(f0));
    let e: u8 = c.palette.add(MAT_EMISSIVE);
    assert(c.shows(f0));
    assert(c.palette@ =~= seq![MATERIAL_EMPTY, MAT_EMISSIVE]);
    fill_box(&mut c, [10, 8, 10], [11, 9, 11], e);
    fill_box(&mut c, [50, 15, 30], [51, 16, 31], e);
    fill_box(&mut c, [30, 10, 50], [31, 11, 51], e);
    proof {
        let f1 = with_box(f0, [10u32, 8, 10]@, [11u32, 9, 11]@, e);
        let f2 = with_box(f1, [50u32, 15, 30]@, [51u32, 16, 31]@, e);
        let f3 = with_box(f2, [30u32, 10, 50]@, [31u32, 11, 51]@, e);
        assert(c.shows(f3));
    }
    c
}

/// Merge source occupancy into dest. Where source has voxels, dest gets those
/// voxels with the given palette index.
pub fn merge_chunk_layer(dest: &mut ChunkData, src: &ChunkData, palette_idx: u8)
    requires
        old(dest).wf(),
        src.wf(),
    ensures
        final(dest).wf(),
        final(dest).coord == old(dest).coord,
        final(dest).palette == old(dest).palette,
        forall|x: int, y: int, z: int|
            occupancy::in_chunk(x, y, z) ==> #[trigger] final(dest).occupancy.has(x, y, z) == (old(
                dest).occupancy.has(x, y, z) || src.occupancy.has(x, y, z)),
        forall|x: int, y: int, z: int|
            occupancy::in_chunk(x, y, z) ==> #[trigger] final(dest).index_buf.at(x, y, z) == (
            if src.occupancy.has(x, y, z) {
                palette_idx
            } else {
                old(dest).index_buf.at(x, y, z)
            }),
{
    let ghost occ = dest.occupancy;
    let ghost idx = dest.index_buf;
    let mut x: u32 = 0;
    while x < CS_P
        invariant
            dest.wf(),
            src.wf(),
            dest.coord == old(dest).coord,
            dest.palette == old(dest).palette,
            x <= CS_P,
            layered(occ, idx, src.occupancy, *dest, palette_idx, |a: int, b: int, c: int| a < x),
        decreases CS_P - x,
    {
        let mut y: u32 = 0;
        while y < CS_P
            invariant
                dest.wf(),
                src.wf(),
                dest.coord == old(dest).coord,
                dest.palette == old(dest).palette,
                x < CS_P,
                y <= CS_P,
                layered(
                    occ,
                    idx,
                    src.occupancy,
                    *dest,
                    palette_idx,
                    |a: int, b: int, c: int| a < x || (a == x && b < y),
                ),
            decreases CS_P - y,
        {
            let mut z: u32 = 0;
            while z < CS_P
                invariant
                    dest.wf(),
                    src.wf(),
                    dest.coord == old(dest).coord,
                    dest.palette == old(dest).palette,
                    x < CS_P,
                    y < CS_P,
                    z <= CS_P,
                    layered(
                        occ,
                        idx,
                        src.occupancy,
                        *dest,
                        palette_idx,
                        |a: int, b: int, c: int| a < x || (a == x && (b < y || (b == y && c < z))),
                    ),
                decreases CS_P - z,
            {
                if src.occupancy.get(x, y, z) {
                    dest.occupancy.set(x, y, z);
                    dest.index_buf.set(x, y, z, palette_idx);
                }
                z = z + 1;
            }
            y = y + 1;
        }
        x = x + 1;
    }
}

/// Within the voxels of `done` the layer is merged, elsewhere nothing changed.
spec fn layered(
    occ: OccupancyBuilder,
    idx: IndexBufBuilder,
    src: OccupancyBuilder,
    now: ChunkData,
    palette_idx: u8,
    done: spec_fn(int, int, int) -> bool,
) -> bool {
    &&& forall|a: int, b: int, c: int|
        occupancy::in_chunk(a, b, c) ==> #[trigger] now.occupancy.has(a, b, c) == (occ.has(a, b, c)
            || (done(a, b, c) && src.has(a, b, c)))
    &&& forall|a: int, b: int, c: int|
        occupancy::in_chunk(a, b, c) ==> #[trigger] now.index_buf.at(a, b, c) == (if done(a, b, c)
            && src.has(a, b, c) {
            palette_idx
        } else {
            idx.at(a, b, c)
        })
}

/// Content of the test scene: emissive clusters over the sphere over the room.
pub open spec fn test_scene_at(x: int, y: int, z: int) -> Option<u8> {
    if in_cluster(x, y, z) {
        Some(3)
    } else if sphere_at(32, 25, 32, 12, x, y, z) is Some {
        Some(2)
    } else {
        room_at(x, y, z)
    }
}

/// Content of the Cornell box: white floor, ceiling and back wall, red left
/// and green right wall, a light panel in the ceiling, a tall gold box and a
/// short rough cube.
pub open spec fn cornell_at(x: int, y: int, z: int) -> Option<u8> {
    if 36 <= x <= 50 && 2 <= y <= 18 && 32 <= z <= 46 {
        Some(6)
    } else if 12 <= x <= 26 && 2 <= y <= 35 && 15 <= z <= 29 {
        Some(5)
    } else if y == 62 && 22 <= x <= 42 && 22 <= z <= 42 {
        Some(4)
    } else if !(1 <= x <= 62 && 1 <= y <= 62 && 1 <= z <= 62) {
        None
    } else if z == 1 {
        Some(1)
    } else if x == 1 {
        Some(2)
    } else if x == 62 {
        Some(3)
    } else if y == 1 || y == 62 {
        Some(1)
    } else {
        None
    }
}

/// A chunk that holds the test scene.
pub open spec fn is_test_scene(c: ChunkData) -> bool {
    &&& c.wf()
    &&& c.palette@ == seq![MATERIAL_EMPTY, MAT_STONE, MAT_BLUE, MAT_EMISSIVE]
    &&& c.shows(|x: int, y: int, z: int| test_scene_at(x, y, z))
}

/// A chunk that holds the Cornell box.
pub open spec fn is_cornell_box(c: ChunkData) -> bool {
    &&& c.wf()
    &&& c.palette@ == seq![
        MATERIAL_EMPTY,
        MAT_WHITE,
        MAT_RED,
        MAT_GREEN,
        MAT_LIGHT,
        MAT_GOLD,
        MAT_ROUGH_GRAY,
    ]
    &&& c.shows(|x: int, y: int, z: int| cornell_at(x, y, z))
}

/// The test scene chunk: room, sphere and emissive clusters.
fn test_scene_chunk() -> (room: ChunkData)
    ensures
        room.wf(),
        room.coord == (ChunkCoord { x: 0, y: 0, z: 0 }),
        room.palette@ == seq![MATERIAL_EMPTY, MAT_STONE, MAT_BLUE, MAT_EMISSIVE],
        room.shows(|x: int, y: int, z: int| test_scene_at(x, y, z)),
        is_test_scene(room),
{
    let coord: ChunkCoord = ChunkCoord { x: 0, y: 0, z: 0 };
    let mut room: ChunkData = generate_room(coord);
    proof {
        assert forall|x: int, y: int, z: int|
            1 <= x <= 62 && 1 <= y <= 62 && 1 <= z <= 62 implies #[trigger] distance_squared(
            32,
            25,
            32,
            x,
            y,
            z,
        ) <= i64::MAX by {
            assert((x - 32) * (x - 32) <= 2500 && (y - 25) * (y - 25) <= 2500 && (z - 32) * (z
                - 32) <= 2500) by (nonlinear_arith)
                requires
                    1 <= x <= 62,
                    1 <= y <= 62,
                    1 <= z <= 62,
            ;
        }
    }
    let sphere: ChunkData = generate_sphere(coord, 32, 25, 32, 12);
    let blue: u8 = room.palette.add(MAT_BLUE);
    assert(room.palette@ =~= seq![MATERIAL_EMPTY, MAT_STONE, MAT_BLUE]);
    merge_chunk_layer(&mut room, &sphere, blue);
    let emissive: ChunkData = generate_emissive_clusters(coord);
    let glow: u8 = room.palette.add(MAT_EMISSIVE);
    assert(room.palette@ =~= seq![MATERIAL_EMPTY, MAT_STONE, MAT_BLUE, MAT_EMISSIVE]);
    merge_chunk_layer(&mut room, &emissive, glow);
    room
}

/// The chunks and the material table of the test scene.
pub open spec fn is_whole_test_scene(chunks: Seq<ChunkData>, table: Seq<MaterialEntry>) -> bool {
    &&& chunks.len() == 1
    &&& chunks[0].coord == (ChunkCoord { x: 0, y: 0, z: 0 })
    &&& is_test_scene(chunks[0])
    &&& table == Seq::new(MAX_MATERIALS as nat, |i: int| materials::test_scene_entry(i))
}

/// The chunks and the material table of the Cornell box.
pub open spec fn is_whole_cornell_box(chunks: Seq<ChunkData>, table: Seq<MaterialEntry>) -> bool {
    &&& chunks.len() == 1
    &&& chunks[0].coord == (ChunkCoord { x: 0, y: 0, z: 0 })
    &&& is_cornell_box(chunks[0])
    &&& table == Seq::new(MAX_MATERIALS as nat, |i: int| materials::cornell_entry(i))
}

/// Generate the complete test scene: room, sphere and emissive clusters, all
/// in chunk (0, 0, 0). Where they overlap, the later layer's material stays.
pub fn generate_test_scene() -> (r: (Vec<ChunkData>, Vec<MaterialEntry>))
    ensures
        r.0@.len() == 1,
        r.0@[0].wf(),
        r.0@[0].coord == (ChunkCoord { x: 0, y: 0, z: 0 }),
        r.0@[0].palette@ == seq![MATERIAL_EMPTY, MAT_STONE, MAT_BLUE, MAT_EMISSIVE],
        r.0@[0].shows(|x: int, y: int, z: int| test_scene_at(x, y, z)),
        is_test_scene(r.0@[0]),
        r.1@ == Seq::new(MAX_MATERIALS as nat, |i: int| materials::test_scene_entry(i)),
        is_whole_test_scene(r.0@, r.1@),
{
    let mut chunks: Vec<ChunkData> = Vec::new();
    chunks.push(test_scene_chunk());
    (chunks, materials::test_scene_materials())
}

/// The Cornell box chunk.
fn cornell_chunk() -> (c: ChunkData)
    ensures
        c.wf(),
        c.coord == (ChunkCoord { x: 0, y: 0, z: 0 }),
        c.palette@ == seq![
            MATERIAL_EMPTY,
            MAT_WHITE,
            MAT_RED,
            MAT_GREEN,
            MAT_LIGHT,
            MAT_GOLD,
            MAT_ROUGH_GRAY,
        ],
        c.shows(|x: int, y: int, z: int| cornell_at(x, y, z)),
        is_cornell_box(c),
{
    let mut c: ChunkData = ChunkData::empty(ChunkCoord { x: 0, y: 0, z: 0 });
    let ghost f0 = |x: int, y: int, z: int| None::<u8>;
    let white: u8 = c.palette.add(MAT_WHITE);
    assert(c.palette@ =~= seq![MATERIAL_EMPTY, MAT_WHITE]);
    let red: u8 = c.palette.add(MAT_RED);
    assert(c.palette@ =~= seq![MATERIAL_EMPTY, MAT_WHITE, MAT_RED]);
    let green: u8 = c.palette.add(MAT_GREEN);
    assert(c.palette@ =~= seq![MATERIAL_EMPTY, MAT_WHITE, MAT_RED, MAT_GREEN]);
    let light: u8 = c.palette.add(MAT_LIGHT);
    assert(c.palette@ =~= seq![MATERIAL_EMPTY, MAT_WHITE, MAT_RED, MAT_GREEN, MAT_LIGHT]);
    let gold: u8 = c.palette.add(MAT_GOLD);
    assert(c.palette@ =~= seq![
        MATERIAL_EMPTY,
        MAT_WHITE,
        MAT_RED,
        MAT_GREEN,
        MAT_LIGHT,
        MAT_GOLD,
    ]);
    let rough: u8 = c.palette.add(MAT_ROUGH_GRAY);
    assert(c.palette@ =~= seq![
        MATERIAL_EMPTY,
        MAT_WHITE,
        MAT_RED,
        MAT_GREEN,
        MAT_LIGHT,
        MAT_GOLD,
        MAT_ROUGH_GRAY,
    ]);
    assert(c.shows(f0));
    let lo: u32 = 1;
    let hi: u32 = CS_P - 2;
    // Floor and ceiling.
    fill_box(&mut c, [lo, lo, lo], [hi, lo, hi], white);
    fill_box(&mut c, [lo, hi, lo], [hi, hi, hi], white);
    // Left, right and back walls; the front is open.
    fill_box(&mut c, [lo, lo, lo], [lo, hi, hi], red);
    fill_box(&mut c, [hi, lo, lo], [hi, hi, hi], green);
    fill_box(&mut c, [lo, lo, lo], [hi, hi, lo], white);
    // Ceiling light.
    fill_box(&mut c, [22, hi, 22], [42, hi, 42], light);
    // Tall box and short cube.
    fill_box(&mut c, [12, 2, 15], [26, 35, 29], gold);
    fill_box(&mut c, [36, 2, 32], [50, 18, 46], rough);
    proof {
        let f1 = with_box(f0, [lo, lo, lo]@, [hi, lo, hi]@, white);
        let f2 = with_box(f1, [lo, hi, lo]@, [hi, hi, hi]@, white);
        let f3 = with_box(f2, [lo, lo, lo]@, [lo, hi, hi]@, red);
        let f4 = with_box(f3, [hi, lo, lo]@, [hi, hi, hi]@, green);
        let f5 = with_box(f4, [lo, lo, lo]@, [hi, hi, lo]@, white);
        let f6 = with_box(f5, [22u32, hi, 22]@, [42u32, hi, 42]@, light);
        let f7 = with_box(f6, [12u32, 2, 15]@, [26u32, 35, 29]@, gold);
        let f8 = with_box(f7, [36u32, 2, 32]@, [50u32, 18, 46]@, rough);
        assert(c.shows(f8));
    }
    c
}

/// Generate a Cornell box test scene: colored walls, ceiling light, two
/// objects.
pub fn generate_cornell_box() -> (r: (Vec<ChunkData>, Vec<MaterialEntry>))
    ensures
        r.0@.len() == 1,
        r.0@[0].wf(),
        r.0@[0].coord == (ChunkCoord { x: 0, y: 0, z: 0 }),
        r.0@[0].palette@ == seq![
            MATERIAL_EMPTY,
            MAT_WHITE,
            MAT_RED,
            MAT_GREEN,
            MAT_LIGHT,
            MAT_GOLD,
            MAT_ROUGH_GRAY,
        ],
        r.0@[0].shows(|x: int, y: int, z: int| cornell_at(x, y, z)),
        is_cornell_box(r.0@[0]),
        r.1@ == Seq::new(MAX_MATERIALS as nat, |i: int| materials::cornell_entry(i)),
        is_whole_cornell_box(r.0@, r.1@),
{
    let mut chunks: Vec<ChunkData> = Vec::new();
    chunks.push(cornell_chunk());
    (chunks, materials::cornell_box_materials())
}

} // verus!
