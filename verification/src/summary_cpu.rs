//! Summary rebuild: which bricklets of a chunk hold voxels, chunk flags and
//! bounds, in the chunk and in the world.

use vstd::prelude::*;

use crate::bits;
use crate::ieee;
use crate::half;
use crate::materials;
use crate::materials::MaterialEntry;
use crate::mesh_cpu;
use crate::occupancy;
use crate::pool::{
    BRICKLETS_PER_AXIS, BRICKLET_DIM, COLUMNS_PER_CHUNK, CS, CS_P, OCCUPANCY_WORDS_PER_SLOT,
};
use crate::scene;

verus! {

/// The chunk holds no voxel.
pub const FLAG_IS_EMPTY: u32 = 1;

/// Every voxel of the chunk is set.
pub const FLAG_IS_FULLY_OPAQUE: u32 = 2;

/// The palette names an emissive material.
pub const FLAG_HAS_EMISSIVE: u32 = 4;

/// The chunk holds a slot.
pub const FLAG_IS_RESIDENT: u32 = 8;

/// Smallest and largest coordinates of the occupied voxels, per axis.
#[derive(Debug, Clone, Copy, PartialEq, Eq, Structural)]
pub struct VoxelBounds {
    pub min_x: u32,
    pub min_y: u32,
    pub min_z: u32,
    pub max_x: u32,
    pub max_y: u32,
    pub max_z: u32,
}

/// Result of the summary rebuild for one chunk slot.
#[derive(Debug, Clone, Copy)]
pub struct SummaryResult {
    /// 512-bit bricklet grid. Bit set: at least one voxel in that region.
    pub summary: [u32; 16],
    /// Packed chunk flags.
    pub flags: u32,
    /// Bounds of the occupied voxels. None for an empty chunk.
    pub bounds: Option<VoxelBounds>,
}

/// Whether a bricklet holds a voxel.
pub open spec fn bricklet_occupied(words: Seq<u32>, bx: int, by: int, bz: int) -> bool {
    exists|x: int, y: int, z: int|
        bx * 8 <= x < bx * 8 + 8 && by * 8 <= y < by * 8 + 8 && bz * 8 <= z < bz * 8 + 8
            && #[trigger] occupancy::occupied(words, x, y, z)
}

/// Number of a bricklet in the summary.
pub open spec fn bricklet_index(bx: int, by: int, bz: int) -> int {
    bx * 64 + by * 8 + bz
}

/// Bit `i` of the summary.
pub open spec fn summary_bit(summary: Seq<u32>, i: int) -> bool {
    bits::bit32(summary[i / 32], i % 32)
}

/// The summary has a bit set for each bricklet that holds a voxel.
pub open spec fn is_summary(words: Seq<u32>, summary: Seq<u32>) -> bool {
    &&& summary.len() == 16
    &&& forall|bx: int, by: int, bz: int|
        0 <= bx < 8 && 0 <= by < 8 && 0 <= bz < 8 ==> #[trigger] summary_bit(
            summary,
            bricklet_index(bx, by, bz),
        ) == bricklet_occupied(words, bx, by, bz)
}

/// Whether a chunk holds any voxel.
pub open spec fn any_voxel(words: Seq<u32>) -> bool {
    exists|x: int, y: int, z: int|
        occupancy::in_chunk(x, y, z) && #[trigger] occupancy::occupied(words, x, y, z)
}

/// Whether every voxel of a chunk is set.
pub open spec fn all_voxels(words: Seq<u32>) -> bool {
    forall|x: int, y: int, z: int|
        occupancy::in_chunk(x, y, z) ==> #[trigger] occupancy::occupied(words, x, y, z)
}

/// Whether a material emits light.
pub open spec fn emits(m: MaterialEntry) -> bool {
    m.emissive_rg != 0 || m.emissive_b_opacity % 0x1_0000 != 0
}

/// Whether palette entry `i` names an emissive material.
pub open spec fn entry_emits(palette: Seq<u32>, table: Seq<MaterialEntry>, i: int) -> bool {
    let id = mesh_cpu::palette_entry(palette, i);
    id != 0 && id < table.len() && emits(table[id])
}

/// Whether a palette names an emissive material.
pub open spec fn palette_emits(palette: Seq<u32>, table: Seq<MaterialEntry>) -> bool {
    exists|i: int| 0 <= i < 2 * palette.len() && #[trigger] entry_emits(palette, table, i)
}

/// The flags of a chunk.
pub open spec fn flags_of(words: Seq<u32>, palette: Seq<u32>, table: Seq<MaterialEntry>) -> int {
    (if any_voxel(words) { 0int } else { FLAG_IS_EMPTY as int }) + (if all_voxels(words) {
        FLAG_IS_FULLY_OPAQUE as int
    } else {
        0
    }) + (if palette_emits(palette, table) {
        FLAG_HAS_EMISSIVE as int
    } else {
        0
    }) + FLAG_IS_RESIDENT
}

/// Whether a voxel lies within bounds.
pub open spec fn within(b: VoxelBounds, x: int, y: int, z: int) -> bool {
    b.min_x <= x <= b.max_x && b.min_y <= y <= b.max_y && b.min_z <= z <= b.max_z
}

/// A voxel of the first `n` columns.
pub open spec fn in_columns(words: Seq<u32>, n: int, x: int, y: int, z: int) -> bool {
    &&& occupancy::in_chunk(x, y, z)
    &&& occupancy::column_index(x, z) < n
    &&& occupancy::occupied(words, x, y, z)
}

/// `b` are the tight bounds of the voxels in the first `n` columns: they hold
/// all of them, and each of the six sides touches one.
pub open spec fn are_tight(words: Seq<u32>, n: int, b: VoxelBounds) -> bool {
    &&& forall|x: int, y: int, z: int| #[trigger]
        in_columns(words, n, x, y, z) ==> within(b, x, y, z)
    &&& exists|y: int, z: int| #[trigger] in_columns(words, n, b.min_x as int, y, z)
    &&& exists|y: int, z: int| #[trigger] in_columns(words, n, b.max_x as int, y, z)
    &&& exists|x: int, z: int| #[trigger] in_columns(words, n, x, b.min_y as int, z)
    &&& exists|x: int, z: int| #[trigger] in_columns(words, n, x, b.max_y as int, z)
    &&& exists|x: int, y: int| #[trigger] in_columns(words, n, x, y, b.min_z as int)
    &&& exists|x: int, y: int| #[trigger] in_columns(words, n, x, y, b.max_z as int)
}

/// `b` are the bounds of the voxels in the first `n` columns, None if there
/// are no voxels.
pub open spec fn are_bounds(words: Seq<u32>, n: int, b: Option<VoxelBounds>) -> bool {
    match b {
        None => forall|x: int, y: int, z: int| !#[trigger] in_columns(words, n, x, y, z),
        Some(b) => are_tight(words, n, b),
    }
}

/// Whether 8 bits of a column from bit 8 * by on hold a set bit.
fn octet_set(column: u64, by: u32) -> (b: bool)
    requires
        by < 8,
    ensures
        b == exists|y: int| by * 8 <= y < by * 8 + 8 && #[trigger] bits::bit64(column, y),
{
    let s: u64 = by as u64 * 8;
    let octet: u64 = (column >> s) & 0xFF;
    proof {
        assert(octet != 0 <==> ((column >> s) & 1 == 1 || (column >> (s + 1) as u64) & 1 == 1 || (
        column >> (s + 2) as u64) & 1 == 1 || (column >> (s + 3) as u64) & 1 == 1 || (column >> (s
            + 4) as u64) & 1 == 1 || (column >> (s + 5) as u64) & 1 == 1 || (column >> (s
            + 6) as u64) & 1 == 1 || (column >> (s + 7) as u64) & 1 == 1)) by (bit_vector)
            requires
                s <= 56,
                octet == (column >> s) & 0xFF,
        ;
        let t = s as int;
        if octet != 0 {
            assert(bits::bit64(column, t) || bits::bit64(column, t + 1) || bits::bit64(
                column,
                t + 2,
            ) || bits::bit64(column, t + 3) || bits::bit64(column, t + 4) || bits::bit64(
                column,
                t + 5,
            ) || bits::bit64(column, t + 6) || bits::bit64(column, t + 7));
        } else {
            assert forall|y: int| by * 8 <= y < by * 8 + 8 implies !#[trigger] bits::bit64(
                column,
                y,
            ) by {
                assert(y == t || y == t + 1 || y == t + 2 || y == t + 3 || y == t + 4 || y == t + 5
                    || y == t + 6 || y == t + 7);
            }
        }
    }
    octet != 0
}

/// Whether a bricklet holds a voxel.
fn scan_bricklet(occupancy: &[u32], bx: u32, by: u32, bz: u32) -> (b: bool)
    requires
        occupancy@.len() == OCCUPANCY_WORDS_PER_SLOT,
        bx < 8 && by < 8 && bz < 8,
    ensures
        b == bricklet_occupied(occupancy@, bx as int, by as int, bz as int),
{
    let mut i: u32 = 0;
    while i < BRICKLET_DIM
        invariant
            occupancy@.len() == OCCUPANCY_WORDS_PER_SLOT,
            bx < 8 && by < 8 && bz < 8,
            i <= 8,
            forall|x: int, y: int, z: int|
                bx * 8 <= x < bx * 8 + i && by * 8 <= y < by * 8 + 8 && bz * 8 <= z < bz * 8 + 8
                    ==> !#[trigger] occupancy::occupied(occupancy@, x, y, z),
        decreases 8 - i,
    {
        let mut k: u32 = 0;
        while k < BRICKLET_DIM
            invariant
                occupancy@.len() == OCCUPANCY_WORDS_PER_SLOT,
                bx < 8 && by < 8 && bz < 8,
                i < 8,
                k <= 8,
                forall|x: int, y: int, z: int|
                    bx * 8 <= x < bx * 8 + i && by * 8 <= y < by * 8 + 8 && bz * 8 <= z < bz * 8
                        + 8 ==> !#[trigger] occupancy::occupied(occupancy@, x, y, z),
                forall|y: int, z: int|
                    by * 8 <= y < by * 8 + 8 && bz * 8 <= z < bz * 8 + k
                        ==> !#[trigger] occupancy::occupied(occupancy@, bx * 8 + i, y, z),
            decreases 8 - k,
        {
            let x: u32 = bx * BRICKLET_DIM + i;
            let z: u32 = bz * BRICKLET_DIM + k;
            let column: u64 = occupancy::read_column(occupancy, x, z);
            if octet_set(column, by) {
                proof {
                    let y = choose|y: int|
                        by * 8 <= y < by * 8 + 8 && #[trigger] bits::bit64(column, y);
                    assert(occupancy::occupied(occupancy@, x as int, y, z as int));
                }
                return true;
            }
            proof {
                assert forall|y: int| by * 8 <= y < by * 8 + 8 implies !#[trigger]
                    occupancy::occupied(occupancy@, x as int, y, z as int) by {
                    assert(!bits::bit64(column, y));
                }
            }
            k = k + 1;
        }
        i = i + 1;
    }
    false
}

/// The bricklet summary of a chunk.
fn summarize(occupancy: &[u32]) -> (summary: [u32; 16])
    requires
        occupancy@.len() == OCCUPANCY_WORDS_PER_SLOT,
    ensures
        is_summary(occupancy@, summary@),
{
    let mut summary: [u32; 16] = [0; 16];
    let mut n: u32 = 0;
    proof {
        bits::lemma_zero32();
    }
    while n < 512
        invariant
            occupancy@.len() == OCCUPANCY_WORDS_PER_SLOT,
            n <= 512,
            forall|i: int|
                0 <= i < 512 ==> #[trigger] summary_bit(summary@, i) == (i < n && bricklet_occupied(
                    occupancy@,
                    i / 64,
                    i / 8 % 8,
                    i % 8,
                )),
        decreases 512 - n,
    {
        if scan_bricklet(occupancy, n / 64, n / 8 % BRICKLETS_PER_AXIS, n % BRICKLETS_PER_AXIS) {
            let word: usize = (n / 32) as usize;
            let bit: u32 = n % 32;
            let w: u32 = summary[word];
            let ghost before = summary@;
            summary[word] = w | (1u32 << bit);
            proof {
                bits::lemma_set_bit32(w, bit);
                assert forall|i: int| 0 <= i < 512 implies #[trigger] summary_bit(summary@, i) == (i
                    == n || summary_bit(before, i)) by {
                    if i / 32 == word {
                        assert(bits::bit32(w | (1u32 << bit), i % 32) == (i % 32 == bit
                            || bits::bit32(w, i % 32)));
                    }
                }
            }
        }
        n = n + 1;
    }
    proof {
        assert forall|bx: int, by: int, bz: int|
            0 <= bx < 8 && 0 <= by < 8 && 0 <= bz < 8 implies #[trigger] summary_bit(
            summary@,
            bricklet_index(bx, by, bz),
        ) == bricklet_occupied(occupancy@, bx, by, bz) by {
            let i = bricklet_index(bx, by, bz);
            assert(i / 64 == bx && i / 8 % 8 == by && i % 8 == bz);
        }
    }
    summary
}

/// Whether a palette names an emissive material.
fn has_emissive(palette: &[u32], table: &[MaterialEntry]) -> (b: bool)
    ensures
        b == palette_emits(palette@, table@),
{
    let mut w: usize = 0;
    while w < palette.len()
        invariant
            w <= palette@.len(),
            forall|i: int| 0 <= i < 2 * w ==> !#[trigger] entry_emits(palette@, table@, i),
        decreases palette@.len() - w,
    {
        let lo: usize = bits::read_field32(palette[w], 0, 16) as usize;
        let hi: usize = bits::read_field32(palette[w], 16, 16) as usize;
        proof {
            assert(mesh_cpu::palette_entry(palette@, 2 * w) == lo);
            assert(mesh_cpu::palette_entry(palette@, 2 * w + 1) == hi);
        }
        if emits_light(table, lo) {
            assert(entry_emits(palette@, table@, 2 * w));
            return true;
        }
        if emits_light(table, hi) {
            assert(entry_emits(palette@, table@, 2 * w + 1));
            return true;
        }
        w = w + 1;
    }
    false
}

/// Whether a material id names an emissive material.
fn emits_light(table: &[MaterialEntry], id: usize) -> (b: bool)
    ensures
        b == (id != 0 && id < table@.len() && emits(table@[id as int])),
{
    if id == 0 || id >= table.len() {
        return false;
    }
    table[id].emissive_rg != 0 || table[id].emissive_b_opacity % 0x1_0000 != 0
}

/// Whether every word of a chunk is all ones.
fn all_ones(occupancy: &[u32]) -> (b: bool)
    requires
        occupancy@.len() == OCCUPANCY_WORDS_PER_SLOT,
    ensures
        b == all_voxels(occupancy@),
{
    let mut i: usize = 0;
    while i < occupancy.len()
        invariant
            occupancy@.len() == OCCUPANCY_WORDS_PER_SLOT,
            i <= occupancy@.len(),
            forall|j: int| 0 <= j < i ==> #[trigger] occupancy@[j] == 0xFFFF_FFFF,
        decreases occupancy@.len() - i,
    {
        if occupancy[i] != 0xFFFF_FFFF {
            proof {
                let w = occupancy@[i as int];
                vstd::std_specs::bits::axiom_u32_trailing_ones(w);
                let bit = vstd::std_specs::bits::u32_trailing_ones(w) as int;
                assert(!bits::bit32(w, bit));
                occupancy::layout_is_surjective(i as int, bit);
                assert(!occupancy::occupied(
                    occupancy@,
                    i as int / 128,
                    (i as int % 2) * 32 + bit,
                    (i as int / 2) % 64,
                ));
            }
            return false;
        }
        i = i + 1;
    }
    proof {
        assert forall|x: int, y: int, z: int| occupancy::in_chunk(x, y, z) implies #[trigger]
            occupancy::occupied(occupancy@, x, y, z) by {
            assert(occupancy@[occupancy::word_index(x, y, z)] == 0xFFFF_FFFF);
            let k: u32 = (y % 32) as u32;
            assert((0xFFFF_FFFFu32 >> k) & 1 == 1) by (bit_vector)
                requires
                    k < 32,
            ;
        }
    }
    true
}

/// Lowest set bit of a column.
fn lowest_bit(column: u64) -> (y: u32)
    requires
        column != 0,
    ensures
        y < 64,
        bits::bit64(column, y as int),
        forall|j: int| 0 <= j < y ==> !#[trigger] bits::bit64(column, j),
{
    let y: u32 = column.trailing_zeros();
    proof {
        vstd::std_specs::bits::axiom_u64_trailing_zeros(column);
        assert forall|j: int| 0 <= j < y implies !#[trigger] bits::bit64(column, j) by {
            let k: u64 = j as u64;
            assert((column >> k) & 1u64 == 0u64);
        }
    }
    y
}

/// Highest set bit of a column.
fn highest_bit(column: u64) -> (y: u32)
    requires
        column != 0,
    ensures
        y < 64,
        bits::bit64(column, y as int),
        forall|j: int| y < j < 64 ==> !#[trigger] bits::bit64(column, j),
{
    proof {
        vstd::std_specs::bits::axiom_u64_leading_zeros(column);
    }
    let y: u32 = 63 - column.leading_zeros();
    proof {
        let k: u64 = y as u64;
        assert((column >> k) & 1 != 0 ==> (column >> k) & 1 == 1) by (bit_vector);
        assert forall|j: int| y < j < 64 implies !#[trigger] bits::bit64(column, j) by {
            let k: u64 = j as u64;
            assert((column >> k) & 1u64 == 0u64);
        }
    }
    y
}

fn smaller(a: u32, b: u32) -> (m: u32)
    ensures
        m == if a < b { a } else { b },
{
    if a < b { a } else { b }
}

fn larger(a: u32, b: u32) -> (m: u32)
    ensures
        m == if a > b { a } else { b },
{
    if a > b { a } else { b }
}

/// Bounds widened by the voxels of one column, from `low` to `high`.
fn widen(b: Option<VoxelBounds>, x: u32, z: u32, low: u32, high: u32) -> (r: VoxelBounds)
    ensures
        r == widened(b, x, z, low, high),
{
    match b {
        None => VoxelBounds {
            min_x: x,
            min_y: low,
            min_z: z,
            max_x: x,
            max_y: high,
            max_z: z,
        },
        Some(b) => VoxelBounds {
            min_x: smaller(b.min_x, x),
            min_y: smaller(b.min_y, low),
            min_z: smaller(b.min_z, z),
            max_x: larger(b.max_x, x),
            max_y: larger(b.max_y, high),
            max_z: larger(b.max_z, z),
        },
    }
}

spec fn widened(b: Option<VoxelBounds>, x: u32, z: u32, low: u32, high: u32) -> VoxelBounds {
    match b {
        None => VoxelBounds {
            min_x: x,
            min_y: low,
            min_z: z,
            max_x: x,
            max_y: high,
            max_z: z,
        },
        Some(b) => VoxelBounds {
            min_x: if b.min_x < x { b.min_x } else { x },
            min_y: if b.min_y < low { b.min_y } else { low },
            min_z: if b.min_z < z { b.min_z } else { z },
            max_x: if b.max_x > x { b.max_x } else { x },
            max_y: if b.max_y > high { b.max_y } else { high },
            max_z: if b.max_z > z { b.max_z } else { z },
        },
    }
}

proof fn lemma_widened(
    words: Seq<u32>,
    b: Option<VoxelBounds>,
    x: u32,
    z: u32,
    low: u32,
    high: u32,
)
    requires
        x < CS_P && z < CS_P && low < CS_P && high < CS_P,
        are_bounds(words, occupancy::column_index(x as int, z as int), b),
        occupancy::occupied(words, x as int, low as int, z as int),
        occupancy::occupied(words, x as int, high as int, z as int),
        forall|y: int|
            0 <= y < CS_P && #[trigger] occupancy::occupied(words, x as int, y, z as int) ==> low
                <= y <= high,
    ensures
        are_bounds(
            words,
            occupancy::column_index(x as int, z as int) + 1,
            Some(widened(b, x, z, low, high)),
        ),
{
    let n = occupancy::column_index(x as int, z as int);
    let r = widened(b, x, z, low, high);
    assert(in_columns(words, n + 1, x as int, low as int, z as int));
    assert(in_columns(words, n + 1, x as int, high as int, z as int));
    assert forall|a: int, c: int, d: int| #[trigger]
        in_columns(words, n + 1, a, c, d) implies within(r, a, c, d) by {
        if occupancy::column_index(a, d) == n {
            assert(a == x && d == z);
        } else {
            assert(in_columns(words, n, a, c, d));
        }
    }
    if let Some(o) = b {
        let (y1, z1) = choose|y: int, z: int| #[trigger]
            in_columns(words, n, o.min_x as int, y, z);
        assert(in_columns(words, n + 1, o.min_x as int, y1, z1));
        let (y2, z2) = choose|y: int, z: int| #[trigger]
            in_columns(words, n, o.max_x as int, y, z);
        assert(in_columns(words, n + 1, o.max_x as int, y2, z2));
        let (x3, z3) = choose|x: int, z: int| #[trigger]
            in_columns(words, n, x, o.min_y as int, z);
        assert(in_columns(words, n + 1, x3, o.min_y as int, z3));
        let (x4, z4) = choose|x: int, z: int| #[trigger]
            in_columns(words, n, x, o.max_y as int, z);
        assert(in_columns(words, n + 1, x4, o.max_y as int, z4));
        let (x5, y5) = choose|x: int, y: int| #[trigger]
            in_columns(words, n, x, y, o.min_z as int);
        assert(in_columns(words, n + 1, x5, y5, o.min_z as int));
        let (x6, y6) = choose|x: int, y: int| #[trigger]
            in_columns(words, n, x, y, o.max_z as int);
        assert(in_columns(words, n + 1, x6, y6, o.max_z as int));
    }    assert(exists|y: int, z: int| #[trigger] in_columns(words, n + 1, r.min_x as int, y, z));
    assert(exists|y: int, z: int| #[trigger] in_columns(words, n + 1, r.max_x as int, y, z));
    assert(exists|x: int, z: int| #[trigger] in_columns(words, n + 1, x, r.min_y as int, z));
    assert(exists|x: int, z: int| #[trigger] in_columns(words, n + 1, x, r.max_y as int, z));
    assert(exists|x: int, y: int| #[trigger] in_columns(words, n + 1, x, y, r.min_z as int));
    assert(exists|x: int, y: int| #[trigger] in_columns(words, n + 1, x, y, r.max_z as int));
    assert(are_tight(words, n + 1, r));
}

/// An empty column leaves the bounds alone.
proof fn lemma_unchanged(words: Seq<u32>, b: Option<VoxelBounds>, x: int, z: int)
    requires
        0 <= x < CS_P && 0 <= z < CS_P,
        are_bounds(words, occupancy::column_index(x, z), b),
        forall|y: int| 0 <= y < CS_P ==> !#[trigger] occupancy::occupied(words, x, y, z),
    ensures
        are_bounds(words, occupancy::column_index(x, z) + 1, b),
{
    let n = occupancy::column_index(x, z);
    assert forall|a: int, c: int, d: int| #[trigger]
        in_columns(words, n + 1, a, c, d) == in_columns(words, n, a, c, d) by {
        if occupancy::column_index(a, d) == n && 0 <= d < CS_P && 0 <= a < CS_P {
            assert(a == x && d == z);
        }
    }
    if let Some(o) = b {
        let (y1, z1) = choose|y: int, z: int| #[trigger]
            in_columns(words, n, o.min_x as int, y, z);
        assert(in_columns(words, n + 1, o.min_x as int, y1, z1));
        let (y2, z2) = choose|y: int, z: int| #[trigger]
            in_columns(words, n, o.max_x as int, y, z);
        assert(in_columns(words, n + 1, o.max_x as int, y2, z2));
        let (x3, z3) = choose|x: int, z: int| #[trigger]
            in_columns(words, n, x, o.min_y as int, z);
        assert(in_columns(words, n + 1, x3, o.min_y as int, z3));
        let (x4, z4) = choose|x: int, z: int| #[trigger]
            in_columns(words, n, x, o.max_y as int, z);
        assert(in_columns(words, n + 1, x4, o.max_y as int, z4));
        let (x5, y5) = choose|x: int, y: int| #[trigger]
            in_columns(words, n, x, y, o.min_z as int);
        assert(in_columns(words, n + 1, x5, y5, o.min_z as int));
        let (x6, y6) = choose|x: int, y: int| #[trigger]
            in_columns(words, n, x, y, o.max_z as int);
        assert(in_columns(words, n + 1, x6, y6, o.max_z as int));
    }
}

/// Bounds of the occupied voxels.
fn find_bounds(occupancy: &[u32]) -> (b: Option<VoxelBounds>)
    requires
        occupancy@.len() == OCCUPANCY_WORDS_PER_SLOT,
    ensures
        are_bounds(occupancy@, COLUMNS_PER_CHUNK as int, b),
{
    let mut b: Option<VoxelBounds> = None;
    let mut n: u32 = 0;
    while n < COLUMNS_PER_CHUNK
        invariant
            occupancy@.len() == OCCUPANCY_WORDS_PER_SLOT,
            n <= COLUMNS_PER_CHUNK,
            are_bounds(occupancy@, n as int, b),
        decreases COLUMNS_PER_CHUNK - n,
    {
        let x: u32 = n / CS_P;
        let z: u32 = n % CS_P;
        let column: u64 = occupancy::read_column(occupancy, x, z);
        if column != 0 {
            let low: u32 = lowest_bit(column);
            let high: u32 = highest_bit(column);
            proof {
                assert forall|y: int|
                    0 <= y < CS_P && #[trigger] occupancy::occupied(
                        occupancy@,
                        x as int,
                        y,
                        z as int,
                    ) implies low <= y <= high by {
                    assert(bits::bit64(column, y));
                }
                lemma_widened(occupancy@, b, x, z, low, high);
            }
            b = Some(widen(b, x, z, low, high));
        } else {
            proof {
                bits::lemma_zero64();
                assert forall|y: int| 0 <= y < CS_P implies !#[trigger] occupancy::occupied(
                    occupancy@,
                    x as int,
                    y,
                    z as int,
                ) by {
                    assert(!bits::bit64(column, y));
                }
                lemma_unchanged(occupancy@, b, x as int, z as int);
            }
        }
        n = n + 1;
    }
    b
}

/// Compute derived summary data for one chunk.
///
/// `palette` holds 16-bit material ids, two per word; `material_table` is
/// indexed by material id.
pub fn compute_summary(
    occupancy: &[u32],
    palette: &[u32],
    material_table: &[MaterialEntry],
) -> (r: SummaryResult)
    requires
        occupancy@.len() == OCCUPANCY_WORDS_PER_SLOT,
    ensures
        is_summary(occupancy@, r.summary@),
        r.flags == flags_of(occupancy@, palette@, material_table@),
        are_bounds(occupancy@, COLUMNS_PER_CHUNK as int, r.bounds),
{
    let summary: [u32; 16] = summarize(occupancy);
    let bounds: Option<VoxelBounds> = find_bounds(occupancy);
    let mut flags: u32 = FLAG_IS_RESIDENT;
    match bounds {
        None => {
            flags = flags + FLAG_IS_EMPTY;
            proof {
                let words = occupancy@;
                assert forall|x: int, y: int, z: int|
                    occupancy::in_chunk(x, y, z) implies !#[trigger] occupancy::occupied(
                    words,
                    x,
                    y,
                    z,
                ) by {
                    assert(!in_columns(words, COLUMNS_PER_CHUNK as int, x, y, z));
                }
                assert(!occupancy::occupied(words, 0, 0, 0));
            }
        },
        Some(b) => {
            proof {
                let words = occupancy@;
                let (y, z) = choose|y: int, z: int| #[trigger]
                    in_columns(words, COLUMNS_PER_CHUNK as int, b.min_x as int, y, z);
                assert(occupancy::occupied(words, b.min_x as int, y, z));
            }
            if all_ones(occupancy) {
                flags = flags + FLAG_IS_FULLY_OPAQUE;
            }
        },
    }
    if has_emissive(palette, material_table) {
        flags = flags + FLAG_HAS_EMISSIVE;
    }
    SummaryResult { summary, flags, bounds }
}

/// A chunk is flagged empty exactly when it has no bounds and no bricklet is
/// marked.
pub proof fn empty_flag_agrees(words: Seq<u32>, summary: Seq<u32>, bounds: Option<VoxelBounds>)
    requires
        is_summary(words, summary),
        are_bounds(words, COLUMNS_PER_CHUNK as int, bounds),
    ensures
        bounds is None <==> !any_voxel(words),
        bounds is None <==> forall|bx: int, by: int, bz: int|
            0 <= bx < 8 && 0 <= by < 8 && 0 <= bz < 8 ==> !#[trigger] summary_bit(
                summary,
                bricklet_index(bx, by, bz),
            ),
{
    if let Some(b) = bounds {
        let (y, z) = choose|y: int, z: int| #[trigger]
            in_columns(words, COLUMNS_PER_CHUNK as int, b.min_x as int, y, z);
        let x = b.min_x as int;
        assert(occupancy::occupied(words, x, y, z));
        assert(bricklet_occupied(words, x / 8, y / 8, z / 8));
        assert(summary_bit(summary, bricklet_index(x / 8, y / 8, z / 8)));
    } else {
        assert forall|x: int, y: int, z: int|
            occupancy::in_chunk(x, y, z) implies !#[trigger] occupancy::occupied(
            words,
            x,
            y,
            z,
        ) by {
            assert(!in_columns(words, COLUMNS_PER_CHUNK as int, x, y, z));
        }
    }
}

/// Bounds of a chunk's voxels in the world, in voxels: `offset + min` is the
/// smallest corner, `offset + max` the largest one.
#[derive(Debug, Clone, Copy)]
pub struct WorldBounds {
    /// World coordinate of the chunk's first padding voxel, per axis.
    pub offset: [i64; 3],
    /// Smallest coordinates of the occupied voxels.
    pub min: [u32; 3],
    /// One more than their largest coordinates.
    pub max: [u32; 3],
}

/// World coordinate of a chunk's first padding voxel along one axis, in single
/// precision: every step rounds.
pub open spec fn offset_of(c: int) -> int {
    ieee::round_single(ieee::round_single(ieee::round_single(c) * CS) - 1)
}

/// Whether a chunk is near enough to the origin that no step rounds.
pub open spec fn is_near(c: int) -> bool {
    -200_000 <= c <= 200_000
}

/// `w` are the bounds of a chunk in the world.
pub open spec fn are_world_bounds(w: WorldBounds, b: VoxelBounds, coord: Seq<i32>) -> bool {
    &&& forall|i: int| 0 <= i < 3 ==> (#[trigger] w.offset[i]) == offset_of(coord[i] as int)
    &&& w.min@ == seq![b.min_x, b.min_y, b.min_z]
    &&& w.max@ == seq![(b.max_x + 1) as u32, (b.max_y + 1) as u32, (b.max_z + 1) as u32]
}

/// Near the origin the padding starts one voxel before the chunk's first usable
/// one.
pub proof fn nearby_offsets_are_exact(c: int)
    requires
        is_near(c),
    ensures
        offset_of(c) == c * CS - 1,
{
    ieee::small_integers_are_exact(c);
    ieee::small_integers_are_exact(c * CS);
    ieee::small_integers_are_exact(c * CS - 1);
}

/// World coordinate of a chunk's first padding voxel along one axis.
fn world_offset(c: i32) -> (o: i64)
    ensures
        o == offset_of(c as int),
{
    let chunk: i64 = ieee::round_to_single(c as i64);
    assert(-0x1_0000_0000 <= chunk <= 0x1_0000_0000);
    let stride: i64 = CS as i64;
    assert(-0x40_0000_0000 < chunk * stride < 0x40_0000_0000) by (nonlinear_arith)
        requires
            -0x1_0000_0000 <= chunk <= 0x1_0000_0000,
            stride == 62,
    ;
    let first: i64 = ieee::round_to_single(chunk * stride);
    ieee::round_to_single(first - 1)
}

/// Place the bounds of a chunk's voxels in the world.
pub fn world_bounds(b: &VoxelBounds, chunk_coord: [i32; 3]) -> (w: WorldBounds)
    requires
        b.max_x < u32::MAX && b.max_y < u32::MAX && b.max_z < u32::MAX,
    ensures
        are_world_bounds(w, *b, chunk_coord@),
        forall|i: int|
            0 <= i < 3 && is_near(chunk_coord[i] as int) ==> (#[trigger] w.offset[i])
                == chunk_coord[i] * CS - 1,
{
    let w = WorldBounds {
        offset: [
            world_offset(chunk_coord[0]),
            world_offset(chunk_coord[1]),
            world_offset(chunk_coord[2]),
        ],
        min: [b.min_x, b.min_y, b.min_z],
        max: [b.max_x + 1, b.max_y + 1, b.max_z + 1],
    };
    proof {
        assert(w.min@ =~= seq![b.min_x, b.min_y, b.min_z]);
        assert(w.max@ =~= seq![
            (b.max_x + 1) as u32,
            (b.max_y + 1) as u32,
            (b.max_z + 1) as u32,
        ]);
        assert forall|i: int|
            0 <= i < 3 && is_near(chunk_coord[i] as int) implies (#[trigger] w.offset[i])
            == chunk_coord[i] * CS - 1 by {
            nearby_offsets_are_exact(chunk_coord[i] as int);
        }
    }
    w
}

/// The world bounds of a chunk near the origin hold each of its voxels: a voxel
/// with padded coordinate `x` of chunk `c` fills the world from `62 * c + x - 1`
/// to one more.
pub proof fn world_bounds_hold_voxels(
    words: Seq<u32>,
    b: VoxelBounds,
    coord: Seq<i32>,
    w: WorldBounds,
    x: int,
    y: int,
    z: int,
)
    requires
        are_bounds(words, COLUMNS_PER_CHUNK as int, Some(b)),
        are_world_bounds(w, b, coord),
        is_near(coord[0] as int) && is_near(coord[1] as int) && is_near(coord[2] as int),
        occupancy::in_chunk(x, y, z),
        occupancy::occupied(words, x, y, z),
    ensures
        w.offset[0] + w.min[0] <= coord[0] * CS + x - 1 < w.offset[0] + w.max[0],
        w.offset[1] + w.min[1] <= coord[1] * CS + y - 1 < w.offset[1] + w.max[1],
        w.offset[2] + w.min[2] <= coord[2] * CS + z - 1 < w.offset[2] + w.max[2],
{
    nearby_offsets_are_exact(coord[0] as int);
    nearby_offsets_are_exact(coord[1] as int);
    nearby_offsets_are_exact(coord[2] as int);
    let n = COLUMNS_PER_CHUNK as int;
    assert(in_columns(words, n, x, y, z));
    let (y1, z1) = choose|y1: int, z1: int| #[trigger]
        in_columns(words, n, b.max_x as int, y1, z1);
    let (x2, z2) = choose|x2: int, z2: int| #[trigger]
        in_columns(words, n, x2, b.max_y as int, z2);
    let (x3, y3) = choose|x3: int, y3: int| #[trigger]
        in_columns(words, n, x3, y3, b.max_z as int);
    assert(w.min@[0] == w.min[0] && w.min@[1] == w.min[1] && w.min@[2] == w.min[2]);
    assert(w.max@[0] == w.max[0] && w.max@[1] == w.max[1] && w.max@[2] == w.max[2]);
    assert(w.offset[0] == offset_of(coord[0] as int) && w.offset[1] == offset_of(coord[1] as int)
        && w.offset[2] == offset_of(coord[2] as int));
}

/// A voxel marks the bricklet of eight voxels a side that it lies in.
pub proof fn voxels_mark_their_bricklet(words: Seq<u32>, summary: Seq<u32>, x: int, y: int, z: int)
    requires
        is_summary(words, summary),
        occupancy::in_chunk(x, y, z),
        occupancy::occupied(words, x, y, z),
    ensures
        ({
            let i = 64 * (x / 8) + 8 * (y / 8) + z / 8;
            0 <= i < 512 && bits::bit32(summary[i / 32], i % 32)
        }),
{
    assert(bricklet_occupied(words, x / 8, y / 8, z / 8));
    assert(summary_bit(summary, bricklet_index(x / 8, y / 8, z / 8)));
}

/// A marked bricklet holds a voxel.
pub proof fn marked_bricklets_hold_a_voxel(words: Seq<u32>, summary: Seq<u32>, i: int) -> (v: (
    int,
    int,
    int,
))
    requires
        is_summary(words, summary),
        0 <= i < 512,
        bits::bit32(summary[i / 32], i % 32),
    ensures
        occupancy::occupied(words, v.0, v.1, v.2),
        v.0 / 8 == i / 64 && v.1 / 8 == i / 8 % 8 && v.2 / 8 == i % 8,
{
    let bx = i / 64;
    let by = i / 8 % 8;
    let bz = i % 8;
    assert(bricklet_index(bx, by, bz) == i);
    assert(summary_bit(summary, bricklet_index(bx, by, bz)));
    choose|x: int, y: int, z: int|
        bx * 8 <= x < bx * 8 + 8 && by * 8 <= y < by * 8 + 8 && bz * 8 <= z < bz * 8 + 8
            && #[trigger] occupancy::occupied(words, x, y, z)
}

/// Each flag is a bit of its own: bit 0 for a chunk without voxels, bit 1 for one that
/// is full, bit 2 for light, and bit 3 always.
pub proof fn flags_are_bits(words: Seq<u32>, palette: Seq<u32>, table: Seq<MaterialEntry>)
    ensures
        ({
            let f = flags_of(words, palette, table);
            &&& f % 2 == 1 <==> forall|x: int, y: int, z: int|
                occupancy::in_chunk(x, y, z) ==> !#[trigger] occupancy::occupied(words, x, y, z)
            &&& f / 2 % 2 == 1 <==> forall|x: int, y: int, z: int|
                occupancy::in_chunk(x, y, z) ==> #[trigger] occupancy::occupied(words, x, y, z)
            &&& f / 4 % 2 == 1 <==> palette_emits(palette, table)
            &&& f / 8 == 1
        }),
{
}

/// A material emits light if any of its three parts does not vanish in half precision.
pub proof fn any_part_emits(
    albedo: Seq<u32>,
    roughness: u32,
    emissive: Seq<u32>,
    opacity: u32,
)
    requires
        albedo.len() == 3 && emissive.len() == 3,
    ensures
        emits(materials::material_entry(albedo, roughness, emissive, opacity)) <==> half::half_of(
            emissive[0],
        ) != 0 || half::half_of(emissive[1]) != 0 || half::half_of(emissive[2]) != 0,
{
    materials::entries_hold_their_parts(albedo, roughness, emissive, opacity);
    half::half_at_the_ends(emissive[0]);
    half::half_at_the_ends(emissive[1]);
}

/// A packed palette emits light exactly if one of its materials does: the empty one
/// never does, nor one without an entry in the table.
pub proof fn palettes_emit_with_their_materials(p: Seq<u16>, table: Seq<MaterialEntry>)
    ensures
        palette_emits(scene::palette_words(p), table) <==> exists|i: int|
            0 <= i < p.len() && (#[trigger] p[i]) != 0 && p[i] < table.len() && emits(
                table[p[i] as int],
            ),
{
    let w = scene::palette_words(p);
    if palette_emits(w, table) {
        let i = choose|i: int| 0 <= i < 2 * w.len() && #[trigger] entry_emits(w, table, i);
        if i < p.len() {
            scene::palette_roundtrip(p, i);
            assert(p[i] != 0);
        } else {
            let k = i / 2;
            let lo: u32 = p[2 * k] as u32;
            bits::lemma_halves(lo, 0);
            assert(w[k] == lo | (0u32 << 16));
        }
    }
    if exists|i: int|
        0 <= i < p.len() && (#[trigger] p[i]) != 0 && p[i] < table.len() && emits(
            table[p[i] as int],
        ) {
        let i = choose|i: int|
            0 <= i < p.len() && (#[trigger] p[i]) != 0 && p[i] < table.len() && emits(
                table[p[i] as int],
            );
        scene::palette_roundtrip(p, i);
        assert(entry_emits(w, table, i));
    }
}

/// However far away a chunk is, its vertices and its bounds are placed from one origin
/// that single precision represents, 62 voxels a chunk up to rounding, and each place
/// is rounded once from there.
pub proof fn chunks_are_placed_from_one_origin(c: i32) -> (o: int)
    ensures
        ieee::representable((if o >= 0 {
            o
        } else {
            -o
        }) as nat),
        ieee::round_single(o) == ieee::round_single(ieee::round_single(c as int) * 62),
        offset_of(c as int) == ieee::round_single(o - 1),
        forall|u: int| 0 <= u < 62 ==> (#[trigger] mesh_cpu::base_position(c as int, u))
            == ieee::round_single(o + u + 1),
{
    let v = ieee::round_single(c as int) * CS;
    let o = ieee::round_single(v);
    let m: nat = (if v >= 0 {
        v
    } else {
        -v
    }) as nat;
    ieee::rounding_is_representable(m);
    lemma_rounding_settles(m);
    assert(o == (if v >= 0 {
        ieee::round_magnitude(m) as int
    } else {
        -(ieee::round_magnitude(m) as int)
    }));
    ieee::rounding_is_symmetric(o);
    assert forall|u: int| 0 <= u < 62 implies (#[trigger] mesh_cpu::base_position(c as int, u))
        == ieee::round_single(o + u + 1) by {
        ieee::small_integers_are_exact(u + 1);
    }
    o
}

/// What is rounded stays.
proof fn lemma_rounding_settles(m: nat)
    ensures
        ieee::round_magnitude(ieee::round_magnitude(m)) == ieee::round_magnitude(m),
{
    let n = ieee::round_magnitude(m);
    ieee::rounding_is_representable(m);
    ieee::rounding_is_nearest(n);
    let u = ieee::spacing(n);
    assert(n % u == 0);
    vstd::arithmetic::div_mod::lemma_fundamental_div_mod(n as int, u as int);
    assert(u * (n / u) == (n / u) * u) by (nonlinear_arith);
}

} // verus!
