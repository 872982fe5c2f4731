//! Voxel hits of a mesh gathered into chunks.

use std::collections::HashMap;

use vstd::prelude::*;

use crate::coord;
use crate::coord::ChunkCoord;
use crate::materials;
use crate::materials::MaterialEntry;
use crate::mesh_cpu;
use crate::occupancy;
use crate::pool::{CS, CS_P, CS_P2, CS_P3, MATERIAL_DEFAULT, MATERIAL_EMPTY, MAX_MATERIALS};
use crate::scene;
use crate::scene::{ChunkData, IndexBufBuilder, OccupancyBuilder, PaletteBuilder};

verus! {

broadcast use vstd::std_specs::hash::group_hash_axioms;

/// A grid voxel that a triangle of a material group touches.
#[derive(Debug, Clone, Copy, PartialEq, Eq, Structural)]
pub struct VoxelHit {
    pub x: i32,
    pub y: i32,
    pub z: i32,
    pub group: u16,
}

/// Result of voxelization: chunk data ready for upload, and material table.
pub struct VoxelizeResult {
    pub chunks: Vec<ChunkData>,
    pub materials: Vec<MaterialEntry>,
}

/// The chunk of a hit.
pub open spec fn hit_chunk(h: VoxelHit) -> ChunkCoord {
    ChunkCoord {
        x: (h.x as int / CS as int) as i32,
        y: (h.y as int / CS as int) as i32,
        z: (h.z as int / CS as int) as i32,
    }
}

/// The padded place of a hit in its chunk.
pub open spec fn hit_place(h: VoxelHit) -> (int, int, int) {
    (
        h.x as int % CS as int + 1,
        h.y as int % CS as int + 1,
        h.z as int % CS as int + 1,
    )
}

/// The material id of a group: ids 0 and 1 are reserved.
pub open spec fn group_material(group: u16) -> u16 {
    (group + 2) as u16
}

/// The material of a voxel after the first `n` hits: that of the first hit on
/// it.
pub open spec fn first_material(
    hits: Seq<VoxelHit>,
    n: int,
    c: ChunkCoord,
    x: int,
    y: int,
    z: int,
) -> Option<u16>
    decreases n,
{
    if n <= 0 {
        None
    } else {
        match first_material(hits, n - 1, c, x, y, z) {
            Some(m) => Some(m),
            None => if hit_chunk(hits[n - 1]) == c && hit_place(hits[n - 1]) == (x, y, z) {
                Some(group_material(hits[n - 1].group))
            } else {
                None
            },
        }
    }
}

/// The palette of the materials of the voxels with keys below `n`, added in
/// key order.
pub open spec fn palette_upto(mats: Map<u32, u16>, n: int) -> Seq<u16>
    decreases n,
{
    if n <= 0 {
        seq![MATERIAL_EMPTY]
    } else if mats.contains_key((n - 1) as u32) {
        scene::palette_after_add(palette_upto(mats, n - 1), mats[(n - 1) as u32])
    } else {
        palette_upto(mats, n - 1)
    }
}

/// The index of a material in a palette, 0 where it is missing.
pub open spec fn is_index_of(p: Seq<u16>, m: u16, i: u8) -> bool {
    if p.contains(m) {
        i < p.len() && p[i as int] == m
    } else {
        i == 0
    }
}

/// Per-chunk accumulator during voxelization.
pub struct ChunkAccum {
    pub occupancy: OccupancyBuilder,
    /// Material id per voxel, by voxel number.
    pub voxel_materials: HashMap<u32, u16>,
}

/// Voxel number as a map key.
pub open spec fn key_of(x: int, y: int, z: int) -> u32 {
    mesh_cpu::voxel_index(x, y, z) as u32
}

/// The chunk data of an accumulated chunk.
pub open spec fn is_chunk_data(c: ChunkData, occ: Seq<u32>, mats: Map<u32, u16>) -> bool {
    &&& c.wf()
    &&& c.occupancy@ == occ
    &&& c.palette@ == palette_upto(mats, CS_P3 as int)
    &&& forall|x: int, y: int, z: int|
        occupancy::in_chunk(x, y, z) ==> if mats.contains_key(key_of(x, y, z)) {
            is_index_of(c.palette@, mats[key_of(x, y, z)], #[trigger] c.index_buf.at(x, y, z))
        } else {
            c.index_buf.at(x, y, z) == 0
        }
}

proof fn lemma_palette_grows(mats: Map<u32, u16>, m: int, n: int)
    requires
        0 <= m <= n,
    ensures
        palette_upto(mats, m).len() <= palette_upto(mats, n).len(),
        forall|i: int|
            0 <= i < palette_upto(mats, m).len() ==> #[trigger] palette_upto(mats, n)[i]
                == palette_upto(mats, m)[i],
        palette_upto(mats, m).len() >= 16 ==> palette_upto(mats, n) == palette_upto(mats, m),
    decreases n - m,
{
    if m < n {
        lemma_palette_grows(mats, m, n - 1);
    }
}

impl ChunkAccum {
    pub open spec fn mats(&self) -> Map<u32, u16> {
        self.voxel_materials@
    }

    pub open spec fn wf(&self) -> bool {
        self.occupancy.wf()
    }

    /// An accumulator without voxels.
    pub fn new() -> (a: Self)
        ensures
            a.wf(),
            a.mats() == Map::<u32, u16>::empty(),
            forall|x: int, y: int, z: int|
                occupancy::in_chunk(x, y, z) ==> !#[trigger] a.occupancy.has(x, y, z),
    {
        ChunkAccum { occupancy: OccupancyBuilder::new(), voxel_materials: HashMap::new() }
    }

    /// Give a voxel a material, unless it has one.
    pub fn set_material(&mut self, lx: u32, ly: u32, lz: u32, mat_id: u16)
        requires
            occupancy::in_chunk(lx as int, ly as int, lz as int),
        ensures
            final(self).occupancy == old(self).occupancy,
            final(self).mats() == (if old(self).mats().contains_key(
                key_of(lx as int, ly as int, lz as int),
            ) {
                old(self).mats()
            } else {
                old(self).mats().insert(key_of(lx as int, ly as int, lz as int), mat_id)
            }),
    {
        let key: u32 = lx * CS_P * CS_P + ly * CS_P + lz;
        if !self.voxel_materials.contains_key(&key) {
            self.voxel_materials.insert(key, mat_id);
        }
    }

    /// Convert to chunk data: palette and per-voxel indices, in voxel order.
    pub fn into_chunk_data(self, coord: ChunkCoord) -> (c: ChunkData)
        requires
            self.wf(),
        ensures
            c.coord == coord,
            is_chunk_data(c, self.occupancy@, self.mats()),
    {
        let ghost mats = self.voxel_materials@;
        let mut palette: PaletteBuilder = PaletteBuilder::new();
        let mut index_buf: IndexBufBuilder = IndexBufBuilder::new();
        let mut key: u32 = 0;
        while key < CS_P3
            invariant
                key <= CS_P3,
                mats == self.voxel_materials@,
                palette.wf(),
                index_buf.wf(),
                palette@ == palette_upto(mats, key as int),
                forall|x: int, y: int, z: int|
                    occupancy::in_chunk(x, y, z) ==> if mats.contains_key(key_of(x, y, z))
                        && key_of(x, y, z) < key {
                        is_index_of(
                            palette@,
                            mats[key_of(x, y, z)],
                            #[trigger] index_buf.at(x, y, z),
                        )
                    } else {
                        index_buf.at(x, y, z) == 0
                    },
            decreases CS_P3 - key,
        {
            let ghost p0 = palette@;
            let ghost ib0 = index_buf;
            match self.voxel_materials.get(&key) {
                Some(m) => {
                    let mat_id: u16 = *m;
                    let i: u8 = palette.add(mat_id);
                    let lx: u32 = key / CS_P2;
                    let ly: u32 = key / CS_P % CS_P;
                    let lz: u32 = key % CS_P;
                    index_buf.set(lx, ly, lz, i);
                    proof {
                        lemma_palette_grows(mats, key as int, key + 1);
                        assert(palette@ == palette_upto(mats, key + 1));
                        assert forall|x: int, y: int, z: int| occupancy::in_chunk(x, y, z) implies (
                        if mats.contains_key(key_of(x, y, z)) && key_of(x, y, z) < key + 1 {
                            is_index_of(
                                palette@,
                                mats[key_of(x, y, z)],
                                #[trigger] index_buf.at(x, y, z),
                            )
                        } else {
                            index_buf.at(x, y, z) == 0
                        }) by {
                            let k = key_of(x, y, z);
                            if k == key {
                                assert(x == lx && y == ly && z == lz);
                            } else {
                                assert(index_buf.at(x, y, z) == ib0.at(x, y, z));
                                if mats.contains_key(k) && k < key {
                                    lemma_added(mats, k as int, key as int);
                                    lemma_index_kept(p0, mat_id, mats[k], ib0.at(x, y, z));
                                }
                            }
                        }
                    }
                },
                None => {
                    proof {
                        assert forall|x: int, y: int, z: int| occupancy::in_chunk(x, y, z) implies (
                        if mats.contains_key(key_of(x, y, z)) && key_of(x, y, z) < key + 1 {
                            is_index_of(
                                palette@,
                                mats[key_of(x, y, z)],
                                #[trigger] index_buf.at(x, y, z),
                            )
                        } else {
                            index_buf.at(x, y, z) == 0
                        }) by {
                            if mats.contains_key(key_of(x, y, z)) {
                                assert(key_of(x, y, z) != key);
                            }
                        }
                    }
                },
            }
            key = key + 1;
        }
        ChunkData { coord, occupancy: self.occupancy, palette, index_buf }
    }
}

/// A material whose voxel was taken up is in the palette, or the palette is
/// full.
proof fn lemma_added(mats: Map<u32, u16>, k: int, n: int)
    requires
        0 <= k < n,
        mats.contains_key(k as u32),
        0 <= k <= u32::MAX,
    ensures
        palette_upto(mats, n).contains(mats[k as u32]) || palette_upto(mats, n).len() >= 16,
{
    let p = palette_upto(mats, k);
    let q = palette_upto(mats, k + 1);
    let m = mats[k as u32];
    lemma_palette_grows(mats, k + 1, n);
    if q.contains(m) {
        let i = choose|i: int| 0 <= i < q.len() && q[i] == m;
        assert(palette_upto(mats, n)[i] == m);
    } else {
        if p.len() < 16 && !p.contains(m) {
            assert(q[p.len() as int] == m);
        }
    }
}

/// Adding a material keeps the index of another one.
proof fn lemma_index_kept(p: Seq<u16>, added: u16, m: u16, i: u8)
    requires
        is_index_of(p, m, i),
        p.contains(m) || p.len() >= 16,
    ensures
        is_index_of(scene::palette_after_add(p, added), m, i),
{
    let q = scene::palette_after_add(p, added);
    if p.contains(m) {
        assert(q[i as int] == m);
    }
}

/// Order of chunk coordinates: by x, then y, then z.
pub open spec fn coord_before(a: ChunkCoord, b: ChunkCoord) -> bool {
    a.x < b.x || (a.x == b.x && (a.y < b.y || (a.y == b.y && a.z < b.z)))
}

fn is_before(a: &ChunkCoord, b: &ChunkCoord) -> (r: bool)
    ensures
        r == coord_before(*a, *b),
{
    a.x < b.x || (a.x == b.x && (a.y < b.y || (a.y == b.y && a.z < b.z)))
}

/// The materials of a chunk's voxels after the first `n` hits, by voxel number.
pub open spec fn chunk_mats(hits: Seq<VoxelHit>, n: int, c: ChunkCoord) -> Map<u32, u16> {
    Map::new(
        |k: u32|
            k < CS_P3 && first_material(
                hits,
                n,
                c,
                k as int / 4096,
                k as int / 64 % 64,
                k as int % 64,
            ) is Some,
        |k: u32|
            first_material(hits, n, c, k as int / 4096, k as int / 64 % 64, k as int % 64)->0,
    )
}

/// A chunk under construction.
struct ChunkEntry {
    coord: ChunkCoord,
    accum: ChunkAccum,
}

/// The entry holds what the first `n` hits put into its chunk.
spec fn entry_ok(hits: Seq<VoxelHit>, n: int, e: ChunkEntry) -> bool {
    &&& e.accum.wf()
    &&& e.accum.mats() == chunk_mats(hits, n, e.coord)
    &&& forall|x: int, y: int, z: int|
        occupancy::in_chunk(x, y, z) ==> #[trigger] e.accum.occupancy.has(x, y, z) == chunk_mats(
            hits,
            n,
            e.coord,
        ).contains_key(key_of(x, y, z))
}

/// Whether one of the first `n` hits lies in a chunk.
pub open spec fn is_hit(hits: Seq<VoxelHit>, n: int, c: ChunkCoord) -> bool {
    exists|i: int| 0 <= i < n && hit_chunk(#[trigger] hits[i]) == c
}

/// The entries hold the first `n` hits: one entry per chunk that was hit, in
/// coordinate order.
spec fn gathers(hits: Seq<VoxelHit>, n: int, entries: Seq<ChunkEntry>) -> bool {
    &&& forall|i: int, j: int|
        0 <= i < j < entries.len() ==> coord_before(
            (#[trigger] entries[i]).coord,
            (#[trigger] entries[j]).coord,
        )
    &&& forall|j: int|
        0 <= j < entries.len() ==> entry_ok(hits, n, #[trigger] entries[j]) && is_hit(
            hits,
            n,
            entries[j].coord,
        )
    &&& forall|i: int|
        0 <= i < n ==> exists|j: int|
            0 <= j < entries.len() && (#[trigger] entries[j]).coord == hit_chunk(
                #[trigger] hits[i],
            )
}

/// A voxel number belongs to one place.
proof fn lemma_key_place(j: u32, x: int, y: int, z: int)
    requires
        j < CS_P3,
        occupancy::in_chunk(x, y, z),
    ensures
        (j as int / 4096 == x && j as int / 64 % 64 == y && j as int % 64 == z) <==> j == key_of(
            x,
            y,
            z,
        ),
{
    let i = j as int;
    assert(key_of(x, y, z) == x * 4096 + y * 64 + z);
    assert(i == 64 * (i / 64) + i % 64);
    assert(i / 64 == 64 * (i / 64 / 64) + i / 64 % 64);
    assert(i / 4096 == i / 64 / 64);
}

/// What one more hit does to the material of one voxel.
proof fn lemma_material_step(hits: Seq<VoxelHit>, n: int, c: ChunkCoord, j: u32)
    requires
        0 <= n < hits.len(),
        j < CS_P3,
    ensures
        ({
            let p = hit_place(hits[n]);
            let before = first_material(
                hits,
                n,
                c,
                j as int / 4096,
                j as int / 64 % 64,
                j as int % 64,
            );
            let after = first_material(
                hits,
                n + 1,
                c,
                j as int / 4096,
                j as int / 64 % 64,
                j as int % 64,
            );
            after == (if before is Some {
                before
            } else if hit_chunk(hits[n]) == c && j == key_of(p.0, p.1, p.2) {
                Some(group_material(hits[n].group))
            } else {
                None
            })
        }),
{
    let p = hit_place(hits[n]);
    lemma_key_place(j, p.0, p.1, p.2);
}

/// A hit changes one voxel of one chunk, if that voxel has no material yet.
proof fn lemma_mats_step(hits: Seq<VoxelHit>, n: int, c: ChunkCoord)
    requires
        0 <= n < hits.len(),
    ensures
        ({
            let h = hits[n];
            let p = hit_place(h);
            let before = chunk_mats(hits, n, c);
            let after = chunk_mats(hits, n + 1, c);
            let k = key_of(p.0, p.1, p.2);
            if hit_chunk(h) != c || before.contains_key(k) {
                after == before
            } else {
                after == before.insert(k, group_material(h.group))
            }
        }),
{
    let h = hits[n];
    let p = hit_place(h);
    let before = chunk_mats(hits, n, c);
    let after = chunk_mats(hits, n + 1, c);
    let k = key_of(p.0, p.1, p.2);
    assert(k < CS_P3);
    let want = if hit_chunk(h) != c || before.contains_key(k) {
        before
    } else {
        before.insert(k, group_material(h.group))
    };
    assert forall|j: u32|
        #![trigger after.contains_key(j)]
        after.contains_key(j) == want.contains_key(j) && (want.contains_key(j) ==> after[j]
            == want[j]) by {
        if j < CS_P3 {
            lemma_material_step(hits, n, c, j);
        }
    }
    assert(after =~= want);
}

/// A chunk that was not hit has no materials.
proof fn lemma_mats_empty(hits: Seq<VoxelHit>, n: int, c: ChunkCoord)
    requires
        0 <= n <= hits.len(),
        !is_hit(hits, n, c),
    ensures
        chunk_mats(hits, n, c) == Map::<u32, u16>::empty(),
    decreases n,
{
    if n > 0 {
        assert(hit_chunk(hits[n - 1]) != c);
        assert(!is_hit(hits, n - 1, c));
        lemma_mats_empty(hits, n - 1, c);
        lemma_mats_step(hits, n - 1, c);
    } else {
        assert(chunk_mats(hits, n, c) =~= Map::<u32, u16>::empty());
    }
}

/// Position of a chunk in the list, or where it belongs.
fn find_entry(entries: &Vec<ChunkEntry>, c: &ChunkCoord) -> (r: usize)
    requires
        forall|i: int, j: int|
            0 <= i < j < entries@.len() ==> coord_before(
                (#[trigger] entries@[i]).coord,
                (#[trigger] entries@[j]).coord,
            ),
    ensures
        r <= entries@.len(),
        forall|i: int| 0 <= i < r ==> coord_before((#[trigger] entries@[i]).coord, *c),
        forall|i: int| r <= i < entries@.len() ==> !coord_before((#[trigger] entries@[i]).coord, *c),
{
    let mut lo: usize = 0;
    let mut hi: usize = entries.len();
    while lo < hi
        invariant
            lo <= hi <= entries@.len(),
            forall|i: int, j: int|
                0 <= i < j < entries@.len() ==> coord_before(
                    (#[trigger] entries@[i]).coord,
                    (#[trigger] entries@[j]).coord,
                ),
            forall|i: int| 0 <= i < lo ==> coord_before((#[trigger] entries@[i]).coord, *c),
            forall|i: int|
                hi <= i < entries@.len() ==> !coord_before((#[trigger] entries@[i]).coord, *c),
        decreases hi - lo,
    {
        let mid: usize = lo + (hi - lo) / 2;
        if is_before(&entries[mid].coord, c) {
            lo = mid + 1;
        } else {
            hi = mid;
        }
    }
    lo
}

/// Take up one hit.
#[verifier::spinoff_prover]
#[verifier::rlimit(40)]
fn gather_hit(entries: &mut Vec<ChunkEntry>, hits: &[VoxelHit], n: usize)
    requires
        n < hits@.len(),
        hits@[n as int].group <= 65_533,
        gathers(hits@, n as int, old(entries)@),
    ensures
        gathers(hits@, n + 1, final(entries)@),
{
    let h: VoxelHit = hits[n];
    let c: ChunkCoord = ChunkCoord::from_voxel([h.x, h.y, h.z]);
    let l: [u32; 3] = ChunkCoord::voxel_to_local([h.x, h.y, h.z]);
    let i: usize = find_entry(entries, &c);
    let ghost before = entries@;
    if i >= entries.len() || entries[i].coord != c {
        let accum: ChunkAccum = ChunkAccum::new();
        let e: ChunkEntry = ChunkEntry { coord: c, accum };
        proof {
            assert(!is_hit(hits@, n as int, c)) by {
                if is_hit(hits@, n as int, c) {
                    let k = choose|k: int| 0 <= k < n && hit_chunk(#[trigger] hits@[k]) == c;
                    let j = choose|j: int|
                        0 <= j < before.len() && (#[trigger] before[j]).coord == hit_chunk(
                            hits@[k],
                        );
                    if j < i {
                        assert(coord_before(before[j].coord, c));
                    } else if j > i {
                        assert(coord_before(before[i as int].coord, before[j].coord));
                        assert(!coord_before(before[i as int].coord, c));
                    }
                }
            }
            lemma_mats_empty(hits@, n as int, c);
            assert(entry_ok(hits@, n as int, e));
        }
        entries.insert(i, e);
    }
    let ghost mid = entries@;
    proof {
        assert(mid[i as int].coord == c);
        assert(entry_ok(hits@, n as int, mid[i as int]));
        assert forall|a: int, b: int| 0 <= a < b < mid.len() implies coord_before(
            (#[trigger] mid[a]).coord,
            (#[trigger] mid[b]).coord,
        ) by {
            if mid.len() > before.len() {
                let a0 = if a < i { a } else { a - 1 };
                let b0 = if b < i { b } else { b - 1 };
                if a != i && b != i {
                    assert(mid[a] == before[a0] && mid[b] == before[b0]);
                } else if a == i {
                    assert(mid[b] == before[b0]);
                    assert(!coord_before(before[b0].coord, c));
                    assert(before[b0].coord != c) by {
                        if b0 > i {
                            assert(coord_before(before[i as int].coord, before[b0].coord));
                        }
                    }
                } else {
                    assert(mid[a] == before[a0]);
                }
            }
        }
    }
    entries[i].accum.occupancy.set(l[0] + 1, l[1] + 1, l[2] + 1);
    entries[i].accum.set_material(l[0] + 1, l[1] + 1, l[2] + 1, h.group + 2);
    proof {
        let after = entries@;
        assert forall|j: int| 0 <= j < after.len() implies entry_ok(
            hits@,
            n + 1,
            #[trigger] after[j],
        ) && is_hit(hits@, n + 1, after[j].coord) by {
            lemma_mats_step(hits@, n as int, after[j].coord);
            if j == i {
                assert(hit_chunk(hits@[n as int]) == c);
                let p = hit_place(h);
                assert(after[j].accum.mats() == chunk_mats(hits@, n + 1, c));
                assert forall|x: int, y: int, z: int|
                    occupancy::in_chunk(x, y, z) implies #[trigger] after[j].accum.occupancy.has(
                    x,
                    y,
                    z,
                ) == chunk_mats(hits@, n + 1, c).contains_key(key_of(x, y, z)) by {
                    assert(after[j].accum.occupancy.has(x, y, z) == (
                    mid[j].accum.occupancy.has(x, y, z) || (x == p.0 && y == p.1 && z == p.2)));
                }
            } else {
                assert(after[j] == mid[j]);
                assert(mid[j].coord != c) by {
                    if j < i {
                        assert(coord_before(mid[j].coord, mid[i as int].coord));
                    } else {
                        assert(coord_before(mid[i as int].coord, mid[j].coord));
                    }
                }
                assert(entry_ok(hits@, n as int, mid[j]) && is_hit(hits@, n as int, mid[j].coord))
                    by {
                    if mid.len() > before.len() {
                        let j0 = if j < i { j } else { j - 1 };
                        assert(mid[j] == before[j0]);
                    } else {
                        assert(mid[j] == before[j]);
                    }
                }
                let k = choose|k: int|
                    0 <= k < n && hit_chunk(#[trigger] hits@[k]) == mid[j].coord;
                assert(hit_chunk(hits@[k]) == after[j].coord);
            }
        }
        assert forall|k: int| 0 <= k < n + 1 implies exists|j: int|
            0 <= j < after.len() && (#[trigger] after[j]).coord == hit_chunk(
                #[trigger] hits@[k],
            ) by {
            if k == n {
                assert(after[i as int].coord == hit_chunk(hits@[k]));
            } else {
                let j0 = choose|j: int|
                    0 <= j < before.len() && (#[trigger] before[j]).coord == hit_chunk(hits@[k]);
                let j = if mid.len() > before.len() && j0 >= i { j0 + 1 } else { j0 };
                assert(mid[j] == before[j0]);
                assert(after[j].coord == mid[j].coord);
            }
        }
        assert forall|a: int, b: int| 0 <= a < b < after.len() implies coord_before(
            (#[trigger] after[a]).coord,
            (#[trigger] after[b]).coord,
        ) by {
            assert(after[a].coord == mid[a].coord && after[b].coord == mid[b].coord);
        }
    }
}

/// The chunks hold the hits: one chunk per coordinate that was hit, in
/// coordinate order, whose voxels are those hit, each with the material of its
/// first hit.
pub open spec fn voxelized(hits: Seq<VoxelHit>, chunks: Seq<ChunkData>) -> bool {
    &&& forall|i: int, j: int|
        0 <= i < j < chunks.len() ==> coord_before(
            (#[trigger] chunks[i]).coord,
            (#[trigger] chunks[j]).coord,
        )
    &&& forall|j: int| 0 <= j < chunks.len() ==> holds_hits(hits, #[trigger] chunks[j])
    &&& forall|i: int|
        0 <= i < hits.len() ==> exists|j: int|
            0 <= j < chunks.len() && (#[trigger] chunks[j]).coord == hit_chunk(#[trigger] hits[i])
}

/// A chunk holds the hits on it, at least one.
pub open spec fn holds_hits(hits: Seq<VoxelHit>, c: ChunkData) -> bool {
    let mats = chunk_mats(hits, hits.len() as int, c.coord);
    &&& is_hit(hits, hits.len() as int, c.coord)
    &&& is_chunk_data(c, c.occupancy@, mats)
    &&& forall|x: int, y: int, z: int|
        occupancy::in_chunk(x, y, z) ==> #[trigger] c.occupancy.has(x, y, z) == mats.contains_key(
            key_of(x, y, z),
        )
}

/// The material table of a mesh: entry i of the groups has id i + 2, id 1 is
/// the default material. Groups past the table's end have no entry.
pub open spec fn group_table(groups: Seq<MaterialEntry>) -> Seq<MaterialEntry> {
    Seq::new(
        MAX_MATERIALS as nat,
        |i: int|
            if i == MATERIAL_DEFAULT {
                materials::default_entry()
            } else if 2 <= i < groups.len() + 2 {
                groups[i - 2]
            } else {
                materials::black()
            },
    )
}

/// Build the material table from the entries of the material groups.
pub fn build_material_table(groups: &[MaterialEntry]) -> (t: Vec<MaterialEntry>)
    requires
        groups@.len() <= 65_534,
    ensures
        t@ == group_table(groups@),
{
    let mut t: Vec<MaterialEntry> = materials::empty_table(MAX_MATERIALS);
    let half: [u32; 3] = [materials::N_0_5, materials::N_0_5, materials::N_0_5];
    let dark: [u32; 3] = [0, 0, 0];
    t[MATERIAL_DEFAULT as usize] = MaterialEntry::new(
        half,
        materials::N_0_5,
        dark,
        materials::N_1,
    );
    proof {
        assert(half@ =~= seq![materials::N_0_5, materials::N_0_5, materials::N_0_5]);
        assert(dark@ =~= seq![0u32, 0u32, 0u32]);
    }
    let mut i: usize = 0;
    while i < groups.len()
        invariant
            i <= groups@.len() <= 65_534,
            t@.len() == MAX_MATERIALS,
            forall|k: int|
                0 <= k < MAX_MATERIALS ==> #[trigger] t@[k] == (if k == MATERIAL_DEFAULT {
                    materials::default_entry()
                } else if 2 <= k < i + 2 {
                    groups@[k - 2]
                } else {
                    materials::black()
                }),
        decreases groups@.len() - i,
    {
        let id: usize = i + 2;
        if id < t.len() {
            t[id] = groups[i];
        }
        i = i + 1;
    }
    assert(t@ =~= group_table(groups@));
    t
}

/// One step of a linear congruential generator.
pub open spec fn lcg(x: int) -> int {
    (x * 1_664_525 + 1_013_904_223) % 0x1_0000_0000
}

fn lcg_step(x: u32) -> (r: u32)
    ensures
        r == lcg(x as int),
{
    ((x as u64 * 1_664_525 + 1_013_904_223) % 0x1_0000_0000) as u32
}

/// The color bytes of a material group.
pub open spec fn color_bytes(id: int) -> Seq<int> {
    seq![lcg(id) % 256, lcg(lcg(id)) % 256, lcg(lcg(lcg(id))) % 256]
}

/// Deterministic color bytes of a material group.
pub fn hash_color(id: u32) -> (c: [u8; 3])
    ensures
        c[0] == lcg(id as int) % 256,
        c[1] == lcg(lcg(id as int)) % 256,
        c[2] == lcg(lcg(lcg(id as int))) % 256,
        seq![c[0] as int, c[1] as int, c[2] as int] == color_bytes(id as int),
{
    let r: u32 = lcg_step(id);
    let g: u32 = lcg_step(r);
    let b: u32 = lcg_step(g);
    [(r % 256) as u8, (g % 256) as u8, (b % 256) as u8]
}

/// Voxels along a mesh's longest side.
pub open spec fn voxels_along(resolution: u32) -> u32 {
    if resolution == 0 {
        1
    } else {
        resolution
    }
}

/// Voxels along a mesh's longest side: as many as asked for, and at least one.
pub fn grid_resolution(resolution: u32) -> (n: u32)
    ensures
        n == (if resolution == 0 {
            1
        } else {
            resolution
        }),
        n == voxels_along(resolution),
{
    if resolution == 0 {
        1
    } else {
        resolution
    }
}

/// Gather voxel hits into chunk data.
///
/// `groups` holds the material entry of each material group.
#[verifier::spinoff_prover]
#[verifier::rlimit(40)]
pub fn voxelize(hits: &[VoxelHit], groups: &[MaterialEntry]) -> (r: VoxelizeResult)
    requires
        forall|i: int| 0 <= i < hits@.len() ==> (#[trigger] hits@[i]).group <= 65_533,
        groups@.len() <= 65_534,
    ensures
        voxelized(hits@, r.chunks@),
        r.materials@ == group_table(groups@),
{
    let mut entries: Vec<ChunkEntry> = Vec::new();
    let mut n: usize = 0;
    while n < hits.len()
        invariant
            n <= hits@.len(),
            forall|i: int| 0 <= i < hits@.len() ==> (#[trigger] hits@[i]).group <= 65_533,
            gathers(hits@, n as int, entries@),
        decreases hits@.len() - n,
    {
        gather_hit(&mut entries, hits, n);
        n = n + 1;
    }
    let ghost all = entries@;
    let mut chunks: Vec<ChunkData> = Vec::new();
    while entries.len() > 0
        invariant
            gathers(hits@, hits@.len() as int, all),
            chunks@.len() + entries@.len() == all.len(),
            forall|j: int| 0 <= j < entries@.len() ==> entries@[j] == all[chunks@.len() + j],
            forall|j: int|
                0 <= j < chunks@.len() ==> holds_hits(hits@, #[trigger] chunks@[j])
                    && chunks@[j].coord == all[j].coord,
        decreases entries@.len(),
    {
        let e: ChunkEntry = entries.remove(0);
        assert(e == all[chunks@.len() as int]);
        assert(entry_ok(hits@, hits@.len() as int, e));
        let c: ChunkData = e.accum.into_chunk_data(e.coord);
        proof {
            assert forall|x: int, y: int, z: int|
                occupancy::in_chunk(x, y, z) implies #[trigger] c.occupancy.has(x, y, z)
                == chunk_mats(hits@, hits@.len() as int, c.coord).contains_key(
                key_of(x, y, z),
            ) by {
                assert(c.occupancy.has(x, y, z) == e.accum.occupancy.has(x, y, z));
            }
            assert(holds_hits(hits@, c));
        }
        chunks.push(c);
    }
    proof {
        assert forall|i: int| 0 <= i < hits@.len() implies exists|j: int|
            0 <= j < chunks@.len() && (#[trigger] chunks@[j]).coord == hit_chunk(
                #[trigger] hits@[i],
            ) by {
            let j = choose|j: int|
                0 <= j < all.len() && (#[trigger] all[j]).coord == hit_chunk(hits@[i]);
            assert(chunks@[j].coord == all[j].coord);
        }
        assert forall|i: int, j: int| 0 <= i < j < chunks@.len() implies coord_before(
            (#[trigger] chunks@[i]).coord,
            (#[trigger] chunks@[j]).coord,
        ) by {
            assert(coord_before(all[i].coord, all[j].coord));
        }
    }
    VoxelizeResult { chunks, materials: build_material_table(groups) }
}

proof fn lemma_first_material(
    hits: Seq<VoxelHit>,
    n: int,
    c: ChunkCoord,
    x: int,
    y: int,
    z: int,
)
    requires
        0 <= n <= hits.len(),
    ensures
        first_material(hits, n, c, x, y, z) is Some <==> exists|i: int|
            0 <= i < n && hit_chunk(#[trigger] hits[i]) == c && hit_place(hits[i]) == (x, y, z),
    decreases n,
{
    if n > 0 {
        lemma_first_material(hits, n - 1, c, x, y, z);
        if first_material(hits, n, c, x, y, z) is Some {
            if first_material(hits, n - 1, c, x, y, z) is Some {
                let i = choose|i: int|
                    0 <= i < n - 1 && hit_chunk(#[trigger] hits[i]) == c && hit_place(hits[i])
                        == (x, y, z);
                assert(hit_chunk(hits[i]) == c);
            } else {
                assert(hit_chunk(hits[n - 1]) == c);
            }
        }
    }
}

/// The grid voxel of a hit is the one at a place of a chunk's usable interior.
pub open spec fn falls_on(h: VoxelHit, c: ChunkCoord, x: int, y: int, z: int) -> bool {
    &&& 1 <= x <= CS && 1 <= y <= CS && 1 <= z <= CS
    &&& h.x == c.x * CS + x - 1
    &&& h.y == c.y * CS + y - 1
    &&& h.z == c.z * CS + z - 1
}

proof fn lemma_falls_on(h: VoxelHit, c: ChunkCoord, x: int, y: int, z: int)
    ensures
        falls_on(h, c, x, y, z) <==> hit_chunk(h) == c && hit_place(h) == (x, y, z),
{
    coord::voxel_split_roundtrip(h.x as int);
    coord::voxel_split_roundtrip(h.y as int);
    coord::voxel_split_roundtrip(h.z as int);
}

/// A voxel has a first material exactly when a hit fell on it.
proof fn lemma_material_means_hit(
    hits: Seq<VoxelHit>,
    c: ChunkCoord,
    x: int,
    y: int,
    z: int,
)
    ensures
        first_material(hits, hits.len() as int, c, x, y, z) is Some <==> exists|i: int|
            0 <= i < hits.len() && falls_on(#[trigger] hits[i], c, x, y, z),
{
    lemma_first_material(hits, hits.len() as int, c, x, y, z);
    if first_material(hits, hits.len() as int, c, x, y, z) is Some {
        let i = choose|i: int|
            0 <= i < hits.len() && hit_chunk(#[trigger] hits[i]) == c && hit_place(hits[i]) == (
                x,
                y,
                z,
            );
        lemma_falls_on(hits[i], c, x, y, z);
    } else {
        assert forall|i: int| 0 <= i < hits.len() implies !falls_on(
            #[trigger] hits[i],
            c,
            x,
            y,
            z,
        ) by {
            lemma_falls_on(hits[i], c, x, y, z);
        }
    }
}

proof fn lemma_key_names_voxel(hits: Seq<VoxelHit>, c: ChunkCoord, x: int, y: int, z: int)
    requires
        occupancy::in_chunk(x, y, z),
    ensures
        chunk_mats(hits, hits.len() as int, c).contains_key(key_of(x, y, z)) <==> first_material(
            hits,
            hits.len() as int,
            c,
            x,
            y,
            z,
        ) is Some,
{
    let k = key_of(x, y, z);
    assert(k == x * 4096 + y * 64 + z);
    lemma_key_place(k, x, y, z);
}

/// A voxel of a chunk is occupied exactly when a hit fell on it; such a voxel
/// lies in the usable interior.
pub proof fn occupied_means_hit(
    hits: Seq<VoxelHit>,
    chunks: Seq<ChunkData>,
    j: int,
    x: int,
    y: int,
    z: int,
)
    requires
        voxelized(hits, chunks),
        0 <= j < chunks.len(),
        occupancy::in_chunk(x, y, z),
    ensures
        chunks[j].occupancy.has(x, y, z) <==> exists|i: int|
            0 <= i < hits.len() && falls_on(#[trigger] hits[i], chunks[j].coord, x, y, z),
{
    let c = chunks[j].coord;
    assert(holds_hits(hits, chunks[j]));
    lemma_key_names_voxel(hits, c, x, y, z);
    lemma_material_means_hit(hits, c, x, y, z);
    assert(chunks[j].occupancy.has(x, y, z) == chunk_mats(
        hits,
        hits.len() as int,
        c,
    ).contains_key(key_of(x, y, z)));
}

/// Chunks of the same hits have the same coordinates, as far as both lists go.
proof fn lemma_same_coords(hits: Seq<VoxelHit>, a: Seq<ChunkData>, b: Seq<ChunkData>, n: int)
    requires
        voxelized(hits, a),
        voxelized(hits, b),
        0 <= n <= a.len(),
    ensures
        n <= b.len(),
        forall|i: int| 0 <= i < n ==> (#[trigger] a[i]).coord == b[i].coord,
    decreases n,
{
    if n > 0 {
        let m = n - 1;
        lemma_same_coords(hits, a, b, m);
        let j = lemma_chunk_in(hits, a, b, m);
        if j < m {
            assert(a[j].coord == b[j].coord);
            assert(coord_before(a[j].coord, a[m].coord));
        } else if j > m {
            let k = lemma_chunk_in(hits, b, a, m);
            assert(coord_before(b[m].coord, b[j].coord));
            if k < m {
                assert(a[k].coord == b[k].coord);
                assert(coord_before(b[k].coord, b[m].coord));
            } else if k > m {
                assert(coord_before(a[m].coord, a[k].coord));
            }
        }
    }
}

/// A chunk of some hits has its counterpart among other chunks of them.
proof fn lemma_chunk_in(
    hits: Seq<VoxelHit>,
    a: Seq<ChunkData>,
    b: Seq<ChunkData>,
    i: int,
) -> (j: int)
    requires
        voxelized(hits, a),
        voxelized(hits, b),
        0 <= i < a.len(),
    ensures
        0 <= j < b.len(),
        b[j].coord == a[i].coord,
{
    assert(holds_hits(hits, a[i]));
    let k = choose|k: int| 0 <= k < hits.len() && hit_chunk(#[trigger] hits[k]) == a[i].coord;
    choose|j: int| 0 <= j < b.len() && (#[trigger] b[j]).coord == hit_chunk(hits[k])
}

/// Two chunks of the same hits and the same coordinate hold the same.
proof fn lemma_same_chunk(hits: Seq<VoxelHit>, a: ChunkData, b: ChunkData)
    requires
        holds_hits(hits, a),
        holds_hits(hits, b),
        a.coord == b.coord,
    ensures
        same_chunk(a, b),
{
    let mats = chunk_mats(hits, hits.len() as int, a.coord);
    assert forall|x: int, y: int, z: int|
        occupancy::in_chunk(x, y, z) implies #[trigger] occupancy::occupied(a.occupancy@, x, y, z)
        == occupancy::occupied(b.occupancy@, x, y, z) by {
        assert(a.occupancy.has(x, y, z) == mats.contains_key(key_of(x, y, z)));
        assert(b.occupancy.has(x, y, z) == mats.contains_key(key_of(x, y, z)));
    }
    occupancy::voxels_determine_words(a.occupancy@, b.occupancy@);
    assert forall|k: int| 0 <= k < a.index_buf@.len() implies a.index_buf@[k] == b.index_buf@[k] by {
        let x = k / 4096;
        let y = k / 64 % 64;
        let z = k % 64;
        assert(occupancy::in_chunk(x, y, z) && mesh_cpu::voxel_index(x, y, z) == k);
        let i = a.index_buf.at(x, y, z);
        let j = b.index_buf.at(x, y, z);
        if mats.contains_key(key_of(x, y, z)) {
            let m = mats[key_of(x, y, z)];
            assert(is_index_of(a.palette@, m, i));
            assert(is_index_of(b.palette@, m, j));
        }
    }
    assert(a.index_buf@ =~= b.index_buf@);
}

/// Two chunks have the same coordinate, and the same in occupancy, palette and
/// index entries.
pub open spec fn same_chunk(a: ChunkData, b: ChunkData) -> bool {
    &&& a.coord == b.coord
    &&& a.occupancy@ == b.occupancy@
    &&& a.palette@ == b.palette@
    &&& a.index_buf@ == b.index_buf@
}

/// Voxelization is deterministic: the hits determine the chunks, their order and
/// everything in them.
pub proof fn voxelized_is_determined(hits: Seq<VoxelHit>, a: Seq<ChunkData>, b: Seq<ChunkData>)
    requires
        voxelized(hits, a),
        voxelized(hits, b),
    ensures
        a.len() == b.len(),
        forall|i: int| 0 <= i < a.len() ==> same_chunk(#[trigger] a[i], b[i]),
{
    lemma_same_coords(hits, a, b, a.len() as int);
    lemma_same_coords(hits, b, a, b.len() as int);
    assert forall|i: int| 0 <= i < a.len() implies same_chunk(#[trigger] a[i], b[i]) by {
        assert(holds_hits(hits, a[i]) && holds_hits(hits, b[i]));
        lemma_same_chunk(hits, a[i], b[i]);
    }
}

/// Two results of the same hits and material groups have the same chunks and the
/// same material table.
pub proof fn results_are_determined(
    hits: Seq<VoxelHit>,
    groups: Seq<MaterialEntry>,
    a: VoxelizeResult,
    b: VoxelizeResult,
)
    requires
        voxelized(hits, a.chunks@) && a.materials@ == group_table(groups),
        voxelized(hits, b.chunks@) && b.materials@ == group_table(groups),
    ensures
        a.materials@ == b.materials@,
        a.chunks@.len() == b.chunks@.len(),
        forall|i: int|
            0 <= i < a.chunks@.len() ==> same_chunk(#[trigger] a.chunks@[i], b.chunks@[i]),
{
    voxelized_is_determined(hits, a.chunks@, b.chunks@);
}

/// The first hit on a voxel gives it its material.
proof fn lemma_first_hit(hits: Seq<VoxelHit>, n: int, c: ChunkCoord, x: int, y: int, z: int, i: int)
    requires
        0 <= i < n <= hits.len(),
        falls_on(hits[i], c, x, y, z),
        forall|k: int| 0 <= k < i ==> !falls_on(#[trigger] hits[k], c, x, y, z),
    ensures
        first_material(hits, n, c, x, y, z) == Some(group_material(hits[i].group)),
    decreases n,
{
    lemma_falls_on(hits[i], c, x, y, z);
    if n - 1 > i {
        lemma_first_hit(hits, n - 1, c, x, y, z, i);
    } else {
        lemma_first_material(hits, i, c, x, y, z);
        if first_material(hits, i, c, x, y, z) is Some {
            let k = choose|k: int|
                0 <= k < i && hit_chunk(#[trigger] hits[k]) == c && hit_place(hits[k]) == (x, y, z);
            lemma_falls_on(hits[k], c, x, y, z);
        }
    }
}

/// The material table names each group by the id that voxels of the group get,
/// and no group has a reserved id or the id of another group.
pub proof fn table_names_each_group(groups: Seq<MaterialEntry>, g: u16)
    requires
        g < groups.len(),
        g + 2 < MAX_MATERIALS,
    ensures
        group_table(groups)[group_material(g) as int] == groups[g as int],
        group_material(g) != MATERIAL_EMPTY && group_material(g) != MATERIAL_DEFAULT,
        forall|h: u16| h + 2 < MAX_MATERIALS && h != g ==> #[trigger] group_material(h)
            != group_material(g),
{
}

/// Ids without a group are black, but for the default material.
pub proof fn table_is_black_elsewhere(groups: Seq<MaterialEntry>, id: int)
    requires
        0 <= id < MAX_MATERIALS,
        forall|g: u16| g < groups.len() && g + 2 < MAX_MATERIALS ==> #[trigger] group_material(g)
            != id,
    ensures
        id != MATERIAL_DEFAULT ==> group_table(groups)[id].words_spec() == seq![0u32, 0, 0, 0],
        id == MATERIAL_DEFAULT ==> group_table(groups)[id] == materials::default_entry(),
{
    if 2 <= id < groups.len() + 2 {
        assert(group_material((id - 2) as u16) == id);
    }
    assert(materials::black().words_spec() =~= seq![0u32, 0, 0, 0]);
}

/// A voxel looks like the group that hit it first: its palette entry is the
/// group's id, and the table has the group's entry there. Only where the palette
/// of its chunk is full a voxel can be without a material of its own.
pub proof fn voxels_look_like_their_first_hit(
    hits: Seq<VoxelHit>,
    groups: Seq<MaterialEntry>,
    r: VoxelizeResult,
    j: int,
    i: int,
    x: int,
    y: int,
    z: int,
)
    requires
        voxelized(hits, r.chunks@),
        r.materials@ == group_table(groups),
        0 <= j < r.chunks@.len(),
        0 <= i < hits.len(),
        falls_on(hits[i], r.chunks@[j].coord, x, y, z),
        forall|k: int|
            0 <= k < i ==> !falls_on(#[trigger] hits[k], r.chunks@[j].coord, x, y, z),
        hits[i].group < groups.len(),
        hits[i].group + 2 < MAX_MATERIALS,
    ensures
        ({
            let c = r.chunks@[j];
            let palette = c.palette@;
            let index = c.index_buf.at(x, y, z) as int;
            &&& c.occupancy.has(x, y, z)
            &&& index < palette.len()
            &&& palette.len() < 16 ==> palette[index] == hits[i].group + 2
                && r.materials@[palette[index] as int] == groups[hits[i].group as int]
            &&& palette.contains((hits[i].group + 2) as u16) ==> palette[index] == hits[i].group + 2
            &&& !palette.contains((hits[i].group + 2) as u16) ==> index == 0
        }),
{
    let c = r.chunks@[j];
    let n = hits.len() as int;
    let mats = chunk_mats(hits, n, c.coord);
    let k = key_of(x, y, z);
    assert(holds_hits(hits, c));
    lemma_first_hit(hits, n, c.coord, x, y, z, i);
    lemma_key_names_voxel(hits, c.coord, x, y, z);
    assert(k == x * 4096 + y * 64 + z);
    lemma_key_place(k, x, y, z);
    assert(mats.contains_key(k) && mats[k] == group_material(hits[i].group));
    assert(c.occupancy.has(x, y, z) == mats.contains_key(k));
    lemma_added(mats, k as int, CS_P3 as int);
    assert(is_index_of(c.palette@, mats[k], c.index_buf.at(x, y, z)));
    table_names_each_group(groups, hits[i].group);
}

/// A voxel that nothing hit is empty and has the empty material.
pub proof fn voxels_without_hits_are_empty(
    hits: Seq<VoxelHit>,
    chunks: Seq<ChunkData>,
    j: int,
    x: int,
    y: int,
    z: int,
)
    requires
        voxelized(hits, chunks),
        0 <= j < chunks.len(),
        occupancy::in_chunk(x, y, z),
        forall|k: int| 0 <= k < hits.len() ==> !falls_on(#[trigger] hits[k], chunks[j].coord, x, y, z),
    ensures
        !chunks[j].occupancy.has(x, y, z),
        chunks[j].palette@[chunks[j].index_buf.at(x, y, z) as int] == MATERIAL_EMPTY,
{
    occupied_means_hit(hits, chunks, j, x, y, z);
    assert(holds_hits(hits, chunks[j]));
    assert(chunks[j].occupancy.has(x, y, z) == chunk_mats(
        hits,
        hits.len() as int,
        chunks[j].coord,
    ).contains_key(key_of(x, y, z)));
    assert(chunks[j].index_buf.at(x, y, z) == 0);
}

/// Every hit lies in one of the chunks, and every chunk was hit.
pub proof fn chunks_are_those_hit(hits: Seq<VoxelHit>, chunks: Seq<ChunkData>, i: int) -> (j: int)
    requires
        voxelized(hits, chunks),
        0 <= i < hits.len(),
    ensures
        0 <= j < chunks.len(),
        exists|x: int, y: int, z: int| #[trigger] falls_on(hits[i], chunks[j].coord, x, y, z),
{
    let j = choose|j: int|
        0 <= j < chunks.len() && (#[trigger] chunks[j]).coord == hit_chunk(hits[i]);
    let p = hit_place(hits[i]);
    lemma_falls_on(hits[i], chunks[j].coord, p.0, p.1, p.2);
    j
}

/// Color bytes follow each other: each is 13 times the one before plus 95, in
/// eight bits, from the group's number on.
pub proof fn color_bytes_follow(id: int)
    requires
        0 <= id,
    ensures
        lcg(id) % 256 == (13 * (id % 256) + 95) % 256,
        0 <= lcg(id) < 0x1_0000_0000,
{
    let n = id * 1_664_525 + 1_013_904_223;
    let q = n / 0x1_0000_0000;
    let low = 13 * (id % 256) + 95;
    let k = 6502 * id + 3_960_563 + 13 * (id / 256) - 16_777_216 * q;
    assert(lcg(id) == n - 0x1_0000_0000 * q);
    assert(lcg(id) == 256 * k + low);
    vstd::arithmetic::div_mod::lemma_mod_multiples_vanish(k, low, 256);
}

/// Groups whose numbers differ in their lowest eight bits have different colors.
pub proof fn colors_tell_groups_apart(a: int, b: int)
    requires
        0 <= a && 0 <= b,
        a % 256 != b % 256,
    ensures
        lcg(a) % 256 != lcg(b) % 256,
{
    color_bytes_follow(a);
    color_bytes_follow(b);
    let (p, q) = (a % 256, b % 256);
    if (13 * p + 95) % 256 == (13 * q + 95) % 256 {
        let m = (13 * p + 95) / 256 - (13 * q + 95) / 256;
        assert(13 * (p - q) == 256 * m);
        assert(197 * 13 * (p - q) == 197 * 256 * m);
        assert(p - q == 256 * (197 * m - 10 * (p - q)));
    }
}

proof fn lemma_palette_source(mats: Map<u32, u16>, n: int, i: int) -> (k: int)
    requires
        1 <= i < palette_upto(mats, n).len(),
    ensures
        0 <= k < n,
        mats.contains_key(k as u32),
        mats[k as u32] == palette_upto(mats, n)[i],
    decreases n,
{
    if n > 0 {
        let before = palette_upto(mats, n - 1);
        if i < before.len() {
            lemma_palette_source(mats, n - 1, i)
        } else {
            n - 1
        }
    } else {
        0
    }
}

proof fn lemma_palette_order(mats: Map<u32, u16>, n: int, i: int, j: int) -> (k: int)
    requires
        n <= CS_P3,
        1 <= i < j < palette_upto(mats, n).len(),
    ensures
        0 <= k < n,
        mats.contains_key(k as u32),
        mats[k as u32] == palette_upto(mats, n)[i],
        forall|q: u32|
            q < n && mats.contains_key(q) && #[trigger] mats[q] == palette_upto(mats, n)[j] ==> q > k,
    decreases n,
{
    if n > 0 {
        let before = palette_upto(mats, n - 1);
        if j < before.len() {
            lemma_palette_order(mats, n - 1, i, j)
        } else {
            let k = lemma_palette_source(mats, n - 1, i);
            assert forall|q: u32|
                q < n && mats.contains_key(q) && #[trigger] mats[q] == palette_upto(mats, n)[j] implies q
                > k by {
                if q < n - 1 {
                    lemma_added(mats, q as int, n - 1);
                }
            }
            k
        }
    } else {
        0
    }
}

/// The palette of a chunk names materials of its voxels only, behind the empty one, and
/// none twice.
pub proof fn palettes_name_voxel_materials(
    hits: Seq<VoxelHit>,
    chunks: Seq<ChunkData>,
    c: int,
    i: int,
) -> (h: int)
    requires
        voxelized(hits, chunks),
        0 <= c < chunks.len(),
        1 <= i < chunks[c].palette@.len(),
        forall|k: int| 0 <= k < hits.len() ==> (#[trigger] hits[k]).group <= 65_533,
    ensures
        chunks[c].palette@[0] == MATERIAL_EMPTY,
        chunks[c].palette@.no_duplicates(),
        chunks[c].palette@.len() <= 16,
        0 <= h < hits.len(),
        hits[h].group + 2 == chunks[c].palette@[i],
        exists|x: int, y: int, z: int| #[trigger] falls_on(hits[h], chunks[c].coord, x, y, z),
{
    let coord = chunks[c].coord;
    let n = hits.len() as int;
    let mats = chunk_mats(hits, n, coord);
    assert(holds_hits(hits, chunks[c]));
    let k = lemma_palette_source(mats, CS_P3 as int, i);
    let (x, y, z) = (k / 4096, k / 64 % 64, k % 64);
    lemma_first_material(hits, n, coord, x, y, z);
    let h = lemma_material_source(hits, n, coord, x, y, z);
    lemma_falls_on(hits[h], coord, x, y, z);
    assert(falls_on(hits[h], coord, x, y, z));
    h
}

proof fn lemma_material_source(hits: Seq<VoxelHit>, n: int, c: ChunkCoord, x: int, y: int, z: int) -> (h:
    int)
    requires
        n <= hits.len(),
        first_material(hits, n, c, x, y, z) is Some,
    ensures
        0 <= h < n,
        hit_chunk(hits[h]) == c && hit_place(hits[h]) == (x, y, z),
        first_material(hits, n, c, x, y, z) == Some(group_material(hits[h].group)),
    decreases n,
{
    if first_material(hits, n - 1, c, x, y, z) is Some {
        lemma_material_source(hits, n - 1, c, x, y, z)
    } else {
        n - 1
    }
}

/// Palettes list materials in the order of their first voxels, by x, then y, then z:
/// some voxel of an earlier entry comes before all voxels of a later one.
pub proof fn palettes_follow_their_voxels(
    mats: Map<u32, u16>,
    i: int,
    j: int,
) -> (v: (int, int, int))
    requires
        1 <= i < j < palette_upto(mats, CS_P3 as int).len(),
    ensures
        ({
            let p = palette_upto(mats, CS_P3 as int);
            &&& occupancy::in_chunk(v.0, v.1, v.2)
            &&& mats.contains_key((4096 * v.0 + 64 * v.1 + v.2) as u32)
            &&& mats[(4096 * v.0 + 64 * v.1 + v.2) as u32] == p[i]
            &&& forall|x: int, y: int, z: int|
                occupancy::in_chunk(x, y, z) && mats.contains_key(#[trigger] key_of(x, y, z))
                    && mats[key_of(x, y, z)] == p[j] ==> v.0 < x || (v.0 == x && (v.1 < y || (v.1
                    == y && v.2 < z)))
        }),
{
    let k = lemma_palette_order(mats, CS_P3 as int, i, j);
    let v = (k / 4096, k / 64 % 64, k % 64);
    assert(4096 * v.0 + 64 * v.1 + v.2 == k);
    assert forall|x: int, y: int, z: int|
        occupancy::in_chunk(x, y, z) && mats.contains_key(#[trigger] key_of(x, y, z)) && mats[key_of(
            x,
            y,
            z,
        )] == palette_upto(mats, CS_P3 as int)[j] implies v.0 < x || (v.0 == x && (v.1 < y || (v.1
        == y && v.2 < z))) by {
        let q = key_of(x, y, z);
        assert(q == x * 4096 + y * 64 + z);
        assert(mats[q] == palette_upto(mats, CS_P3 as int)[j]);
        assert(q > k);
    }
    v
}

/// Chunks come by x, then y, then z, and no coordinate comes twice.
pub proof fn chunks_come_in_order(hits: Seq<VoxelHit>, chunks: Seq<ChunkData>, i: int, j: int)
    requires
        voxelized(hits, chunks),
        0 <= i < j < chunks.len(),
    ensures
        chunks[i].coord.x <= chunks[j].coord.x,
        chunks[i].coord.x == chunks[j].coord.x ==> chunks[i].coord.y <= chunks[j].coord.y,
        chunks[i].coord.x == chunks[j].coord.x && chunks[i].coord.y == chunks[j].coord.y
            ==> chunks[i].coord.z < chunks[j].coord.z,
{
    assert(coord_before(chunks[i].coord, chunks[j].coord));
}

/// The bytes of a color follow from the group's number, each from the one before it:
/// 13 times that plus 95, in eight bits.
pub proof fn colors_follow_from_the_group(id: int)
    requires
        0 <= id,
    ensures
        ({
            let c = color_bytes(id);
            &&& c.len() == 3
            &&& c[0] == (13 * (id % 256) + 95) % 256
            &&& c[1] == (13 * c[0] + 95) % 256
            &&& c[2] == (13 * c[1] + 95) % 256
        }),
{
    color_bytes_follow(id);
    color_bytes_follow(lcg(id));
    color_bytes_follow(lcg(lcg(id)));
}

/// The resolution is the one that was asked for, whatever it is, unless it is zero.
pub proof fn resolutions_are_those_asked_for(n: u32)
    ensures
        n >= 1 ==> voxels_along(n) == n,
        n == 0 ==> voxels_along(n) == 1,
{
}

} // verus!
