//! Loading a scene: which chunks fit, which slots they get, and where their
//! data and meshes go.

use vstd::prelude::*;

use crate::bytes;
use crate::coord::ChunkCoord;
use crate::gpu_layout::GpuBuffer;
use crate::mesh_cpu;
use crate::mesh_cpu::MeshResult;
use crate::mesh_laws;
use crate::occupancy;
use crate::pool;
use crate::pool::{
    AllocError, SlotAllocator, SlotState, INDEX_BUF_WORDS_PER_SLOT, INDEX_BYTES, MAX_SLOTS,
    VERTEX_BYTES,
};
use crate::scene;
use crate::scene::{ChunkData, IndexBufBuilder};
use crate::upload;
use crate::upload::{BufferWrite, Planned};

verus! {

/// Why a model is not loaded.
#[derive(Debug, Clone, Copy, PartialEq, Eq, Structural)]
pub enum LoadError {
    /// The model has no triangles.
    NoTriangles,
    /// Voxelization left no chunk.
    NoChunks,
}

/// Number of chunks of a model to load: all of them, up to the pool's capacity.
pub fn chunks_to_load(triangles: usize, chunks: usize) -> (r: Result<usize, LoadError>)
    ensures
        r == (if triangles == 0 {
            Err(LoadError::NoTriangles)
        } else if chunks == 0 {
            Err(LoadError::NoChunks)
        } else if chunks > MAX_SLOTS {
            Ok(MAX_SLOTS as usize)
        } else {
            Ok(chunks)
        }),
{
    if triangles == 0 {
        return Err(LoadError::NoTriangles);
    }
    if chunks == 0 {
        return Err(LoadError::NoChunks);
    }
    if chunks > MAX_SLOTS as usize {
        Ok(MAX_SLOTS as usize)
    } else {
        Ok(chunks)
    }
}

/// What allocating slots for a list of chunks leads to.
#[verifier::ext_equal]
pub struct Staging {
    pub state: SlotState,
    /// Slot of each chunk that got one, in order.
    pub slots: Seq<u32>,
    /// The failure that ended it, if any.
    pub error: Option<AllocError>,
}

/// Allocate slots for the first `n` chunks, in order, up to the first failure.
pub open spec fn staging(s: SlotState, coords: Seq<ChunkCoord>, n: nat) -> Staging
    decreases n,
{
    if n == 0 {
        Staging { state: s, slots: Seq::empty(), error: None }
    } else {
        let before = staging(s, coords, (n - 1) as nat);
        let coord = coords[n - 1];
        if before.error is Some {
            before
        } else if before.state.resident.contains_key(coord) {
            Staging { error: Some(AllocError::CoordAlreadyResident), ..before }
        } else if before.state.free.len() == 0 {
            Staging { error: Some(AllocError::PoolFull), ..before }
        } else {
            Staging {
                state: pool::after_alloc(before.state, coord),
                slots: before.slots.push(before.state.free.last()),
                error: None,
            }
        }
    }
}

/// The coordinates of a list of chunks.
pub open spec fn coords_of(chunks: Seq<ChunkData>) -> Seq<ChunkCoord> {
    chunks.map_values(|c: ChunkData| c.coord)
}

/// Field width of a chunk's palette indices.
pub open spec fn chunk_bpe(c: ChunkData) -> int {
    scene::bpe_for(c.palette@.len() as int)
}

/// `writes` upload a chunk to a slot: the slot's own share of the index pool
/// holds its packed palette indices.
pub open spec fn uploads_chunk(writes: Seq<BufferWrite>, slot: u32, c: ChunkData) -> bool {
    exists|index_words: Seq<u32>| #[trigger]
        scene::is_packed(c.index_buf@, chunk_bpe(c), index_words) && upload::does_all(
            writes,
            upload::chunk_plan(
                slot,
                c.coord,
                c.occupancy@,
                scene::palette_words(c.palette@),
                index_words,
                (slot * INDEX_BUF_WORDS_PER_SLOT) as u32,
                scene::palette_meta_word(c.palette@.len() as usize),
            ),
        )
}

/// Plan the upload of one chunk to a slot.
pub fn stage_chunk(slot: u32, chunk: &ChunkData) -> (writes: Vec<BufferWrite>)
    requires
        slot < MAX_SLOTS,
        chunk.wf(),
    ensures
        uploads_chunk(writes@, slot, *chunk),
{
    let palette_words = chunk.palette.as_words();
    let size: usize = chunk.palette.len();
    let bpe: u8 = IndexBufBuilder::bits_per_entry(size);
    let index_words = chunk.index_buf.pack(bpe);
    let meta: u32 = IndexBufBuilder::palette_meta(size);
    assert(scene::is_packed(chunk.index_buf@, chunk_bpe(*chunk), index_words@));
    upload::upload_chunk(
        slot,
        chunk.coord,
        chunk.occupancy.as_words(),
        palette_words.as_slice(),
        index_words.as_slice(),
        slot * INDEX_BUF_WORDS_PER_SLOT,
        meta,
    )
}

/// What staging some chunks produced.
#[derive(Debug)]
pub struct Staged {
    /// The writes of each chunk that got a slot.
    pub uploads: Vec<Vec<BufferWrite>>,
    /// Slot of each chunk that got one.
    pub slots: Vec<u32>,
    /// The failure that ended it, if any.
    pub error: Option<AllocError>,
}

/// Give each of the first `count` chunks a slot and plan its upload. The first
/// failure ends it; what was staged before it stands.
pub fn stage_chunks(allocator: &mut SlotAllocator, chunks: &[ChunkData], count: usize) -> (r: Staged)
    requires
        old(allocator).wf(),
        count <= chunks@.len(),
        forall|i: int| 0 <= i < chunks@.len() ==> (#[trigger] chunks@[i]).wf(),
    ensures
        final(allocator).wf(),
        ({
            let s = staging(old(allocator)@, coords_of(chunks@), count as nat);
            &&& final(allocator)@ == s.state
            &&& r.slots@ == s.slots
            &&& r.error == s.error
            &&& r.uploads@.len() == r.slots@.len()
        }),
        forall|i: int|
            0 <= i < r.slots@.len() ==> uploads_chunk(
                (#[trigger] r.uploads@[i])@,
                r.slots@[i],
                chunks@[i],
            ),
{
    let ghost start = allocator@;
    let ghost coords = coords_of(chunks@);
    let mut uploads: Vec<Vec<BufferWrite>> = Vec::new();
    let mut slots: Vec<u32> = Vec::new();
    let mut i: usize = 0;
    while i < count
        invariant
            i <= count <= chunks@.len(),
            allocator.wf(),
            start == old(allocator)@,
            coords == coords_of(chunks@),
            forall|k: int| 0 <= k < chunks@.len() ==> (#[trigger] chunks@[k]).wf(),
            allocator@ == staging(start, coords, i as nat).state,
            slots@ == staging(start, coords, i as nat).slots,
            staging(start, coords, i as nat).error is None,
            slots@.len() == i,
            uploads@.len() == i,
            forall|k: int|
                0 <= k < i ==> uploads_chunk((#[trigger] uploads@[k])@, slots@[k], chunks@[k]),
        decreases count - i,
    {
        let coord: ChunkCoord = chunks[i].coord;
        assert(coords[i as int] == coord);
        let ghost before = allocator@;
        proof {
            allocator.wf_partitions();
        }
        match allocator.alloc_slot(coord) {
            Err(e) => {
                proof {
                    lemma_staging_stops(start, coords, (i + 1) as nat, count as nat);
                }
                return Staged { uploads, slots, error: Some(e) };
            },
            Ok(slot) => {
                assert(slot == before.free[before.free.len() - 1]);
                let writes = stage_chunk(slot, &chunks[i]);
                slots.push(slot);
                uploads.push(writes);
            },
        }
        i = i + 1;
    }
    Staged { uploads, slots, error: None }
}

proof fn lemma_staging_stops(s: SlotState, coords: Seq<ChunkCoord>, n: nat, m: nat)
    requires
        n <= m,
        staging(s, coords, n).error is Some,
    ensures
        staging(s, coords, m) == staging(s, coords, n),
    decreases m,
{
    if n < m {
        lemma_staging_stops(s, coords, n, (m - 1) as nat);
    }
}

/// Chunks with coordinates of their own that are loaded into an empty pool with
/// room for them all get a slot, and get slots in order: chunk i has slot i.
pub proof fn fresh_chunks_get_slots_in_order(coords: Seq<ChunkCoord>, n: nat)
    requires
        coords.no_duplicates(),
        n <= coords.len(),
        n <= MAX_SLOTS,
    ensures
        ({
            let s = staging(pool::empty_slots(MAX_SLOTS as nat), coords, n);
            &&& s.error is None
            &&& s.slots == Seq::new(n, |i: int| i as u32)
            &&& forall|c: ChunkCoord| #[trigger]
                s.state.resident.contains_key(c) <==> coords.take(n as int).contains(c)
            &&& s.state.free == pool::empty_slots(MAX_SLOTS as nat).free.take(MAX_SLOTS - n)
        }),
    decreases n,
{
    let e = pool::empty_slots(MAX_SLOTS as nat);
    let s = staging(e, coords, n);
    if n == 0 {
        assert(coords.take(0) =~= Seq::empty());
        assert(s.slots =~= Seq::new(0, |i: int| i as u32));
        assert(e.free.take(MAX_SLOTS as int) =~= e.free);
    } else {
        let m = (n - 1) as nat;
        fresh_chunks_get_slots_in_order(coords, m);
        let b = staging(e, coords, m);
        let c = coords[m as int];
        assert(!coords.take(m as int).contains(c)) by {
            if coords.take(m as int).contains(c) {
                let k = choose|k: int| 0 <= k < m && coords.take(m as int)[k] == c;
                assert(coords[k] == c);
            }
        }
        assert(b.state.free.last() == m as u32);
        assert(s.slots =~= Seq::new(n, |i: int| i as u32));
        assert(s.state.free =~= e.free.take(MAX_SLOTS - n));
        assert(coords.take(n as int) =~= coords.take(m as int).push(c));
        assert forall|d: ChunkCoord| #[trigger]
            s.state.resident.contains_key(d) <==> coords.take(n as int).contains(d) by {
            if coords.take(n as int).contains(d) && d != c {
                let k = choose|k: int| 0 <= k < n && coords.take(n as int)[k] == d;
                assert(coords.take(m as int)[k] == d);
            }
            if coords.take(m as int).contains(d) {
                let k = choose|k: int| 0 <= k < m && coords.take(m as int)[k] == d;
                assert(coords.take(n as int)[k] == d);
            }
            if d == c {
                assert(coords.take(n as int)[m as int] == c);
            }
        }
    }
}

/// Total number of voxels of the first `n` chunks.
pub open spec fn voxel_total(chunks: Seq<ChunkData>, n: nat) -> nat
    decreases n,
{
    if n == 0 {
        0
    } else {
        voxel_total(chunks, (n - 1) as nat) + occupancy::occupied_set(
            chunks[n - 1].occupancy@,
        ).len()
    }
}

/// Count the voxels of the first `count` chunks.
pub fn count_voxels(chunks: &[ChunkData], count: usize) -> (n: u32)
    requires
        count <= chunks@.len(),
        count <= MAX_SLOTS,
        forall|i: int| 0 <= i < chunks@.len() ==> (#[trigger] chunks@[i]).wf(),
    ensures
        n == voxel_total(chunks@, count as nat),
{
    let mut n: u32 = 0;
    let mut i: usize = 0;
    while i < count
        invariant
            i <= count <= chunks@.len(),
            count <= MAX_SLOTS,
            forall|k: int| 0 <= k < chunks@.len() ==> (#[trigger] chunks@[k]).wf(),
            n == voxel_total(chunks@, i as nat),
            n <= 524_288 * i,
        decreases count - i,
    {
        let here: u32 = chunks[i].occupancy.popcount();
        n = n + here;
        i = i + 1;
    }
    n
}

/// The mesh of a chunk.
pub open spec fn is_chunk_mesh(r: MeshResult, c: ChunkData) -> bool {
    exists|masks: Seq<Vec<u64>>, index_words: Seq<u32>| #[trigger]
        mesh_cpu::are_face_masks(c.occupancy@, masks) && #[trigger] scene::is_packed(
            c.index_buf@,
            chunk_bpe(c),
            index_words,
        ) && mesh_cpu::is_mesh_of(
            r,
            mesh_cpu::chunk_quads(
                masks,
                scene::palette_words(c.palette@),
                index_words,
                chunk_bpe(c),
            ),
            seq![c.coord.x, c.coord.y, c.coord.z],
        )
}

/// The arrays of a mesh have the sizes that its quad count says.
pub open spec fn mesh_is_sized(r: MeshResult) -> bool {
    &&& r.quad_count <= 2_000_000
    &&& r.vertices@.len() == 64 * r.quad_count
    &&& r.indices@.len() == 6 * r.quad_count
    &&& r.draw_meta.vertex_count == 4 * r.quad_count
    &&& r.draw_meta.index_count == 6 * r.quad_count
}

/// Mesh one chunk.
pub fn mesh_chunk_data(chunk: &ChunkData) -> (r: MeshResult)
    requires
        chunk.wf(),
    ensures
        is_chunk_mesh(r, *chunk),
        mesh_is_sized(r),
{
    let palette_words = chunk.palette.as_words();
    let size: usize = chunk.palette.len();
    let bpe: u8 = IndexBufBuilder::bits_per_entry(size);
    let index_words = chunk.index_buf.pack(bpe);
    let meta: u32 = IndexBufBuilder::palette_meta(size);
    proof {
        scene::palette_meta_fields(size);
        lemma_readable(chunk.occupancy@);
    }
    let coord: [i32; 3] = [chunk.coord.x, chunk.coord.y, chunk.coord.z];
    let r = mesh_cpu::mesh_rebuild_cpu(
        chunk.occupancy.as_words(),
        palette_words.as_slice(),
        index_words.as_slice(),
        meta,
        coord,
    );
    proof {
        assert(coord@ =~= seq![chunk.coord.x, chunk.coord.y, chunk.coord.z]);
        let masks = choose|masks: Seq<Vec<u64>>| #[trigger]
            mesh_cpu::are_face_masks(chunk.occupancy@, masks) && mesh_cpu::is_mesh_of(
                r,
                mesh_cpu::chunk_quads(masks, palette_words@, index_words@, bpe as int),
                coord@,
            );
        mesh_laws::quad_count_bound(
            masks,
            palette_words@,
            index_words@,
            bpe as int,
            mesh_cpu::ALL_SLICES as nat,
        );
        let w = r.draw_meta.words_spec();
        assert(w[1] == r.draw_meta.vertex_count && w[3] == r.draw_meta.index_count);
        assert(scene::is_packed(chunk.index_buf@, chunk_bpe(*chunk), index_words@));
    }
    r
}

/// The columns of a whole slot can be read.
proof fn lemma_readable(words: Seq<u32>)
    requires
        words.len() == pool::OCCUPANCY_WORDS_PER_SLOT,
    ensures
        mesh_cpu::columns_readable(words),
{
}

/// Mesh the first `count` chunks.
pub fn mesh_chunks(chunks: &[ChunkData], count: usize) -> (results: Vec<MeshResult>)
    requires
        count <= chunks@.len(),
        forall|i: int| 0 <= i < chunks@.len() ==> (#[trigger] chunks@[i]).wf(),
    ensures
        results@.len() == count,
        forall|i: int|
            0 <= i < count ==> is_chunk_mesh(#[trigger] results@[i], chunks@[i])
                && mesh_is_sized(results@[i]),
{
    let mut results: Vec<MeshResult> = Vec::new();
    let mut i: usize = 0;
    while i < count
        invariant
            i <= count <= chunks@.len(),
            results@.len() == i,
            forall|k: int| 0 <= k < chunks@.len() ==> (#[trigger] chunks@[k]).wf(),
            forall|k: int|
                0 <= k < i ==> is_chunk_mesh(#[trigger] results@[k], chunks@[k]) && mesh_is_sized(
                    results@[k],
                ),
        decreases count - i,
    {
        results.push(mesh_chunk_data(&chunks[i]));
        i = i + 1;
    }
    results
}

/// Sum of the first `n` quad counts.
pub open spec fn quad_sum(counts: Seq<u32>, n: nat) -> nat
    decreases n,
{
    if n == 0 {
        0
    } else {
        quad_sum(counts, (n - 1) as nat) + counts[n - 1] as nat
    }
}

/// The offset table of some meshes, five words a slot: first vertex, number of
/// vertices, first index, number of indices, and a zeroed counter. Slots
/// without a mesh have zeros.
pub open spec fn offset_table(counts: Seq<u32>) -> Seq<u32> {
    Seq::new(
        (MAX_SLOTS * 5) as nat,
        |i: int|
            {
                let slot = i / 5;
                if slot >= counts.len() {
                    0u32
                } else if i % 5 == 0 {
                    (4 * quad_sum(counts, slot as nat)) as u32
                } else if i % 5 == 1 {
                    (4 * counts[slot]) as u32
                } else if i % 5 == 2 {
                    (6 * quad_sum(counts, slot as nat)) as u32
                } else if i % 5 == 3 {
                    (6 * counts[slot]) as u32
                } else {
                    0u32
                }
            },
    )
}

proof fn lemma_quad_sum_monotone(counts: Seq<u32>, n: nat, m: nat)
    requires
        n <= m <= counts.len(),
    ensures
        quad_sum(counts, n) <= quad_sum(counts, m),
        n < m ==> quad_sum(counts, n) + counts[n as int] <= quad_sum(counts, m),
    decreases m,
{
    if n < m {
        lemma_quad_sum_monotone(counts, n, (m - 1) as nat);
    }
}

/// Compute the offset table of some meshes.
pub fn mesh_offsets(counts: &[u32]) -> (table: Vec<u32>)
    requires
        counts@.len() <= MAX_SLOTS,
        6 * quad_sum(counts@, counts@.len()) <= u32::MAX,
    ensures
        table@ == offset_table(counts@),
{
    let mut table: Vec<u32> = vec![0u32; 20_480];
    let mut vert_offset: u32 = 0;
    let mut idx_offset: u32 = 0;
    let mut slot: usize = 0;
    while slot < counts.len()
        invariant
            slot <= counts@.len() <= MAX_SLOTS,
            6 * quad_sum(counts@, counts@.len()) <= u32::MAX,
            vert_offset == 4 * quad_sum(counts@, slot as nat),
            idx_offset == 6 * quad_sum(counts@, slot as nat),
            table@.len() == MAX_SLOTS * 5,
            forall|i: int| 0 <= i < 5 * slot ==> table@[i] == offset_table(counts@)[i],
            forall|i: int| 5 * slot <= i < table@.len() ==> table@[i] == 0,
        decreases counts@.len() - slot,
    {
        let qc: u32 = counts[slot];
        proof {
            lemma_quad_sum_monotone(counts@, slot as nat, counts@.len());
            lemma_quad_sum_monotone(counts@, (slot + 1) as nat, counts@.len());
        }
        let vc: u32 = qc * 4;
        let ic: u32 = qc * 6;
        let base: usize = slot * 5;
        table.set(base, vert_offset);
        table.set(base + 1, vc);
        table.set(base + 2, idx_offset);
        table.set(base + 3, ic);
        table.set(base + 4, 0);
        vert_offset = vert_offset + vc;
        idx_offset = idx_offset + ic;
        slot = slot + 1;
    }
    assert(table@ =~= offset_table(counts@));
    table
}

/// Meshes lie one after the other in the pools: each begins where the one
/// before it ends, and no two overlap.
pub proof fn mesh_ranges_are_disjoint(counts: Seq<u32>, i: int, j: int)
    requires
        counts.len() <= MAX_SLOTS,
        6 * quad_sum(counts, counts.len()) <= u32::MAX,
        0 <= i < j < counts.len(),
    ensures
        ({
            let t = offset_table(counts);
            &&& t[5 * i] + t[5 * i + 1] <= t[5 * j]
            &&& t[5 * i + 2] + t[5 * i + 3] <= t[5 * j + 2]
            &&& j == i + 1 ==> t[5 * i] + t[5 * i + 1] == t[5 * j]
            &&& j == i + 1 ==> t[5 * i + 2] + t[5 * i + 3] == t[5 * j + 2]
        }),
{
    lemma_quad_sum_monotone(counts, i as nat, j as nat);
    lemma_quad_sum_monotone(counts, i as nat, counts.len());
    lemma_quad_sum_monotone(counts, j as nat, counts.len());
    lemma_quad_sum_monotone(counts, (i + 1) as nat, counts.len());
}

/// The quad counts of some meshes.
pub open spec fn counts_of(results: Seq<MeshResult>) -> Seq<u32> {
    results.map_values(|r: MeshResult| r.quad_count)
}

/// The writes of the first `n` meshes at their places; empty meshes write
/// nothing.
pub open spec fn mesh_writes(results: Seq<MeshResult>, n: nat) -> Seq<Planned>
    decreases n,
{
    if n == 0 {
        Seq::empty()
    } else {
        let before = mesh_writes(results, (n - 1) as nat);
        let r = results[n - 1];
        let sum = quad_sum(counts_of(results), (n - 1) as nat);
        if r.quad_count == 0 {
            before
        } else {
            before.push(
                upload::bytes_at(GpuBuffer::VertexPool, 4 * sum * VERTEX_BYTES, r.vertices@),
            ).push(upload::words_at(GpuBuffer::IndexPool, 6 * sum * INDEX_BYTES, r.indices@))
        }
    }
}

/// The writes of all meshes and of their offset table.
pub open spec fn meshes_plan(results: Seq<MeshResult>) -> Seq<Planned> {
    seq![
        upload::words_at(GpuBuffer::MeshOffsets, 0, offset_table(counts_of(results))),
    ] + mesh_writes(results, results.len())
}

/// Upload meshes one after the other, with their offset table.
pub fn upload_meshes(results: Vec<MeshResult>) -> (writes: Vec<BufferWrite>)
    requires
        results@.len() <= MAX_SLOTS,
        6 * quad_sum(counts_of(results@), results@.len()) <= u32::MAX,
        forall|i: int| 0 <= i < results@.len() ==> mesh_is_sized(#[trigger] results@[i]),
    ensures
        upload::does_all(writes@, meshes_plan(results@)),
{
    let counts = quad_counts(&results);
    let table = mesh_offsets(counts.as_slice());
    let mut writes: Vec<BufferWrite> = Vec::new();
    writes.push(
        BufferWrite {
            buffer: GpuBuffer::MeshOffsets,
            offset: 0,
            bytes: bytes::cast_words(table.as_slice()),
        },
    );
    let ghost first = seq![
        upload::words_at(GpuBuffer::MeshOffsets, 0, offset_table(counts_of(results@))),
    ];
    let mut slot: usize = 0;
    while slot < results.len()
        invariant
            slot <= results@.len() <= MAX_SLOTS,
            counts@ == counts_of(results@),
            table@ == offset_table(counts@),
            6 * quad_sum(counts@, counts@.len()) <= u32::MAX,
            forall|i: int| 0 <= i < results@.len() ==> mesh_is_sized(#[trigger] results@[i]),
            upload::does_all(writes@, first + mesh_writes(results@, slot as nat)),
            first.len() == 1,
        decreases results@.len() - slot,
    {
        let base: usize = slot * 5;
        let vo: u32 = table[base];
        let vc: u32 = table[base + 1];
        let io: u32 = table[base + 2];
        let ghost plan = first + mesh_writes(results@, slot as nat);
        let ghost next = first + mesh_writes(results@, (slot + 1) as nat);
        proof {
            assert(mesh_is_sized(results@[slot as int]));
            assert(counts@[slot as int] == results@[slot as int].quad_count);
            lemma_quad_sum_monotone(counts@, slot as nat, counts@.len());
            lemma_quad_sum_monotone(counts@, (slot + 1) as nat, counts@.len());
        }
        if vc != 0 {
            let ghost before = writes@;
            let vertices = copy_bytes(&results[slot].vertices);
            writes.push(
                BufferWrite {
                    buffer: GpuBuffer::VertexPool,
                    offset: vo as u64 * VERTEX_BYTES as u64,
                    bytes: vertices,
                },
            );
            writes.push(
                BufferWrite {
                    buffer: GpuBuffer::IndexPool,
                    offset: io as u64 * INDEX_BYTES as u64,
                    bytes: bytes::cast_words(results[slot].indices.as_slice()),
                },
            );
            proof {
                assert(next.len() == plan.len() + 2);
                assert forall|i: int| 0 <= i < next.len() implies upload::does(
                    #[trigger] writes@[i],
                    next[i],
                ) by {
                    if i < plan.len() {
                        assert(writes@[i] == before[i]);
                        assert(next[i] == plan[i]);
                    }
                }
            }
        } else {
            assert(next =~= plan);
        }
        slot = slot + 1;
    }
    writes
}

fn quad_counts(results: &Vec<MeshResult>) -> (counts: Vec<u32>)
    ensures
        counts@ == counts_of(results@),
{
    let mut counts: Vec<u32> = Vec::new();
    let mut i: usize = 0;
    while i < results.len()
        invariant
            i <= results@.len(),
            counts@ =~= counts_of(results@).take(i as int),
        decreases results@.len() - i,
    {
        counts.push(results[i].quad_count);
        i = i + 1;
    }
    assert(counts@ =~= counts_of(results@));
    counts
}

fn copy_bytes(data: &Vec<u8>) -> (copy: Vec<u8>)
    ensures
        copy@ == data@,
{
    let mut copy: Vec<u8> = Vec::new();
    let mut i: usize = 0;
    while i < data.len()
        invariant
            i <= data@.len(),
            copy@ =~= data@.take(i as int),
        decreases data@.len() - i,
    {
        copy.push(data[i]);
        i = i + 1;
    }
    assert(copy@ =~= data@);
    copy
}

/// Totals over a scene's meshes.
#[derive(Debug, Clone, Copy, PartialEq, Eq, Structural)]
pub struct MeshStats {
    pub verts: u32,
    pub indices: u32,
    pub quads: u32,
}

/// Sum the sizes of some meshes.
pub fn mesh_stats(results: &Vec<MeshResult>) -> (s: MeshStats)
    requires
        6 * quad_sum(counts_of(results@), results@.len()) <= u32::MAX,
        forall|i: int| 0 <= i < results@.len() ==> mesh_is_sized(#[trigger] results@[i]),
    ensures
        s.quads == quad_sum(counts_of(results@), results@.len()),
        s.verts == 4 * s.quads,
        s.indices == 6 * s.quads,
{
    let ghost counts = counts_of(results@);
    let mut verts: u32 = 0;
    let mut indices: u32 = 0;
    let mut quads: u32 = 0;
    let mut i: usize = 0;
    while i < results.len()
        invariant
            i <= results@.len(),
            counts == counts_of(results@),
            6 * quad_sum(counts, counts.len()) <= u32::MAX,
            forall|k: int| 0 <= k < results@.len() ==> mesh_is_sized(#[trigger] results@[k]),
            quads == quad_sum(counts, i as nat),
            verts == 4 * quads,
            indices == 6 * quads,
        decreases results@.len() - i,
    {
        proof {
            assert(mesh_is_sized(results@[i as int]));
            lemma_quad_sum_monotone(counts, (i + 1) as nat, counts.len());
        }
        verts = verts + results[i].draw_meta.vertex_count;
        indices = indices + results[i].draw_meta.index_count;
        quads = quads + results[i].quad_count;
        i = i + 1;
    }
    MeshStats { verts, indices, quads }
}

/// One step of a mesh rebuild.
#[derive(Debug, Clone, Copy, PartialEq, Eq, Structural)]
pub enum RebuildStep {
    /// Mark every resident slot visible.
    InitVisibility,
    /// Mesh on the CPU and upload the meshes.
    MeshOnCpu,
    /// Zero the quad counts.
    ClearMeshCounts,
    /// Zero the draw metadata.
    ClearDrawMeta,
    /// Count quads on the GPU.
    Count,
    /// Turn counts into offsets.
    PrefixSum,
    /// Write vertices and indices.
    WriteMeshes,
    /// Build draw arguments.
    BuildIndirect,
    /// Drop wireframe indices, which no longer fit.
    DropWireframe,
}

/// The steps of a mesh rebuild, in order.
pub open spec fn rebuild_steps(use_cpu_mesh: bool) -> Seq<RebuildStep> {
    if use_cpu_mesh {
        seq![
            RebuildStep::InitVisibility,
            RebuildStep::MeshOnCpu,
            RebuildStep::BuildIndirect,
            RebuildStep::DropWireframe,
        ]
    } else {
        seq![
            RebuildStep::InitVisibility,
            RebuildStep::ClearMeshCounts,
            RebuildStep::ClearDrawMeta,
            RebuildStep::Count,
            RebuildStep::PrefixSum,
            RebuildStep::WriteMeshes,
            RebuildStep::BuildIndirect,
            RebuildStep::DropWireframe,
        ]
    }
}

/// Plan a mesh rebuild.
pub fn plan_rebuild(use_cpu_mesh: bool) -> (steps: Vec<RebuildStep>)
    ensures
        steps@ == rebuild_steps(use_cpu_mesh),
{
    if use_cpu_mesh {
        vec![
            RebuildStep::InitVisibility,
            RebuildStep::MeshOnCpu,
            RebuildStep::BuildIndirect,
            RebuildStep::DropWireframe,
        ]
    } else {
        vec![
            RebuildStep::InitVisibility,
            RebuildStep::ClearMeshCounts,
            RebuildStep::ClearDrawMeta,
            RebuildStep::Count,
            RebuildStep::PrefixSum,
            RebuildStep::WriteMeshes,
            RebuildStep::BuildIndirect,
            RebuildStep::DropWireframe,
        ]
    }
}

/// Each staged chunk is resident in the slot that it got, and what was resident before
/// stays where it was. Staging fails exactly if a chunk gets no slot.
pub proof fn staged_chunks_are_resident(s: SlotState, coords: Seq<ChunkCoord>, n: nat)
    requires
        n <= coords.len(),
    ensures
        ({
            let r = staging(s, coords, n);
            &&& r.slots.len() <= n
            &&& r.error is None <==> r.slots.len() == n
            &&& forall|i: int|
                0 <= i < r.slots.len() ==> r.state.resident.contains_key(#[trigger] coords[i])
                    && r.state.resident[coords[i]] == r.slots[i]
            &&& forall|i: int|
                0 <= i < r.slots.len() ==> !s.resident.contains_key(#[trigger] coords[i])
            &&& forall|c: ChunkCoord| #[trigger]
                s.resident.contains_key(c) ==> r.state.resident.contains_key(c)
                    && r.state.resident[c] == s.resident[c]
            &&& r.error == Some(AllocError::CoordAlreadyResident)
                ==> r.state.resident.contains_key(coords[r.slots.len() as int])
            &&& r.error == Some(AllocError::PoolFull) ==> r.state.free.len() == 0
                && !r.state.resident.contains_key(coords[r.slots.len() as int])
            &&& r.state.free.len() + r.slots.len() == s.free.len()
        }),
    decreases n,
{
    if n > 0 {
        staged_chunks_are_resident(s, coords, (n - 1) as nat);
    }
}

/// A mesh with quads is written where the offset table says: its vertices at the
/// slot's first vertex, sixteen bytes each, and its indices at its first index.
pub proof fn meshes_lie_where_the_table_says(results: Seq<MeshResult>, i: int) -> (k: int)
    requires
        results.len() <= MAX_SLOTS,
        6 * quad_sum(counts_of(results), results.len()) <= u32::MAX,
        0 <= i < results.len(),
        results[i].quad_count > 0,
    ensures
        ({
            let plan = meshes_plan(results);
            let t = offset_table(counts_of(results));
            &&& 1 <= k < plan.len() - 1
            &&& plan[0] == upload::words_at(GpuBuffer::MeshOffsets, 0, t)
            &&& plan[k] == upload::bytes_at(
                GpuBuffer::VertexPool,
                16 * t[5 * i],
                results[i].vertices@,
            )
            &&& plan[k + 1] == upload::words_at(
                GpuBuffer::IndexPool,
                4 * t[5 * i + 2],
                results[i].indices@,
            )
            &&& t[5 * i + 1] == 4 * results[i].quad_count
            &&& t[5 * i + 3] == 6 * results[i].quad_count
        }),
{
    let counts = counts_of(results);
    let k = lemma_mesh_written(results, results.len(), i);
    lemma_quad_sum_monotone(counts, i as nat, counts.len());
    let plan = meshes_plan(results);
    assert(plan[k + 1] == mesh_writes(results, results.len())[k]);
    assert(plan[k + 2] == mesh_writes(results, results.len())[k + 1]);
    k + 1
}

proof fn lemma_mesh_written(results: Seq<MeshResult>, n: nat, i: int) -> (k: int)
    requires
        0 <= i < n <= results.len(),
        results[i].quad_count > 0,
    ensures
        ({
            let w = mesh_writes(results, n);
            let sum = quad_sum(counts_of(results), i as nat);
            &&& 0 <= k < w.len() - 1
            &&& w[k] == upload::bytes_at(GpuBuffer::VertexPool, 16 * (4 * sum as int), results[i].vertices@)
            &&& w[k + 1] == upload::words_at(
                GpuBuffer::IndexPool,
                4 * (6 * sum as int),
                results[i].indices@,
            )
        }),
    decreases n,
{
    if i == n - 1 {
        mesh_writes(results, (n - 1) as nat).len() as int
    } else {
        lemma_mesh_written(results, (n - 1) as nat, i)
    }
}

/// A rebuild makes meshes on one side only, and draw arguments come behind them: the
/// device clears, counts, sums and writes in this order; wireframes are dropped last.
pub proof fn rebuilds_mesh_before_they_draw(use_cpu_mesh: bool)
    ensures
        ({
            let s = rebuild_steps(use_cpu_mesh);
            let n = s.len() as int;
            &&& s.no_duplicates()
            &&& s[0] == RebuildStep::InitVisibility
            &&& s[n - 2] == RebuildStep::BuildIndirect && s[n - 1] == RebuildStep::DropWireframe
            &&& use_cpu_mesh ==> n == 4 && s[1] == RebuildStep::MeshOnCpu
            &&& !use_cpu_mesh ==> n == 8 && s[3] == RebuildStep::Count && s[4]
                == RebuildStep::PrefixSum && s[5] == RebuildStep::WriteMeshes
            &&& !use_cpu_mesh ==> s[1] == RebuildStep::ClearMeshCounts && s[2]
                == RebuildStep::ClearDrawMeta
        }),
{
}

/// The mesh of a chunk shows every face of a voxel behind which there is none, in the
/// place of the voxel in the world and with the lowest eight bits of its material.
pub proof fn chunk_meshes_show_their_voxels(
    r: MeshResult,
    c: ChunkData,
    face: int,
    x: int,
    y: int,
    z: int,
) -> (k: int)
    requires
        c.wf(),
        is_chunk_mesh(r, c),
        mesh_laws::near_origin(seq![c.coord.x, c.coord.y, c.coord.z]),
        0 <= face < 6,
        1 <= x <= 62 && 1 <= y <= 62 && 1 <= z <= 62,
        c.index_buf.at(x, y, z) < c.palette@.len(),
        c.occupancy.has(x, y, z),
        ({
            let d = mesh_cpu::face_step(face);
            !c.occupancy.has(x + d.0, y + d.1, z + d.2)
        }),
    ensures
        0 <= k < r.quad_count,
        mesh_laws::shows_face(
            r.vertices@,
            seq![c.coord.x, c.coord.y, c.coord.z],
            k,
            mesh_cpu::face_step(face),
            (c.material_at(x, y, z)->Some_0 as u32 % 256) as u8,
            x,
            y,
            z,
        ),
{
    let coord = seq![c.coord.x, c.coord.y, c.coord.z];
    let palette = scene::palette_words(c.palette@);
    let (masks, index_words) = choose|masks: Seq<Vec<u64>>, index_words: Seq<u32>| #[trigger]
        mesh_cpu::are_face_masks(c.occupancy@, masks) && #[trigger] scene::is_packed(
            c.index_buf@,
            chunk_bpe(c),
            index_words,
        ) && mesh_cpu::is_mesh_of(
            r,
            mesh_cpu::chunk_quads(masks, palette, index_words, chunk_bpe(c)),
            coord,
        );
    scene::material_roundtrip(c.palette@, c.index_buf@, index_words, x, y, z);
    mesh_laws::exposed_faces_are_shown(
        c.occupancy@,
        masks,
        palette,
        index_words,
        chunk_bpe(c),
        r,
        coord,
        face,
        x,
        y,
        z,
    );
    choose|k: int|
        0 <= k < r.quad_count && #[trigger] mesh_laws::shows_face(
            r.vertices@,
            coord,
            k,
            mesh_cpu::face_step(face),
            (c.material_at(x, y, z)->Some_0 as u32 % 256) as u8,
            x,
            y,
            z,
        )
}

/// What is staged for a chunk is found at its slot: its occupancy, its palette, its
/// coordinate, and its palette indices in the slot's own share of the index pool.
pub proof fn staged_parts_are_found(writes: Seq<BufferWrite>, slot: u32, c: ChunkData, k: int) -> (p: (
    Seq<Planned>,
    Seq<u32>,
))
    requires
        slot < MAX_SLOTS,
        c.wf(),
        uploads_chunk(writes, slot, c),
        0 <= k,
    ensures
        upload::does_all(writes, p.0),
        scene::is_packed(c.index_buf@, chunk_bpe(c), p.1),
        k < c.occupancy@.len() ==> upload::puts_word(
            p.0,
            GpuBuffer::OccupancyAtlas,
            slot * 32_768 + 4 * k,
            c.occupancy@[k],
        ),
        k < p.1.len() ==> upload::puts_word(
            p.0,
            GpuBuffer::IndexBufPool,
            4 * (slot * 32_768 + k),
            p.1[k],
        ),
        k < scene::palette_words(c.palette@).len() ==> upload::puts_word(
            p.0,
            GpuBuffer::Palette,
            slot * 32 + 4 * k,
            scene::palette_words(c.palette@)[k],
        ),
        upload::puts_word(
            p.0,
            GpuBuffer::PaletteMeta,
            4 * slot,
            scene::palette_meta_word(c.palette@.len() as usize),
        ),
{
    let palette = scene::palette_words(c.palette@);
    let meta = scene::palette_meta_word(c.palette@.len() as usize);
    let offset = (slot * INDEX_BUF_WORDS_PER_SLOT) as u32;
    let index_words = choose|index_words: Seq<u32>| #[trigger]
        scene::is_packed(c.index_buf@, chunk_bpe(c), index_words) && upload::does_all(
            writes,
            upload::chunk_plan(slot, c.coord, c.occupancy@, palette, index_words, offset, meta),
        );
    upload::chunk_parts_are_found(
        slot,
        c.coord,
        c.occupancy@,
        palette,
        index_words,
        offset,
        meta,
        k,
    );
    (
        upload::chunk_plan(slot, c.coord, c.occupancy@, palette, index_words, offset, meta),
        index_words,
    )
}

} // verus!
