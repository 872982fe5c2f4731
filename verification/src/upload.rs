//! What is written to GPU buffers, and where: each function plans the writes of
//! one upload.

use vstd::prelude::*;

use crate::bytes;
use crate::cascade::{
    V3_CASCADE_0_DIRS_PER_AXIS, V3_CASCADE_0_SPACING, V3_MAX_PROBE_SLOTS, V3_PROBES_PER_CHUNK_AXIS,
};
use crate::coord::ChunkCoord;
use crate::frame::HizLevel;
use crate::gpu_layout;
use crate::gpu_layout::GpuBuffer;
use crate::materials::MaterialEntry;
use crate::pool;
use crate::pool::{
    DeallocError, DrawMeta, SlotAllocator, COORD_BYTES, DRAW_INDIRECT_BYTES, DRAW_META_BYTES, FLAGS_BYTES,
    INDEX_BUF_BYTES_PER_SLOT, INDEX_BUF_WORDS_PER_SLOT, INDEX_BYTES, MAX_INDICES_PER_CHUNK,
    MAX_SLOTS, MAX_VERTS_PER_CHUNK, MESH_COUNTS_ENTRY_BYTES, OCCUPANCY_BYTES_PER_SLOT,
    OCCUPANCY_WORDS_PER_SLOT, PALETTE_BYTES_PER_SLOT, PALETTE_META_BYTES, PALETTE_WORDS_PER_SLOT,
    TOTAL_MATERIAL_BYTES, VERSION_BYTES, VERTEX_BYTES,
};
use crate::residency;
use crate::residency::{ProbeHome, ProbeTables, SlotTable, SLOT_TABLE_SENTINEL};

verus! {

/// Flag of a slot whose summary must be rebuilt.
pub const FLAG_STALE_SUMMARY: u32 = 32;

/// One write to a buffer.
#[derive(Debug)]
pub struct BufferWrite {
    pub buffer: GpuBuffer,
    /// Where the write begins, in bytes.
    pub offset: u64,
    pub bytes: Vec<u8>,
}

/// What a write holds.
#[verifier::ext_equal]
pub enum Data {
    /// Words, in the machine's byte order.
    Words(Seq<u32>),
    Bytes(Seq<u8>),
}

/// A write as it is specified.
#[verifier::ext_equal]
pub struct Planned {
    pub buffer: GpuBuffer,
    pub offset: int,
    pub data: Data,
}

/// A planned write of words.
pub open spec fn words_at(buffer: GpuBuffer, offset: int, words: Seq<u32>) -> Planned {
    Planned { buffer, offset, data: Data::Words(words) }
}

/// A planned write of bytes.
pub open spec fn bytes_at(buffer: GpuBuffer, offset: int, data: Seq<u8>) -> Planned {
    Planned { buffer, offset, data: Data::Bytes(data) }
}

/// `w` is the write that was planned.
pub open spec fn does(w: BufferWrite, p: Planned) -> bool {
    &&& w.buffer == p.buffer
    &&& w.offset == p.offset
    &&& match p.data {
        Data::Words(words) => bytes::native_bytes(words, w.bytes@),
        Data::Bytes(data) => w.bytes@ == data,
    }
}

/// `writes` are the planned writes, in order.
pub open spec fn does_all(writes: Seq<BufferWrite>, plan: Seq<Planned>) -> bool {
    &&& writes.len() == plan.len()
    &&& forall|i: int| 0 <= i < plan.len() ==> does(#[trigger] writes[i], plan[i])
}

/// Length of a planned write in bytes.
pub open spec fn planned_len(p: Planned) -> int {
    match p.data {
        Data::Words(words) => 4 * words.len() as int,
        Data::Bytes(data) => data.len() as int,
    }
}

/// A write stays in its buffer.
pub open spec fn in_bounds(p: Planned, table_dim: u32) -> bool {
    0 <= p.offset && p.offset + planned_len(p) <= gpu_layout::buffer_bytes(p.buffer, table_dim)
}

/// Two writes touch no byte in common.
pub open spec fn disjoint(p: Planned, q: Planned) -> bool {
    p.buffer != q.buffer || p.offset + planned_len(p) <= q.offset || q.offset + planned_len(q)
        <= p.offset
}

/// A write is as long as was planned.
pub proof fn does_len(w: BufferWrite, p: Planned)
    requires
        does(w, p),
    ensures
        w.bytes@.len() == planned_len(p),
{
}

/// Write words.
fn write_words(buffer: GpuBuffer, offset: u64, words: &[u32]) -> (w: BufferWrite)
    ensures
        does(w, words_at(buffer, offset as int, words@)),
{
    BufferWrite { buffer, offset, bytes: bytes::cast_words(words) }
}

/// Write one word.
fn write_word(buffer: GpuBuffer, offset: u64, word: u32) -> (w: BufferWrite)
    ensures
        does(w, words_at(buffer, offset as int, seq![word])),
{
    let mut words: Vec<u32> = Vec::new();
    words.push(word);
    assert(words@ =~= seq![word]);
    write_words(buffer, offset, words.as_slice())
}

/// Write bytes.
fn write_bytes(buffer: GpuBuffer, offset: u64, data: &[u8]) -> (w: BufferWrite)
    ensures
        does(w, bytes_at(buffer, offset as int, data@)),
{
    let mut copy: Vec<u8> = Vec::new();
    let mut i: usize = 0;
    while i < data.len()
        invariant
            i <= data@.len(),
            copy@ =~= data@.take(i as int),
        decreases data@.len() - i,
    {
        copy.push(data[i]);
        i = i + 1;
    }
    assert(data@.take(data@.len() as int) =~= data@);
    BufferWrite { buffer, offset, bytes: copy }
}

/// Write zero bytes from the start of a buffer.
fn write_zeros(buffer: GpuBuffer, n: usize) -> (w: BufferWrite)
    ensures
        does(w, bytes_at(buffer, 0, Seq::new(n as nat, |i: int| 0u8))),
{
    let data: Vec<u8> = vec![0u8; n];
    assert(data@ =~= Seq::new(n as nat, |i: int| 0u8));
    BufferWrite { buffer, offset: 0, bytes: data }
}

/// The occupancy write of a slot.
pub open spec fn occupancy_plan(slot: u32, occupancy: Seq<u32>) -> Planned {
    words_at(GpuBuffer::OccupancyAtlas, slot * OCCUPANCY_BYTES_PER_SLOT, occupancy)
}

/// Upload occupancy data only.
pub fn upload_occupancy(slot: u32, occupancy: &[u32]) -> (w: BufferWrite)
    requires
        slot < MAX_SLOTS,
        occupancy@.len() == OCCUPANCY_WORDS_PER_SLOT,
    ensures
        does(w, occupancy_plan(slot, occupancy@)),
{
    write_words(
        GpuBuffer::OccupancyAtlas,
        slot as u64 * OCCUPANCY_BYTES_PER_SLOT as u64,
        occupancy,
    )
}

/// The palette write of a slot.
pub open spec fn palette_plan(slot: u32, palette: Seq<u32>) -> Planned {
    words_at(GpuBuffer::Palette, slot * PALETTE_BYTES_PER_SLOT, palette)
}

/// Upload palette data only; an empty palette writes nothing.
pub fn upload_palette(slot: u32, palette: &[u32]) -> (w: Option<BufferWrite>)
    requires
        slot < MAX_SLOTS,
        palette@.len() <= PALETTE_WORDS_PER_SLOT,
    ensures
        match w {
            Some(w) => palette@.len() > 0 && does(w, palette_plan(slot, palette@)),
            None => palette@.len() == 0,
        },
{
    if palette.len() == 0 {
        return None;
    }
    Some(
        write_words(GpuBuffer::Palette, slot as u64 * PALETTE_BYTES_PER_SLOT as u64, palette),
    )
}

/// The writes that need data: none where there is none.
pub open spec fn if_any(p: Planned) -> Seq<Planned> {
    if planned_len(p) == 0 {
        Seq::empty()
    } else {
        seq![p]
    }
}

/// The writes of a whole chunk: occupancy, palette, indices, palette metadata,
/// coordinate, version one, and the flag that asks for a new summary.
pub open spec fn chunk_plan(
    slot: u32,
    coord: ChunkCoord,
    occupancy: Seq<u32>,
    palette: Seq<u32>,
    index_words: Seq<u32>,
    index_word_offset: u32,
    palette_meta: u32,
) -> Seq<Planned> {
    seq![occupancy_plan(slot, occupancy)] + if_any(palette_plan(slot, palette)) + if_any(
        words_at(GpuBuffer::IndexBufPool, index_word_offset * 4, index_words),
    ) + seq![
        words_at(GpuBuffer::PaletteMeta, slot * PALETTE_META_BYTES, seq![palette_meta]),
        words_at(
            GpuBuffer::Coord,
            slot * COORD_BYTES,
            seq![
                bytes::word_of(coord.x),
                bytes::word_of(coord.y),
                bytes::word_of(coord.z),
                0u32,
            ],
        ),
        words_at(GpuBuffer::Version, slot * VERSION_BYTES, seq![1u32]),
        words_at(GpuBuffer::Flags, slot * FLAGS_BYTES, seq![FLAG_STALE_SUMMARY]),
    ]
}

/// Upload all authoritative data of a chunk, set its version to one and mark
/// its summary stale.
///
/// A slot has one word of palette metadata; where its indices lie is the
/// caller's to say.
pub fn upload_chunk(
    slot: u32,
    coord: ChunkCoord,
    occupancy: &[u32],
    palette: &[u32],
    index_words: &[u32],
    index_word_offset: u32,
    palette_meta: u32,
) -> (writes: Vec<BufferWrite>)
    requires
        slot < MAX_SLOTS,
        occupancy@.len() == OCCUPANCY_WORDS_PER_SLOT,
        palette@.len() <= PALETTE_WORDS_PER_SLOT,
    ensures
        does_all(
            writes@,
            chunk_plan(
                slot,
                coord,
                occupancy@,
                palette@,
                index_words@,
                index_word_offset,
                palette_meta,
            ),
        ),
{
    let mut writes: Vec<BufferWrite> = Vec::new();
    writes.push(upload_occupancy(slot, occupancy));
    let ghost p1 = seq![occupancy_plan(slot, occupancy@)];
    let ghost p2 = p1 + if_any(palette_plan(slot, palette@));
    match upload_palette(slot, palette) {
        Some(w) => {
            writes.push(w);
        },
        None => {},
    }
    assert(does_all(writes@, p2));
    let ghost index_plan = words_at(GpuBuffer::IndexBufPool, index_word_offset * 4, index_words@);
    let ghost p3 = p2 + if_any(index_plan);
    if index_words.len() > 0 {
        let ghost before = writes@;
        writes.push(
            write_words(GpuBuffer::IndexBufPool, index_word_offset as u64 * 4, index_words),
        );
        assert(p3 =~= p2.push(index_plan));
        assert(does_all(writes@, p3)) by {
            assert forall|i: int| 0 <= i < p3.len() implies does(#[trigger] writes@[i], p3[i]) by {
                if i < p2.len() {
                    assert(writes@[i] == before[i]);
                }
            }
        }
    } else {
        assert(p3 =~= p2);
    }
    assert(does_all(writes@, p3));
    let mut coord_words: Vec<u32> = Vec::new();
    coord_words.push(bytes::signed_word(coord.x));
    coord_words.push(bytes::signed_word(coord.y));
    coord_words.push(bytes::signed_word(coord.z));
    coord_words.push(0);
    let ghost cw = seq![
        bytes::word_of(coord.x),
        bytes::word_of(coord.y),
        bytes::word_of(coord.z),
        0u32,
    ];
    assert(coord_words@ =~= cw);
    let ghost head = writes@;
    writes.push(
        write_word(GpuBuffer::PaletteMeta, slot as u64 * PALETTE_META_BYTES as u64, palette_meta),
    );
    writes.push(
        write_words(GpuBuffer::Coord, slot as u64 * COORD_BYTES as u64, coord_words.as_slice()),
    );
    writes.push(write_word(GpuBuffer::Version, slot as u64 * VERSION_BYTES as u64, 1));
    writes.push(write_word(GpuBuffer::Flags, slot as u64 * FLAGS_BYTES as u64, FLAG_STALE_SUMMARY));
    proof {
        let plan = chunk_plan(
            slot,
            coord,
            occupancy@,
            palette@,
            index_words@,
            index_word_offset,
            palette_meta,
        );
        let n = p3.len() as int;
        assert(plan.take(n) =~= p3);
        assert(plan.len() == n + 4);
        assert forall|i: int| 0 <= i < plan.len() implies does(#[trigger] writes@[i], plan[i]) by {
            if i < n {
                assert(writes@[i] == head[i]);
                assert(plan[i] == p3[i]);
            } else if i == n {
            } else if i == n + 1 {
            } else if i == n + 2 {
            } else {
                assert(i == n + 3);
            }
        }
    }
    writes
}

/// The writes of two chunks in different slots never touch the same byte, as
/// long as each keeps its indices in its own slot's share of the index pool.
pub proof fn chunk_uploads_are_disjoint(
    a: (u32, ChunkCoord, Seq<u32>, Seq<u32>, Seq<u32>, u32),
    b: (u32, ChunkCoord, Seq<u32>, Seq<u32>, Seq<u32>, u32),
    i: int,
    j: int,
)
    requires
        a.0 != b.0,
        a.2.len() == OCCUPANCY_WORDS_PER_SLOT && b.2.len() == OCCUPANCY_WORDS_PER_SLOT,
        a.3.len() <= PALETTE_WORDS_PER_SLOT && b.3.len() <= PALETTE_WORDS_PER_SLOT,
        a.4.len() <= INDEX_BUF_WORDS_PER_SLOT && b.4.len() <= INDEX_BUF_WORDS_PER_SLOT,
        a.0 < MAX_SLOTS && b.0 < MAX_SLOTS,
        ({
            let pa = chunk_plan(
                a.0,
                a.1,
                a.2,
                a.3,
                a.4,
                (a.0 * INDEX_BUF_WORDS_PER_SLOT) as u32,
                a.5,
            );
            let pb = chunk_plan(
                b.0,
                b.1,
                b.2,
                b.3,
                b.4,
                (b.0 * INDEX_BUF_WORDS_PER_SLOT) as u32,
                b.5,
            );
            0 <= i < pa.len() && 0 <= j < pb.len()
        }),
    ensures
        disjoint(
            chunk_plan(a.0, a.1, a.2, a.3, a.4, (a.0 * INDEX_BUF_WORDS_PER_SLOT) as u32, a.5)[i],
            chunk_plan(b.0, b.1, b.2, b.3, b.4, (b.0 * INDEX_BUF_WORDS_PER_SLOT) as u32, b.5)[j],
        ),
{
    let pa = chunk_plan(a.0, a.1, a.2, a.3, a.4, (a.0 * INDEX_BUF_WORDS_PER_SLOT) as u32, a.5);
    let pb = chunk_plan(b.0, b.1, b.2, b.3, b.4, (b.0 * INDEX_BUF_WORDS_PER_SLOT) as u32, b.5);
    lemma_chunk_write_in_share(a.0, a.1, a.2, a.3, a.4, a.5, i);
    lemma_chunk_write_in_share(b.0, b.1, b.2, b.3, b.4, b.5, j);
    if pa[i].buffer == pb[j].buffer {
        let s = share(pa[i].buffer);
        assert(a.0 * s + s <= b.0 * s || b.0 * s + s <= a.0 * s) by (nonlinear_arith)
            requires
                a.0 != b.0,
                s >= 0,
        ;
    }
}

/// Bytes that each slot has in a buffer.
pub open spec fn share(b: GpuBuffer) -> int {
    match b {
        GpuBuffer::OccupancyAtlas => OCCUPANCY_BYTES_PER_SLOT as int,
        GpuBuffer::Palette => PALETTE_BYTES_PER_SLOT as int,
        GpuBuffer::IndexBufPool => INDEX_BUF_BYTES_PER_SLOT as int,
        GpuBuffer::PaletteMeta => PALETTE_META_BYTES as int,
        GpuBuffer::Coord => COORD_BYTES as int,
        GpuBuffer::Version => VERSION_BYTES as int,
        GpuBuffer::Flags => FLAGS_BYTES as int,
        GpuBuffer::DrawMeta => DRAW_META_BYTES as int,
        _ => 0,
    }
}

/// Each write of a chunk stays in its slot's share of its buffer, the shares of
/// all slots fill the buffer, and the buffer can be copied to.
proof fn lemma_chunk_write_in_share(
    slot: u32,
    coord: ChunkCoord,
    occupancy: Seq<u32>,
    palette: Seq<u32>,
    index_words: Seq<u32>,
    palette_meta: u32,
    i: int,
)
    requires
        slot < MAX_SLOTS,
        occupancy.len() == OCCUPANCY_WORDS_PER_SLOT,
        palette.len() <= PALETTE_WORDS_PER_SLOT,
        index_words.len() <= INDEX_BUF_WORDS_PER_SLOT,
        0 <= i < chunk_plan(
            slot,
            coord,
            occupancy,
            palette,
            index_words,
            (slot * INDEX_BUF_WORDS_PER_SLOT) as u32,
            palette_meta,
        ).len(),
    ensures
        ({
            let p = chunk_plan(
                slot,
                coord,
                occupancy,
                palette,
                index_words,
                (slot * INDEX_BUF_WORDS_PER_SLOT) as u32,
                palette_meta,
            )[i];
            &&& slot * share(p.buffer) <= p.offset
            &&& p.offset + planned_len(p) <= slot * share(p.buffer) + share(p.buffer)
            &&& MAX_SLOTS * share(p.buffer) == gpu_layout::buffer_bytes(p.buffer, 0)
            &&& p.buffer != GpuBuffer::SlotTable
            &&& gpu_layout::buffer_usage(p.buffer).copy_dst
        }),
{
    assert(slot * INDEX_BUF_WORDS_PER_SLOT <= u32::MAX);
    let p = chunk_plan(
        slot,
        coord,
        occupancy,
        palette,
        index_words,
        (slot * INDEX_BUF_WORDS_PER_SLOT) as u32,
        palette_meta,
    )[i];
    let b = p.buffer;
    let n = 1 + (if palette.len() > 0 {
        1int
    } else {
        0
    }) + (if index_words.len() > 0 {
        1int
    } else {
        0
    });
    if i == 0 {
        assert(b == GpuBuffer::OccupancyAtlas);
        assert(slot * share(b) == slot * OCCUPANCY_BYTES_PER_SLOT);
    } else if i == 1 && palette.len() > 0 {
        assert(b == GpuBuffer::Palette);
        assert(slot * share(b) == slot * PALETTE_BYTES_PER_SLOT);
    } else if i < n {
        assert(b == GpuBuffer::IndexBufPool);
        assert(slot * share(b) == slot * INDEX_BUF_BYTES_PER_SLOT);
    } else if i == n {
        assert(b == GpuBuffer::PaletteMeta);
        assert(slot * share(b) == slot * PALETTE_META_BYTES);
    } else if i == n + 1 {
        assert(b == GpuBuffer::Coord);
        assert(slot * share(b) == slot * COORD_BYTES);
    } else if i == n + 2 {
        assert(b == GpuBuffer::Version);
        assert(slot * share(b) == slot * VERSION_BYTES);
    } else {
        assert(b == GpuBuffer::Flags);
        assert(slot * share(b) == slot * FLAGS_BYTES);
    }
}

/// Every write of a chunk stays in its buffer, and the buffer can be copied to.
pub proof fn chunk_upload_is_in_bounds(
    slot: u32,
    coord: ChunkCoord,
    occupancy: Seq<u32>,
    palette: Seq<u32>,
    index_words: Seq<u32>,
    palette_meta: u32,
    table_dim: u32,
    i: int,
)
    requires
        slot < MAX_SLOTS,
        occupancy.len() == OCCUPANCY_WORDS_PER_SLOT,
        palette.len() <= PALETTE_WORDS_PER_SLOT,
        index_words.len() <= INDEX_BUF_WORDS_PER_SLOT,
        0 <= i < chunk_plan(
            slot,
            coord,
            occupancy,
            palette,
            index_words,
            (slot * INDEX_BUF_WORDS_PER_SLOT) as u32,
            palette_meta,
        ).len(),
    ensures
        ({
            let p = chunk_plan(
                slot,
                coord,
                occupancy,
                palette,
                index_words,
                (slot * INDEX_BUF_WORDS_PER_SLOT) as u32,
                palette_meta,
            )[i];
            in_bounds(p, table_dim) && gpu_layout::buffer_usage(p.buffer).copy_dst
        }),
{
    lemma_chunk_write_in_share(slot, coord, occupancy, palette, index_words, palette_meta, i);
    let p = chunk_plan(
        slot,
        coord,
        occupancy,
        palette,
        index_words,
        (slot * INDEX_BUF_WORDS_PER_SLOT) as u32,
        palette_meta,
    )[i];
    let s = share(p.buffer);
    assert(slot * s + s <= MAX_SLOTS * s) by (nonlinear_arith)
        requires
            slot < MAX_SLOTS,
            s >= 0,
    ;
    assert(0 <= slot * s) by (nonlinear_arith)
        requires
            0 <= slot,
            s >= 0,
    ;
    assert(gpu_layout::buffer_bytes(p.buffer, table_dim) == gpu_layout::buffer_bytes(p.buffer, 0));
}

/// Mark a slot as invalid: version zero.
pub fn invalidate_slot(slot: u32) -> (w: BufferWrite)
    requires
        slot < MAX_SLOTS,
    ensures
        does(
            w,
            bytes_at(GpuBuffer::Version, slot * VERSION_BYTES, seq![0u8, 0u8, 0u8, 0u8]),
        ),
{
    let mut data: Vec<u8> = Vec::new();
    data.push(0);
    data.push(0);
    data.push(0);
    data.push(0);
    assert(data@ =~= seq![0u8, 0u8, 0u8, 0u8]);
    BufferWrite {
        buffer: GpuBuffer::Version,
        offset: slot as u64 * VERSION_BYTES as u64,
        bytes: data,
    }
}

/// Deallocate a slot, and mark it as invalid so that nothing reads what it
/// held.
pub fn dealloc_slot(allocator: &mut SlotAllocator, slot: u32) -> (r: Result<
    (ChunkCoord, BufferWrite),
    DeallocError,
>)
    requires
        old(allocator).wf(),
    ensures
        final(allocator).wf(),
        match r {
            Ok((coord, w)) => {
                &&& pool::holds(old(allocator)@, coord, slot)
                &&& final(allocator)@ == pool::after_dealloc(old(allocator)@, coord)
                &&& does(
                    w,
                    bytes_at(GpuBuffer::Version, slot * VERSION_BYTES, seq![0u8, 0u8, 0u8, 0u8]),
                )
            },
            Err(DeallocError::SlotOutOfRange) => slot >= MAX_SLOTS && final(allocator)@ == old(
                allocator)@,
            Err(DeallocError::SlotNotAllocated) => old(allocator)@.free.contains(slot) && final(
                allocator)@ == old(allocator)@,
        },
{
    proof {
        allocator.wf_partitions();
    }
    match allocator.dealloc(slot) {
        Ok(coord) => Ok((coord, invalidate_slot(slot))),
        Err(e) => Err(e),
    }
}

/// The writes of a mesh at a slot's fixed place.
pub open spec fn mesh_plan(slot: u32, vertices: Seq<u8>, indices: Seq<u8>) -> Seq<Planned> {
    if_any(
        bytes_at(
            GpuBuffer::VertexPool,
            slot * (MAX_VERTS_PER_CHUNK * VERTEX_BYTES),
            vertices,
        ),
    ) + if_any(
        bytes_at(GpuBuffer::IndexPool, slot * (MAX_INDICES_PER_CHUNK * INDEX_BYTES), indices),
    )
}

/// Upload vertex and index data at a slot's fixed place.
pub fn upload_mesh(slot: u32, vertices: &[u8], indices: &[u8]) -> (writes: Vec<BufferWrite>)
    requires
        slot < MAX_SLOTS,
        vertices@.len() <= MAX_VERTS_PER_CHUNK * VERTEX_BYTES,
        indices@.len() <= MAX_INDICES_PER_CHUNK * INDEX_BYTES,
    ensures
        does_all(writes@, mesh_plan(slot, vertices@, indices@)),
{
    let mut writes: Vec<BufferWrite> = Vec::new();
    if vertices.len() > 0 {
        writes.push(write_bytes(GpuBuffer::VertexPool, slot as u64 * 262_144, vertices));
    }
    if indices.len() > 0 {
        writes.push(write_bytes(GpuBuffer::IndexPool, slot as u64 * 98_304, indices));
    }
    writes
}

/// Upload a slot's draw metadata.
pub fn upload_draw_meta(slot: u32, meta: &DrawMeta) -> (w: BufferWrite)
    requires
        slot < MAX_SLOTS,
    ensures
        does(w, words_at(GpuBuffer::DrawMeta, slot * DRAW_META_BYTES, meta.words_spec())),
{
    let words = meta.words();
    write_words(GpuBuffer::DrawMeta, slot as u64 * DRAW_META_BYTES as u64, words.as_slice())
}

/// The words of a material table, entry after entry.
pub open spec fn material_words_of(entries: Seq<MaterialEntry>) -> Seq<u32> {
    Seq::new(4 * entries.len(), |i: int| entries[i / 4].words_spec()[i % 4])
}

/// The words of a material table, entry after entry.
fn material_words(entries: &[MaterialEntry]) -> (words: Vec<u32>)
    ensures
        words@ == material_words_of(entries@),
{
    let mut words: Vec<u32> = Vec::new();
    let mut i: usize = 0;
    while i < entries.len()
        invariant
            i <= entries@.len(),
            words@.len() == 4 * i,
            forall|k: int| 0 <= k < 4 * i ==> words@[k] == material_words_of(entries@)[k],
        decreases entries@.len() - i,
    {
        let e = entries[i];
        words.push(e.albedo_rg);
        words.push(e.albedo_b_roughness);
        words.push(e.emissive_rg);
        words.push(e.emissive_b_opacity);
        i = i + 1;
    }
    assert(words@ =~= material_words_of(entries@));
    words
}

/// The bytes of a material table.
pub fn material_bytes(entries: &[MaterialEntry]) -> (data: Vec<u8>)
    ensures
        bytes::native_bytes(material_words_of(entries@), data@),
{
    let words = material_words(entries);
    bytes::cast_words(words.as_slice())
}

/// Upload the material table; an empty one writes nothing.
pub fn upload_materials(materials: &[u8]) -> (w: Option<BufferWrite>)
    requires
        materials@.len() <= TOTAL_MATERIAL_BYTES,
    ensures
        match w {
            Some(w) => materials@.len() > 0 && does(
                w,
                bytes_at(GpuBuffer::MaterialTable, 0, materials@),
            ),
            None => materials@.len() == 0,
        },
{
    if materials.len() == 0 {
        return None;
    }
    Some(write_bytes(GpuBuffer::MaterialTable, 0, materials))
}

/// Make every slot's draw arguments draw one instance.
///
/// The instance count is the second word of a slot's five.
pub fn force_all_visible(slot_count: u32) -> (writes: Vec<BufferWrite>)
    requires
        slot_count <= MAX_SLOTS,
    ensures
        does_all(
            writes@,
            Seq::new(
                slot_count as nat,
                |s: int|
                    words_at(GpuBuffer::IndirectDraw, s * DRAW_INDIRECT_BYTES + 4, seq![1u32]),
            ),
        ),
{
    let mut writes: Vec<BufferWrite> = Vec::new();
    let mut slot: u32 = 0;
    while slot < slot_count
        invariant
            slot <= slot_count <= MAX_SLOTS,
            writes@.len() == slot,
            forall|s: int|
                0 <= s < slot ==> does(
                    #[trigger] writes@[s],
                    words_at(GpuBuffer::IndirectDraw, s * DRAW_INDIRECT_BYTES + 4, seq![1u32]),
                ),
        decreases slot_count - slot,
    {
        writes.push(
            write_word(GpuBuffer::IndirectDraw, (slot * DRAW_INDIRECT_BYTES) as u64 + 4, 1),
        );
        slot = slot + 1;
    }
    writes
}

/// Mark the first slots visible.
pub fn init_visibility(slot_count: u32) -> (w: BufferWrite)
    ensures
        does(
            w,
            words_at(GpuBuffer::Visibility, 0, Seq::new(slot_count as nat, |i: int| 1u32)),
        ),
{
    let ones: Vec<u32> = vec![1u32; slot_count as usize];
    assert(ones@ =~= Seq::new(slot_count as nat, |i: int| 1u32));
    write_words(GpuBuffer::Visibility, 0, ones.as_slice())
}

/// Zero the quad counts of the first slots.
pub fn clear_mesh_counts(slot_count: u32) -> (w: BufferWrite)
    requires
        slot_count <= MAX_SLOTS,
    ensures
        does(
            w,
            bytes_at(
                GpuBuffer::MeshCounts,
                0,
                Seq::new((slot_count * MESH_COUNTS_ENTRY_BYTES) as nat, |i: int| 0u8),
            ),
        ),
{
    write_zeros(GpuBuffer::MeshCounts, (MESH_COUNTS_ENTRY_BYTES * slot_count) as usize)
}

/// Zero the draw metadata of the first slots.
pub fn clear_draw_meta(slot_count: u32) -> (w: BufferWrite)
    requires
        slot_count <= MAX_SLOTS,
    ensures
        does(
            w,
            bytes_at(
                GpuBuffer::DrawMeta,
                0,
                Seq::new((slot_count * DRAW_META_BYTES) as nat, |i: int| 0u8),
            ),
        ),
{
    write_zeros(GpuBuffer::DrawMeta, (DRAW_META_BYTES * slot_count) as usize)
}

/// Upload the scene's grid origin and voxel size, as bit patterns of 32-bit
/// floats.
pub fn upload_scene_params(grid_origin: [u32; 3], voxel_size: u32) -> (w: BufferWrite)
    ensures
        does(
            w,
            words_at(
                GpuBuffer::SceneParams,
                0,
                seq![grid_origin[0], grid_origin[1], grid_origin[2], voxel_size],
            ),
        ),
{
    let mut words: Vec<u32> = Vec::new();
    words.push(grid_origin[0]);
    words.push(grid_origin[1]);
    words.push(grid_origin[2]);
    words.push(voxel_size);
    assert(words@ =~= seq![grid_origin[0], grid_origin[1], grid_origin[2], voxel_size]);
    write_words(GpuBuffer::SceneParams, 0, words.as_slice())
}

/// The writes of a slot table.
pub open spec fn slot_table_plan(t: SlotTable) -> Seq<Planned> {
    seq![
        words_at(GpuBuffer::SlotTable, 0, t.entries@),
        words_at(
            GpuBuffer::SlotTableParams,
            0,
            seq![
                bytes::word_of(t.origin_x),
                bytes::word_of(t.origin_y),
                bytes::word_of(t.origin_z),
                t.dim,
            ],
        ),
    ]
}

/// Upload the table from coordinate to slot, as the allocator stands now. Where
/// nothing is resident, the uploaded table names no slot.
pub fn upload_slot_table(allocator: &SlotAllocator, dim: u32) -> (writes: Vec<BufferWrite>)
    requires
        allocator.wf(),
        dim <= 1024,
        residency::table_fits(allocator@.resident, dim as int),
    ensures
        exists|t: SlotTable| #[trigger]
            t.is_table_of(allocator@.resident, dim) && does_all(writes@, slot_table_plan(t)),
        allocator@.resident.dom() == Set::<ChunkCoord>::empty() ==> exists|t: SlotTable|
            t.dim == dim && t.entries@ == Seq::new(
                (dim * dim * dim) as nat,
                |i: int| SLOT_TABLE_SENTINEL,
            ) && #[trigger] does_all(writes@, slot_table_plan(t)),
{
    let t = residency::build_slot_table(allocator, dim);
    let mut writes: Vec<BufferWrite> = Vec::new();
    writes.push(write_words(GpuBuffer::SlotTable, 0, t.entries.as_slice()));
    let mut params: Vec<u32> = Vec::new();
    params.push(bytes::signed_word(t.origin_x));
    params.push(bytes::signed_word(t.origin_y));
    params.push(bytes::signed_word(t.origin_z));
    params.push(t.dim);
    assert(params@ =~= seq![
        bytes::word_of(t.origin_x),
        bytes::word_of(t.origin_y),
        bytes::word_of(t.origin_z),
        t.dim,
    ]);
    writes.push(write_words(GpuBuffer::SlotTableParams, 0, params.as_slice()));
    proof {
        assert(t.is_table_of(allocator@.resident, dim) && does_all(writes@, slot_table_plan(t)));
        if allocator@.resident.dom() == Set::<ChunkCoord>::empty() {
            residency::table_of_nothing_is_empty(t, allocator@.resident, dim);
        }
    }
    writes
}

/// The words of the chunks of all probe slots, four each.
pub open spec fn home_words_of(homes: Seq<ProbeHome>) -> Seq<u32> {
    Seq::new(
        4 * homes.len(),
        |i: int|
            {
                let h = homes[i / 4];
                if i % 4 == 0 {
                    bytes::word_of(h.x)
                } else if i % 4 == 1 {
                    bytes::word_of(h.y)
                } else if i % 4 == 2 {
                    bytes::word_of(h.z)
                } else {
                    bytes::word_of(h.chunk_slot)
                }
            },
    )
}

/// The words of the chunks of all probe slots, four each.
fn home_words(homes: &Vec<ProbeHome>) -> (words: Vec<u32>)
    ensures
        words@ == home_words_of(homes@),
{
    let mut words: Vec<u32> = Vec::new();
    let mut i: usize = 0;
    while i < homes.len()
        invariant
            i <= homes@.len(),
            words@.len() == 4 * i,
            forall|k: int| 0 <= k < 4 * i ==> words@[k] == home_words_of(homes@)[k],
        decreases homes@.len() - i,
    {
        let h = homes[i];
        words.push(bytes::signed_word(h.x));
        words.push(bytes::signed_word(h.y));
        words.push(bytes::signed_word(h.z));
        words.push(bytes::signed_word(h.chunk_slot));
        i = i + 1;
    }
    assert(words@ =~= home_words_of(homes@));
    words
}

/// The writes of the probe tables.
pub open spec fn probe_tables_plan(t: ProbeTables) -> Seq<Planned> {
    seq![
        words_at(GpuBuffer::ProbeSlotTable, 0, t.chunk_to_probe@),
        words_at(GpuBuffer::ActiveProbeChunks, 0, home_words_of(t.probe_to_chunk@)),
    ]
}

/// Upload the tables between chunk slots and probe slots. Tables without a
/// linked chunk clear what was there.
pub fn upload_probe_tables(t: &ProbeTables) -> (writes: Vec<BufferWrite>)
    ensures
        does_all(writes@, probe_tables_plan(*t)),
{
    let mut writes: Vec<BufferWrite> = Vec::new();
    writes.push(write_words(GpuBuffer::ProbeSlotTable, 0, t.chunk_to_probe.as_slice()));
    let homes = home_words(&t.probe_to_chunk);
    writes.push(write_words(GpuBuffer::ActiveProbeChunks, 0, homes.as_slice()));
    writes
}

/// The probe tables fill their buffers exactly.
pub proof fn probe_tables_fill_their_buffers(
    t: ProbeTables,
    chunks: residency::Residents,
    probes: residency::Residents,
    i: int,
)
    requires
        t.are_tables_of(chunks, probes),
        0 <= i < 2,
    ensures
        ({
            let p = probe_tables_plan(t)[i];
            p.offset == 0 && planned_len(p) == gpu_layout::buffer_bytes(p.buffer, 0)
        }),
{
}

/// Parameters of the world-space cascade: floats as bit patterns.
#[derive(Debug, Clone, Copy)]
pub struct V3CascadeParams {
    /// Scene grid origin in world space.
    pub grid_origin: [u32; 3],
    /// World units per voxel.
    pub voxel_scale: u32,
    /// Frame counter.
    pub frame_index: u32,
    /// Number of probe slots in use.
    pub active_probe_slots: u32,
}

impl V3CascadeParams {
    /// The sixteen words of the record.
    pub open spec fn words_spec(&self) -> Seq<u32> {
        seq![
            self.grid_origin[0],
            self.grid_origin[1],
            self.grid_origin[2],
            self.voxel_scale,
            V3_CASCADE_0_SPACING,
            V3_CASCADE_0_DIRS_PER_AXIS,
            V3_PROBES_PER_CHUNK_AXIS,
            V3_MAX_PROBE_SLOTS,
            self.frame_index,
            self.active_probe_slots,
            0u32,
            0u32,
            0u32,
            0u32,
            0u32,
            0u32,
        ]
    }

    /// Upload the record.
    pub fn upload(&self) -> (w: BufferWrite)
        ensures
            does(w, words_at(GpuBuffer::CascadeParams, 0, self.words_spec())),
            w.bytes@.len() == 64,
    {
        let mut words: Vec<u32> = vec![0u32; 16];
        words.set(0, self.grid_origin[0]);
        words.set(1, self.grid_origin[1]);
        words.set(2, self.grid_origin[2]);
        words.set(3, self.voxel_scale);
        words.set(4, V3_CASCADE_0_SPACING);
        words.set(5, V3_CASCADE_0_DIRS_PER_AXIS);
        words.set(6, V3_PROBES_PER_CHUNK_AXIS);
        words.set(7, V3_MAX_PROBE_SLOTS);
        words.set(8, self.frame_index);
        words.set(9, self.active_probe_slots);
        assert(words@ =~= self.words_spec());
        write_words(GpuBuffer::CascadeParams, 0, words.as_slice())
    }
}

/// The parameter record of one depth-pyramid step.
pub fn hiz_params(level: HizLevel) -> (w: BufferWrite)
    ensures
        does(
            w,
            words_at(
                GpuBuffer::HizParams,
                0,
                seq![level.src_width, level.src_height, level.dst_width, level.dst_height],
            ),
        ),
{
    let mut words: Vec<u32> = Vec::new();
    words.push(level.src_width);
    words.push(level.src_height);
    words.push(level.dst_width);
    words.push(level.dst_height);
    assert(words@ =~= seq![level.src_width, level.src_height, level.dst_width, level.dst_height]);
    write_words(GpuBuffer::HizParams, 0, words.as_slice())
}

/// The parameter record of the occlusion cull.
pub fn cull_params(slot_count: u32, hiz_width: u32, hiz_height: u32) -> (w: BufferWrite)
    ensures
        does(
            w,
            words_at(GpuBuffer::CullParams, 0, seq![slot_count, hiz_width, hiz_height, 0u32]),
        ),
{
    let mut words: Vec<u32> = Vec::new();
    words.push(slot_count);
    words.push(hiz_width);
    words.push(hiz_height);
    words.push(0);
    assert(words@ =~= seq![slot_count, hiz_width, hiz_height, 0u32]);
    write_words(GpuBuffer::CullParams, 0, words.as_slice())
}

/// One of the planned writes puts a word at a byte address of a buffer.
pub open spec fn puts_word(plan: Seq<Planned>, buffer: GpuBuffer, at: int, word: u32) -> bool {
    exists|i: int|
        0 <= i < plan.len() && #[trigger] write_has(plan[i], buffer, at, word)
}

/// A planned write puts a word at a byte address of a buffer.
pub open spec fn write_has(p: Planned, buffer: GpuBuffer, at: int, word: u32) -> bool {
    &&& p.buffer == buffer
    &&& match p.data {
        Data::Words(words) => {
            let k = (at - p.offset) / 4;
            &&& at >= p.offset && (at - p.offset) % 4 == 0
            &&& k < words.len() && words[k] == word
        },
        Data::Bytes(_) => false,
    }
}

/// After an upload, a reader that knows the slot finds each part of the chunk: the
/// occupancy, palette and index words in order, the palette's metadata, the
/// coordinate's three parts in order, a version, and the mark for the summary.
pub proof fn chunk_parts_are_found(
    slot: u32,
    coord: ChunkCoord,
    occupancy: Seq<u32>,
    palette: Seq<u32>,
    index_words: Seq<u32>,
    index_word_offset: u32,
    palette_meta: u32,
    k: int,
)
    requires
        k >= 0,
    ensures
        ({
            let plan = chunk_plan(
                slot,
                coord,
                occupancy,
                palette,
                index_words,
                index_word_offset,
                palette_meta,
            );
            &&& k < occupancy.len() ==> puts_word(
                plan,
                GpuBuffer::OccupancyAtlas,
                slot * 32_768 + 4 * k,
                occupancy[k],
            )
            &&& k < palette.len() ==> puts_word(
                plan,
                GpuBuffer::Palette,
                slot * 32 + 4 * k,
                palette[k],
            )
            &&& k < index_words.len() ==> puts_word(
                plan,
                GpuBuffer::IndexBufPool,
                4 * (index_word_offset + k),
                index_words[k],
            )
            &&& puts_word(plan, GpuBuffer::PaletteMeta, 4 * slot, palette_meta)
            &&& puts_word(plan, GpuBuffer::Coord, 16 * slot, bytes::word_of(coord.x))
            &&& puts_word(plan, GpuBuffer::Coord, 16 * slot + 4, bytes::word_of(coord.y))
            &&& puts_word(plan, GpuBuffer::Coord, 16 * slot + 8, bytes::word_of(coord.z))
            &&& puts_word(plan, GpuBuffer::Version, 4 * slot, 1)
            &&& puts_word(plan, GpuBuffer::Flags, 4 * slot, FLAG_STALE_SUMMARY)
        }),
{
    let plan = chunk_plan(
        slot,
        coord,
        occupancy,
        palette,
        index_words,
        index_word_offset,
        palette_meta,
    );
    let a = if_any(palette_plan(slot, palette)).len() as int;
    let b = if_any(
        words_at(GpuBuffer::IndexBufPool, index_word_offset * 4, index_words),
    ).len() as int;
    let n = 1 + a + b;
    assert(plan[0] == occupancy_plan(slot, occupancy));
    if k < occupancy.len() {
        assert(write_has(plan[0], GpuBuffer::OccupancyAtlas, slot * 32_768 + 4 * k, occupancy[k]));
    }
    if k < palette.len() {
        assert(plan[1] == palette_plan(slot, palette));
        assert(write_has(plan[1], GpuBuffer::Palette, slot * 32 + 4 * k, palette[k]));
    }
    if k < index_words.len() {
        assert(plan[1 + a] == words_at(
            GpuBuffer::IndexBufPool,
            index_word_offset * 4,
            index_words,
        ));
        assert(write_has(
            plan[1 + a],
            GpuBuffer::IndexBufPool,
            4 * (index_word_offset + k),
            index_words[k],
        ));
    }
    assert(write_has(plan[n], GpuBuffer::PaletteMeta, 4 * slot, palette_meta));
    assert(write_has(plan[n + 1], GpuBuffer::Coord, 16 * slot, bytes::word_of(coord.x)));
    assert(write_has(plan[n + 1], GpuBuffer::Coord, 16 * slot + 4, bytes::word_of(coord.y)));
    assert(write_has(plan[n + 1], GpuBuffer::Coord, 16 * slot + 8, bytes::word_of(coord.z)));
    assert(write_has(plan[n + 2], GpuBuffer::Version, 4 * slot, 1));
    assert(write_has(plan[n + 3], GpuBuffer::Flags, 4 * slot, FLAG_STALE_SUMMARY));
}

/// The words of a material table: entry i begins at word 4 i with the albedo, and its
/// emission begins two words behind.
pub proof fn materials_lie_in_order(entries: Seq<MaterialEntry>, i: int)
    requires
        0 <= i < entries.len(),
    ensures
        ({
            let w = material_words_of(entries);
            &&& w.len() == 4 * entries.len()
            &&& w[4 * i] == entries[i].albedo_rg
            &&& w[4 * i + 1] == entries[i].albedo_b_roughness
            &&& w[4 * i + 2] == entries[i].emissive_rg
            &&& w[4 * i + 3] == entries[i].emissive_b_opacity
        }),
{
}

/// The words of the probe slots' chunks: for slot i its coordinate and chunk slot, as
/// signed words.
pub proof fn homes_lie_in_order(homes: Seq<ProbeHome>, i: int)
    requires
        0 <= i < homes.len(),
    ensures
        ({
            let w = home_words_of(homes);
            &&& w.len() == 4 * homes.len()
            &&& bytes::signed_value(w[4 * i]) == homes[i].x
            &&& bytes::signed_value(w[4 * i + 1]) == homes[i].y
            &&& bytes::signed_value(w[4 * i + 2]) == homes[i].z
            &&& bytes::signed_value(w[4 * i + 3]) == homes[i].chunk_slot
        }),
{
    bytes::signed_words_read_back(homes[i].x);
    bytes::signed_words_read_back(homes[i].y);
    bytes::signed_words_read_back(homes[i].z);
    bytes::signed_words_read_back(homes[i].chunk_slot);
}

/// A mesh's bytes begin where its slot's share of the pools begins: vertices at the
/// slot's first vertex, indices at the slot's first index.
pub proof fn meshes_begin_at_their_share(slot: u32, vertices: Seq<u8>, indices: Seq<u8>)
    requires
        vertices.len() > 0 && indices.len() > 0,
    ensures
        ({
            let plan = mesh_plan(slot, vertices, indices);
            &&& plan.len() == 2
            &&& plan[0].buffer == GpuBuffer::VertexPool && plan[1].buffer == GpuBuffer::IndexPool
            &&& plan[0].offset == 16 * (16_384 * slot)
            &&& plan[1].offset == 4 * (24_576 * slot)
            &&& plan[0].data == Data::Bytes(vertices) && plan[1].data == Data::Bytes(indices)
        }),
{
    let plan = mesh_plan(slot, vertices, indices);
    let v = bytes_at(GpuBuffer::VertexPool, slot * (MAX_VERTS_PER_CHUNK * VERTEX_BYTES), vertices);
    let i = bytes_at(GpuBuffer::IndexPool, slot * (MAX_INDICES_PER_CHUNK * INDEX_BYTES), indices);
    assert(plan =~= seq![v, i]);
    let a = MAX_VERTS_PER_CHUNK * VERTEX_BYTES;
    let b = MAX_INDICES_PER_CHUNK * INDEX_BYTES;
    assert(a == 16 * 16_384 && b == 4 * 24_576);
    assert(slot * a == 16 * (16_384 * slot) && slot * b == 4 * (24_576 * slot)) by (nonlinear_arith)
        requires
            a == 16 * 16_384,
            b == 4 * 24_576,
    ;
}

/// The uploaded slot table's parameters are the table's origin, as signed words, and
/// its side.
pub proof fn table_parameters_lie_in_order(t: SlotTable)
    ensures
        ({
            let plan = slot_table_plan(t);
            &&& plan.len() == 2
            &&& forall|k: int|
                0 <= k < t.entries@.len() ==> write_has(
                    plan[0],
                    GpuBuffer::SlotTable,
                    4 * k,
                    #[trigger] t.entries@[k],
                )
            &&& write_has(plan[1], GpuBuffer::SlotTableParams, 0, bytes::word_of(t.origin_x))
            &&& write_has(plan[1], GpuBuffer::SlotTableParams, 4, bytes::word_of(t.origin_y))
            &&& write_has(plan[1], GpuBuffer::SlotTableParams, 8, bytes::word_of(t.origin_z))
            &&& write_has(plan[1], GpuBuffer::SlotTableParams, 12, t.dim)
        }),
{
}

} // verus!
