//! Chunk pool: layout constants and slot allocation.
//!
//! Fixed-size slot allocation. Each slot holds an occupancy atlas, a palette,
//! a per-voxel palette index buffer and a handful of small records, at
//! constant strides in buffers that all slots share.

use vstd::prelude::*;

use crate::coord::ChunkCoord;
use crate::slot_directory;
use crate::slot_directory::SlotDirectory;

verus! {

// Chunk geometry.

/// Padded chunk dimension (storage), with 1-voxel padding on all sides.
pub const CS_P: u32 = 64;

/// Usable interior chunk dimension (without the padding).
pub const CS: u32 = 62;

/// Voxels per XZ slice (CS_P x CS_P).
pub const CS_P2: u32 = 4096;

/// Total voxels per chunk (CS_P cubed).
pub const CS_P3: u32 = 262_144;

/// Number of Y-columns per chunk (one per (x, z) position).
pub const COLUMNS_PER_CHUNK: u32 = 4096;

/// Bricklet dimension (voxels per axis within a bricklet).
pub const BRICKLET_DIM: u32 = 8;

/// Bricklets per chunk axis.
pub const BRICKLETS_PER_AXIS: u32 = 8;

/// Total bricklets in the XZ plane per chunk.
pub const BRICKLETS_PER_CHUNK: u32 = 64;

// Pool sizing.

/// Maximum resident chunk slots.
pub const MAX_SLOTS: u32 = 4096;

/// u32 words per slot in the occupancy atlas (2 words per 64-bit column).
pub const OCCUPANCY_WORDS_PER_SLOT: u32 = 8192;

/// Bytes per slot in the occupancy atlas.
pub const OCCUPANCY_BYTES_PER_SLOT: u32 = 32_768;

/// Max palette entries per chunk (4 bits per entry).
pub const MAX_PALETTE_ENTRIES: u32 = 16;

/// Palette words per slot, two 16-bit entries per word.
pub const PALETTE_WORDS_PER_SLOT: u32 = 8;

/// Bytes per slot for the palette.
pub const PALETTE_BYTES_PER_SLOT: u32 = 32;

/// Bits per voxel that the index buffer is allocated for.
pub const INDEX_BUF_MAX_BPE: u32 = 4;

/// Words per slot for the index buffer.
pub const INDEX_BUF_WORDS_PER_SLOT: u32 = 32_768;

/// Bytes per slot for the index buffer.
pub const INDEX_BUF_BYTES_PER_SLOT: u32 = 131_072;

/// Palette metadata: 1 u32 per slot.
/// Bits 0-15: palette size. Bits 16-23: bits per entry. Bits 24-31: reserved.
pub const PALETTE_META_BYTES: u32 = 4;

/// Chunk coordinate: four i32.
pub const COORD_BYTES: u32 = 16;

/// Chunk version: one u32.
pub const VERSION_BYTES: u32 = 4;

/// Chunk flags: one u32.
pub const FLAGS_BYTES: u32 = 4;

/// Chunk AABB: two vectors of four 32-bit floats.
pub const AABB_BYTES: u32 = 32;

/// Occupancy summary: one bit per 8x8x8 bricklet.
pub const SUMMARY_WORDS_PER_SLOT: u32 = 16;

/// Bytes per slot for the occupancy summary.
pub const SUMMARY_BYTES_PER_SLOT: u32 = 64;

/// Draw metadata per slot.
pub const DRAW_META_BYTES: u32 = 32;

/// Bytes per vertex (three position floats and a packed normal and material).
pub const VERTEX_BYTES: u32 = 16;

/// Bytes per index (u32).
pub const INDEX_BYTES: u32 = 4;

// Mesh pool budget.

/// Total vertex pool capacity (shared across all slots).
pub const MESH_VERTEX_POOL_CAPACITY: u32 = 4_194_304;

/// Total index pool capacity (shared across all slots).
pub const MESH_INDEX_POOL_CAPACITY: u32 = 6_291_456;

/// Mesh offset table entry, five u32 per slot: vertex offset, vertex count,
/// index offset, index count, write counter.
pub const MESH_OFFSET_ENTRY_BYTES: u32 = 20;

/// Mesh counts buffer: one u32 quad count per slot.
pub const MESH_COUNTS_ENTRY_BYTES: u32 = 4;

// Wireframe.

/// Per-slot vertex limit of the wireframe buffers.
pub const MAX_VERTS_PER_CHUNK: u32 = 16_384;

/// Per-slot index limit that the wireframe buffers are sized by.
pub const MAX_INDICES_PER_CHUNK: u32 = 24_576;

/// Maximum wireframe edge indices per chunk (4 edges x 2 indices per quad).
pub const MAX_WIRE_INDICES_PER_CHUNK: u32 = 32_768;

/// Total wireframe index buffer size.
pub const TOTAL_WIRE_INDEX_BYTES: u64 = 536_870_912;

/// Maximum indirect draw calls per frame.
pub const MAX_DRAWS: u32 = 4096;

// Materials.

/// Reserved material id for empty/air voxels. Never rendered.
pub const MATERIAL_EMPTY: u16 = 0;

/// Reserved material id for the default/fallback material.
pub const MATERIAL_DEFAULT: u16 = 1;

/// Maximum materials in the global material table.
pub const MAX_MATERIALS: u32 = 4096;

/// Bytes per material entry (4 x u32 of packed half-float pairs).
pub const MATERIAL_ENTRY_BYTES: u32 = 16;

// Derived totals.

/// Total occupancy atlas buffer size for all slots.
pub const TOTAL_OCCUPANCY_BYTES: u64 = 134_217_728;

/// Total palette buffer size for all slots.
pub const TOTAL_PALETTE_BYTES: u64 = 131_072;

/// Total index buffer pool size for all slots.
pub const TOTAL_INDEX_BUF_BYTES: u64 = 536_870_912;

/// Total palette metadata buffer size for all slots.
pub const TOTAL_PALETTE_META_BYTES: u64 = 16_384;

/// Total vertex pool size.
pub const TOTAL_VERTEX_BYTES: u64 = 67_108_864;

/// Total index pool size.
pub const TOTAL_INDEX_BYTES: u64 = 25_165_824;

/// Total material table size.
pub const TOTAL_MATERIAL_BYTES: u64 = 65_536;

// Indirect draws.

/// Bytes per indexed indirect draw record (5 x u32).
pub const DRAW_INDIRECT_BYTES: u32 = 20;

/// Total indirect draw buffer size.
pub const TOTAL_INDIRECT_BYTES: u64 = 81_920;

// Face directions.

pub const FACE_POS_Y: usize = 0;

pub const FACE_NEG_Y: usize = 1;

pub const FACE_POS_X: usize = 2;

pub const FACE_NEG_X: usize = 3;

pub const FACE_POS_Z: usize = 4;

pub const FACE_NEG_Z: usize = 5;

pub const NUM_FACES: usize = 6;

/// The sizes fit together: every derived constant is the product that its
/// layout prescribes.
pub proof fn layout_is_consistent()
    ensures
        CS_P == CS + 2,
        CS_P2 == CS_P * CS_P,
        CS_P3 == CS_P * CS_P * CS_P,
        COLUMNS_PER_CHUNK == CS_P * CS_P,
        BRICKLETS_PER_AXIS == CS_P / BRICKLET_DIM,
        BRICKLETS_PER_CHUNK == BRICKLETS_PER_AXIS * BRICKLETS_PER_AXIS,
        OCCUPANCY_WORDS_PER_SLOT == 2 * COLUMNS_PER_CHUNK,
        OCCUPANCY_BYTES_PER_SLOT == 4 * OCCUPANCY_WORDS_PER_SLOT,
        MAX_PALETTE_ENTRIES <= 256,
        PALETTE_WORDS_PER_SLOT == MAX_PALETTE_ENTRIES / 2,
        PALETTE_BYTES_PER_SLOT == 4 * PALETTE_WORDS_PER_SLOT,
        INDEX_BUF_WORDS_PER_SLOT == CS_P3 * INDEX_BUF_MAX_BPE / 32,
        INDEX_BUF_BYTES_PER_SLOT == 4 * INDEX_BUF_WORDS_PER_SLOT,
        SUMMARY_WORDS_PER_SLOT * 32 >= BRICKLETS_PER_CHUNK * BRICKLETS_PER_AXIS,
        SUMMARY_BYTES_PER_SLOT == 4 * SUMMARY_WORDS_PER_SLOT,
        MAX_WIRE_INDICES_PER_CHUNK == MAX_INDICES_PER_CHUNK / 6 * 8,
        TOTAL_WIRE_INDEX_BYTES == MAX_WIRE_INDICES_PER_CHUNK * INDEX_BYTES * MAX_SLOTS,
        TOTAL_OCCUPANCY_BYTES == OCCUPANCY_BYTES_PER_SLOT * MAX_SLOTS,
        TOTAL_PALETTE_BYTES == PALETTE_BYTES_PER_SLOT * MAX_SLOTS,
        TOTAL_INDEX_BUF_BYTES == INDEX_BUF_BYTES_PER_SLOT * MAX_SLOTS,
        TOTAL_PALETTE_META_BYTES == PALETTE_META_BYTES * MAX_SLOTS,
        TOTAL_VERTEX_BYTES == MESH_VERTEX_POOL_CAPACITY * VERTEX_BYTES,
        TOTAL_INDEX_BYTES == MESH_INDEX_POOL_CAPACITY * INDEX_BYTES,
        TOTAL_MATERIAL_BYTES == MAX_MATERIALS * MATERIAL_ENTRY_BYTES,
        TOTAL_INDIRECT_BYTES == DRAW_INDIRECT_BYTES * MAX_DRAWS,
        MAX_DRAWS == MAX_SLOTS,
        MAX_VERTS_PER_CHUNK % 4 == 0,
        MAX_INDICES_PER_CHUNK % 6 == 0,
        MAX_SLOTS * MAX_VERTS_PER_CHUNK <= i32::MAX,
{
}

/// Per-slot draw metadata: eight u32.
#[derive(Clone, Copy, Debug)]
pub struct DrawMeta {
    pub vertex_offset: u32,
    pub vertex_count: u32,
    pub index_offset: u32,
    pub index_count: u32,
    pub material_base: u32,
    pub _pad: [u32; 3],
}

impl DrawMeta {
    /// The eight words of the record, in memory order.
    pub open spec fn words_spec(&self) -> Seq<u32> {
        seq![
            self.vertex_offset,
            self.vertex_count,
            self.index_offset,
            self.index_count,
            self.material_base,
            self._pad[0],
            self._pad[1],
            self._pad[2],
        ]
    }

    /// The eight words of the record, in memory order.
    pub fn words(&self) -> (w: Vec<u32>)
        ensures
            w@ == self.words_spec(),
            w@.len() * 4 == DRAW_META_BYTES,
    {
        let mut w: Vec<u32> = Vec::new();
        w.push(self.vertex_offset);
        w.push(self.vertex_count);
        w.push(self.index_offset);
        w.push(self.index_count);
        w.push(self.material_base);
        w.push(self._pad[0]);
        w.push(self._pad[1]);
        w.push(self._pad[2]);
        w
    }
}

impl Default for DrawMeta {
    fn default() -> (d: Self)
        ensures
            d.words_spec() == seq![0u32, 0u32, 0u32, 0u32, 0u32, 0u32, 0u32, 0u32],
    {
        DrawMeta {
            vertex_offset: 0,
            vertex_count: 0,
            index_offset: 0,
            index_count: 0,
            material_base: 0,
            _pad: [0, 0, 0],
        }
    }
}

/// Error returned when a slot cannot be allocated.
#[derive(Debug, Clone, Copy, PartialEq, Eq, Structural)]
pub enum AllocError {
    PoolFull,
    CoordAlreadyResident,
}

/// Error returned when a slot cannot be deallocated.
#[derive(Debug, Clone, Copy, PartialEq, Eq, Structural)]
pub enum DeallocError {
    SlotNotAllocated,
    SlotOutOfRange,
}

/// What a slot allocator holds: the stack of free slots, whose last element is
/// handed out next, and the slot of each resident coordinate.
#[verifier::ext_equal]
pub struct SlotState {
    pub free: Seq<u32>,
    pub resident: Map<ChunkCoord, u32>,
}

/// The state of an allocator in which nothing is resident.
pub open spec fn empty_slots(capacity: nat) -> SlotState {
    SlotState { free: slot_directory::initial_free(capacity), resident: Map::empty() }
}

/// What every allocator keeps: each slot is free once or held by exactly one
/// coordinate, and no slot is lost.
pub open spec fn slots_partitioned(capacity: int, s: SlotState) -> bool {
    slot_directory::directory_inv(capacity, s.free, s.resident)
}

/// The state after the free slot on top of the stack went to `coord`.
pub open spec fn after_alloc(s: SlotState, coord: ChunkCoord) -> SlotState {
    SlotState {
        free: s.free.drop_last(),
        resident: s.resident.insert(coord, s.free.last()),
    }
}

/// What asking for a slot leads to.
pub open spec fn alloc_result(s: SlotState, coord: ChunkCoord) -> Result<u32, AllocError> {
    if s.resident.contains_key(coord) {
        Err(AllocError::CoordAlreadyResident)
    } else if s.free.len() == 0 {
        Err(AllocError::PoolFull)
    } else {
        Ok(s.free.last())
    }
}

/// The state after `coord` gave its slot back.
pub open spec fn after_dealloc(s: SlotState, coord: ChunkCoord) -> SlotState {
    SlotState {
        free: s.free.push(s.resident[coord]),
        resident: s.resident.remove(coord),
    }
}

/// Whether `coord` holds `slot`.
pub open spec fn holds(s: SlotState, coord: ChunkCoord, slot: u32) -> bool {
    s.resident.contains_key(coord) && s.resident[coord] == slot
}

/// Deallocating the slot that was just allocated undoes the allocation.
pub proof fn dealloc_undoes_alloc(s: SlotState, coord: ChunkCoord)
    requires
        !s.resident.contains_key(coord),
        s.free.len() > 0,
    ensures
        after_dealloc(after_alloc(s, coord), coord) == s,
{
    let t = after_dealloc(after_alloc(s, coord), coord);
    assert(t.free =~= s.free);
    assert(t.resident =~= s.resident);
}

/// A freed slot is the next one to be handed out.
pub proof fn freed_slot_is_reused_first(s: SlotState, coord: ChunkCoord, next: ChunkCoord)
    requires
        s.resident.contains_key(coord),
    ensures
        holds(after_alloc(after_dealloc(s, coord), next), next, s.resident[coord]),
{
}

/// In a partitioned state two coordinates never share a slot, a free slot is
/// held by nobody, and the counts of free and held slots add up.
pub proof fn partition_facts(capacity: int, s: SlotState)
    requires
        slots_partitioned(capacity, s),
    ensures
        s.free.len() + s.resident.dom().len() == capacity,
        forall|c: ChunkCoord, d: ChunkCoord, slot: u32| #[trigger]
            holds(s, c, slot) && #[trigger] holds(s, d, slot) ==> c == d,
        forall|c: ChunkCoord, slot: u32| #[trigger]
            holds(s, c, slot) ==> slot < capacity && !s.free.contains(slot),
{
}

/// Chunk slot directory over `MAX_SLOTS` slots.
pub struct SlotAllocator {
    directory: SlotDirectory,
}

impl View for SlotAllocator {
    type V = SlotState;

    closed spec fn view(&self) -> SlotState {
        SlotState { free: self.directory.free(), resident: self.directory.resident() }
    }
}

impl SlotAllocator {
    pub closed spec fn wf(&self) -> bool {
        &&& self.directory.wf()
        &&& self.directory.capacity() == MAX_SLOTS
    }

    /// A well-formed allocator partitions its slots.
    pub proof fn wf_partitions(&self)
        requires
            self.wf(),
        ensures
            slots_partitioned(MAX_SLOTS as int, self@),
    {
        self.directory.wf_inv();
    }

    /// Create a new allocator with all MAX_SLOTS slots free.
    pub fn new() -> (a: Self)
        ensures
            a.wf(),
            a@ == empty_slots(MAX_SLOTS as nat),
    {
        SlotAllocator { directory: SlotDirectory::new(MAX_SLOTS) }
    }

    /// Allocate a slot for the given chunk coordinate.
    /// Returns the slot index on success.
    pub fn alloc_slot(&mut self, coord: ChunkCoord) -> (r: Result<u32, AllocError>)
        requires
            old(self).wf(),
        ensures
            final(self).wf(),
            if old(self)@.resident.contains_key(coord) {
                r == Err::<u32, AllocError>(AllocError::CoordAlreadyResident) && final(self)@ == old(self)@
            } else if old(self)@.free.len() == 0 {
                r == Err::<u32, AllocError>(AllocError::PoolFull) && final(self)@ == old(self)@
            } else {
                r == Ok::<u32, AllocError>(old(self)@.free.last()) && final(self)@ == after_alloc(
                    old(self)@,
                    coord,
                )
            },
            r == alloc_result(old(self)@, coord),
    {
        if self.directory.contains(&coord) {
            return Err(AllocError::CoordAlreadyResident);
        }
        if self.directory.is_full() {
            return Err(AllocError::PoolFull);
        }
        Ok(self.directory.take(coord))
    }

    /// Deallocate a slot, returning the coordinate that was stored there.
    pub fn dealloc(&mut self, slot: u32) -> (r: Result<ChunkCoord, DeallocError>)
        requires
            old(self).wf(),
        ensures
            final(self).wf(),
            match r {
                Ok(coord) => holds(old(self)@, coord, slot) && final(self)@ == after_dealloc(
                    old(self)@,
                    coord,
                ),
                Err(DeallocError::SlotOutOfRange) => slot >= MAX_SLOTS && final(self)@ == old(self)@,
                Err(DeallocError::SlotNotAllocated) => old(self)@.free.contains(slot)
                    && final(self)@ == old(self)@,
            },
    {
        if slot >= MAX_SLOTS {
            return Err(DeallocError::SlotOutOfRange);
        }
        match self.directory.release(slot) {
            Some(coord) => Ok(coord),
            None => Err(DeallocError::SlotNotAllocated),
        }
    }

    /// Look up the slot for a chunk coordinate. Returns None if not resident.
    pub fn lookup(&self, coord: &ChunkCoord) -> (r: Option<u32>)
        requires
            self.wf(),
        ensures
            r == (if self@.resident.contains_key(*coord) {
                Some(self@.resident[*coord])
            } else {
                None
            }),
    {
        self.directory.lookup(coord)
    }

    /// Look up the coordinate stored in a slot. Returns None if the slot is free.
    pub fn coord_of(&self, slot: u32) -> (r: Option<ChunkCoord>)
        requires
            self.wf(),
        ensures
            match r {
                Some(c) => holds(self@, c, slot),
                None => forall|c: ChunkCoord| !holds(self@, c, slot),
            },
    {
        self.directory.coord_of(slot)
    }

    /// Number of free slots remaining.
    pub fn free_count(&self) -> (n: u32)
        requires
            self.wf(),
        ensures
            n == self@.free.len(),
    {
        self.directory.free_count()
    }

    /// Number of currently allocated (resident) slots.
    pub fn resident_count(&self) -> (n: u32)
        requires
            self.wf(),
        ensures
            n == self@.resident.dom().len(),
            n == MAX_SLOTS - self@.free.len(),
    {
        proof {
            self.directory.wf_inv();
        }
        self.directory.resident_count()
    }

    /// Whether the pool is completely full.
    pub fn is_full(&self) -> (b: bool)
        requires
            self.wf(),
        ensures
            b == (self@.free.len() == 0),
    {
        self.directory.is_full()
    }

    /// Deallocate all slots, returning the pool to its initial empty state.
    pub fn clear(&mut self)
        requires
            old(self).wf(),
        ensures
            final(self).wf(),
            final(self)@ == empty_slots(MAX_SLOTS as nat),
    {
        self.directory.clear();
    }

    /// All currently allocated (slot, coord) pairs, in slot order.
    pub fn allocated_slots(&self) -> (v: Vec<(u32, ChunkCoord)>)
        requires
            self.wf(),
        ensures
            slot_directory::lists_resident(v@, self@.resident),
    {
        self.directory.allocated()
    }
}

/// The words of a draw record, by place: the vertices' offset and count, the indices'
/// offset and count, the material base, and padding.
pub proof fn draw_record_layout(m: DrawMeta)
    ensures
        m.words_spec().len() == 8,
        m.words_spec()[0] == m.vertex_offset && m.words_spec()[1] == m.vertex_count,
        m.words_spec()[2] == m.index_offset && m.words_spec()[3] == m.index_count,
        m.words_spec()[4] == m.material_base,
        m.words_spec()[5] == m._pad[0] && m.words_spec()[6] == m._pad[1] && m.words_spec()[7]
            == m._pad[2],
{
}

/// A resident chunk is refused as such even if the pool is full; a full pool refuses
/// everything else; and otherwise a chunk gets a slot that was free and then holds it.
pub proof fn slots_are_refused_or_given(s: SlotState, coord: ChunkCoord)
    ensures
        s.resident.contains_key(coord) <==> alloc_result(s, coord) == Err::<u32, AllocError>(
            AllocError::CoordAlreadyResident,
        ),
        alloc_result(s, coord) == Err::<u32, AllocError>(AllocError::PoolFull) ==> s.free.len() == 0,
        alloc_result(s, coord) is Ok <==> !s.resident.contains_key(coord) && s.free.len() > 0,
        alloc_result(s, coord) is Ok ==> s.free.contains(alloc_result(s, coord)->Ok_0) && holds(
            after_alloc(s, coord),
            coord,
            alloc_result(s, coord)->Ok_0,
        ),
{
    if s.free.len() > 0 {
        assert(s.free[s.free.len() - 1] == s.free.last());
    }
}

} // verus!
